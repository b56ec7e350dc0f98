use crate::collections::IdMap;
use crate::dag::{DAGFunction, DAGModule, DAGNode, IRNodeKind, MINodeKind, NodeKind};
use crate::machine::{
    LivenessInfo, MachineBasicBlock, MachineFunction, MachineInstr, MachineModule, MachineOpcode,
    MachineOperand,
};
use crate::machine_liveness::m_iseq_len_prefix;
use crate::pipeline::CodegenError;
use vstd::prelude::*;

verus! {

/// The machine opcode a selected DAG node lowers to. A node still carrying
/// an IR kind other than `Ret` marks incomplete selection and has none.
pub open spec fn spec_lower_opcode(kind: NodeKind) -> Option<MachineOpcode> {
    match kind {
        NodeKind::MI(MINodeKind::ADDrr32) => Some(MachineOpcode::ADDrr32),
        NodeKind::MI(MINodeKind::ADDri32) => Some(MachineOpcode::ADDri32),
        NodeKind::MI(MINodeKind::ADDr64i32) => Some(MachineOpcode::ADDr64i32),
        NodeKind::MI(MINodeKind::SUBrr32) => Some(MachineOpcode::SUBrr32),
        NodeKind::MI(MINodeKind::SUBri32) => Some(MachineOpcode::SUBri32),
        NodeKind::MI(MINodeKind::IMULrr32) => Some(MachineOpcode::IMULrr32),
        NodeKind::MI(MINodeKind::IMULrri32) => Some(MachineOpcode::IMULrri32),
        NodeKind::MI(MINodeKind::IMULrr64i32) => Some(MachineOpcode::IMULrr64i32),
        NodeKind::MI(MINodeKind::MOVrm32) => Some(MachineOpcode::MOVrm32),
        NodeKind::MI(MINodeKind::MOVrm64) => Some(MachineOpcode::MOVrm64),
        NodeKind::MI(MINodeKind::MOVrp32) => Some(MachineOpcode::MOVrp32),
        NodeKind::MI(MINodeKind::MOVmr32) => Some(MachineOpcode::MOVmr32),
        NodeKind::MI(MINodeKind::MOVmi32) => Some(MachineOpcode::MOVmi32),
        NodeKind::MI(MINodeKind::MOVpi32) => Some(MachineOpcode::MOVpi32),
        NodeKind::MI(MINodeKind::MOVpr32) => Some(MachineOpcode::MOVpr32),
        NodeKind::IR(IRNodeKind::Ret) => Some(MachineOpcode::Ret),
        _ => None,
    }
}

/// The machine operand a DAG operand node lowers to: constants become
/// immediates, frame-index leaves become frame-index operands, and a
/// machine node's value is named by the id of the instruction lowered from
/// it.
pub open spec fn lowered_operand(
    arena: Seq<DAGNode>,
    lm: Map<usize, usize>,
    dop: usize,
    mop: MachineOperand,
) -> bool {
    match arena[dop as int].kind {
        NodeKind::Constant(v) => mop == MachineOperand::Imm(v),
        NodeKind::FrameIndex(fi) => mop == MachineOperand::FrameIndex(fi),
        NodeKind::MI(_) => lm.contains_key(dop) && mop == MachineOperand::Instr(lm[dop]),
        _ => false,
    }
}

/// The machine instruction at arena id `mi` lowers the DAG node `hd`:
/// lowered opcode, carried type, and pointwise lowered operands.
pub open spec fn instr_lowered(
    darena: Seq<DAGNode>,
    marena: Seq<MachineInstr>,
    lm: Map<usize, usize>,
    hd: usize,
    mi: int,
) -> bool {
    &&& lm.contains_key(hd) && lm[hd] == mi
    &&& 0 <= mi < marena.len()
    &&& marena[mi].opcode == spec_lower_opcode(darena[hd as int].kind).unwrap()
    &&& marena[mi].ty == Some(darena[hd as int].ty)
    &&& marena[mi].operands@.len() == darena[hd as int].operands@.len()
    &&& forall|k2: int|
        0 <= k2 < darena[hd as int].operands@.len() ==> lowered_operand(
            darena,
            lm,
            #[trigger] darena[hd as int].operands@[k2],
            marena[mi].operands@[k2],
        )
}

/// Lowering facts survive growing the machine arena and recording a new,
/// previously unseen node.
proof fn lemma_instr_lowered_mono(
    darena: Seq<DAGNode>,
    marena1: Seq<MachineInstr>,
    marena2: Seq<MachineInstr>,
    lm1: Map<usize, usize>,
    newkey: usize,
    newval: usize,
    hd: usize,
    mi: int,
)
    requires
        instr_lowered(darena, marena1, lm1, hd, mi),
        marena1.len() <= marena2.len(),
        forall|i: int| 0 <= i < marena1.len() ==> marena2[i] == marena1[i],
        !lm1.contains_key(newkey),
    ensures
        instr_lowered(darena, marena2, lm1.insert(newkey, newval), hd, mi),
{
    let lm2 = lm1.insert(newkey, newval);
    assert forall|k2: int|
        0 <= k2 < darena[hd as int].operands@.len() implies lowered_operand(
        darena,
        lm2,
        #[trigger] darena[hd as int].operands@[k2],
        marena2[mi].operands@[k2],
    ) by {
        assert(lowered_operand(darena, lm1, darena[hd as int].operands@[k2], marena1[
            mi].operands@[k2]));
        match darena[darena[hd as int].operands@[k2] as int].kind {
            NodeKind::MI(_) => {
                assert(lm1.contains_key(darena[hd as int].operands@[k2]));
                assert(darena[hd as int].operands@[k2] != newkey);
            },
            _ => {},
        }
    }
}

/// The total number of nodes listed by the first `b` DAG blocks.
pub open spec fn dag_iseq_len_prefix(blocks: Seq<crate::dag::DAGBasicBlock>, b: int) -> int
    decreases b,
{
    if b <= 0 {
        0
    } else {
        dag_iseq_len_prefix(blocks, b - 1) + blocks[b - 1].iseq@.len()
    }
}

proof fn lemma_dag_prefix_monotone(blocks: Seq<crate::dag::DAGBasicBlock>, m: int, n: int)
    requires
        0 <= m <= n,
    ensures
        dag_iseq_len_prefix(blocks, m) <= dag_iseq_len_prefix(blocks, n),
    decreases n,
{
    if m < n {
        lemma_dag_prefix_monotone(blocks, m, n - 1);
    }
}

/// No DAG node is listed twice across the blocks' emission orders.
pub open spec fn dag_listing_disjoint(df: DAGFunction) -> bool {
    forall|b1: int, k1: int, b2: int, k2: int|
        0 <= b1 < df.dag_basic_blocks@.len() && 0 <= k1 < df.dag_basic_blocks@[b1].iseq@.len() && 0
            <= b2 < df.dag_basic_blocks@.len() && 0 <= k2 < df.dag_basic_blocks@[b2].iseq@.len()
            && !(b1 == b2 && k1 == k2) ==> (#[trigger] df.dag_basic_blocks@[b1].iseq@[k1]) != (
        #[trigger] df.dag_basic_blocks@[b2].iseq@[k2])
}

/// Node `hd` is listed strictly before slot `(b, k)` in traversal order.
pub open spec fn dag_listed_before(df: DAGFunction, hd: usize, b: int, k: int) -> bool {
    exists|b2: int, k2: int|
        0 <= b2 < df.dag_basic_blocks@.len() && 0 <= k2 < df.dag_basic_blocks@[b2].iseq@.len() && (
        b2 < b || (b2 == b && k2 < k)) && #[trigger] df.dag_basic_blocks@[b2].iseq@[k2] == hd
}

/// The node at slot `(b, k)` carries a lowerable opcode and only lowerable
/// operand kinds (constants, frame indices, machine nodes).
pub open spec fn node_kinds_lowerable(df: DAGFunction, b: int, k: int) -> bool {
    let hd = df.dag_basic_blocks@[b].iseq@[k];
    &&& spec_lower_opcode(df.arena@[hd as int].kind) is Some
    &&& forall|j: int|
        0 <= j < df.arena@[hd as int].operands@.len() ==> match df.arena@[(
        #[trigger] df.arena@[hd as int].operands@[j]) as int].kind {
            NodeKind::Constant(_) => true,
            NodeKind::FrameIndex(_) => true,
            NodeKind::MI(_) => true,
            _ => false,
        }
}

/// Every machine-node operand of the node at slot `(b, k)` is listed
/// earlier, so its lowered instruction exists when needed.
pub open spec fn node_operands_available(df: DAGFunction, b: int, k: int) -> bool {
    let hd = df.dag_basic_blocks@[b].iseq@[k];
    forall|j: int|
        0 <= j < df.arena@[hd as int].operands@.len() ==> match df.arena@[(
        #[trigger] df.arena@[hd as int].operands@[j]) as int].kind {
            NodeKind::MI(_) => dag_listed_before(
                df,
                df.arena@[hd as int].operands@[j],
                b,
                k,
            ),
            _ => true,
        }
}

/// Some listed node has an opcode or operand kind lowering cannot take.
pub open spec fn noselect_defect(df: DAGFunction) -> bool {
    exists|b: int, k: int|
        0 <= b < df.dag_basic_blocks@.len() && 0 <= k < df.dag_basic_blocks@[b].iseq@.len()
            && !(#[trigger] node_kinds_lowerable(df, b, k))
}

/// The listing itself is broken: a node listed twice, a machine-node
/// operand not listed earlier, or more listed nodes than instruction ids.
pub open spec fn malformed_defect(df: DAGFunction) -> bool {
    ||| !dag_listing_disjoint(df)
    ||| exists|b: int, k: int|
        0 <= b < df.dag_basic_blocks@.len() && 0 <= k < df.dag_basic_blocks@[b].iseq@.len()
            && !(#[trigger] node_operands_available(df, b, k))
    ||| dag_iseq_len_prefix(df.dag_basic_blocks@, df.dag_basic_blocks@.len() as int) >= usize::MAX
        - 1
}

/// Everything lowering demands of a selected function: distinct listings,
/// lowerable node and operand kinds, operands available in order, and a
/// listing that fits the instruction-id space.
pub open spec fn fn_lowerable(df: DAGFunction) -> bool {
    &&& dag_listing_disjoint(df)
    &&& forall|b: int, k: int|
        0 <= b < df.dag_basic_blocks@.len() && 0 <= k < df.dag_basic_blocks@[b].iseq@.len() ==> (
        #[trigger] node_kinds_lowerable(df, b, k)) && node_operands_available(df, b, k)
    &&& dag_iseq_len_prefix(df.dag_basic_blocks@, df.dag_basic_blocks@.len() as int) < usize::MAX
        - 1
}

/// What lowering promises: same control flow, one machine instruction per
/// listed DAG node carrying the lowered opcode, type and operands, with
/// instruction ids laid out consecutively in traversal order.
pub open spec fn lowered_ok(df: DAGFunction, mf: MachineFunction, lm: Map<usize, usize>) -> bool {
    &&& mf.name == df.name
    &&& mf.ret_ty == df.ret_ty
    &&& mf.local_mgr == df.local_mgr
    &&& mf.basic_blocks@.len() == df.dag_basic_blocks@.len()
    &&& forall|b: int|
        0 <= b < mf.basic_blocks@.len() ==> (#[trigger] mf.basic_blocks@[b]).pred@
            == df.dag_basic_blocks@[b].pred@ && mf.basic_blocks@[b].succ@
            == df.dag_basic_blocks@[b].succ@ && mf.basic_blocks@[b].iseq@.len()
            == df.dag_basic_blocks@[b].iseq@.len()
    &&& forall|b: int, k: int|
        0 <= b < mf.basic_blocks@.len() && 0 <= k < mf.basic_blocks@[b].iseq@.len() ==> (
        #[trigger] mf.basic_blocks@[b].iseq@[k]) == m_iseq_len_prefix(mf.basic_blocks@, b) + k
    &&& forall|b: int, k: int|
        0 <= b < mf.basic_blocks@.len() && 0 <= k < mf.basic_blocks@[b].iseq@.len()
            ==> instr_lowered(
            df.arena@,
            mf.instr_arena@,
            lm,
            df.dag_basic_blocks@[b].iseq@[k],
            (#[trigger] mf.basic_blocks@[b].iseq@[k]) as int,
        )
    &&& m_iseq_len_prefix(mf.basic_blocks@, mf.basic_blocks@.len() as int)
        == mf.instr_arena@.len()
}

/// Some lowering record witnesses that `mf` was lowered from `df`.
pub open spec fn some_lowered(df: DAGFunction, mf: MachineFunction) -> bool {
    exists|lm: Map<usize, usize>| lowered_ok(df, mf, lm)
}

/// Being a lowering image survives the passes that only renumber virtual
/// registers and fill liveness records.
pub proof fn lemma_some_lowered_same_shape(
    df: DAGFunction,
    mf1: MachineFunction,
    mf2: MachineFunction,
)
    requires
        some_lowered(df, mf1),
        crate::machine_liveness::m_same_shape(mf2, mf1),
    ensures
        some_lowered(df, mf2),
{
    let lm = choose|lm: Map<usize, usize>| lowered_ok(df, mf1, lm);
    assert forall|b: int|
        0 <= b <= mf1.basic_blocks@.len() implies m_iseq_len_prefix(mf2.basic_blocks@, b)
        == m_iseq_len_prefix(mf1.basic_blocks@, b) by {
        crate::machine_liveness::lemma_prefix_same_iseq(mf1.basic_blocks@, mf2.basic_blocks@, b);
    }
    assert forall|b: int, k: int|
        0 <= b < mf2.basic_blocks@.len() && 0 <= k < mf2.basic_blocks@[b].iseq@.len()
            implies instr_lowered(
        df.arena@,
        mf2.instr_arena@,
        lm,
        df.dag_basic_blocks@[b].iseq@[k],
        (#[trigger] mf2.basic_blocks@[b].iseq@[k]) as int,
    ) by {
        assert(mf2.basic_blocks@[b].iseq@ == mf1.basic_blocks@[b].iseq@);
        let mi = mf1.basic_blocks@[b].iseq@[k] as int;
        assert(instr_lowered(
            df.arena@,
            mf1.instr_arena@,
            lm,
            df.dag_basic_blocks@[b].iseq@[k],
            mi,
        ));
        assert(mf2.instr_arena@[mi].opcode == mf1.instr_arena@[mi].opcode);
        assert(mf2.instr_arena@[mi].operands@ == mf1.instr_arena@[mi].operands@);
        assert(mf2.instr_arena@[mi].ty == mf1.instr_arena@[mi].ty);
    }
    assert(lowered_ok(df, mf2, lm));
}

proof fn lemma_m_prefix_push(
    s: Seq<MachineBasicBlock>,
    x: MachineBasicBlock,
    n: int,
)
    requires
        0 <= n <= s.len(),
    ensures
        m_iseq_len_prefix(s.push(x), n) == m_iseq_len_prefix(s, n),
    decreases n,
{
    if n > 0 {
        lemma_m_prefix_push(s, x, n - 1);
        assert(s.push(x)[n - 1] == s[n - 1]);
    }
}

/// Lowers one selected DAG function to a linear machine function.
pub fn convert_function(df: DAGFunction) -> (r: Result<MachineFunction, CodegenError>)
    requires
        df.wf(),
    ensures
        match r {
            Ok(mf) => {
                &&& mf.wf()
                &&& some_lowered(df, mf)
                &&& m_iseq_len_prefix(mf.basic_blocks@, mf.basic_blocks@.len() as int)
                    == mf.instr_arena@.len()
                &&& mf.instr_arena@.len() < usize::MAX
                &&& forall|b: int, k: int|
                    0 <= b < mf.basic_blocks@.len() && 0 <= k < mf.basic_blocks@[b].iseq@.len()
                        ==> (#[trigger] mf.basic_blocks@[b].iseq@[k]) == m_iseq_len_prefix(
                        mf.basic_blocks@,
                        b,
                    ) + k
            },
            Err(e) => {
                ||| (e == CodegenError::NoSelectionPatternMatched && noselect_defect(df))
                ||| (e == CodegenError::MalformedControlFlow && malformed_defect(df))
            },
        },
        fn_lowerable(df) ==> r is Ok,
{
    let nb = df.dag_basic_blocks.len();
    let mut arena: Vec<MachineInstr> = Vec::new();
    let mut blocks: Vec<MachineBasicBlock> = Vec::new();
    let mut lm = IdMap::new();
    let mut b: usize = 0;
    while b < nb
        invariant
            b <= nb,
            nb == df.dag_basic_blocks@.len(),
            df.wf(),
            blocks@.len() == b,
            arena@.len() < usize::MAX,
            m_iseq_len_prefix(blocks@, b as int) == arena@.len(),
            dag_iseq_len_prefix(df.dag_basic_blocks@, b as int) == arena@.len(),
            forall|d: usize|
                #[trigger] lm@.contains_key(d) <==> dag_listed_before(df, d, b as int, 0),
            forall|j: int|
                0 <= j < b ==> (#[trigger] blocks@[j]).pred@ == df.dag_basic_blocks@[j].pred@
                    && blocks@[j].succ@ == df.dag_basic_blocks@[j].succ@
                    && blocks@[j].iseq@.len() == df.dag_basic_blocks@[j].iseq@.len(),
            forall|j: int, k: int|
                0 <= j < b && 0 <= k < blocks@[j].iseq@.len() ==> (#[trigger] blocks@[j].iseq@[k])
                    == m_iseq_len_prefix(blocks@, j) + k,
            forall|j: int|
                0 <= j < b ==> (#[trigger] blocks@[j]).liveness.def@ == Set::<usize>::empty()
                    && blocks@[j].liveness.live_in@ == Set::<usize>::empty()
                    && blocks@[j].liveness.live_out@ == Set::<usize>::empty(),
            forall|j: int, k: int|
                0 <= j < b && 0 <= k < blocks@[j].iseq@.len() ==> instr_lowered(
                    df.arena@,
                    arena@,
                    lm@,
                    df.dag_basic_blocks@[j].iseq@[k],
                    (#[trigger] blocks@[j].iseq@[k]) as int,
                ),
            forall|d: usize|
                lm@.contains_key(d) ==> lm@[d] < arena@.len(),
            forall|i: int, k: int|
                0 <= i < arena@.len() && 0 <= k < arena@[i].operands@.len()
                    ==> match #[trigger] arena@[i].operands@[k] {
                    MachineOperand::Instr(id) => id < arena@.len(),
                    _ => true,
                },
        decreases nb - b,
    {
        let ghost blocks_pre = blocks@;
        let mut pl: Vec<usize> = Vec::new();
        let npred = df.dag_basic_blocks[b].pred.len();
        let mut q: usize = 0;
        while q < npred
            invariant
                q <= npred,
                b < nb,
                nb == df.dag_basic_blocks@.len(),
                npred == df.dag_basic_blocks@[b as int].pred@.len(),
                pl@ == df.dag_basic_blocks@[b as int].pred@.subrange(0, q as int),
            decreases npred - q,
        {
            pl.push(df.dag_basic_blocks[b].pred[q]);
            proof {
                assert(pl@ =~= df.dag_basic_blocks@[b as int].pred@.subrange(0, q as int + 1));
            }
            q = q + 1;
        }
        let mut sl: Vec<usize> = Vec::new();
        let nsucc = df.dag_basic_blocks[b].succ.len();
        let mut q2: usize = 0;
        while q2 < nsucc
            invariant
                q2 <= nsucc,
                b < nb,
                nb == df.dag_basic_blocks@.len(),
                nsucc == df.dag_basic_blocks@[b as int].succ@.len(),
                sl@ == df.dag_basic_blocks@[b as int].succ@.subrange(0, q2 as int),
            decreases nsucc - q2,
        {
            sl.push(df.dag_basic_blocks[b].succ[q2]);
            proof {
                assert(sl@ =~= df.dag_basic_blocks@[b as int].succ@.subrange(0, q2 as int + 1));
            }
            q2 = q2 + 1;
        }
        proof {
            assert(pl@ =~= df.dag_basic_blocks@[b as int].pred@);
            assert(sl@ =~= df.dag_basic_blocks@[b as int].succ@);
        }

        let np = df.dag_basic_blocks[b].iseq.len();
        let ghost base = arena@.len();
        let mut iseq: Vec<usize> = Vec::new();
        let mut k: usize = 0;
        while k < np
            invariant
                k <= np,
                b < nb,
                nb == df.dag_basic_blocks@.len(),
                np == df.dag_basic_blocks@[b as int].iseq@.len(),
                df.wf(),
                blocks@ == blocks_pre,
                blocks@.len() == b,
                base == m_iseq_len_prefix(blocks@, b as int),
                base == dag_iseq_len_prefix(df.dag_basic_blocks@, b as int),
                arena@.len() == base + k,
                arena@.len() < usize::MAX,
                forall|d: usize|
                    #[trigger] lm@.contains_key(d) <==> dag_listed_before(
                        df,
                        d,
                        b as int,
                        k as int,
                    ),
                iseq@.len() == k,
                forall|k2: int| 0 <= k2 < k ==> (#[trigger] iseq@[k2]) == base + k2,
                forall|j: int, k2: int|
                    0 <= j < b && 0 <= k2 < blocks@[j].iseq@.len() ==> instr_lowered(
                        df.arena@,
                        arena@,
                        lm@,
                        df.dag_basic_blocks@[j].iseq@[k2],
                        (#[trigger] blocks@[j].iseq@[k2]) as int,
                    ),
                forall|j: int, k2: int|
                    0 <= j < b && 0 <= k2 < blocks@[j].iseq@.len() ==> (
                    #[trigger] blocks@[j].iseq@[k2]) == m_iseq_len_prefix(blocks@, j) + k2,
                forall|j: int|
                    0 <= j < b ==> (#[trigger] blocks@[j]).pred@ == df.dag_basic_blocks@[j].pred@
                        && blocks@[j].succ@ == df.dag_basic_blocks@[j].succ@
                        && blocks@[j].iseq@.len() == df.dag_basic_blocks@[j].iseq@.len(),
                forall|j: int|
                    0 <= j < b ==> (#[trigger] blocks@[j]).liveness.def@ == Set::<usize>::empty()
                        && blocks@[j].liveness.live_in@ == Set::<usize>::empty()
                        && blocks@[j].liveness.live_out@ == Set::<usize>::empty(),
                forall|k2: int|
                    0 <= k2 < k ==> instr_lowered(
                        df.arena@,
                        arena@,
                        lm@,
                        df.dag_basic_blocks@[b as int].iseq@[k2],
                        (#[trigger] iseq@[k2]) as int,
                    ),
                forall|d: usize|
                    lm@.contains_key(d) ==> lm@[d] < arena@.len(),
                forall|i: int, k2: int|
                    0 <= i < arena@.len() && 0 <= k2 < arena@[i].operands@.len()
                        ==> match #[trigger] arena@[i].operands@[k2] {
                        MachineOperand::Instr(id) => id < arena@.len(),
                        _ => true,
                    },
            decreases np - k,
        {
            let hd = df.dag_basic_blocks[b].iseq[k];
            let opcode = match df.arena[hd].kind {
                NodeKind::MI(MINodeKind::ADDrr32) => MachineOpcode::ADDrr32,
                NodeKind::MI(MINodeKind::ADDri32) => MachineOpcode::ADDri32,
                NodeKind::MI(MINodeKind::ADDr64i32) => MachineOpcode::ADDr64i32,
                NodeKind::MI(MINodeKind::SUBrr32) => MachineOpcode::SUBrr32,
                NodeKind::MI(MINodeKind::SUBri32) => MachineOpcode::SUBri32,
                NodeKind::MI(MINodeKind::IMULrr32) => MachineOpcode::IMULrr32,
                NodeKind::MI(MINodeKind::IMULrri32) => MachineOpcode::IMULrri32,
                NodeKind::MI(MINodeKind::IMULrr64i32) => MachineOpcode::IMULrr64i32,
                NodeKind::MI(MINodeKind::MOVrm32) => MachineOpcode::MOVrm32,
                NodeKind::MI(MINodeKind::MOVrm64) => MachineOpcode::MOVrm64,
                NodeKind::MI(MINodeKind::MOVrp32) => MachineOpcode::MOVrp32,
                NodeKind::MI(MINodeKind::MOVmr32) => MachineOpcode::MOVmr32,
                NodeKind::MI(MINodeKind::MOVmi32) => MachineOpcode::MOVmi32,
                NodeKind::MI(MINodeKind::MOVpi32) => MachineOpcode::MOVpi32,
                NodeKind::MI(MINodeKind::MOVpr32) => MachineOpcode::MOVpr32,
                NodeKind::IR(IRNodeKind::Ret) => MachineOpcode::Ret,
                _ => {
                    proof {
                        assert(!node_kinds_lowerable(df, b as int, k as int));
                    }
                    return Err(CodegenError::NoSelectionPatternMatched);
                },
            };
            let nops = df.arena[hd].operands.len();
            let mut mops: Vec<MachineOperand> = Vec::new();
            let mut k2: usize = 0;
            while k2 < nops
                invariant
                    k2 <= nops,
                    b < nb,
                    k < np,
                    hd < df.arena@.len(),
                    hd == df.dag_basic_blocks@[b as int].iseq@[k as int],
                    df.wf(),
                    nops == df.arena@[hd as int].operands@.len(),
                    mops@.len() == k2,
                    forall|k3: int|
                        0 <= k3 < k2 ==> lowered_operand(
                            df.arena@,
                            lm@,
                            #[trigger] df.arena@[hd as int].operands@[k3],
                            mops@[k3],
                        ),
                    forall|k3: int|
                        0 <= k3 < k2 ==> match #[trigger] mops@[k3] {
                            MachineOperand::Instr(id) => id < arena@.len(),
                            _ => true,
                        },
                    forall|d: usize|
                        lm@.contains_key(d) ==> lm@[d] < arena@.len(),
                decreases nops - k2,
            {
                let dop = df.arena[hd].operands[k2];
                match df.arena[dop].kind {
                    NodeKind::Constant(v) => {
                        mops.push(MachineOperand::Imm(v));
                    },
                    NodeKind::FrameIndex(fi) => {
                        mops.push(MachineOperand::FrameIndex(fi));
                    },
                    NodeKind::MI(_) => {
                        match lm.get(dop) {
                            Some(mi) => {
                                mops.push(MachineOperand::Instr(mi));
                            },
                            None => {
                                proof {
                                    assert(!dag_listed_before(df, dop, b as int, k as int));
                                    assert(fn_lowerable(df) ==> node_kinds_lowerable(
                                        df,
                                        b as int,
                                        k as int,
                                    ) && node_operands_available(df, b as int, k as int));
                                    assert(!node_operands_available(df, b as int, k as int)) by {
                                        if node_operands_available(df, b as int, k as int) {
                                            assert(match df.arena@[(df.arena@[
                                            hd as int].operands@[k2 as int]) as int].kind {
                                                NodeKind::MI(_) => dag_listed_before(
                                                    df,
                                                    df.arena@[hd as int].operands@[k2 as int],
                                                    b as int,
                                                    k as int,
                                                ),
                                                _ => true,
                                            });
                                        }
                                    }
                                }
                                return Err(CodegenError::MalformedControlFlow);
                            },
                        }
                    },
                    _ => {
                        proof {
                            assert(!node_kinds_lowerable(df, b as int, k as int)) by {
                                if node_kinds_lowerable(df, b as int, k as int) {
                                    assert(match df.arena@[(df.arena@[hd as int].operands@[
                                    k2 as int]) as int].kind {
                                        NodeKind::Constant(_) => true,
                                        NodeKind::FrameIndex(_) => true,
                                        NodeKind::MI(_) => true,
                                        _ => false,
                                    });
                                }
                            }
                        }
                        return Err(CodegenError::NoSelectionPatternMatched);
                    },
                }
                k2 = k2 + 1;
            }
            if arena.len() >= usize::MAX - 1 {
                proof {
                    assert(dag_iseq_len_prefix(df.dag_basic_blocks@, b as int) + k >= usize::MAX
                        - 1);
                    assert(dag_iseq_len_prefix(df.dag_basic_blocks@, b as int + 1)
                        == dag_iseq_len_prefix(df.dag_basic_blocks@, b as int) + np);
                    lemma_dag_prefix_monotone(
                        df.dag_basic_blocks@,
                        b as int + 1,
                        df.dag_basic_blocks@.len() as int,
                    );
                    assert(malformed_defect(df));
                }
                return Err(CodegenError::MalformedControlFlow);
            }
            match lm.get(hd) {
                Some(_) => {
                    proof {
                        assert(dag_listed_before(df, hd, b as int, k as int));
                        let (b2, k2x) = choose|b2: int, k2x: int|
                            0 <= b2 < df.dag_basic_blocks@.len() && 0 <= k2x
                                < df.dag_basic_blocks@[b2].iseq@.len() && (b2 < b || (b2 == b
                                && k2x < k)) && #[trigger] df.dag_basic_blocks@[b2].iseq@[k2x]
                                == hd;
                        assert(!dag_listing_disjoint(df)) by {
                            if dag_listing_disjoint(df) {
                                assert(df.dag_basic_blocks@[b2].iseq@[k2x] != df.dag_basic_blocks@[
                                    b as int].iseq@[k as int]);
                            }
                        }
                    }
                    return Err(CodegenError::MalformedControlFlow);
                },
                None => {
                },
            }
            let ghost arena_pre2 = arena@;
            let ghost lm_pre2 = lm@;
            let mi = arena.len();
            let ty = df.arena[hd].ty;
            arena.push(MachineInstr { opcode, operands: mops, ty: Some(ty), vreg: 0 });
            lm.insert(hd, mi);
            iseq.push(mi);
            proof {
                assert(df.dag_basic_blocks@[b as int].iseq@[k as int] < df.arena@.len());
                assert forall|d: usize| #[trigger] lm@.contains_key(d) <==> dag_listed_before(
                    df,
                    d,
                    b as int,
                    k as int + 1,
                ) by {
                    if d == hd {
                        assert(df.dag_basic_blocks@[b as int].iseq@[k as int] == hd);
                        assert(dag_listed_before(df, d, b as int, k as int + 1));
                    } else {
                        assert(lm@.contains_key(d) == lm_pre2.contains_key(d));
                        if dag_listed_before(df, d, b as int, k as int + 1) {
                            let (b2, k2x) = choose|b2: int, k2x: int|
                                0 <= b2 < df.dag_basic_blocks@.len() && 0 <= k2x
                                    < df.dag_basic_blocks@[b2].iseq@.len() && (b2 < b || (b2 == b
                                    && k2x < k + 1)) && #[trigger] df.dag_basic_blocks@[
                                b2].iseq@[k2x] == d;
                            assert(!(b2 == b && k2x == k));
                            assert(dag_listed_before(df, d, b as int, k as int));
                        }
                    }
                }
                assert forall|j: int, k2: int|
                    0 <= j < b && 0 <= k2 < blocks@[j].iseq@.len() implies instr_lowered(
                    df.arena@,
                    arena@,
                    lm@,
                    df.dag_basic_blocks@[j].iseq@[k2],
                    (#[trigger] blocks@[j].iseq@[k2]) as int,
                ) by {
                    lemma_instr_lowered_mono(
                        df.arena@,
                        arena_pre2,
                        arena@,
                        lm_pre2,
                        hd,
                        mi,
                        df.dag_basic_blocks@[j].iseq@[k2],
                        blocks@[j].iseq@[k2] as int,
                    );
                }
                assert forall|k2: int| 0 <= k2 < k + 1 implies instr_lowered(
                    df.arena@,
                    arena@,
                    lm@,
                    df.dag_basic_blocks@[b as int].iseq@[k2],
                    (#[trigger] iseq@[k2]) as int,
                ) by {
                    if k2 < k {
                        lemma_instr_lowered_mono(
                            df.arena@,
                            arena_pre2,
                            arena@,
                            lm_pre2,
                            hd,
                            mi,
                            df.dag_basic_blocks@[b as int].iseq@[k2],
                            iseq@[k2] as int,
                        );
                    } else {
                        assert(instr_lowered(
                            df.arena@,
                            arena@,
                            lm@,
                            hd,
                            mi as int,
                        ));
                    }
                }
            }
            k = k + 1;
        }
        blocks.push(
            MachineBasicBlock { pred: pl, succ: sl, iseq, liveness: LivenessInfo::new() },
        );
        proof {
            assert forall|n: int| 0 <= n <= b implies m_iseq_len_prefix(blocks@, n)
                == m_iseq_len_prefix(blocks_pre, n) by {
                lemma_m_prefix_push(
                    blocks_pre,
                    blocks@[b as int],
                    n,
                );
            }
            assert(m_iseq_len_prefix(blocks@, b as int + 1) == m_iseq_len_prefix(
                blocks@,
                b as int,
            ) + np);
            assert(dag_iseq_len_prefix(df.dag_basic_blocks@, b as int + 1)
                == dag_iseq_len_prefix(df.dag_basic_blocks@, b as int) + np);
            assert forall|d: usize| #[trigger] lm@.contains_key(d) <==> dag_listed_before(
                df,
                d,
                b as int + 1,
                0,
            ) by {
                if lm@.contains_key(d) {
                    assert(dag_listed_before(df, d, b as int, np as int));
                    let (b2, k2x) = choose|b2: int, k2x: int|
                        0 <= b2 < df.dag_basic_blocks@.len() && 0 <= k2x < df.dag_basic_blocks@[
                        b2].iseq@.len() && (b2 < b || (b2 == b && k2x < np)) && #[trigger]
                        df.dag_basic_blocks@[b2].iseq@[k2x] == d;
                    assert(b2 < b + 1);
                    assert(dag_listed_before(df, d, b as int + 1, 0));
                }
                if dag_listed_before(df, d, b as int + 1, 0) {
                    let (b2, k2x) = choose|b2: int, k2x: int|
                        0 <= b2 < df.dag_basic_blocks@.len() && 0 <= k2x < df.dag_basic_blocks@[
                        b2].iseq@.len() && (b2 < b + 1 || (b2 == b + 1 && k2x < 0)) && #[trigger]
                        df.dag_basic_blocks@[b2].iseq@[k2x] == d;
                    if b2 == b {
                        assert(k2x < np);
                    }
                    assert(dag_listed_before(df, d, b as int, np as int));
                }
            }
        }
        b = b + 1;
    }

    let mf = MachineFunction {
        name: df.name,
        basic_blocks: blocks,
        instr_arena: arena,
        local_mgr: df.local_mgr,
        ret_ty: df.ret_ty,
    };
    proof {
        assert(mf.wf());
        assert(lowered_ok(df, mf, lm@));
        assert(some_lowered(df, mf));
    }
    Ok(mf)
}

/// Lowers every function of a selected DAG module.
pub fn convert_module(module: DAGModule) -> (r: Result<MachineModule, CodegenError>)
    requires
        forall|i: int| 0 <= i < module.functions@.len() ==> (#[trigger] module.functions@[i]).wf(),
    ensures
        match r {
            Ok(mm) => {
                &&& mm.name == module.name
                &&& mm.functions@.len() == module.functions@.len()
                &&& forall|i: int|
                    0 <= i < module.functions@.len() ==> (#[trigger] mm.functions@[i]).wf()
                        && some_lowered(module.functions@[i], mm.functions@[i])
                        && m_iseq_len_prefix(
                        mm.functions@[i].basic_blocks@,
                        mm.functions@[i].basic_blocks@.len() as int,
                    ) < usize::MAX && (forall|b: int, k: int|
                        0 <= b < mm.functions@[i].basic_blocks@.len() && 0 <= k
                            < mm.functions@[i].basic_blocks@[b].iseq@.len() ==> (
                        #[trigger] mm.functions@[i].basic_blocks@[b].iseq@[k])
                            == m_iseq_len_prefix(mm.functions@[i].basic_blocks@, b) + k)
            },
            Err(e) => {
                ||| (e == CodegenError::NoSelectionPatternMatched && exists|i: int|
                    0 <= i < module.functions@.len() && noselect_defect(
                        #[trigger] module.functions@[i],
                    ))
                ||| (e == CodegenError::MalformedControlFlow && exists|i: int|
                    0 <= i < module.functions@.len() && malformed_defect(
                        #[trigger] module.functions@[i],
                    ))
            },
        },
        (forall|i: int|
            0 <= i < module.functions@.len() ==> fn_lowerable(#[trigger] module.functions@[i]))
            ==> r is Ok,
{
    let mut funcs = module.functions;
    let n = funcs.len();
    let mut out: Vec<MachineFunction> = Vec::new();
    let ghost orig = funcs@;
    let mut i: usize = 0;
    while i < n
        invariant
            i <= n,
            n == orig.len(),
            funcs@ == orig.subrange(i as int, n as int),
            forall|j: int| 0 <= j < n ==> (#[trigger] orig[j]).wf(),
            out@.len() == i,
            forall|j: int|
                0 <= j < i ==> (#[trigger] out@[j]).wf() && some_lowered(orig[j], out@[j])
                    && m_iseq_len_prefix(
                    out@[j].basic_blocks@,
                    out@[j].basic_blocks@.len() as int,
                ) < usize::MAX && (forall|b: int, k: int|
                    0 <= b < out@[j].basic_blocks@.len() && 0 <= k
                        < out@[j].basic_blocks@[b].iseq@.len() ==> (
                    #[trigger] out@[j].basic_blocks@[b].iseq@[k]) == m_iseq_len_prefix(
                        out@[j].basic_blocks@,
                        b,
                    ) + k),
        decreases n - i,
    {
        let df = funcs.remove(0);
        proof {
            assert(df == orig[i as int]);
            assert(funcs@ =~= orig.subrange(i as int + 1, n as int));
        }
        match convert_function(df) {
            Ok(mf) => {
                out.push(mf);
            },
            Err(e) => {
                return Err(e);
            },
        }
        i = i + 1;
    }
    Ok(MachineModule { name: module.name, functions: out })
}

} // verus!
