use crate::convert::{
    alloca_tys, arena_inventory, built_ok, fn_buildable, inst_modeled, some_built,
    uses_follow_defs,
};
use crate::dag::{DAGFunction, IRNodeKind, NodeKind};
use crate::frame_object::FrameObjectsInfo;
use crate::ir::{Function, Module, Opcode, Operand, Value};
use crate::isel::{selected_fn_ok, selection_ok, some_selected, spec_select_kind};
use crate::mc_convert::{
    dag_iseq_len_prefix, dag_listing_disjoint, instr_lowered, lowered_ok, lowered_operand,
    malformed_defect, node_kinds_lowerable, node_operands_available, noselect_defect, some_lowered,
};
use crate::machine::{MachineFunction, MachineModule, MachineOpcode, MachineOperand};
use crate::machine_liveness::{
    lemma_vregs_strictly_increase, m_analyzed, m_iseq_disjoint, m_iseq_len_prefix, m_numbered,
    LivenessAnalysis,
};
use vstd::prelude::*;

verus! {

/// A structured build-time failure: each names a defect of the input IR or
/// a gap in the backend, never a recoverable runtime condition.
#[derive(Clone, Copy, Debug, PartialEq, Eq, Structural)]
pub enum CodegenError {
    UnsupportedIRConstruct,
    NoSelectionPatternMatched,
    UnresolvedFrameIndex,
    MalformedControlFlow,
    RegisterClassExhausted,
}

/// Instruction ids laid out consecutively per block are never listed twice.
pub proof fn lemma_consecutive_iseq_disjoint(mf: MachineFunction)
    requires
        forall|b: int, k: int|
            0 <= b < mf.basic_blocks@.len() && 0 <= k < mf.basic_blocks@[b].iseq@.len() ==> (
            #[trigger] mf.basic_blocks@[b].iseq@[k]) == m_iseq_len_prefix(mf.basic_blocks@, b) + k,
    ensures
        m_iseq_disjoint(mf),
{
    assert forall|b1: int, k1: int, b2: int, k2: int|
        0 <= b1 < mf.basic_blocks@.len() && 0 <= k1 < mf.basic_blocks@[b1].iseq@.len() && 0 <= b2
            < mf.basic_blocks@.len() && 0 <= k2 < mf.basic_blocks@[b2].iseq@.len() && !(b1 == b2
            && k1 == k2) implies (#[trigger] mf.basic_blocks@[b1].iseq@[k1]) != (
    #[trigger] mf.basic_blocks@[b2].iseq@[k2]) by {
        if b1 < b2 || (b1 == b2 && k1 < k2) {
            lemma_vregs_strictly_increase(mf.basic_blocks@, b1, k1, b2, k2);
        } else {
            lemma_vregs_strictly_increase(mf.basic_blocks@, b2, k2, b1, k1);
        }
    }
}

/// Frame-index validation: every frame-index operand left in the function
/// must have received an offset from layout; one without marks a layout
/// defect.
pub fn validate_frame_index(f: &MachineFunction, fo: &FrameObjectsInfo) -> (r: Result<
    (),
    CodegenError,
>)
    ensures
        match r {
            Ok(()) => forall|i: int, k: int|
                0 <= i < f.instr_arena@.len() && 0 <= k < f.instr_arena@[i].operands@.len()
                    ==> match #[trigger] f.instr_arena@[i].operands@[k] {
                    MachineOperand::FrameIndex(fi) => fo.offsets().contains_key(fi.idx),
                    _ => true,
                },
            Err(e) => e == CodegenError::UnresolvedFrameIndex && exists|i: int, k: int|
                0 <= i < f.instr_arena@.len() && 0 <= k < f.instr_arena@[i].operands@.len()
                    && match #[trigger] f.instr_arena@[i].operands@[k] {
                    MachineOperand::FrameIndex(fi) => !fo.offsets().contains_key(fi.idx),
                    _ => false,
                },
        },
{
    let n = f.instr_arena.len();
    let mut i: usize = 0;
    while i < n
        invariant
            i <= n,
            n == f.instr_arena@.len(),
            forall|i2: int, k: int|
                0 <= i2 < i && 0 <= k < f.instr_arena@[i2].operands@.len()
                    ==> match #[trigger] f.instr_arena@[i2].operands@[k] {
                    MachineOperand::FrameIndex(fi) => fo.offsets().contains_key(fi.idx),
                    _ => true,
                },
        decreases n - i,
    {
        let nops = f.instr_arena[i].operands.len();
        let mut k: usize = 0;
        while k < nops
            invariant
                k <= nops,
                i < n,
                n == f.instr_arena@.len(),
                nops == f.instr_arena@[i as int].operands@.len(),
                forall|k2: int|
                    0 <= k2 < k ==> match #[trigger] f.instr_arena@[i as int].operands@[k2] {
                        MachineOperand::FrameIndex(fi) => fo.offsets().contains_key(fi.idx),
                        _ => true,
                    },
            decreases nops - k,
        {
            match f.instr_arena[i].operands[k] {
                MachineOperand::FrameIndex(fi) => {
                    match fo.offset(fi.idx) {
                        Some(_) => {
                        },
                        None => {
                            return Err(CodegenError::UnresolvedFrameIndex);
                        },
                    }
                },
                _ => {
                },
            }
            k = k + 1;
        }
        i = i + 1;
    }
    Ok(())
}

/// The machine function is the built, selected, lowered image of the IR
/// function: each stage's record witnesses the next.
pub open spec fn pipeline_image(f: Function, mf: MachineFunction) -> bool {
    exists|df1: DAGFunction, df2: DAGFunction|
        (#[trigger] some_built(f, df1)) && (#[trigger] some_selected(df1, df2)) && some_lowered(
            df2,
            mf,
        )
}

/// Some node of the function's built graph matches no selector pattern row.
pub open spec fn selection_defect(f: Function) -> bool {
    exists|df1: DAGFunction|
        (#[trigger] some_built(f, df1)) && exists|h: int|
            0 <= h < df1.arena@.len() && (#[trigger] spec_select_kind(df1.arena@, h)) is None
}

/// The function's built and selected graph holds a node lowering cannot
/// take (an operation left unselected, an unlowerable operand kind).
pub open spec fn lowering_noselect_defect(f: Function) -> bool {
    exists|df1: DAGFunction, df2: DAGFunction|
        (#[trigger] some_built(f, df1)) && (#[trigger] some_selected(df1, df2))
            && noselect_defect(df2)
}

/// The function's built and selected graph lists nodes in an order lowering
/// cannot serve.
pub open spec fn lowering_malformed_defect(f: Function) -> bool {
    exists|df1: DAGFunction, df2: DAGFunction|
        (#[trigger] some_built(f, df1)) && (#[trigger] some_selected(df1, df2))
            && malformed_defect(df2)
}

/// A function of one block that only returns an immediate lowers, through
/// any pipeline image, to exactly one return instruction carrying that
/// immediate, with no frame objects: the frame then collapses to the
/// saved-register reservation rounded to sixteen bytes.
#[verifier::rlimit(60)]
pub proof fn lemma_single_ret_immediate(
    f: Function,
    mf: MachineFunction,
    v: i32,
    cs: Seq<crate::types::CompoundType>,
)
    requires
        f.basic_blocks@.len() == 1,
        f.basic_blocks@[0].iseq@ == seq![Value::Instruction(0usize)],
        f.inst_table@.len() == 1,
        f.inst_table@[0].opcode == Opcode::Ret,
        f.inst_table@[0].operands@ == seq![Operand::Value(Value::Imm32(v))],
        pipeline_image(f, mf),
    ensures
        mf.basic_blocks@.len() == 1,
        mf.basic_blocks@[0].iseq@.len() == 1,
        mf.instr_arena@[mf.basic_blocks@[0].iseq@[0] as int].opcode == MachineOpcode::Ret,
        mf.instr_arena@[mf.basic_blocks@[0].iseq@[0] as int].operands@ == seq![
            MachineOperand::Imm(v),
        ],
        mf.local_mgr.locals@.len() == 0,
        crate::frame_object::spec_total_size(cs, mf.local_mgr.locals@) == 16,
{
    let (df1, df2) = choose|df1: DAGFunction, df2: DAGFunction|
        (#[trigger] some_built(f, df1)) && (#[trigger] some_selected(df1, df2)) && some_lowered(
            df2,
            mf,
        );
    let nm = choose|nm: Seq<Option<usize>>| built_ok(f, df1, nm);
    let sel = choose|sel: Map<usize, usize>| selected_fn_ok(df1, df2, sel);
    let lm = choose|lm: Map<usize, usize>| lowered_ok(df2, mf, lm);

    assert(inst_modeled(df1.arena@, nm, f.inst_table@, 0));
    let n = nm[0].unwrap();
    assert(df1.arena@[n as int].kind == NodeKind::IR(IRNodeKind::Ret));
    assert(df1.arena@[n as int].operands@.len() == 1);
    let c = df1.arena@[n as int].operands@[0];
    assert(crate::dag::operand_models(df1.arena@, nm, f.inst_table@[0].operands@[0], c));
    assert(df1.arena@[c as int].kind == NodeKind::Constant(v));

    assert(df1.dag_basic_blocks@[0].iseq@ == crate::convert::dag_iseq_expected(
        f.inst_table@,
        nm,
        f.basic_blocks@[0].iseq@,
        1,
    ));
    assert(crate::convert::dag_iseq_expected(f.inst_table@, nm, f.basic_blocks@[0].iseq@, 0)
        =~= Seq::<usize>::empty());
    assert(df1.dag_basic_blocks@[0].iseq@ =~= seq![n]);

    assert(alloca_tys(f) =~= Seq::<crate::types::Type>::empty()) by {
        assert(Seq::new(f.basic_blocks@.len(), |b: int| f.basic_blocks@[b].iseq@)[0]
            == f.basic_blocks@[0].iseq@);
        assert(crate::convert::block_alloca_tys(f.inst_table@, f.basic_blocks@[0].iseq@, 0)
            =~= Seq::<crate::types::Type>::empty());
        assert(crate::convert::block_alloca_tys(f.inst_table@, f.basic_blocks@[0].iseq@, 1)
            =~= Seq::<crate::types::Type>::empty());
        assert(crate::convert::alloca_tys_upto(
            f.inst_table@,
            Seq::new(f.basic_blocks@.len(), |b: int| f.basic_blocks@[b].iseq@),
            0,
        ) =~= Seq::<crate::types::Type>::empty());
    }
    assert(df1.local_mgr.locals@.len() == 0);

    assert(selection_ok(df1.arena@, df2.arena@, sel, n as int));
    assert(spec_select_kind(df1.arena@, n as int) == Some(NodeKind::IR(IRNodeKind::Ret)));
    let sn = sel[n];
    assert(df2.arena@[sn as int].kind == NodeKind::IR(IRNodeKind::Ret));
    assert(df2.arena@[sn as int].operands@.len() == 1);
    assert(df2.arena@[sn as int].operands@[0] == sel[c]);
    assert(selection_ok(df1.arena@, df2.arena@, sel, c as int));
    assert(!df1.arena@[c as int].kind.spec_is_operation());
    assert(sel[c] == c);
    assert(df2.arena@[c as int] == df1.arena@[c as int]);
    assert(df2.dag_basic_blocks@[0].iseq@.len() == 1);
    assert(df2.dag_basic_blocks@[0].iseq@[0] == sn);

    assert(mf.basic_blocks@.len() == 1);
    assert(mf.basic_blocks@[0].iseq@.len() == 1);
    let mi = mf.basic_blocks@[0].iseq@[0] as int;
    assert(instr_lowered(df2.arena@, mf.instr_arena@, lm, sn, mi));
    assert(crate::mc_convert::spec_lower_opcode(df2.arena@[sn as int].kind)
        == Some(MachineOpcode::Ret));
    assert(mf.instr_arena@[mi].operands@.len() == 1);
    assert(lowered_operand(df2.arena@, lm, c, mf.instr_arena@[mi].operands@[0]));
    assert(mf.instr_arena@[mi].operands@[0] == MachineOperand::Imm(v));
    assert(mf.instr_arena@[mi].operands@ =~= seq![MachineOperand::Imm(v)]);
    assert(mf.local_mgr == df2.local_mgr);
    assert(df2.local_mgr == df1.local_mgr);
    assert(crate::frame_object::locals_size_prefix(cs, mf.local_mgr.locals@, 0) == 0);
}

/// A function of one block that only returns an immediate is free of every
/// defect the pipeline can report: it is buildable, its one use follows no
/// definition, every built image of it selects, and every selected image
/// lowers. Through the pipeline's completeness clause, success is owed to
/// a module of such functions, and `lemma_single_ret_immediate` then pins
/// the produced machine code.
#[verifier::rlimit(60)]
pub proof fn lemma_single_ret_immediate_owed(f: Function, v: i32)
    requires
        f.basic_blocks@.len() == 1,
        f.basic_blocks@[0].iseq@ == seq![Value::Instruction(0usize)],
        f.inst_table@.len() == 1,
        f.inst_table@[0].opcode == Opcode::Ret,
        f.inst_table@[0].operands@ == seq![Operand::Value(Value::Imm32(v))],
    ensures
        fn_buildable(f),
        uses_follow_defs(f),
        !selection_defect(f),
        !lowering_noselect_defect(f),
        !lowering_malformed_defect(f),
{
    assert(fn_buildable(f)) by {
        assert(crate::convert::inst_ok(f.inst_table@[0]));
        assert(crate::dag::is_value_operand(f.inst_table@[0].operands@[0]));
    }
    assert(uses_follow_defs(f)) by {
        assert(crate::convert::inst_uses_defined(f, 0, 0, 0)) by {
            assert(f.inst_table@[0].operands@[0] == Operand::Value(Value::Imm32(v)));
        }
    }
    assert(!selection_defect(f)) by {
        if selection_defect(f) {
            let df1 = choose|df1: DAGFunction|
                (#[trigger] some_built(f, df1)) && exists|h: int|
                    0 <= h < df1.arena@.len() && (#[trigger] spec_select_kind(df1.arena@, h))
                        is None;
            let nm = choose|nm: Seq<Option<usize>>| built_ok(f, df1, nm);
            let h = choose|h: int|
                0 <= h < df1.arena@.len() && (#[trigger] spec_select_kind(df1.arena@, h)) is None;
            lemma_ret_image_all_select(f, df1, nm, v, h);
        }
    }
    assert(!lowering_noselect_defect(f)) by {
        if lowering_noselect_defect(f) {
            let (df1, df2) = choose|df1: DAGFunction, df2: DAGFunction|
                (#[trigger] some_built(f, df1)) && (#[trigger] some_selected(df1, df2))
                    && noselect_defect(df2);
            let nm = choose|nm: Seq<Option<usize>>| built_ok(f, df1, nm);
            let sel = choose|sel: Map<usize, usize>| selected_fn_ok(df1, df2, sel);
            let (b, k) = choose|b: int, k: int|
                0 <= b < df2.dag_basic_blocks@.len() && 0 <= k
                    < df2.dag_basic_blocks@[b].iseq@.len() && !(#[trigger] node_kinds_lowerable(
                    df2,
                    b,
                    k,
                ));
            lemma_ret_selected_shape(f, df1, df2, nm, sel, v);
            assert(node_kinds_lowerable(df2, 0, 0));
        }
    }
    assert(!lowering_malformed_defect(f)) by {
        if lowering_malformed_defect(f) {
            let (df1, df2) = choose|df1: DAGFunction, df2: DAGFunction|
                (#[trigger] some_built(f, df1)) && (#[trigger] some_selected(df1, df2))
                    && malformed_defect(df2);
            let nm = choose|nm: Seq<Option<usize>>| built_ok(f, df1, nm);
            let sel = choose|sel: Map<usize, usize>| selected_fn_ok(df1, df2, sel);
            lemma_ret_selected_shape(f, df1, df2, nm, sel, v);
            assert(dag_listing_disjoint(df2));
            assert forall|b: int, k: int|
                0 <= b < df2.dag_basic_blocks@.len() && 0 <= k
                    < df2.dag_basic_blocks@[b].iseq@.len() implies node_operands_available(
                df2,
                b,
                k,
            ) by {
                assert(node_operands_available(df2, 0, 0));
            }
            assert(dag_iseq_len_prefix(df2.dag_basic_blocks@, 0) == 0);
            assert(dag_iseq_len_prefix(df2.dag_basic_blocks@, 1) == 1);
        }
    }
}

/// Every node of a built image of the one-return function selects: the
/// arena holds only leaves and the function's single return node.
proof fn lemma_ret_image_all_select(
    f: Function,
    df1: DAGFunction,
    nm: Seq<Option<usize>>,
    v: i32,
    h: int,
)
    requires
        f.basic_blocks@.len() == 1,
        f.basic_blocks@[0].iseq@ == seq![Value::Instruction(0usize)],
        f.inst_table@.len() == 1,
        f.inst_table@[0].opcode == Opcode::Ret,
        f.inst_table@[0].operands@ == seq![Operand::Value(Value::Imm32(v))],
        built_ok(f, df1, nm),
        0 <= h < df1.arena@.len(),
    ensures
        spec_select_kind(df1.arena@, h) is Some,
{
    reveal(crate::convert::arena_inventory);
    assert(arena_inventory(f, df1.arena@, nm));
    assert(df1.arena@.len() <= usize::MAX);
    assert((h as usize) as int == h);
    if df1.arena@[h].kind is Constant || df1.arena@[h].kind is FrameIndex {
        assert(spec_select_kind(df1.arena@, h) is Some);
    } else {
        let (b2, k2) = choose|b2: int, k2: int|
            0 <= b2 < f.basic_blocks@.len() && 0 <= k2 < f.basic_blocks@[b2].iseq@.len()
                && match #[trigger] f.basic_blocks@[b2].iseq@[k2] {
                Value::Instruction(id) => nm[id as int] == Some(h as usize),
                _ => false,
            };
        assert(b2 == 0 && k2 == 0);
        assert(f.basic_blocks@[0].iseq@[0] == Value::Instruction(0usize));
        assert(nm[0] == Some(h as usize));
        assert(inst_modeled(df1.arena@, nm, f.inst_table@, 0));
        assert(crate::dag::node_models_inst(df1.arena@, nm, f.inst_table@[0], h as usize));
        assert(crate::dag::spec_node_kind_of(Opcode::Ret) == Some(IRNodeKind::Ret));
        assert(df1.arena@[h].kind == crate::dag::NodeKind::IR(IRNodeKind::Ret));
    }
}

/// A selected image of a built image of the one-return function lists one
/// node: a return whose only operand is the shared constant leaf.
proof fn lemma_ret_selected_shape(
    f: Function,
    df1: DAGFunction,
    df2: DAGFunction,
    nm: Seq<Option<usize>>,
    sel: Map<usize, usize>,
    v: i32,
)
    requires
        f.basic_blocks@.len() == 1,
        f.basic_blocks@[0].iseq@ == seq![Value::Instruction(0usize)],
        f.inst_table@.len() == 1,
        f.inst_table@[0].opcode == Opcode::Ret,
        f.inst_table@[0].operands@ == seq![Operand::Value(Value::Imm32(v))],
        built_ok(f, df1, nm),
        selected_fn_ok(df1, df2, sel),
    ensures
        df2.dag_basic_blocks@.len() == 1,
        df2.dag_basic_blocks@[0].iseq@.len() == 1,
        node_kinds_lowerable(df2, 0, 0),
        node_operands_available(df2, 0, 0),
        dag_listing_disjoint(df2),
{
    assert(inst_modeled(df1.arena@, nm, f.inst_table@, 0));
    let n = nm[0].unwrap();
    assert(df1.arena@[n as int].kind == crate::dag::NodeKind::IR(IRNodeKind::Ret));
    assert(df1.arena@[n as int].operands@.len() == 1);
    let c = df1.arena@[n as int].operands@[0];
    assert(crate::dag::operand_models(df1.arena@, nm, f.inst_table@[0].operands@[0], c));
    assert(df1.arena@[c as int].kind == NodeKind::Constant(v));
    assert(crate::convert::dag_iseq_expected(f.inst_table@, nm, f.basic_blocks@[0].iseq@, 0)
        =~= Seq::<usize>::empty());
    assert(df1.dag_basic_blocks@[0].iseq@ == crate::convert::dag_iseq_expected(
        f.inst_table@,
        nm,
        f.basic_blocks@[0].iseq@,
        1,
    ));
    assert(df1.dag_basic_blocks@[0].iseq@ =~= seq![n]);
    assert(selection_ok(df1.arena@, df2.arena@, sel, n as int));
    assert(spec_select_kind(df1.arena@, n as int) == Some(NodeKind::IR(IRNodeKind::Ret)));
    let sn = sel[n];
    assert(df2.arena@[sn as int].kind == NodeKind::IR(IRNodeKind::Ret));
    assert(df2.arena@[sn as int].operands@.len() == 1);
    assert(df2.arena@[sn as int].operands@[0] == sel[c]);
    assert(selection_ok(df1.arena@, df2.arena@, sel, c as int));
    assert(!df1.arena@[c as int].kind.spec_is_operation());
    assert(sel[c] == c);
    assert(df2.arena@[c as int] == df1.arena@[c as int]);
    assert(df2.dag_basic_blocks@[0].iseq@.len() == 1);
    assert(df2.dag_basic_blocks@[0].iseq@[0] == sn);
    assert(node_kinds_lowerable(df2, 0, 0)) by {
        assert(crate::mc_convert::spec_lower_opcode(df2.arena@[sn as int].kind) == Some(
            MachineOpcode::Ret,
        ));
    }
    assert(node_operands_available(df2, 0, 0));
    assert forall|b1: int, k1: int, b2: int, k2: int|
        0 <= b1 < df2.dag_basic_blocks@.len() && 0 <= k1 < df2.dag_basic_blocks@[b1].iseq@.len()
            && 0 <= b2 < df2.dag_basic_blocks@.len() && 0 <= k2 < df2.dag_basic_blocks@[
        b2].iseq@.len() && !(b1 == b2 && k1 == k2) implies (#[trigger] df2.dag_basic_blocks@[
    b1].iseq@[k1]) != (#[trigger] df2.dag_basic_blocks@[b2].iseq@[k2]) by {
        assert(b1 == 0 && k1 == 0 && b2 == 0 && k2 == 0);
    }
}

/// The whole lowering pipeline: IR module to DAGs, instruction selection,
/// linear machine code, then virtual-register numbering and liveness. The
/// result is a machine module whose every function carries exact liveness
/// records and traversal-ordered virtual registers, and is the built,
/// selected and lowered image of its input function.
pub fn standard_conversion_into_machine_module(module: &mut Module) -> (r: Result<
    MachineModule,
    CodegenError,
>)
    requires
        forall|i: int|
            0 <= i < old(module).functions@.len() ==> (#[trigger] old(module).functions@[i]).wf()
                && crate::convert::ir_iseq_disjoint(old(module).functions@[i]) && old(
                module,
            ).functions@[i].inst_table@.len() < usize::MAX,
    ensures
        *final(module) == *old(module),
        match r {
            Ok(mm) => {
                &&& mm.name == old(module).name
                &&& mm.functions@.len() == old(module).functions@.len()
                &&& forall|i: int|
                    0 <= i < mm.functions@.len() ==> (#[trigger] mm.functions@[i]).wf()
                        && m_analyzed(mm.functions@[i]) && m_numbered(mm.functions@[i])
                &&& forall|i: int|
                    0 <= i < mm.functions@.len() ==> pipeline_image(
                        #[trigger] old(module).functions@[i],
                        #[trigger] mm.functions@[i],
                    )
            },
            Err(e) => {
                ||| (e == CodegenError::UnsupportedIRConstruct && exists|i: int|
                    0 <= i < old(module).functions@.len() && !fn_buildable(
                        #[trigger] old(module).functions@[i],
                    ))
                ||| (e == CodegenError::MalformedControlFlow && exists|i: int|
                    0 <= i < old(module).functions@.len() && (!uses_follow_defs(
                        #[trigger] old(module).functions@[i],
                    ) || lowering_malformed_defect(old(module).functions@[i])))
                ||| (e == CodegenError::NoSelectionPatternMatched && exists|i: int|
                    0 <= i < old(module).functions@.len() && (selection_defect(
                        #[trigger] old(module).functions@[i],
                    ) || lowering_noselect_defect(old(module).functions@[i])))
            },
        },
        (forall|i: int|
            0 <= i < old(module).functions@.len() ==> fn_buildable(
                #[trigger] old(module).functions@[i],
            ) && uses_follow_defs(old(module).functions@[i]) && !selection_defect(
                old(module).functions@[i],
            ) && !lowering_noselect_defect(old(module).functions@[i])
                && !lowering_malformed_defect(old(module).functions@[i])) ==> r is Ok,
{
    let dag_module = match crate::convert::convert_module(module) {
        Ok(dm) => dm,
        Err(e) => {
            return Err(e);
        },
    };
    proof {
        assert forall|i: int| 0 <= i < dag_module.functions@.len() implies (
        #[trigger] dag_module.functions@[i]).wf() by {
            let nm = choose|nm: Seq<Option<usize>>|
                crate::convert::built_ok(
                    module.functions@[i],
                    dag_module.functions@[i],
                    nm,
                );
        }
    }
    let mut dag_module = dag_module;
    let ghost dag_pre = dag_module;
    let mut selector = crate::isel::MISelector::new();
    match selector.run_on_module(&mut dag_module) {
        Ok(()) => {
        },
        Err(e) => {
            proof {
                let (i, h) = choose|i: int, h: int|
                    0 <= i < dag_pre.functions@.len() && 0 <= h < dag_pre.functions@[i].arena@.len()
                        && (#[trigger] spec_select_kind(dag_pre.functions@[i].arena@, h)) is None;
                assert(some_built(old(module).functions@[i], dag_pre.functions@[i]));
                assert(selection_defect(old(module).functions@[i]));
            }
            return Err(e);
        },
    }
    proof {
        assert forall|i: int| 0 <= i < dag_module.functions@.len() implies (
        #[trigger] dag_module.functions@[i]).wf() by {
            assert(crate::isel::some_selected(
                dag_pre.functions@[i],
                dag_module.functions@[i],
            ));
            let sel = choose|sel: Map<usize, usize>|
                crate::isel::selected_fn_ok(
                    dag_pre.functions@[i],
                    dag_module.functions@[i],
                    sel,
                );
        }
    }
    let ghost dag_sel = dag_module;
    let mut machine_module = match crate::mc_convert::convert_module(dag_module) {
        Ok(mm) => mm,
        Err(e) => {
            proof {
                if e == CodegenError::NoSelectionPatternMatched {
                    let i = choose|i: int|
                        0 <= i < dag_sel.functions@.len() && noselect_defect(
                            #[trigger] dag_sel.functions@[i],
                        );
                    assert(some_built(old(module).functions@[i], dag_pre.functions@[i]));
                    assert(some_selected(dag_pre.functions@[i], dag_sel.functions@[i]));
                    assert(lowering_noselect_defect(old(module).functions@[i]));
                } else {
                    let i = choose|i: int|
                        0 <= i < dag_sel.functions@.len() && malformed_defect(
                            #[trigger] dag_sel.functions@[i],
                        );
                    assert(some_built(old(module).functions@[i], dag_pre.functions@[i]));
                    assert(some_selected(dag_pre.functions@[i], dag_sel.functions@[i]));
                    assert(lowering_malformed_defect(old(module).functions@[i]));
                }
            }
            return Err(e);
        },
    };
    proof {
        assert forall|i: int| 0 <= i < machine_module.functions@.len() implies m_iseq_disjoint(
            #[trigger] machine_module.functions@[i],
        ) by {
            lemma_consecutive_iseq_disjoint(machine_module.functions@[i]);
        }
    }
    let ghost mm_pre = machine_module;
    let mut analysis = LivenessAnalysis::new();
    analysis.analyze_module(&mut machine_module);
    proof {
        assert forall|i: int| 0 <= i < machine_module.functions@.len() implies pipeline_image(
            #[trigger] old(module).functions@[i],
            #[trigger] machine_module.functions@[i],
        ) by {
            assert(some_built(old(module).functions@[i], dag_pre.functions@[i]));
            assert(some_selected(dag_pre.functions@[i], dag_sel.functions@[i]));
            assert(some_lowered(dag_sel.functions@[i], mm_pre.functions@[i]));
            crate::mc_convert::lemma_some_lowered_same_shape(
                dag_sel.functions@[i],
                mm_pre.functions@[i],
                machine_module.functions@[i],
            );
        }
    }
    Ok(machine_module)
}

} // verus!
