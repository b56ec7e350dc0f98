use crate::dag::{
    node_models_inst, spec_node_kind_of, DAGBasicBlock, DAGFunction, DAGModule, DAGNode,
    IRNodeKind, NodeKind,
};
use crate::frame_object::LocalVariables;
use crate::ir::{Function, Instruction, Module, Opcode, Operand, Value};
use crate::pipeline::CodegenError;
use vstd::prelude::*;

verus! {

/// The builder accepts this instruction: an `alloca` carries exactly its
/// allocated type, and every other supported opcode carries only values.
pub open spec fn inst_ok(inst: Instruction) -> bool {
    if inst.opcode == Opcode::Alloca {
        inst.operands@.len() == 1 && inst.operands@[0] is Type
    } else {
        &&& spec_node_kind_of(inst.opcode) is Some
        &&& forall|k: int|
            0 <= k < inst.operands@.len() ==> crate::dag::is_value_operand(
                #[trigger] inst.operands@[k],
            )
    }
}

/// The node standing for the instruction with arena id `id` is in place:
/// a frame-index leaf of the allocated type for an `alloca`, a modelling
/// operation node for everything else.
pub open spec fn inst_modeled(
    arena: Seq<DAGNode>,
    node_map: Seq<Option<usize>>,
    insts: Seq<Instruction>,
    id: int,
) -> bool {
    match node_map[id] {
        Some(n) => if insts[id].opcode == Opcode::Alloca {
            n < arena.len() && match arena[n as int].kind {
                NodeKind::FrameIndex(fi) => match insts[id].operands@[0] {
                    Operand::Type(t) => fi.ty == t && fi.idx is Local,
                    _ => false,
                },
                _ => false,
            }
        } else {
            node_models_inst(arena, node_map, insts[id], n)
        },
        None => false,
    }
}

/// The handles the listed non-alloca instructions of a block map to, in
/// order: the block's emission order.
pub open spec fn dag_iseq_expected(
    insts: Seq<Instruction>,
    node_map: Seq<Option<usize>>,
    iseq: Seq<Value>,
    pos: int,
) -> Seq<usize>
    decreases pos,
{
    if pos <= 0 {
        Seq::empty()
    } else {
        let rest = dag_iseq_expected(insts, node_map, iseq, pos - 1);
        match iseq[pos - 1] {
            Value::Instruction(id) => if insts[id as int].opcode == Opcode::Alloca {
                rest
            } else {
                rest.push(node_map[id as int].unwrap())
            },
            _ => rest,
        }
    }
}

/// The allocated types of the first `pos` instructions of one block, in
/// order: one entry per `alloca`.
pub open spec fn block_alloca_tys(
    insts: Seq<Instruction>,
    iseq: Seq<Value>,
    pos: int,
) -> Seq<crate::types::Type>
    decreases pos,
{
    if pos <= 0 {
        Seq::empty()
    } else {
        let rest = block_alloca_tys(insts, iseq, pos - 1);
        match iseq[pos - 1] {
            Value::Instruction(id) => if insts[id as int].opcode == Opcode::Alloca {
                match insts[id as int].operands@[0] {
                    Operand::Type(t) => rest.push(t),
                    _ => rest,
                }
            } else {
                rest
            },
            _ => rest,
        }
    }
}

/// The allocated types of the first `nb` blocks, in traversal order.
pub open spec fn alloca_tys_upto(
    insts: Seq<Instruction>,
    iseqs: Seq<Seq<Value>>,
    nb: int,
) -> Seq<crate::types::Type>
    decreases nb,
{
    if nb <= 0 {
        Seq::empty()
    } else {
        alloca_tys_upto(insts, iseqs, nb - 1) + block_alloca_tys(
            insts,
            iseqs[nb - 1],
            iseqs[nb - 1].len() as int,
        )
    }
}

/// Every allocated type of the function, in traversal order: the frame
/// objects the builder reserves, one per `alloca`.
pub open spec fn alloca_tys(f: Function) -> Seq<crate::types::Type> {
    alloca_tys_upto(
        f.inst_table@,
        Seq::new(f.basic_blocks@.len(), |b: int| f.basic_blocks@[b].iseq@),
        f.basic_blocks@.len() as int,
    )
}

/// The arena holds nothing besides the nodes the builder makes: constant
/// leaves, frame-index leaves, and the one node of each listed
/// instruction. A built image therefore has no stray operation nodes, and
/// whether each of its nodes is selectable is fixed by the input function.
#[verifier::opaque]
pub open spec fn arena_inventory(
    f: Function,
    arena: Seq<DAGNode>,
    node_map: Seq<Option<usize>>,
) -> bool {
    forall|h: int|
        0 <= h < arena.len() ==> {
            ||| (#[trigger] arena[h]).kind is Constant
            ||| arena[h].kind is FrameIndex
            ||| exists|b: int, k: int|
                0 <= b < f.basic_blocks@.len() && 0 <= k < f.basic_blocks@[b].iseq@.len()
                    && match #[trigger] f.basic_blocks@[b].iseq@[k] {
                    Value::Instruction(id) => node_map[id as int] == Some(h as usize),
                    _ => false,
                }
        }
}

/// What the builder promises of a produced DAG function: a well-formed
/// graph over the same control flow, one modelling node per instruction,
/// shared through `node_map`, and one frame object per `alloca`.
pub open spec fn built_ok(f: Function, df: DAGFunction, node_map: Seq<Option<usize>>) -> bool {
    &&& arena_inventory(f, df.arena@, node_map)
    &&& df.arena@.len() <= usize::MAX
    &&& df.wf()
    &&& df.name == f.name
    &&& df.ret_ty == f.ret_ty
    &&& df.local_mgr.wf()
    &&& df.local_mgr.locals@.len() == alloca_tys(f).len()
    &&& forall|j: int|
        0 <= j < df.local_mgr.locals@.len() ==> (#[trigger] df.local_mgr.locals@[j]).ty
            == alloca_tys(f)[j]
    &&& df.dag_basic_blocks@.len() == f.basic_blocks@.len()
    &&& node_map.len() == f.inst_table@.len()
    &&& forall|b: int|
        0 <= b < f.basic_blocks@.len() ==> (#[trigger] df.dag_basic_blocks@[b]).pred@
            == f.basic_blocks@[b].pred@ && df.dag_basic_blocks@[b].succ@
            == f.basic_blocks@[b].succ@
    &&& forall|b: int|
        0 <= b < f.basic_blocks@.len() ==> (#[trigger] df.dag_basic_blocks@[b]).iseq@
            == dag_iseq_expected(
            f.inst_table@,
            node_map,
            f.basic_blocks@[b].iseq@,
            f.basic_blocks@[b].iseq@.len() as int,
        )
    &&& forall|b: int, k: int|
        0 <= b < f.basic_blocks@.len() && 0 <= k < f.basic_blocks@[b].iseq@.len()
            ==> match #[trigger] f.basic_blocks@[b].iseq@[k] {
            Value::Instruction(id) => inst_modeled(df.arena@, node_map, f.inst_table@, id as int),
            _ => false,
        }
}

/// No instruction id is listed twice across the blocks' orders.
pub open spec fn ir_iseq_disjoint(f: Function) -> bool {
    forall|b1: int, k1: int, b2: int, k2: int|
        0 <= b1 < f.basic_blocks@.len() && 0 <= k1 < f.basic_blocks@[b1].iseq@.len() && 0 <= b2
            < f.basic_blocks@.len() && 0 <= k2 < f.basic_blocks@[b2].iseq@.len() && !(b1 == b2 && k1
            == k2) ==> (#[trigger] f.basic_blocks@[b1].iseq@[k1]) != (#[trigger] f.basic_blocks@[
        b2].iseq@[k2])
}

/// Every listed instruction is one the builder accepts.
pub open spec fn fn_buildable(f: Function) -> bool {
    forall|b: int, k: int|
        0 <= b < f.basic_blocks@.len() && 0 <= k < f.basic_blocks@[b].iseq@.len()
            ==> match #[trigger] f.basic_blocks@[b].iseq@[k] {
            Value::Instruction(id) => inst_ok(f.inst_table@[id as int]),
            _ => false,
        }
}

/// The instruction producing `uid` is listed strictly before slot `(b, k)`
/// in traversal order.
pub open spec fn defined_before(f: Function, uid: usize, b: int, k: int) -> bool {
    exists|b2: int, k2: int|
        0 <= b2 < f.basic_blocks@.len() && 0 <= k2 < f.basic_blocks@[b2].iseq@.len() && (b2 < b
            || (b2 == b && k2 < k)) && #[trigger] f.basic_blocks@[b2].iseq@[k2]
            == Value::Instruction(uid)
}

/// Every value operand of the instruction at slot `(b, k)` was produced by
/// an earlier-listed instruction.
pub open spec fn inst_uses_defined(f: Function, id: int, b: int, k: int) -> bool {
    forall|j: int|
        0 <= j < f.inst_table@[id].operands@.len() ==> match #[trigger] f.inst_table@[
        id].operands@[j] {
            Operand::Value(Value::Instruction(uid)) => defined_before(f, uid, b, k),
            _ => true,
        }
}

/// Every use in the function follows the definition it names, in traversal
/// order; the builder refuses anything else as malformed control flow.
pub open spec fn uses_follow_defs(f: Function) -> bool {
    forall|b: int, k: int|
        0 <= b < f.basic_blocks@.len() && 0 <= k < f.basic_blocks@[b].iseq@.len()
            ==> match #[trigger] f.basic_blocks@[b].iseq@[k] {
            Value::Instruction(id) => inst_uses_defined(f, id as int, b, k),
            _ => true,
        }
}

/// A listed instruction the builder cannot accept refutes buildability.
proof fn lemma_not_buildable_here(f: Function, b: int, k: int, id: usize)
    requires
        0 <= b < f.basic_blocks@.len(),
        0 <= k < f.basic_blocks@[b].iseq@.len(),
        f.basic_blocks@[b].iseq@[k] == Value::Instruction(id),
        !inst_ok(f.inst_table@[id as int]),
    ensures
        !fn_buildable(f),
{
    if fn_buildable(f) {
        assert(inst_ok(f.inst_table@[id as int]));
    }
}

/// A use whose producing instruction is not listed earlier refutes the
/// definition-before-use discipline.
proof fn lemma_not_uses_follow_here(f: Function, b: int, k: int, id: usize, j: int, uid: usize)
    requires
        0 <= b < f.basic_blocks@.len(),
        0 <= k < f.basic_blocks@[b].iseq@.len(),
        f.basic_blocks@[b].iseq@[k] == Value::Instruction(id),
        0 <= j < f.inst_table@[id as int].operands@.len(),
        f.inst_table@[id as int].operands@[j] == Operand::Value(Value::Instruction(uid)),
        !defined_before(f, uid, b, k),
    ensures
        !uses_follow_defs(f),
{
    if uses_follow_defs(f) {
        assert(inst_uses_defined(f, id as int, b, k));
        assert(match f.inst_table@[id as int].operands@[j] {
            Operand::Value(Value::Instruction(uid2)) => defined_before(f, uid2, b, k),
            _ => true,
        });
    }
}

/// Builds the per-block operation graphs of one IR function. Each
/// instruction becomes one node; a value used by several instructions is
/// one shared node, referenced by every user. An `alloca` becomes a local
/// frame object and a frame-index leaf. An opcode the builder has no node
/// for refuses the function; a value used before the instruction producing
/// it was seen refuses it as malformed.
#[verifier::rlimit(60)]
pub fn convert_function(f: &Function) -> (r: Result<(DAGFunction, Vec<Option<usize>>), CodegenError>)
    requires
        f.wf(),
        ir_iseq_disjoint(*f),
        f.inst_table@.len() < usize::MAX,
    ensures
        match r {
            Ok(pair) => built_ok(*f, pair.0, pair.1@) && fn_buildable(*f) && uses_follow_defs(*f),
            Err(e) => {
                ||| (e == CodegenError::UnsupportedIRConstruct && !fn_buildable(*f))
                ||| (e == CodegenError::MalformedControlFlow && !uses_follow_defs(*f))
            },
        },
        fn_buildable(*f) && uses_follow_defs(*f) ==> r is Ok,
{
    let nb = f.basic_blocks.len();
    let n_insts = f.inst_table.len();
    let mut arena: Vec<DAGNode> = Vec::new();
    let mut blocks: Vec<DAGBasicBlock> = Vec::new();
    let mut local_mgr = LocalVariables::new();
    let mut node_map: Vec<Option<usize>> = Vec::new();
    let mut z: usize = 0;
    while z < n_insts
        invariant
            z <= n_insts,
            node_map@.len() == z,
            forall|i: int| 0 <= i < z ==> (#[trigger] node_map@[i]) is None,
        decreases n_insts - z,
    {
        node_map.push(None);
        z = z + 1;
    }

    let ghost mut seen: Set<usize> = Set::empty();
    let ghost iseqs_f = Seq::new(f.basic_blocks@.len(), |b: int| f.basic_blocks@[b].iseq@);
    proof {
        assert(arena_inventory(*f, arena@, node_map@)) by {
            reveal(crate::convert::arena_inventory);
        }
    }
    let mut b: usize = 0;
    while b < nb
        invariant
            b <= nb,
            nb == f.basic_blocks@.len(),
            n_insts == f.inst_table@.len(),
            f.wf(),
            ir_iseq_disjoint(*f),
            node_map@.len() == n_insts,
            local_mgr.wf(),
            local_mgr.locals@.len() == alloca_tys_upto(f.inst_table@, iseqs_f, b as int).len(),
            forall|j: int|
                0 <= j < local_mgr.locals@.len() ==> (#[trigger] local_mgr.locals@[j]).ty
                    == alloca_tys_upto(f.inst_table@, iseqs_f, b as int)[j],
            seen.finite(),
            forall|x: usize| #[trigger] seen.contains(x) ==> (x as int) < n_insts,
            local_mgr.cur_idx <= seen.len(),
            forall|id: int|
                0 <= id < n_insts ==> ((#[trigger] node_map@[id]) is Some <==> seen.contains(
                    id as usize,
                )),
            blocks@.len() == b,
            arena_inventory(*f, arena@, node_map@),
            forall|h: int, k: int|
                0 <= h < arena@.len() && 0 <= k < arena@[h].operands@.len() ==> (
                #[trigger] arena@[h].operands@[k]) < h,
            forall|j: int|
                0 <= j < b ==> (#[trigger] blocks@[j]).pred@ == f.basic_blocks@[j].pred@
                    && blocks@[j].succ@ == f.basic_blocks@[j].succ@,
            forall|j: int, k: int|
                0 <= j < b && 0 <= k < blocks@[j].iseq@.len() ==> (#[trigger] blocks@[j].iseq@[k])
                    < arena@.len(),
            forall|j: int|
                0 <= j < b ==> (#[trigger] blocks@[j]).entry == if blocks@[j].iseq@.len() > 0 {
                    Some(blocks@[j].iseq@[0])
                } else {
                    None::<usize>
                },
            forall|j: int|
                0 <= j < b ==> (#[trigger] blocks@[j]).iseq@ == dag_iseq_expected(
                    f.inst_table@,
                    node_map@,
                    f.basic_blocks@[j].iseq@,
                    f.basic_blocks@[j].iseq@.len() as int,
                ),
            forall|id: int|
                0 <= id < n_insts ==> ((#[trigger] node_map@[id]) is Some <==> exists|b2: int, k2: int|
                    0 <= b2 < b && 0 <= k2 < f.basic_blocks@[b2].iseq@.len()
                        && f.basic_blocks@[b2].iseq@[k2] == Value::Instruction(id as usize)),
            forall|id: int|
                0 <= id < n_insts ==> match #[trigger] node_map@[id] {
                    Some(n) => n < arena@.len(),
                    None => true,
                },
            forall|b2: int, k2: int|
                0 <= b2 < b && 0 <= k2 < f.basic_blocks@[b2].iseq@.len()
                    ==> match #[trigger] f.basic_blocks@[b2].iseq@[k2] {
                    Value::Instruction(id) => inst_modeled(arena@, node_map@, f.inst_table@, id as int)
                        && inst_ok(f.inst_table@[id as int]) && inst_uses_defined(
                        *f,
                        id as int,
                        b2,
                        k2,
                    ),
                    _ => false,
                },
        decreases nb - b,
    {
        let mut pl: Vec<usize> = Vec::new();
        let npred = f.basic_blocks[b].pred.len();
        let mut k: usize = 0;
        while k < npred
            invariant
                k <= npred,
                b < nb,
                nb == f.basic_blocks@.len(),
                npred == f.basic_blocks@[b as int].pred@.len(),
                pl@ == f.basic_blocks@[b as int].pred@.subrange(0, k as int),
            decreases npred - k,
        {
            pl.push(f.basic_blocks[b].pred[k]);
            proof {
                assert(pl@ =~= f.basic_blocks@[b as int].pred@.subrange(0, k as int + 1));
            }
            k = k + 1;
        }
        let mut sl: Vec<usize> = Vec::new();
        let nsucc = f.basic_blocks[b].succ.len();
        let mut k2: usize = 0;
        while k2 < nsucc
            invariant
                k2 <= nsucc,
                b < nb,
                nb == f.basic_blocks@.len(),
                nsucc == f.basic_blocks@[b as int].succ@.len(),
                sl@ == f.basic_blocks@[b as int].succ@.subrange(0, k2 as int),
            decreases nsucc - k2,
        {
            sl.push(f.basic_blocks[b].succ[k2]);
            proof {
                assert(sl@ =~= f.basic_blocks@[b as int].succ@.subrange(0, k2 as int + 1));
            }
            k2 = k2 + 1;
        }
        proof {
            assert(pl@ =~= f.basic_blocks@[b as int].pred@);
            assert(sl@ =~= f.basic_blocks@[b as int].succ@);
        }

        let np = f.basic_blocks[b].iseq.len();
        let mut iseq: Vec<usize> = Vec::new();
        let mut consts: Vec<(i32, usize)> = Vec::new();
        let mut pos: usize = 0;
        while pos < np
            invariant
                pos <= np,
                b < nb,
                nb == f.basic_blocks@.len(),
                n_insts == f.inst_table@.len(),
                np == f.basic_blocks@[b as int].iseq@.len(),
                f.wf(),
                ir_iseq_disjoint(*f),
                node_map@.len() == n_insts,
                local_mgr.wf(),
                local_mgr.locals@.len() == (alloca_tys_upto(f.inst_table@, iseqs_f, b as int)
                    + block_alloca_tys(
                    f.inst_table@,
                    f.basic_blocks@[b as int].iseq@,
                    pos as int,
                )).len(),
                forall|j: int|
                    0 <= j < local_mgr.locals@.len() ==> (#[trigger] local_mgr.locals@[j]).ty == (
                    alloca_tys_upto(f.inst_table@, iseqs_f, b as int) + block_alloca_tys(
                        f.inst_table@,
                        f.basic_blocks@[b as int].iseq@,
                        pos as int,
                    ))[j],
                seen.finite(),
                forall|x: usize| #[trigger] seen.contains(x) ==> (x as int) < n_insts,
                local_mgr.cur_idx <= seen.len(),
                forall|id: int|
                    0 <= id < n_insts ==> ((#[trigger] node_map@[id]) is Some <==> seen.contains(
                        id as usize,
                    )),
                blocks@.len() == b,
                arena_inventory(*f, arena@, node_map@),
                forall|h: int, k3: int|
                    0 <= h < arena@.len() && 0 <= k3 < arena@[h].operands@.len() ==> (
                    #[trigger] arena@[h].operands@[k3]) < h,
                forall|j: int|
                    0 <= j < b ==> (#[trigger] blocks@[j]).pred@ == f.basic_blocks@[j].pred@
                        && blocks@[j].succ@ == f.basic_blocks@[j].succ@,
                forall|j: int, k3: int|
                    0 <= j < b && 0 <= k3 < blocks@[j].iseq@.len() ==> (
                    #[trigger] blocks@[j].iseq@[k3]) < arena@.len(),
                forall|j: int|
                    0 <= j < b ==> (#[trigger] blocks@[j]).entry == if blocks@[j].iseq@.len()
                        > 0 {
                        Some(blocks@[j].iseq@[0])
                    } else {
                        None::<usize>
                    },
                forall|j: int|
                    0 <= j < b ==> (#[trigger] blocks@[j]).iseq@ == dag_iseq_expected(
                        f.inst_table@,
                        node_map@,
                        f.basic_blocks@[j].iseq@,
                        f.basic_blocks@[j].iseq@.len() as int,
                    ),
                forall|k3: int|
                    0 <= k3 < iseq@.len() ==> (#[trigger] iseq@[k3]) < arena@.len(),
                iseq@ == dag_iseq_expected(
                    f.inst_table@,
                    node_map@,
                    f.basic_blocks@[b as int].iseq@,
                    pos as int,
                ),
                forall|c: int|
                    0 <= c < consts@.len() ==> (#[trigger] consts@[c]).1 < arena@.len()
                        && arena@[consts@[c].1 as int].kind == NodeKind::Constant(consts@[c].0)
                        && arena@[consts@[c].1 as int].ty == crate::types::Type::Int32,
                forall|id: int|
                    0 <= id < n_insts ==> ((#[trigger] node_map@[id]) is Some <==> exists|
                        b2: int,
                        k3: int,
                    |
                        0 <= b2 < nb && 0 <= k3 < f.basic_blocks@[b2].iseq@.len() && (b2 < b || (b2
                            == b && k3 < pos)) && f.basic_blocks@[b2].iseq@[k3]
                            == Value::Instruction(id as usize)),
                forall|id: int|
                    0 <= id < n_insts ==> match #[trigger] node_map@[id] {
                        Some(n) => n < arena@.len(),
                        None => true,
                    },
                forall|b2: int, k3: int|
                    0 <= b2 < nb && 0 <= k3 < f.basic_blocks@[b2].iseq@.len() && (b2 < b || (b2 == b
                        && k3 < pos)) ==> match #[trigger] f.basic_blocks@[b2].iseq@[k3] {
                        Value::Instruction(id) => inst_modeled(
                            arena@,
                            node_map@,
                            f.inst_table@,
                            id as int,
                        ) && inst_ok(f.inst_table@[id as int]) && inst_uses_defined(
                            *f,
                            id as int,
                            b2,
                            k3,
                        ),
                        _ => false,
                    },
            decreases np - pos,
        {
            let inst_val = f.basic_blocks[b].iseq[pos];
            let inst_id = match inst_val.get_inst_id() {
                Some(id) => id,
                None => {
                    proof {
                        assert(false);
                    }
                    0
                },
            };
            let ghost arena_pre = arena@;
            let ghost map_pre = node_map@;
            let opcode = f.inst_table[inst_id].opcode;
            if opcode == Opcode::Alloca {
                if f.inst_table[inst_id].operands.len() != 1 {
                    proof {
                        lemma_not_buildable_here(*f, b as int, pos as int, inst_id);
                    }
                    return Err(CodegenError::UnsupportedIRConstruct);
                }
                let t = match f.inst_table[inst_id].operands[0] {
                    Operand::Type(t) => t,
                    _ => {
                        proof {
                            lemma_not_buildable_here(*f, b as int, pos as int, inst_id);
                        }
                        return Err(CodegenError::UnsupportedIRConstruct);
                    },
                };
                proof {
                    crate::dataflow::lemma_usize_set_len_bound(seen, n_insts as nat);
                }
                let fi = local_mgr.allocate(&t);
                let n = arena.len();
                arena.push(DAGNode::new(NodeKind::FrameIndex(fi), Vec::new(), t));
                node_map[inst_id] = Some(n);
                proof {
                    assert((alloca_tys_upto(f.inst_table@, iseqs_f, b as int) + block_alloca_tys(
                        f.inst_table@,
                        f.basic_blocks@[b as int].iseq@,
                        pos as int + 1,
                    )) =~= (alloca_tys_upto(f.inst_table@, iseqs_f, b as int) + block_alloca_tys(
                        f.inst_table@,
                        f.basic_blocks@[b as int].iseq@,
                        pos as int,
                    )).push(t));
                    assert(inst_ok(f.inst_table@[inst_id as int]));
                    assert(inst_uses_defined(*f, inst_id as int, b as int, pos as int)) by {
                        assert forall|j: int|
                            0 <= j < f.inst_table@[inst_id as int].operands@.len() implies match
                            #[trigger] f.inst_table@[inst_id as int].operands@[j] {
                            Operand::Value(Value::Instruction(uid)) => defined_before(
                                *f,
                                uid,
                                b as int,
                                pos as int,
                            ),
                            _ => true,
                        } by {
                        }
                    }
                }
            } else {
                let ndk = match opcode {
                    Opcode::Add => IRNodeKind::Add,
                    Opcode::Sub => IRNodeKind::Sub,
                    Opcode::Mul => IRNodeKind::Mul,
                    Opcode::Load => IRNodeKind::Load,
                    Opcode::Store => IRNodeKind::Store,
                    Opcode::Ret => IRNodeKind::Ret,
                    _ => {
                        proof {
                            lemma_not_buildable_here(*f, b as int, pos as int, inst_id);
                        }
                        return Err(CodegenError::UnsupportedIRConstruct);
                    },
                };
                let nops = f.inst_table[inst_id].operands.len();
                let mut dops: Vec<usize> = Vec::new();
                let mut oi: usize = 0;
                while oi < nops
                    invariant
                        oi <= nops,
                        b < nb,
                        pos < np,
                        inst_id < n_insts,
                        nb == f.basic_blocks@.len(),
                        n_insts == f.inst_table@.len(),
                        np == f.basic_blocks@[b as int].iseq@.len(),
                        f.wf(),
                        node_map@ == map_pre,
                        node_map@.len() == n_insts,
                        nops == f.inst_table@[inst_id as int].operands@.len(),
                        forall|h: int, k3: int|
                            0 <= h < arena@.len() && 0 <= k3 < arena@[h].operands@.len() ==> (
                            #[trigger] arena@[h].operands@[k3]) < h,
                        arena_pre.len() <= arena@.len(),
                        forall|h: int| 0 <= h < arena_pre.len() ==> arena@[h] == arena_pre[h],
                        forall|h2: int|
                            arena_pre.len() <= h2 < arena@.len() ==> (#[trigger] arena@[h2]).kind
                                is Constant,
                        forall|id: int|
                            0 <= id < n_insts ==> match #[trigger] node_map@[id] {
                                Some(n) => n < arena@.len(),
                                None => true,
                            },
                        dops@.len() == oi,
                        forall|k3: int|
                            0 <= k3 < oi ==> (#[trigger] dops@[k3]) < arena@.len()
                                && crate::dag::operand_models(
                                arena@,
                                node_map@,
                                f.inst_table@[inst_id as int].operands@[k3],
                                dops@[k3],
                            ),
                        forall|c: int|
                            0 <= c < consts@.len() ==> (#[trigger] consts@[c]).1 < arena@.len()
                                && arena@[consts@[c].1 as int].kind == NodeKind::Constant(
                                consts@[c].0,
                            ) && arena@[consts@[c].1 as int].ty == crate::types::Type::Int32,
                    decreases nops - oi,
                {
                    let op = f.inst_table[inst_id].operands[oi];
                    match op {
                        Operand::Value(Value::Instruction(uid)) => {
                            match node_map[uid] {
                                Some(dn) => {
                                    dops.push(dn);
                                },
                                None => {
                                    proof {
                                        assert(uid < n_insts);
                                        assert(!defined_before(*f, uid, b as int, pos as int))
                                            by {
                                            if defined_before(*f, uid, b as int, pos as int) {
                                                assert(node_map@[uid as int] is Some);
                                            }
                                        }
                                        lemma_not_uses_follow_here(
                                            *f,
                                            b as int,
                                            pos as int,
                                            inst_id,
                                            oi as int,
                                            uid,
                                        );
                                    }
                                    return Err(CodegenError::MalformedControlFlow);
                                },
                            }
                        },
                        Operand::Value(Value::Imm32(v)) => {
                            // constants are deduplicated per block: reuse a
                            // node already made for this value
                            let mut found: Option<usize> = None;
                            let nc = consts.len();
                            let mut ci: usize = 0;
                            while ci < nc
                                invariant
                                    ci <= nc,
                                    nc == consts@.len(),
                                    forall|c: int|
                                        0 <= c < consts@.len() ==> (#[trigger] consts@[c]).1
                                            < arena@.len() && arena@[consts@[c].1 as int].kind
                                            == NodeKind::Constant(consts@[c].0) && arena@[
                                        consts@[c].1 as int].ty == crate::types::Type::Int32,
                                    match found {
                                        Some(n) => n < arena@.len() && arena@[n as int].kind
                                            == NodeKind::Constant(v) && arena@[n as int].ty
                                            == crate::types::Type::Int32,
                                        None => true,
                                    },
                                decreases nc - ci,
                            {
                                if consts[ci].0 == v {
                                    found = Some(consts[ci].1);
                                }
                                ci = ci + 1;
                            }
                            match found {
                                Some(n) => {
                                    dops.push(n);
                                },
                                None => {
                                    let cn = arena.len();
                                    arena.push(
                                        DAGNode::new(
                                            NodeKind::Constant(v),
                                            Vec::new(),
                                            crate::types::Type::Int32,
                                        ),
                                    );
                                    consts.push((v, cn));
                                    dops.push(cn);
                                },
                            }
                        },
                        _ => {
                            proof {
                                assert(!inst_ok(f.inst_table@[inst_id as int])) by {
                                    if inst_ok(f.inst_table@[inst_id as int]) {
                                        assert(crate::dag::is_value_operand(
                                            f.inst_table@[inst_id as int].operands@[oi as int],
                                        ));
                                    }
                                }
                                lemma_not_buildable_here(*f, b as int, pos as int, inst_id);
                            }
                            return Err(CodegenError::UnsupportedIRConstruct);
                        },
                    }
                    oi = oi + 1;
                }
                let ghost dops_view = dops@;
                let ghost arena_before_node = arena@;
                let n = arena.len();
                arena.push(DAGNode::new(NodeKind::IR(ndk), dops, f.inst_table[inst_id].ty));
                node_map[inst_id] = Some(n);
                iseq.push(n);
                proof {
                    assert forall|k4: int|
                        0 <= k4 < f.inst_table@[inst_id as int].operands@.len() implies
                        crate::dag::is_value_operand(
                        #[trigger] f.inst_table@[inst_id as int].operands@[k4],
                    ) by {
                        assert(crate::dag::operand_models(
                            arena_before_node,
                            map_pre,
                            f.inst_table@[inst_id as int].operands@[k4],
                            dops_view[k4],
                        ));
                    }
                    assert(inst_ok(f.inst_table@[inst_id as int]));
                    assert forall|j: int|
                        0 <= j < f.inst_table@[inst_id as int].operands@.len() implies match
                        #[trigger] f.inst_table@[inst_id as int].operands@[j] {
                        Operand::Value(Value::Instruction(uid)) => defined_before(
                            *f,
                            uid,
                            b as int,
                            pos as int,
                        ),
                        _ => true,
                    } by {
                        match f.inst_table@[inst_id as int].operands@[j] {
                            Operand::Value(Value::Instruction(uid)) => {
                                assert(crate::dag::operand_models(
                                    arena_before_node,
                                    map_pre,
                                    f.inst_table@[inst_id as int].operands@[j],
                                    dops_view[j],
                                ));
                                assert(map_pre[uid as int] is Some);
                                let (b3, k3x) = choose|b3: int, k3x: int|
                                    0 <= b3 < nb && 0 <= k3x < f.basic_blocks@[b3].iseq@.len() && (
                                    b3 < b || (b3 == b && k3x < pos)) && f.basic_blocks@[
                                    b3].iseq@[k3x] == Value::Instruction(uid);
                                assert(defined_before(*f, uid, b as int, pos as int));
                            },
                            _ => {},
                        }
                    }
                    assert(inst_uses_defined(*f, inst_id as int, b as int, pos as int));
                }
            }
            proof {
                assert(node_map@ =~= map_pre.update(inst_id as int, Some(node_map@[
                    inst_id as int].unwrap())));
                assert(!seen.contains(inst_id)) by {
                    if seen.contains(inst_id) {
                        assert(map_pre[inst_id as int] is Some);
                        let (b2, k2) = choose|b2: int, k2: int|
                            0 <= b2 < nb && 0 <= k2 < f.basic_blocks@[b2].iseq@.len() && (b2 < b
                                || (b2 == b && k2 < pos)) && f.basic_blocks@[b2].iseq@[k2]
                                == Value::Instruction(inst_id);
                        assert(f.basic_blocks@[b2].iseq@[k2] != f.basic_blocks@[b as int].iseq@[
                            pos as int]);
                    }
                }
                seen = seen.insert(inst_id);
                assert(arena_inventory(*f, arena@, node_map@)) by {
                    reveal(crate::convert::arena_inventory);
                    assert forall|h: int| 0 <= h < arena@.len() implies {
                        ||| (#[trigger] arena@[h]).kind is Constant
                        ||| arena@[h].kind is FrameIndex
                        ||| exists|b2: int, k2: int|
                            0 <= b2 < f.basic_blocks@.len() && 0 <= k2
                                < f.basic_blocks@[b2].iseq@.len() && match
                                #[trigger] f.basic_blocks@[b2].iseq@[k2] {
                                Value::Instruction(id) => node_map@[id as int] == Some(
                                    h as usize,
                                ),
                                _ => false,
                            }
                    } by {
                        if !(arena@[h].kind is Constant) && !(arena@[h].kind is FrameIndex) {
                            if node_map@[inst_id as int] == Some(h as usize) {
                                assert(match f.basic_blocks@[b as int].iseq@[pos as int] {
                                    Value::Instruction(id) => node_map@[id as int] == Some(
                                        h as usize,
                                    ),
                                    _ => false,
                                });
                            } else {
                                assert(h < arena_pre.len());
                                assert(arena_pre[h].kind is Constant || arena_pre[h].kind
                                    is FrameIndex || exists|b2: int, k2: int|
                                    0 <= b2 < f.basic_blocks@.len() && 0 <= k2 < f.basic_blocks@[
                                    b2].iseq@.len() && match #[trigger] f.basic_blocks@[
                                    b2].iseq@[k2] {
                                        Value::Instruction(id) => map_pre[id as int] == Some(
                                            h as usize,
                                        ),
                                        _ => false,
                                    });
                                let (b2, k2) = choose|b2: int, k2: int|
                                    0 <= b2 < f.basic_blocks@.len() && 0 <= k2 < f.basic_blocks@[
                                    b2].iseq@.len() && match #[trigger] f.basic_blocks@[
                                    b2].iseq@[k2] {
                                        Value::Instruction(id) => map_pre[id as int] == Some(
                                            h as usize,
                                        ),
                                        _ => false,
                                    };
                                match f.basic_blocks@[b2].iseq@[k2] {
                                    Value::Instruction(id2) => {
                                        assert(id2 != inst_id);
                                        assert(node_map@[id2 as int] == map_pre[id2 as int]);
                                    },
                                    _ => {},
                                }
                            }
                        }
                    }
                }
                assert forall|id: int|
                    0 <= id < n_insts implies ((#[trigger] node_map@[id]) is Some <==> exists|
                    b2: int,
                    k3: int,
                |
                    0 <= b2 < nb && 0 <= k3 < f.basic_blocks@[b2].iseq@.len() && (b2 < b || (b2 == b
                        && k3 < pos + 1)) && f.basic_blocks@[b2].iseq@[k3] == Value::Instruction(
                        id as usize,
                    )) by {
                    if id == inst_id {
                        assert(f.basic_blocks@[b as int].iseq@[pos as int] == Value::Instruction(
                            id as usize,
                        ));
                    } else {
                        assert(node_map@[id] == map_pre[id]);
                    }
                }
                assert forall|b2: int, k3: int|
                    0 <= b2 < nb && 0 <= k3 < f.basic_blocks@[b2].iseq@.len() && (b2 < b || (b2 == b
                        && k3 < pos + 1)) implies match #[trigger] f.basic_blocks@[b2].iseq@[k3] {
                    Value::Instruction(id) => inst_modeled(arena@, node_map@, f.inst_table@, id as int)
                        && inst_ok(f.inst_table@[id as int]) && inst_uses_defined(
                        *f,
                        id as int,
                        b2,
                        k3,
                    ),
                    _ => false,
                } by {
                    if b2 == b && k3 == pos {
                        assert(inst_ok(f.inst_table@[inst_id as int]));
                        assert(inst_uses_defined(*f, inst_id as int, b as int, pos as int));
                    } else {
                        let id2 = f.basic_blocks@[b2].iseq@[k3]->Instruction_0;
                        assert(f.basic_blocks@[b2].iseq@[k3] != f.basic_blocks@[b as int].iseq@[
                            pos as int]);
                        assert(id2 != inst_id);
                        assert(node_map@[id2 as int] == map_pre[id2 as int]);
                    }
                }
                assert forall|j: int|
                    0 <= j < b implies (#[trigger] blocks@[j]).iseq@ == dag_iseq_expected(
                    f.inst_table@,
                    node_map@,
                    f.basic_blocks@[j].iseq@,
                    f.basic_blocks@[j].iseq@.len() as int,
                ) by {
                    lemma_dag_iseq_stable(
                        f.inst_table@,
                        map_pre,
                        node_map@,
                        f.basic_blocks@[j].iseq@,
                        f.basic_blocks@[j].iseq@.len() as int,
                        inst_id as int,
                    );
                }
                lemma_dag_iseq_stable(
                    f.inst_table@,
                    map_pre,
                    node_map@,
                    f.basic_blocks@[b as int].iseq@,
                    pos as int,
                    inst_id as int,
                );
                assert(iseq@ =~= dag_iseq_expected(
                    f.inst_table@,
                    node_map@,
                    f.basic_blocks@[b as int].iseq@,
                    pos as int + 1,
                ));
            }
            pos = pos + 1;
        }
        let entry = if iseq.len() > 0 {
            Some(iseq[0])
        } else {
            None
        };
        blocks.push(DAGBasicBlock { entry, iseq, pred: pl, succ: sl });
        proof {
            assert(iseqs_f[b as int] == f.basic_blocks@[b as int].iseq@);
            assert(alloca_tys_upto(f.inst_table@, iseqs_f, b as int + 1) =~= alloca_tys_upto(
                f.inst_table@,
                iseqs_f,
                b as int,
            ) + block_alloca_tys(
                f.inst_table@,
                f.basic_blocks@[b as int].iseq@,
                np as int,
            ));
        }
        b = b + 1;
    }

    let total_nodes = arena.len();
    proof {
        assert(arena@.len() == total_nodes);
        assert(alloca_tys(*f) =~= alloca_tys_upto(f.inst_table@, iseqs_f, nb as int));
        assert(fn_buildable(*f));
        assert(uses_follow_defs(*f)) by {
            assert forall|b2: int, k2: int|
                0 <= b2 < f.basic_blocks@.len() && 0 <= k2 < f.basic_blocks@[b2].iseq@.len()
                    implies match #[trigger] f.basic_blocks@[b2].iseq@[k2] {
                Value::Instruction(id) => inst_uses_defined(*f, id as int, b2, k2),
                _ => true,
            } by {
            }
        }
    }
    let df = DAGFunction {
        name: f.name.clone(),
        arena,
        dag_basic_blocks: blocks,
        local_mgr,
        ret_ty: f.ret_ty,
    };
    Ok((df, node_map))
}

/// A block's expected emission order only reads map entries of the ids it
/// lists; updating the entry of an id listed elsewhere leaves it unchanged.
proof fn lemma_dag_iseq_stable(
    insts: Seq<Instruction>,
    map1: Seq<Option<usize>>,
    map2: Seq<Option<usize>>,
    iseq: Seq<Value>,
    pos: int,
    changed: int,
)
    requires
        map1.len() == map2.len(),
        forall|i: int| 0 <= i < map1.len() && i != changed ==> map1[i] == map2[i],
        forall|k: int|
            0 <= k < pos ==> !((#[trigger] iseq[k]) matches Value::Instruction(id) && id == changed),
        forall|k: int|
            0 <= k < pos ==> match #[trigger] iseq[k] {
                Value::Instruction(id) => id < map1.len(),
                _ => true,
            },
    ensures
        dag_iseq_expected(insts, map1, iseq, pos) == dag_iseq_expected(insts, map2, iseq, pos),
    decreases pos,
{
    if pos > 0 {
        lemma_dag_iseq_stable(insts, map1, map2, iseq, pos - 1, changed);
        match iseq[pos - 1] {
            Value::Instruction(id) => {
                assert(id != changed);
                assert(map1[id as int] == map2[id as int]);
            },
            _ => {},
        }
    }
}

/// Some instruction-to-node map witnesses that `df` was built from `f`.
pub open spec fn some_built(f: Function, df: DAGFunction) -> bool {
    exists|nm: Seq<Option<usize>>| built_ok(f, df, nm)
}

/// Builds the operation graphs of every function of a module.
pub fn convert_module(module: &Module) -> (r: Result<DAGModule, CodegenError>)
    requires
        forall|i: int|
            0 <= i < module.functions@.len() ==> (#[trigger] module.functions@[i]).wf()
                && ir_iseq_disjoint(module.functions@[i])
                && module.functions@[i].inst_table@.len() < usize::MAX,
    ensures
        match r {
            Ok(dm) => {
                &&& dm.name == module.name
                &&& dm.types.compounds@ == module.types.compounds@
                &&& dm.functions@.len() == module.functions@.len()
                &&& forall|i: int|
                    0 <= i < module.functions@.len() ==> some_built(
                        #[trigger] module.functions@[i],
                        #[trigger] dm.functions@[i],
                    )
                &&& forall|i: int|
                    0 <= i < module.functions@.len() ==> fn_buildable(
                        #[trigger] module.functions@[i],
                    ) && uses_follow_defs(module.functions@[i])
            },
            Err(e) => {
                ||| (e == CodegenError::UnsupportedIRConstruct && exists|i: int|
                    0 <= i < module.functions@.len() && !fn_buildable(
                        #[trigger] module.functions@[i],
                    ))
                ||| (e == CodegenError::MalformedControlFlow && exists|i: int|
                    0 <= i < module.functions@.len() && !uses_follow_defs(
                        #[trigger] module.functions@[i],
                    ))
            },
        },
        (forall|i: int|
            0 <= i < module.functions@.len() ==> fn_buildable(#[trigger] module.functions@[i])
                && uses_follow_defs(module.functions@[i])) ==> r is Ok,
{
    let n = module.functions.len();
    let mut out: Vec<DAGFunction> = Vec::new();
    let mut i: usize = 0;
    while i < n
        invariant
            i <= n,
            n == module.functions@.len(),
            out@.len() == i,
            forall|j: int|
                0 <= j < n ==> (#[trigger] module.functions@[j]).wf() && ir_iseq_disjoint(
                    module.functions@[j],
                ) && module.functions@[j].inst_table@.len() < usize::MAX,
            forall|j: int|
                0 <= j < i ==> some_built(#[trigger] module.functions@[j], #[trigger] out@[j]),
            forall|j: int|
                0 <= j < i ==> fn_buildable(#[trigger] module.functions@[j]) && uses_follow_defs(
                    module.functions@[j],
                ),
        decreases n - i,
    {
        let ghost pre_out = out@;
        match convert_function(&module.functions[i]) {
            Ok((df, node_map)) => {
                let ghost nm = node_map@;
                let ghost dfv = df;
                out.push(df);
                proof {
                    assert(out@[i as int] == dfv);
                    assert(built_ok(module.functions@[i as int], out@[i as int], nm));
                    assert forall|j: int| 0 <= j < i + 1 implies some_built(
                        #[trigger] module.functions@[j],
                        #[trigger] out@[j],
                    ) by {
                        if j < i {
                            assert(some_built(module.functions@[j], pre_out[j]));
                            let nm3 = choose|nm3: Seq<Option<usize>>|
                                built_ok(module.functions@[j], pre_out[j], nm3);
                            assert(out@[j] == pre_out[j]);
                            assert(built_ok(module.functions@[j], out@[j], nm3));
                        }
                    }
                }
            },
            Err(e) => {
                return Err(e);
            },
        }
        i = i + 1;
    }
    let nc = module.types.compounds.len();
    let mut compounds = Vec::new();
    let mut c: usize = 0;
    while c < nc
        invariant
            c <= nc,
            nc == module.types.compounds@.len(),
            compounds@ == module.types.compounds@.subrange(0, c as int),
        decreases nc - c,
    {
        compounds.push(module.types.compounds[c]);
        proof {
            assert(compounds@ =~= module.types.compounds@.subrange(0, c as int + 1));
        }
        c = c + 1;
    }
    proof {
        assert(compounds@ =~= module.types.compounds@);
    }
    let types = crate::types::Types { compounds };
    Ok(DAGModule { name: module.name.clone(), functions: out, types })
}

} // verus!
