use crate::collections::IdMap;
use crate::dag::{DAGFunction, DAGModule, DAGNode, IRNodeKind, MINodeKind, NodeKind};
use crate::pipeline::CodegenError;
use crate::types::Type;
use vstd::prelude::*;

verus! {

/// The kind of the `k`-th operand's node.
pub open spec fn op_kind(arena: Seq<DAGNode>, h: int, k: int) -> NodeKind {
    arena[arena[h].operands@[k] as int].kind
}

/// The type of the `k`-th operand's node.
pub open spec fn op_ty(arena: Seq<DAGNode>, h: int, k: int) -> Type {
    arena[arena[h].operands@[k] as int].ty
}

/// The ordered pattern table of the selector, one row per IR operation
/// kind: the first operand-shape test that matches fixes the machine
/// opcode. `None` means no row matches and selection must fail; a result
/// that keeps the IR kind means the node is left for a later pass.
pub open spec fn spec_select_kind(arena: Seq<DAGNode>, h: int) -> Option<NodeKind> {
    let nd = arena[h];
    match nd.kind {
        NodeKind::IR(IRNodeKind::Add) => if nd.operands@.len() != 2 {
            None
        } else {
            let k0 = op_kind(arena, h, 0);
            let t0 = op_ty(arena, h, 0);
            let k1 = op_kind(arena, h, 1);
            let t1 = op_ty(arena, h, 1);
            if k0.spec_is_maybe_register() && t0 == Type::Int32 {
                if k1.spec_is_maybe_register() && t1 == Type::Int32 {
                    Some(NodeKind::MI(MINodeKind::ADDrr32))
                } else if k1.spec_is_constant() && t1 == Type::Int32 {
                    Some(NodeKind::MI(MINodeKind::ADDri32))
                } else {
                    Some(NodeKind::IR(IRNodeKind::Add))
                }
            } else if k0.spec_is_maybe_register() && (t0 == Type::Int64 || t0 is Pointer) {
                if k1.spec_is_constant() && t1 == Type::Int32 {
                    Some(NodeKind::MI(MINodeKind::ADDr64i32))
                } else {
                    Some(NodeKind::IR(IRNodeKind::Add))
                }
            } else {
                Some(NodeKind::IR(IRNodeKind::Add))
            }
        },
        NodeKind::IR(IRNodeKind::Sub) => if nd.operands@.len() != 2 {
            None
        } else {
            let k0 = op_kind(arena, h, 0);
            let t0 = op_ty(arena, h, 0);
            let k1 = op_kind(arena, h, 1);
            let t1 = op_ty(arena, h, 1);
            if k0.spec_is_maybe_register() && t0 == Type::Int32 {
                if k1.spec_is_maybe_register() && t1 == Type::Int32 {
                    Some(NodeKind::MI(MINodeKind::SUBrr32))
                } else if k1.spec_is_constant() && t1 == Type::Int32 {
                    Some(NodeKind::MI(MINodeKind::SUBri32))
                } else {
                    Some(NodeKind::IR(IRNodeKind::Sub))
                }
            } else {
                Some(NodeKind::IR(IRNodeKind::Sub))
            }
        },
        NodeKind::IR(IRNodeKind::Mul) => if nd.operands@.len() != 2 {
            None
        } else {
            let k0 = op_kind(arena, h, 0);
            let t0 = op_ty(arena, h, 0);
            let k1 = op_kind(arena, h, 1);
            let t1 = op_ty(arena, h, 1);
            if k0.spec_is_maybe_register() && t0 == Type::Int32 {
                if k1.spec_is_maybe_register() && t1 == Type::Int32 {
                    Some(NodeKind::MI(MINodeKind::IMULrr32))
                } else if k1.spec_is_constant() && t1 == Type::Int32 {
                    Some(NodeKind::MI(MINodeKind::IMULrri32))
                } else {
                    Some(NodeKind::IR(IRNodeKind::Mul))
                }
            } else if k0.spec_is_maybe_register() && t0 == Type::Int64 {
                if k1.spec_is_constant() && t1 == Type::Int32 {
                    Some(NodeKind::MI(MINodeKind::IMULrr64i32))
                } else {
                    Some(NodeKind::IR(IRNodeKind::Mul))
                }
            } else {
                Some(NodeKind::IR(IRNodeKind::Mul))
            }
        },
        NodeKind::IR(IRNodeKind::Load) => if nd.operands@.len() != 1 {
            None
        } else {
            let k0 = op_kind(arena, h, 0);
            let t0 = op_ty(arena, h, 0);
            if k0.spec_is_frame_index() {
                match t0 {
                    Type::Int32 => Some(NodeKind::MI(MINodeKind::MOVrm32)),
                    Type::Int64 => Some(NodeKind::MI(MINodeKind::MOVrm64)),
                    Type::Pointer(_) => Some(NodeKind::MI(MINodeKind::MOVrm64)),
                    _ => None,
                }
            } else if k0.spec_is_maybe_register() && t0 is Pointer {
                Some(NodeKind::MI(MINodeKind::MOVrp32))
            } else {
                None
            }
        },
        NodeKind::IR(IRNodeKind::Store) => if nd.operands@.len() != 2 {
            None
        } else {
            let k0 = op_kind(arena, h, 0);
            let t0 = op_ty(arena, h, 0);
            let k1 = op_kind(arena, h, 1);
            let t1 = op_ty(arena, h, 1);
            if k0.spec_is_frame_index() && t0 == Type::Int32 && k1.spec_is_maybe_register() && t1
                == Type::Int32 {
                Some(NodeKind::MI(MINodeKind::MOVmr32))
            } else if k0.spec_is_frame_index() && t0 == Type::Int32 && k1.spec_is_constant() && t1
                == Type::Int32 {
                Some(NodeKind::MI(MINodeKind::MOVmi32))
            } else if k0.spec_is_maybe_register() && t0 is Pointer && k1.spec_is_constant() && t1
                == Type::Int32 {
                Some(NodeKind::MI(MINodeKind::MOVpi32))
            } else if k0.spec_is_maybe_register() && t0 is Pointer && k1.spec_is_maybe_register()
                && t1 == Type::Int32 {
                Some(NodeKind::MI(MINodeKind::MOVpr32))
            } else {
                None
            }
        },
        NodeKind::IR(IRNodeKind::Ret) => Some(NodeKind::IR(IRNodeKind::Ret)),
        _ => Some(nd.kind),
    }
}

/// How many of the first `n` arena nodes are operations. Selection
/// allocates exactly one fresh node per operation and none for a leaf.
pub open spec fn op_count(arena: Seq<DAGNode>, n: int) -> int
    decreases n,
{
    if n <= 0 {
        0
    } else {
        op_count(arena, n - 1) + if arena[n - 1].kind.spec_is_operation() {
            1int
        } else {
            0int
        }
    }
}

/// The selected counterpart of node `h`: leaves select to themselves;
/// operations get a fresh node of the selected kind whose operands are the
/// selected counterparts of the original operands.
pub open spec fn selection_ok(
    old_arena: Seq<DAGNode>,
    new_arena: Seq<DAGNode>,
    sel: Map<usize, usize>,
    h: int,
) -> bool {
    &&& sel.contains_key(h as usize)
    &&& spec_select_kind(old_arena, h) matches Some(kind) && {
        let s = sel[h as usize];
        &&& s < new_arena.len()
        &&& new_arena[s as int].kind == kind
        &&& new_arena[s as int].ty == old_arena[h].ty
        &&& if old_arena[h].kind.spec_is_operation() {
            &&& new_arena[s as int].operands@.len() == old_arena[h].operands@.len()
            &&& forall|k: int|
                0 <= k < old_arena[h].operands@.len() ==> (#[trigger] new_arena[
                s as int].operands@[k]) == sel[old_arena[h].operands@[k]]
        } else {
            s == h
        }
    }
}

/// What one selection pass promises for a whole function.
pub open spec fn selected_fn_ok(old_f: DAGFunction, new_f: DAGFunction, sel: Map<usize, usize>) -> bool {
    &&& new_f.wf()
    &&& new_f.name == old_f.name
    &&& new_f.ret_ty == old_f.ret_ty
    &&& new_f.local_mgr == old_f.local_mgr
    &&& new_f.arena@.len() == old_f.arena@.len() + op_count(
        old_f.arena@,
        old_f.arena@.len() as int,
    )
    &&& forall|h: int| 0 <= h < old_f.arena@.len() ==> (#[trigger] new_f.arena@[h]) == old_f.arena@[h]
    &&& forall|h: int| 0 <= h < old_f.arena@.len() ==> selection_ok(old_f.arena@, new_f.arena@, sel, h)
    &&& new_f.dag_basic_blocks@.len() == old_f.dag_basic_blocks@.len()
    &&& forall|b: int|
        0 <= b < old_f.dag_basic_blocks@.len() ==> {
            &&& (#[trigger] new_f.dag_basic_blocks@[b]).pred@ == old_f.dag_basic_blocks@[b].pred@
            &&& new_f.dag_basic_blocks@[b].succ@ == old_f.dag_basic_blocks@[b].succ@
            &&& new_f.dag_basic_blocks@[b].iseq@.len() == old_f.dag_basic_blocks@[b].iseq@.len()
            &&& forall|k: int|
                0 <= k < old_f.dag_basic_blocks@[b].iseq@.len() ==> (#[trigger] new_f.dag_basic_blocks@[
                b].iseq@[k]) == sel[old_f.dag_basic_blocks@[b].iseq@[k]]
        }
}

/// Some selection record witnesses that `new_f` is `old_f` selected.
pub open spec fn some_selected(old_f: DAGFunction, new_f: DAGFunction) -> bool {
    exists|sel: Map<usize, usize>| selected_fn_ok(old_f, new_f, sel)
}

/// Sharing is preserved: when two operations both use the value of one
/// prior node, their selected forms reference the identical selected
/// handle, because a shared node is selected exactly once.
pub proof fn lemma_dag_sharing(
    old_f: DAGFunction,
    new_f: DAGFunction,
    sel: Map<usize, usize>,
    h1: int,
    h2: int,
    k1: int,
    k2: int,
)
    requires
        selected_fn_ok(old_f, new_f, sel),
        0 <= h1 < old_f.arena@.len(),
        0 <= h2 < old_f.arena@.len(),
        old_f.arena@[h1].kind.spec_is_operation(),
        old_f.arena@[h2].kind.spec_is_operation(),
        0 <= k1 < old_f.arena@[h1].operands@.len(),
        0 <= k2 < old_f.arena@[h2].operands@.len(),
        old_f.arena@[h1].operands@[k1] == old_f.arena@[h2].operands@[k2],
    ensures
        new_f.arena@[sel[old_f.arena@[h1].operands@[k1]] as int] == new_f.arena@[sel[old_f.arena@[
            h2].operands@[k2]] as int],
        new_f.arena@[sel[h1 as usize] as int].operands@[k1] == new_f.arena@[sel[
            h2 as usize] as int].operands@[k2],
{
    assert(selection_ok(old_f.arena@, new_f.arena@, sel, h1));
    assert(selection_ok(old_f.arena@, new_f.arena@, sel, h2));
}

/// The machine-instruction selector: maps every operation node of a DAG to
/// a machine node by the first matching row of the pattern table, memoized
/// so that a node shared by several parents is selected exactly once.
pub struct MISelector {
    pub selected: IdMap,
}

impl MISelector {
    pub fn new() -> (r: Self) {
        MISelector { selected: IdMap::new() }
    }

    /// Selects every function of the module.
    pub fn run_on_module(&mut self, module: &mut DAGModule) -> (r: Result<(), CodegenError>)
        requires
            forall|i: int| 0 <= i < old(module).functions@.len() ==> (#[trigger] old(module).functions@[i]).wf(),
        ensures
            match r {
                Ok(()) => {
                    &&& final(module).name == old(module).name
                    &&& final(module).types == old(module).types
                    &&& final(module).functions@.len() == old(module).functions@.len()
                    &&& forall|i: int|
                        0 <= i < old(module).functions@.len() ==> some_selected(
                            #[trigger] old(module).functions@[i],
                            #[trigger] final(module).functions@[i],
                        )
                },
                Err(e) => e == CodegenError::NoSelectionPatternMatched && exists|i: int, h: int|
                    0 <= i < old(module).functions@.len() && 0 <= h < old(
                        module,
                    ).functions@[i].arena@.len() && (#[trigger] spec_select_kind(
                        old(module).functions@[i].arena@,
                        h,
                    )) is None,
            },
        (forall|i: int, h: int|
            0 <= i < old(module).functions@.len() && 0 <= h < old(module).functions@[i].arena@.len()
                ==> (#[trigger] spec_select_kind(old(module).functions@[i].arena@, h))
                is Some) ==> r is Ok,
    {
        let n = module.functions.len();
        let mut i: usize = 0;
        while i < n
            invariant
                i <= n,
                module.functions@.len() == n,
                module.name == old(module).name,
                module.types == old(module).types,
                forall|j: int| i <= j < n ==> (#[trigger] module.functions@[j]) == old(module).functions@[j],
                forall|j: int| 0 <= j < n ==> (#[trigger] old(module).functions@[j]).wf(),
                forall|j: int|
                    0 <= j < i ==> some_selected(
                        #[trigger] old(module).functions@[j],
                        #[trigger] module.functions@[j],
                    ),
            decreases n - i,
        {
            let f = &mut module.functions[i];
            let res = self.run_on_function(f);
            match res {
                Ok(()) => {
                },
                Err(e) => {
                    return Err(e);
                },
            }
            i = i + 1;
        }
        Ok(())
    }

    /// Selects one function, leaving the record of original-to-selected
    /// handles in `self.selected`.
    pub fn run_on_function(&mut self, func: &mut DAGFunction) -> (r: Result<(), CodegenError>)
        requires
            old(func).wf(),
        ensures
            match r {
                Ok(()) => selected_fn_ok(*old(func), *final(func), final(self).selected@)
                    && some_selected(*old(func), *final(func)),
                Err(e) => {
                    &&& e == CodegenError::NoSelectionPatternMatched
                    &&& exists|h: int|
                        0 <= h < old(func).arena@.len() && spec_select_kind(
                            old(func).arena@,
                            h,
                        ) is None
                    &&& final(func).dag_basic_blocks@ == old(func).dag_basic_blocks@
                    &&& final(func).name == old(func).name
                    &&& final(func).ret_ty == old(func).ret_ty
                    &&& final(func).local_mgr == old(func).local_mgr
                    &&& final(func).arena@.len() >= old(func).arena@.len()
                    &&& forall|h: int|
                        0 <= h < old(func).arena@.len() ==> (#[trigger] final(func).arena@[h])
                            == old(func).arena@[h]
                },
            },
    {
        let n0 = func.arena.len();
        self.selected = IdMap::new();
        let ghost old_arena = func.arena@;
        let mut h: usize = 0;
        while h < n0
            invariant
                h <= n0,
                n0 == old_arena.len(),
                func.wf(),
                0 <= op_count(old_arena, h as int) <= h,
                func.arena@.len() == n0 + op_count(old_arena, h as int),
                func.name == old(func).name,
                func.ret_ty == old(func).ret_ty,
                func.local_mgr == old(func).local_mgr,
                func.dag_basic_blocks@ == old(func).dag_basic_blocks@,
                old_arena == old(func).arena@,
                forall|h2: int| 0 <= h2 < n0 ==> (#[trigger] func.arena@[h2]) == old_arena[h2],
                forall|h2: int|
                    0 <= h2 < h ==> selection_ok(old_arena, func.arena@, self.selected@, h2),
                forall|h2: usize|
                    self.selected@.contains_key(h2) ==> h2 < h && self.selected@[h2]
                        < func.arena@.len(),
            decreases n0 - h,
        {
            let ghost arena_pre = func.arena@;
            let ghost sel_pre = self.selected@;
            let is_op = func.arena[h].is_operation();
            if !is_op {
                self.selected.insert(h, h);
            } else {
                let nops = func.arena[h].operands.len();
                let kind = match func.arena[h].kind {
                    NodeKind::IR(IRNodeKind::Add) | NodeKind::IR(IRNodeKind::Sub) | NodeKind::IR(
                        IRNodeKind::Mul,
                    ) => {
                        if nops != 2 {
                            return Err(CodegenError::NoSelectionPatternMatched);
                        }
                        let o0 = func.arena[h].operands[0];
                        let o1 = func.arena[h].operands[1];
                        let r0 = func.arena[o0].is_maybe_register();
                        let c1 = func.arena[o1].is_constant();
                        let r1 = func.arena[o1].is_maybe_register();
                        let t0 = func.arena[o0].ty;
                        let t1 = func.arena[o1].ty;
                        let irk = match func.arena[h].kind {
                            NodeKind::IR(k) => k,
                            _ => IRNodeKind::Add,
                        };
                        if r0 && t0 == Type::Int32 {
                            if r1 && t1 == Type::Int32 {
                                match irk {
                                    IRNodeKind::Add => NodeKind::MI(MINodeKind::ADDrr32),
                                    IRNodeKind::Sub => NodeKind::MI(MINodeKind::SUBrr32),
                                    _ => NodeKind::MI(MINodeKind::IMULrr32),
                                }
                            } else if c1 && t1 == Type::Int32 {
                                match irk {
                                    IRNodeKind::Add => NodeKind::MI(MINodeKind::ADDri32),
                                    IRNodeKind::Sub => NodeKind::MI(MINodeKind::SUBri32),
                                    _ => NodeKind::MI(MINodeKind::IMULrri32),
                                }
                            } else {
                                NodeKind::IR(irk)
                            }
                        } else {
                            match irk {
                                IRNodeKind::Add => {
                                    if r0 && (t0 == Type::Int64 || matches!(t0, Type::Pointer(_))) {
                                        if c1 && t1 == Type::Int32 {
                                            NodeKind::MI(MINodeKind::ADDr64i32)
                                        } else {
                                            NodeKind::IR(irk)
                                        }
                                    } else {
                                        NodeKind::IR(irk)
                                    }
                                },
                                IRNodeKind::Mul => {
                                    if r0 && t0 == Type::Int64 {
                                        if c1 && t1 == Type::Int32 {
                                            NodeKind::MI(MINodeKind::IMULrr64i32)
                                        } else {
                                            NodeKind::IR(irk)
                                        }
                                    } else {
                                        NodeKind::IR(irk)
                                    }
                                },
                                _ => NodeKind::IR(irk),
                            }
                        }
                    },
                    NodeKind::IR(IRNodeKind::Load) => {
                        if nops != 1 {
                            return Err(CodegenError::NoSelectionPatternMatched);
                        }
                        let o0 = func.arena[h].operands[0];
                        let t0 = func.arena[o0].ty;
                        if func.arena[o0].is_frame_index() {
                            match t0 {
                                Type::Int32 => NodeKind::MI(MINodeKind::MOVrm32),
                                Type::Int64 => NodeKind::MI(MINodeKind::MOVrm64),
                                Type::Pointer(_) => NodeKind::MI(MINodeKind::MOVrm64),
                                _ => {
                                    return Err(CodegenError::NoSelectionPatternMatched);
                                },
                            }
                        } else if func.arena[o0].is_maybe_register() && matches!(
                            t0,
                            Type::Pointer(_),
                        ) {
                            NodeKind::MI(MINodeKind::MOVrp32)
                        } else {
                            return Err(CodegenError::NoSelectionPatternMatched);
                        }
                    },
                    NodeKind::IR(IRNodeKind::Store) => {
                        if nops != 2 {
                            return Err(CodegenError::NoSelectionPatternMatched);
                        }
                        let o0 = func.arena[h].operands[0];
                        let o1 = func.arena[h].operands[1];
                        let fi0 = func.arena[o0].is_frame_index();
                        let r0 = func.arena[o0].is_maybe_register();
                        let c1 = func.arena[o1].is_constant();
                        let r1 = func.arena[o1].is_maybe_register();
                        let t0 = func.arena[o0].ty;
                        let t1 = func.arena[o1].ty;
                        if fi0 && t0 == Type::Int32 && r1 && t1 == Type::Int32 {
                            NodeKind::MI(MINodeKind::MOVmr32)
                        } else if fi0 && t0 == Type::Int32 && c1 && t1 == Type::Int32 {
                            NodeKind::MI(MINodeKind::MOVmi32)
                        } else if r0 && matches!(t0, Type::Pointer(_)) && c1 && t1 == Type::Int32 {
                            NodeKind::MI(MINodeKind::MOVpi32)
                        } else if r0 && matches!(t0, Type::Pointer(_)) && r1 && t1 == Type::Int32 {
                            NodeKind::MI(MINodeKind::MOVpr32)
                        } else {
                            return Err(CodegenError::NoSelectionPatternMatched);
                        }
                    },
                    _ => func.arena[h].kind,
                };
                let mut mapped: Vec<usize> = Vec::new();
                let mut k: usize = 0;
                while k < nops
                    invariant
                        k <= nops,
                        h < n0,
                        n0 == old_arena.len(),
                        nops == old_arena[h as int].operands@.len(),
                        func.arena@ == arena_pre,
                        self.selected@ == sel_pre,
                        forall|h2: int| 0 <= h2 < n0 ==> (#[trigger] func.arena@[h2]) == old_arena[h2],
                        forall|h2: int|
                            0 <= h2 < h ==> selection_ok(old_arena, func.arena@, self.selected@, h2),
                        forall|h2: usize|
                            self.selected@.contains_key(h2) ==> h2 < h && self.selected@[h2]
                                < func.arena@.len(),
                        func.wf(),
                        mapped@.len() == k,
                        forall|k2: int|
                            0 <= k2 < k ==> (#[trigger] mapped@[k2]) == self.selected@[old_arena[
                            h as int].operands@[k2]] && mapped@[k2] < func.arena@.len(),
                    decreases nops - k,
                {
                    let o = func.arena[h].operands[k];
                    match self.selected.get(o) {
                        Some(so) => {
                            mapped.push(so);
                        },
                        None => {
                            proof {
                                assert(selection_ok(old_arena, func.arena@, self.selected@, o as int));
                                assert(false);
                            }
                        },
                    }
                    k = k + 1;
                }
                let ty = func.arena[h].ty;
                let news = func.arena.len();
                func.arena.push(DAGNode::new(kind, mapped, ty));
                self.selected.insert(h, news);
            }
            proof {
                assert(self.selected@.contains_key(h));
                assert forall|h2: int|
                    0 <= h2 < h + 1 implies selection_ok(
                    old_arena,
                    func.arena@,
                    self.selected@,
                    h2,
                ) by {
                    if h2 < h {
                        assert(selection_ok(old_arena, arena_pre, sel_pre, h2));
                        assert(self.selected@[h2 as usize] == sel_pre[h2 as usize]);
                    } else {
                        assert(spec_select_kind(old_arena, h as int) is Some);
                    }
                }
            }
            h = h + 1;
        }

        let nb = func.dag_basic_blocks.len();
        let ghost mid_blocks = func.dag_basic_blocks@;
        let mut b: usize = 0;
        while b < nb
            invariant
                b <= nb,
                nb == func.dag_basic_blocks@.len(),
                func.arena@.len() == n0 + op_count(old_arena, n0 as int),
                n0 == old_arena.len(),
                func.name == old(func).name,
                func.ret_ty == old(func).ret_ty,
                func.local_mgr == old(func).local_mgr,
                mid_blocks == old(func).dag_basic_blocks@,
                forall|h2: int| 0 <= h2 < n0 ==> (#[trigger] func.arena@[h2]) == old_arena[h2],
                forall|h2: int|
                    0 <= h2 < n0 ==> selection_ok(old_arena, func.arena@, self.selected@, h2),
                forall|h2: usize|
                    self.selected@.contains_key(h2) ==> h2 < n0 && self.selected@[h2]
                        < func.arena@.len(),
                forall|h: int, k: int|
                    0 <= h < func.arena@.len() && 0 <= k < func.arena@[h].operands@.len() ==> (
                    #[trigger] func.arena@[h].operands@[k]) < h,
                forall|j: int|
                    b <= j < nb ==> (#[trigger] func.dag_basic_blocks@[j]) == mid_blocks[j],
                forall|j: int|
                    0 <= j < b ==> {
                        &&& (#[trigger] func.dag_basic_blocks@[j]).pred@ == mid_blocks[j].pred@
                        &&& func.dag_basic_blocks@[j].succ@ == mid_blocks[j].succ@
                        &&& func.dag_basic_blocks@[j].iseq@.len() == mid_blocks[j].iseq@.len()
                        &&& (forall|k: int|
                            0 <= k < mid_blocks[j].iseq@.len() ==> (
                            #[trigger] func.dag_basic_blocks@[j].iseq@[k]) == self.selected@[
                            mid_blocks[j].iseq@[k]] && func.dag_basic_blocks@[j].iseq@[k]
                                < func.arena@.len())
                        &&& func.dag_basic_blocks@[j].entry == if func.dag_basic_blocks@[j].iseq@.len()
                            > 0 {
                            Some(func.dag_basic_blocks@[j].iseq@[0])
                        } else {
                            None::<usize>
                        }
                    },
                forall|j: int, k: int|
                    b <= j < nb && 0 <= k < func.dag_basic_blocks@[j].iseq@.len() ==> (
                    #[trigger] func.dag_basic_blocks@[j].iseq@[k]) < n0,
                forall|j: int, k: int|
                    0 <= j < nb && 0 <= k < func.dag_basic_blocks@[j].pred@.len() ==> (
                    #[trigger] func.dag_basic_blocks@[j].pred@[k]) < nb,
                forall|j: int, k: int|
                    0 <= j < nb && 0 <= k < func.dag_basic_blocks@[j].succ@.len() ==> (
                    #[trigger] func.dag_basic_blocks@[j].succ@[k]) < nb,
            decreases nb - b,
        {
            let np = func.dag_basic_blocks[b].iseq.len();
            let mut new_iseq: Vec<usize> = Vec::new();
            let mut k: usize = 0;
            while k < np
                invariant
                    k <= np,
                    b < nb,
                    nb == func.dag_basic_blocks@.len(),
                    np == func.dag_basic_blocks@[b as int].iseq@.len(),
                    func.dag_basic_blocks@[b as int] == mid_blocks[b as int],
                    n0 == old_arena.len(),
                    forall|k2: int, j: int|
                        b <= j < nb && 0 <= k2 < func.dag_basic_blocks@[j].iseq@.len() ==> (
                        #[trigger] func.dag_basic_blocks@[j].iseq@[k2]) < n0,
                    forall|h2: int|
                        0 <= h2 < n0 ==> selection_ok(old_arena, func.arena@, self.selected@, h2),
                    forall|h2: usize|
                        self.selected@.contains_key(h2) ==> h2 < n0 && self.selected@[h2]
                            < func.arena@.len(),
                    new_iseq@.len() == k,
                    forall|k2: int|
                        0 <= k2 < k ==> (#[trigger] new_iseq@[k2]) == self.selected@[
                        func.dag_basic_blocks@[b as int].iseq@[k2]] && new_iseq@[k2]
                            < func.arena@.len(),
                decreases np - k,
            {
                let o = func.dag_basic_blocks[b].iseq[k];
                match self.selected.get(o) {
                    Some(so) => {
                        new_iseq.push(so);
                    },
                    None => {
                        proof {
                            assert(selection_ok(old_arena, func.arena@, self.selected@, o as int));
                            assert(false);
                        }
                    },
                }
                k = k + 1;
            }
            let entry = if new_iseq.len() > 0 {
                Some(new_iseq[0])
            } else {
                None
            };
            func.dag_basic_blocks[b].iseq = new_iseq;
            func.dag_basic_blocks[b].entry = entry;
            b = b + 1;
        }
        proof {
            assert(func.wf());
            assert(selected_fn_ok(*old(func), *func, self.selected@));
            assert(some_selected(*old(func), *func));
        }
        Ok(())
    }
}

} // verus!
