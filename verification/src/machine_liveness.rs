use crate::collections::IdSet;
use crate::dataflow::{is_least_solution, propagate, UseEvent};
use crate::machine::{
    MachineBasicBlock, MachineFunction, MachineInstr, MachineModule, MachineOpcode, MachineOperand,
};
use crate::types::Type;
use vstd::prelude::*;

verus! {

/// Whether the instruction with arena id `id` defines an observable value:
/// its opcode yields one, or it is a call whose type is non-void.
pub open spec fn m_defines(insts: Seq<MachineInstr>, id: int) -> bool {
    insts[id].opcode.spec_returns_value() || (insts[id].opcode == MachineOpcode::Call
        && match insts[id].ty {
        Some(t) => t != Type::Void,
        None => false,
    })
}

/// The ids defined by the first `pos` instructions of a block.
pub open spec fn m_def_ids(insts: Seq<MachineInstr>, iseq: Seq<usize>, pos: int) -> Set<usize>
    decreases pos,
{
    if pos <= 0 {
        Set::empty()
    } else {
        let rest = m_def_ids(insts, iseq, pos - 1);
        if m_defines(insts, iseq[pos - 1] as int) {
            rest.insert(iseq[pos - 1])
        } else {
            rest
        }
    }
}

/// The use events contributed by the first `n` operands of one instruction
/// sitting in block `b`: every `Instr` operand is a use.
pub open spec fn m_ops_events(ops: Seq<MachineOperand>, b: usize, n: int) -> Seq<UseEvent>
    decreases n,
{
    if n <= 0 {
        Seq::empty()
    } else {
        let rest = m_ops_events(ops, b, n - 1);
        match ops[n - 1] {
            MachineOperand::Instr(id) => rest.push(UseEvent { block: b, id, incoming: None }),
            _ => rest,
        }
    }
}

/// The use events contributed by the first `pos` instructions of block `b`.
pub open spec fn m_iseq_events(
    insts: Seq<MachineInstr>,
    iseq: Seq<usize>,
    b: usize,
    pos: int,
) -> Seq<UseEvent>
    decreases pos,
{
    if pos <= 0 {
        Seq::empty()
    } else {
        m_iseq_events(insts, iseq, b, pos - 1) + m_ops_events(
            insts[iseq[pos - 1] as int].operands@,
            b,
            insts[iseq[pos - 1] as int].operands@.len() as int,
        )
    }
}

/// The per-block instruction orders of the function.
pub open spec fn m_iseq_views(f: MachineFunction) -> Seq<Seq<usize>> {
    Seq::new(f.basic_blocks@.len(), |b: int| f.basic_blocks@[b].iseq@)
}

/// Every use event of the first `nb` blocks, in visit order.
pub open spec fn m_events_upto(
    insts: Seq<MachineInstr>,
    iseqs: Seq<Seq<usize>>,
    nb: int,
) -> Seq<UseEvent>
    decreases nb,
{
    if nb <= 0 {
        Seq::empty()
    } else {
        m_events_upto(insts, iseqs, nb - 1) + m_iseq_events(
            insts,
            iseqs[nb - 1],
            (nb - 1) as usize,
            iseqs[nb - 1].len() as int,
        )
    }
}

/// Every use event of the function.
pub open spec fn m_events(f: MachineFunction) -> Seq<UseEvent> {
    m_events_upto(f.instr_arena@, m_iseq_views(f), f.basic_blocks@.len() as int)
}

/// The per-block predecessor lists of the function.
pub open spec fn m_preds(f: MachineFunction) -> Seq<Seq<usize>> {
    Seq::new(f.basic_blocks@.len(), |b: int| f.basic_blocks@[b].pred@)
}

/// The per-block `def` sets as the analysis computes them.
pub open spec fn m_spec_defs(f: MachineFunction) -> Seq<Set<usize>> {
    Seq::new(
        f.basic_blocks@.len(),
        |b: int|
            m_def_ids(
                f.instr_arena@,
                f.basic_blocks@[b].iseq@,
                f.basic_blocks@[b].iseq@.len() as int,
            ),
    )
}

/// The recorded `def` sets of the function.
pub open spec fn m_def_views(f: MachineFunction) -> Seq<Set<usize>> {
    Seq::new(f.basic_blocks@.len(), |b: int| f.basic_blocks@[b].liveness.def@)
}

/// The recorded `live_in` sets of the function.
pub open spec fn m_in_views(f: MachineFunction) -> Seq<Set<usize>> {
    Seq::new(f.basic_blocks@.len(), |b: int| f.basic_blocks@[b].liveness.live_in@)
}

/// The recorded `live_out` sets of the function.
pub open spec fn m_out_views(f: MachineFunction) -> Seq<Set<usize>> {
    Seq::new(f.basic_blocks@.len(), |b: int| f.basic_blocks@[b].liveness.live_out@)
}

/// The two functions agree on everything but liveness records and virtual
/// register numbers.
pub open spec fn m_same_shape(a: MachineFunction, b: MachineFunction) -> bool {
    &&& a.name == b.name
    &&& a.ret_ty == b.ret_ty
    &&& a.local_mgr == b.local_mgr
    &&& a.instr_arena@.len() == b.instr_arena@.len()
    &&& forall|i: int|
        0 <= i < a.instr_arena@.len() ==> (#[trigger] a.instr_arena@[i]).opcode
            == b.instr_arena@[i].opcode && a.instr_arena@[i].operands@ == b.instr_arena@[i].operands@
            && a.instr_arena@[i].ty == b.instr_arena@[i].ty
    &&& a.basic_blocks@.len() == b.basic_blocks@.len()
    &&& forall|i: int|
        0 <= i < a.basic_blocks@.len() ==> (#[trigger] a.basic_blocks@[i]).iseq@
            == b.basic_blocks@[i].iseq@ && a.basic_blocks@[i].pred@ == b.basic_blocks@[i].pred@
            && a.basic_blocks@[i].succ@ == b.basic_blocks@[i].succ@
}

/// No instruction id is listed twice across the blocks' orders.
pub open spec fn m_iseq_disjoint(f: MachineFunction) -> bool {
    forall|b1: int, k1: int, b2: int, k2: int|
        0 <= b1 < f.basic_blocks@.len() && 0 <= k1 < f.basic_blocks@[b1].iseq@.len() && 0 <= b2
            < f.basic_blocks@.len() && 0 <= k2 < f.basic_blocks@[b2].iseq@.len() && !(b1 == b2 && k1
            == k2) ==> (#[trigger] f.basic_blocks@[b1].iseq@[k1]) != (#[trigger] f.basic_blocks@[
        b2].iseq@[k2])
}

/// The total number of instructions listed by the first `b` blocks.
pub open spec fn m_iseq_len_prefix(blocks: Seq<MachineBasicBlock>, b: int) -> int
    decreases b,
{
    if b <= 0 {
        0
    } else {
        m_iseq_len_prefix(blocks, b - 1) + blocks[b - 1].iseq@.len()
    }
}

/// The virtual register number the instruction at block `b`, position `k`
/// receives: numbering starts at one and walks blocks in layout order.
pub open spec fn m_vreg_expected(blocks: Seq<MachineBasicBlock>, b: int, k: int) -> int {
    1 + m_iseq_len_prefix(blocks, b) + k
}

pub proof fn lemma_iseq_prefix_monotone(blocks: Seq<MachineBasicBlock>, m: int, n: int)
    requires
        0 <= m <= n,
        forall|b: int| 0 <= b < blocks.len() ==> (#[trigger] blocks[b].iseq@).len() >= 0,
    ensures
        m_iseq_len_prefix(blocks, m) <= m_iseq_len_prefix(blocks, n),
    decreases n,
{
    if m < n {
        lemma_iseq_prefix_monotone(blocks, m, n - 1);
    }
}

/// Virtual register numbers are unique and strictly increasing in
/// block-traversal-then-instruction order: an earlier slot always carries a
/// smaller number than a later one.
pub proof fn lemma_vregs_strictly_increase(
    blocks: Seq<MachineBasicBlock>,
    b1: int,
    k1: int,
    b2: int,
    k2: int,
)
    requires
        0 <= b1 <= b2 < blocks.len(),
        0 <= k1 < blocks[b1].iseq@.len(),
        0 <= k2 < blocks[b2].iseq@.len(),
        b1 < b2 || k1 < k2,
    ensures
        m_vreg_expected(blocks, b1, k1) < m_vreg_expected(blocks, b2, k2),
    decreases b2 - b1,
{
    if b1 == b2 {
    } else {
        assert(m_iseq_len_prefix(blocks, b1 + 1) == m_iseq_len_prefix(blocks, b1) + blocks[
            b1].iseq@.len());
        lemma_iseq_prefix_monotone(blocks, b1 + 1, b2);
    }
}

pub proof fn lemma_prefix_same_iseq(a: Seq<MachineBasicBlock>, b: Seq<MachineBasicBlock>, n: int)
    requires
        a.len() == b.len(),
        forall|i: int| 0 <= i < a.len() ==> (#[trigger] a[i]).iseq@ == b[i].iseq@,
        0 <= n <= a.len(),
    ensures
        m_iseq_len_prefix(a, n) == m_iseq_len_prefix(b, n),
    decreases n,
{
    if n > 0 {
        lemma_prefix_same_iseq(a, b, n - 1);
    }
}

/// Numbering survives passes that touch neither the instruction orders nor
/// the `vreg` fields.
proof fn lemma_numbered_preserved(a: MachineFunction, b: MachineFunction)
    requires
        a.wf(),
        m_same_shape(b, a),
        forall|i: int|
            0 <= i < b.instr_arena@.len() ==> (#[trigger] b.instr_arena@[i]).vreg
                == a.instr_arena@[i].vreg,
        m_numbered(a),
    ensures
        m_numbered(b),
{
    assert forall|bb: int, k: int|
        0 <= bb < b.basic_blocks@.len() && 0 <= k < b.basic_blocks@[bb].iseq@.len() implies (
    #[trigger] b.instr_arena@[b.basic_blocks@[bb].iseq@[k] as int]).vreg == m_vreg_expected(
        b.basic_blocks@,
        bb,
        k,
    ) by {
        assert(a.basic_blocks@[bb].iseq@ == b.basic_blocks@[bb].iseq@);
        assert(a.basic_blocks@[bb].wf_in(
            a.basic_blocks@.len() as int,
            a.instr_arena@.len() as int,
        ));
        assert(a.basic_blocks@[bb].iseq@[k] < a.instr_arena@.len());
        assert(a.instr_arena@[a.basic_blocks@[bb].iseq@[k] as int].vreg == m_vreg_expected(
            a.basic_blocks@,
            bb,
            k,
        ));
        assert((#[trigger] b.instr_arena@[b.basic_blocks@[bb].iseq@[k] as int]).vreg
            == a.instr_arena@[a.basic_blocks@[bb].iseq@[k] as int].vreg);
        lemma_prefix_same_iseq(a.basic_blocks@, b.basic_blocks@, bb);
    }
}

/// Order disjointness survives passes that keep the instruction orders.
proof fn lemma_disjoint_preserved(a: MachineFunction, b: MachineFunction)
    requires
        m_same_shape(b, a),
        m_iseq_disjoint(a),
    ensures
        m_iseq_disjoint(b),
{
    assert forall|b1: int, k1: int, b2: int, k2: int|
        0 <= b1 < b.basic_blocks@.len() && 0 <= k1 < b.basic_blocks@[b1].iseq@.len() && 0 <= b2
            < b.basic_blocks@.len() && 0 <= k2 < b.basic_blocks@[b2].iseq@.len() && !(b1 == b2 && k1
            == k2) implies (#[trigger] b.basic_blocks@[b1].iseq@[k1]) != (
    #[trigger] b.basic_blocks@[b2].iseq@[k2]) by {
        assert(a.basic_blocks@[b1].iseq@ == b.basic_blocks@[b1].iseq@);
        assert(a.basic_blocks@[b2].iseq@ == b.basic_blocks@[b2].iseq@);
        assert(a.basic_blocks@[b1].iseq@[k1] != a.basic_blocks@[b2].iseq@[k2]);
    }
}

/// Liveness is idempotent: two analyzed states of one function (same
/// blocks and instructions, so same defs and uses) carry identical
/// `live_in` and `live_out` sets — re-running the analysis on cleared sets
/// can only reproduce them.
pub proof fn lemma_machine_liveness_idempotent(f1: MachineFunction, f2: MachineFunction)
    requires
        f1.wf(),
        m_analyzed(f1),
        m_analyzed(f2),
        m_same_shape(f1, f2),
    ensures
        forall|b: int|
            0 <= b < f1.basic_blocks@.len() ==> (#[trigger] f1.basic_blocks@[b]).liveness.live_in@
                =~= f2.basic_blocks@[b].liveness.live_in@
                && f1.basic_blocks@[b].liveness.live_out@
                =~= f2.basic_blocks@[b].liveness.live_out@,
{
    assert(m_preds(f1) =~= m_preds(f2));
    assert(m_iseq_views(f1) =~= m_iseq_views(f2));
    assert(f1.instr_arena@.len() == f2.instr_arena@.len());
    assert forall|i: int| 0 <= i < f1.instr_arena@.len() implies (#[trigger] f1.instr_arena@[
    i]).opcode == f2.instr_arena@[i].opcode && f1.instr_arena@[i].operands@ == f2.instr_arena@[
    i].operands@ && f1.instr_arena@[i].ty == f2.instr_arena@[i].ty by {
    }
    assert forall|b: int, k: int|
        0 <= b < m_iseq_views(f1).len() && 0 <= k < m_iseq_views(f1)[b].len() implies (
    #[trigger] m_iseq_views(f1)[b][k]) < f1.instr_arena@.len() by {
        assert(f1.basic_blocks@[b].wf_in(
            f1.basic_blocks@.len() as int,
            f1.instr_arena@.len() as int,
        ));
    }
    lemma_m_events_same(f1.instr_arena@, f2.instr_arena@, m_iseq_views(f1), f1.basic_blocks@.len() as int);
    lemma_m_defs_same(f1, f2, f1.basic_blocks@.len() as int);
    assert(m_spec_defs(f1) =~= m_spec_defs(f2));
    assert(m_def_views(f1) == m_def_views(f2));
    crate::dataflow::lemma_least_solution_unique(
        m_preds(f1),
        m_def_views(f1),
        m_events(f1),
        m_in_views(f1),
        m_out_views(f1),
        m_in_views(f2),
        m_out_views(f2),
    );
    assert forall|b: int|
        0 <= b < f1.basic_blocks@.len() implies (#[trigger] f1.basic_blocks@[b]).liveness.live_in@
        =~= f2.basic_blocks@[b].liveness.live_in@ && f1.basic_blocks@[b].liveness.live_out@
        =~= f2.basic_blocks@[b].liveness.live_out@ by {
        assert(m_in_views(f1)[b] =~= m_in_views(f2)[b]);
        assert(m_out_views(f1)[b] =~= m_out_views(f2)[b]);
    }
}

proof fn lemma_m_events_same(
    insts1: Seq<MachineInstr>,
    insts2: Seq<MachineInstr>,
    iseqs: Seq<Seq<usize>>,
    nb: int,
)
    requires
        insts1.len() == insts2.len(),
        forall|i: int|
            0 <= i < insts1.len() ==> (#[trigger] insts1[i]).operands@ == insts2[i].operands@,
        forall|b: int, k: int|
            0 <= b < iseqs.len() && 0 <= k < iseqs[b].len() ==> (#[trigger] iseqs[b][k])
                < insts1.len(),
        nb <= iseqs.len(),
    ensures
        m_events_upto(insts1, iseqs, nb) == m_events_upto(insts2, iseqs, nb),
    decreases nb,
{
    if nb > 0 {
        lemma_m_events_same(insts1, insts2, iseqs, nb - 1);
        lemma_m_iseq_events_same(insts1, insts2, iseqs[nb - 1], (nb - 1) as usize, iseqs[nb - 1].len() as int);
    }
}

proof fn lemma_m_iseq_events_same(
    insts1: Seq<MachineInstr>,
    insts2: Seq<MachineInstr>,
    iseq: Seq<usize>,
    b: usize,
    pos: int,
)
    requires
        insts1.len() == insts2.len(),
        forall|i: int|
            0 <= i < insts1.len() ==> (#[trigger] insts1[i]).operands@ == insts2[i].operands@,
        forall|k: int| 0 <= k < iseq.len() ==> (#[trigger] iseq[k]) < insts1.len(),
        pos <= iseq.len(),
    ensures
        m_iseq_events(insts1, iseq, b, pos) == m_iseq_events(insts2, iseq, b, pos),
    decreases pos,
{
    if pos > 0 {
        lemma_m_iseq_events_same(insts1, insts2, iseq, b, pos - 1);
    }
}

proof fn lemma_m_defs_same(f1: MachineFunction, f2: MachineFunction, b: int)
    requires
        m_same_shape(f1, f2),
        f1.wf(),
        0 <= b <= f1.basic_blocks@.len(),
    ensures
        forall|j: int|
            0 <= j < f1.basic_blocks@.len() ==> m_def_ids(
                f1.instr_arena@,
                (#[trigger] f1.basic_blocks@[j]).iseq@,
                f1.basic_blocks@[j].iseq@.len() as int,
            ) == m_def_ids(
                f2.instr_arena@,
                f2.basic_blocks@[j].iseq@,
                f2.basic_blocks@[j].iseq@.len() as int,
            ),
{
    assert forall|j: int|
        0 <= j < f1.basic_blocks@.len() implies m_def_ids(
        f1.instr_arena@,
        (#[trigger] f1.basic_blocks@[j]).iseq@,
        f1.basic_blocks@[j].iseq@.len() as int,
    ) == m_def_ids(
        f2.instr_arena@,
        f2.basic_blocks@[j].iseq@,
        f2.basic_blocks@[j].iseq@.len() as int,
    ) by {
        assert(f1.basic_blocks@[j].wf_in(
            f1.basic_blocks@.len() as int,
            f1.instr_arena@.len() as int,
        ));
        lemma_m_def_ids_same(
            f1.instr_arena@,
            f2.instr_arena@,
            f1.basic_blocks@[j].iseq@,
            f1.basic_blocks@[j].iseq@.len() as int,
        );
        assert(f1.basic_blocks@[j].iseq@ == f2.basic_blocks@[j].iseq@);
    }
}

proof fn lemma_m_def_ids_same(
    insts1: Seq<MachineInstr>,
    insts2: Seq<MachineInstr>,
    iseq: Seq<usize>,
    pos: int,
)
    requires
        insts1.len() == insts2.len(),
        forall|i: int|
            0 <= i < insts1.len() ==> (#[trigger] insts1[i]).opcode == insts2[i].opcode
                && insts1[i].ty == insts2[i].ty,
        forall|k: int| 0 <= k < iseq.len() ==> (#[trigger] iseq[k]) < insts1.len(),
        pos <= iseq.len(),
    ensures
        m_def_ids(insts1, iseq, pos) == m_def_ids(insts2, iseq, pos),
    decreases pos,
{
    if pos > 0 {
        lemma_m_def_ids_same(insts1, insts2, iseq, pos - 1);
        assert(m_defines(insts1, iseq[pos - 1] as int) == m_defines(
            insts2,
            iseq[pos - 1] as int,
        ));
    }
}

/// The function's liveness records are exactly the least solution of the
/// closure rules for its own graph, defs and uses, and `def` and `live_in`
/// are disjoint in every block.
pub open spec fn m_analyzed(f: MachineFunction) -> bool {
    &&& m_def_views(f) == m_spec_defs(f)
    &&& is_least_solution(m_preds(f), m_def_views(f), m_events(f), m_in_views(f), m_out_views(f))
    &&& forall|b: int, v: usize|
        0 <= b < f.basic_blocks@.len() && (#[trigger] f.basic_blocks@[b].liveness.live_in@.contains(
            v,
        )) ==> !f.basic_blocks@[b].liveness.def@.contains(v)
}

/// Every listed instruction carries the virtual register number of its
/// traversal slot.
pub open spec fn m_numbered(f: MachineFunction) -> bool {
    forall|b: int, k: int|
        0 <= b < f.basic_blocks@.len() && 0 <= k < f.basic_blocks@[b].iseq@.len() ==> (
        #[trigger] f.instr_arena@[f.basic_blocks@[b].iseq@[k] as int]).vreg == m_vreg_expected(
            f.basic_blocks@,
            b,
            k,
        )
}

/// The machine-level liveness pass: numbers virtual registers, then fills
/// every block's `def`, `live_in` and `live_out` record.
pub struct LivenessAnalysis {}

impl LivenessAnalysis {
    pub fn new() -> (r: Self) {
        LivenessAnalysis {  }
    }

    /// Analyzes every function of the module.
    pub fn analyze_module(&mut self, module: &mut MachineModule)
        requires
            forall|i: int|
                0 <= i < old(module).functions@.len() ==> (#[trigger] old(module).functions@[i]).wf() && m_iseq_disjoint(old(module).functions@[i])
                    && m_iseq_len_prefix(
                    old(module).functions@[i].basic_blocks@,
                    old(module).functions@[i].basic_blocks@.len() as int,
                ) < usize::MAX,
        ensures
            final(module).name == old(module).name,
            final(module).functions@.len() == old(module).functions@.len(),
            forall|i: int|
                0 <= i < old(module).functions@.len() ==> m_same_shape(
                    #[trigger] final(module).functions@[i],
                    old(module).functions@[i],
                ) && m_analyzed(final(module).functions@[i]) && m_numbered(
                    final(module).functions@[i],
                ),
    {
        let n = module.functions.len();
        let mut i: usize = 0;
        while i < n
            invariant
                i <= n,
                module.functions@.len() == n,
                module.name == old(module).name,
                forall|j: int|
                    0 <= j < n ==> m_same_shape(
                        #[trigger] module.functions@[j],
                        old(module).functions@[j],
                    ),
                forall|j: int|
                    0 <= j < n ==> (#[trigger] module.functions@[j]).wf() && m_iseq_disjoint(
                        module.functions@[j],
                    ) && m_iseq_len_prefix(
                        module.functions@[j].basic_blocks@,
                        module.functions@[j].basic_blocks@.len() as int,
                    ) < usize::MAX,
                forall|j: int|
                    0 <= j < i ==> m_analyzed(#[trigger] module.functions@[j]) && m_numbered(
                        module.functions@[j],
                    ),
            decreases n - i,
        {
            let ghost pre = module.functions@[i as int];
            let f = &mut module.functions[i];
            Self::analyze_function_fn(f);
            proof {
                lemma_disjoint_preserved(pre, module.functions@[i as int]);
                lemma_prefix_same_iseq(
                    pre.basic_blocks@,
                    module.functions@[i as int].basic_blocks@,
                    pre.basic_blocks@.len() as int,
                );
            }
            i = i + 1;
        }
    }

    /// Analyzes one function: virtual-register numbering, then `def`
    /// computation, then backward propagation.
    pub fn analyze_function(&mut self, cur_func: &mut MachineFunction)
        requires
            old(cur_func).wf(),
            m_iseq_disjoint(*old(cur_func)),
            m_iseq_len_prefix(
                old(cur_func).basic_blocks@,
                old(cur_func).basic_blocks@.len() as int,
            ) < usize::MAX,
        ensures
            m_same_shape(*final(cur_func), *old(cur_func)),
            final(cur_func).wf(),
            m_analyzed(*final(cur_func)),
            m_numbered(*final(cur_func)),
    {
        Self::analyze_function_fn(cur_func)
    }

    fn analyze_function_fn(cur_func: &mut MachineFunction)
        requires
            old(cur_func).wf(),
            m_iseq_disjoint(*old(cur_func)),
            m_iseq_len_prefix(
                old(cur_func).basic_blocks@,
                old(cur_func).basic_blocks@.len() as int,
            ) < usize::MAX,
        ensures
            m_same_shape(*final(cur_func), *old(cur_func)),
            final(cur_func).wf(),
            m_analyzed(*final(cur_func)),
            m_numbered(*final(cur_func)),
    {
        Self::number_vreg(cur_func);
        let ghost f1 = *cur_func;
        Self::set_def(cur_func);
        proof {
            lemma_numbered_preserved(f1, *cur_func);
        }
        let ghost f2 = *cur_func;
        Self::visit(cur_func);
        proof {
            lemma_numbered_preserved(f2, *cur_func);
        }
    }

    /// Gives every listed instruction a fresh virtual register number,
    /// counting up from one in block-traversal order.
    fn number_vreg(cur_func: &mut MachineFunction)
        requires
            old(cur_func).wf(),
            m_iseq_disjoint(*old(cur_func)),
            m_iseq_len_prefix(
                old(cur_func).basic_blocks@,
                old(cur_func).basic_blocks@.len() as int,
            ) < usize::MAX,
        ensures
            m_same_shape(*final(cur_func), *old(cur_func)),
            final(cur_func).wf(),
            m_iseq_disjoint(*final(cur_func)),
            m_numbered(*final(cur_func)),
            forall|b: int|
                0 <= b < final(cur_func).basic_blocks@.len() ==> (#[trigger] final(cur_func).basic_blocks@[b]).liveness.def@ == old(cur_func).basic_blocks@[b].liveness.def@
                    && final(cur_func).basic_blocks@[b].liveness.live_in@ == old(cur_func).basic_blocks@[b].liveness.live_in@ && final(cur_func).basic_blocks@[b].liveness.live_out@ == old(cur_func).basic_blocks@[b].liveness.live_out@,
    {
        let nb = cur_func.basic_blocks.len();
        let mut vreg: usize = 1;
        let mut b: usize = 0;
        while b < nb
            invariant
                b <= nb,
                cur_func.basic_blocks@.len() == nb,
                cur_func.wf(),
                m_iseq_disjoint(*cur_func),
                m_same_shape(*cur_func, *old(cur_func)),
                cur_func.basic_blocks@ == old(cur_func).basic_blocks@,
                m_iseq_len_prefix(cur_func.basic_blocks@, nb as int) < usize::MAX,
                vreg == m_vreg_expected(cur_func.basic_blocks@, b as int, 0) - 0,
                vreg >= 1,
                forall|b2: int, k2: int|
                    0 <= b2 < b && 0 <= k2 < cur_func.basic_blocks@[b2].iseq@.len() ==> (
                    #[trigger] cur_func.instr_arena@[cur_func.basic_blocks@[b2].iseq@[k2] as int]).vreg
                        == m_vreg_expected(cur_func.basic_blocks@, b2, k2),
            decreases nb - b,
        {
            let np = cur_func.basic_blocks[b].iseq.len();
            let mut k: usize = 0;
            while k < np
                invariant
                    k <= np,
                    b < nb,
                    cur_func.basic_blocks@.len() == nb,
                    np == cur_func.basic_blocks@[b as int].iseq@.len(),
                    cur_func.wf(),
                    m_iseq_disjoint(*cur_func),
                    m_same_shape(*cur_func, *old(cur_func)),
                    cur_func.basic_blocks@ == old(cur_func).basic_blocks@,
                    m_iseq_len_prefix(cur_func.basic_blocks@, nb as int) < usize::MAX,
                    vreg == m_vreg_expected(cur_func.basic_blocks@, b as int, k as int),
                    vreg >= 1,
                    forall|b2: int, k2: int|
                        (0 <= b2 < b && 0 <= k2 < cur_func.basic_blocks@[b2].iseq@.len()) || (b2
                            == b && 0 <= k2 < k) ==> (#[trigger] cur_func.instr_arena@[
                        cur_func.basic_blocks@[b2].iseq@[k2] as int]).vreg == m_vreg_expected(
                            cur_func.basic_blocks@,
                            b2,
                            k2,
                        ),
                decreases np - k,
            {
                proof {
                    lemma_iseq_prefix_monotone(cur_func.basic_blocks@, b as int + 1, nb as int);
                }
                let id = cur_func.basic_blocks[b].iseq[k];
                cur_func.instr_arena[id].vreg = vreg;
                proof {
                    assert forall|b2: int, k2: int|
                        (0 <= b2 < b && 0 <= k2 < cur_func.basic_blocks@[b2].iseq@.len()) || (b2
                            == b && 0 <= k2 < k + 1) implies (#[trigger] cur_func.instr_arena@[
                    cur_func.basic_blocks@[b2].iseq@[k2] as int]).vreg == m_vreg_expected(
                        cur_func.basic_blocks@,
                        b2,
                        k2,
                    ) by {
                        if b2 == b && k2 == k {
                        } else {
                            assert(cur_func.basic_blocks@[b2].iseq@[k2] != id);
                        }
                    }
                }
                vreg = vreg + 1;
                k = k + 1;
            }
            b = b + 1;
        }
    }

    /// Fills the `def` sets of one function.
    fn set_def(cur_func: &mut MachineFunction)
        requires
            old(cur_func).wf(),
        ensures
            m_same_shape(*final(cur_func), *old(cur_func)),
            final(cur_func).wf(),
            m_def_views(*final(cur_func)) == m_spec_defs(*final(cur_func)),
            forall|b: int|
                0 <= b < final(cur_func).basic_blocks@.len() ==> (#[trigger] final(cur_func).basic_blocks@[b]).liveness.live_in@ == old(cur_func).basic_blocks@[b].liveness.live_in@ && final(cur_func).basic_blocks@[b].liveness.live_out@ == old(cur_func).basic_blocks@[b].liveness.live_out@,
            forall|i: int|
                0 <= i < final(cur_func).instr_arena@.len() ==> (#[trigger] final(cur_func).instr_arena@[i]).vreg == old(cur_func).instr_arena@[i].vreg,
    {
        let nb = cur_func.basic_blocks.len();
        let mut b: usize = 0;
        while b < nb
            invariant
                b <= nb,
                cur_func.basic_blocks@.len() == nb,
                cur_func.instr_arena@ == old(cur_func).instr_arena@,
                cur_func.name == old(cur_func).name,
                cur_func.ret_ty == old(cur_func).ret_ty,
                cur_func.local_mgr == old(cur_func).local_mgr,
                cur_func.wf(),
                m_same_shape(*cur_func, *old(cur_func)),
                forall|j: int|
                    0 <= j < nb ==> (#[trigger] cur_func.basic_blocks@[j]).liveness.live_in@ == old(cur_func).basic_blocks@[j].liveness.live_in@
                        && cur_func.basic_blocks@[j].liveness.live_out@ == old(cur_func).basic_blocks@[j].liveness.live_out@,
                forall|j: int|
                    0 <= j < b ==> (#[trigger] cur_func.basic_blocks@[j]).liveness.def@
                        == m_def_ids(
                        cur_func.instr_arena@,
                        cur_func.basic_blocks@[j].iseq@,
                        cur_func.basic_blocks@[j].iseq@.len() as int,
                    ),
            decreases nb - b,
        {
            let np = cur_func.basic_blocks[b].iseq.len();
            let mut def = IdSet::new();
            let mut pos: usize = 0;
            while pos < np
                invariant
                    pos <= np,
                    b < nb,
                    cur_func.basic_blocks@.len() == nb,
                    np == cur_func.basic_blocks@[b as int].iseq@.len(),
                    cur_func.wf(),
                    def@ == m_def_ids(
                        cur_func.instr_arena@,
                        cur_func.basic_blocks@[b as int].iseq@,
                        pos as int,
                    ),
                decreases np - pos,
            {
                let instr_id = cur_func.basic_blocks[b].iseq[pos];
                let opcode = cur_func.instr_arena[instr_id].opcode;
                let call_defines = opcode == MachineOpcode::Call && match &cur_func.instr_arena[
                    instr_id].ty {
                    Some(t) => !(*t == Type::Void),
                    None => false,
                };
                if opcode.returns_value() || call_defines {
                    let _ = def.insert(instr_id);
                } else {
                    proof {
                        assert(def@ =~= m_def_ids(
                            cur_func.instr_arena@,
                            cur_func.basic_blocks@[b as int].iseq@,
                            pos as int + 1,
                        ));
                    }
                }
                pos = pos + 1;
            }
            cur_func.basic_blocks[b].liveness.def = def;
            proof {
                assert forall|j: int|
                    0 <= j < b + 1 implies (#[trigger] cur_func.basic_blocks@[j]).liveness.def@
                    == m_def_ids(
                    cur_func.instr_arena@,
                    cur_func.basic_blocks@[j].iseq@,
                    cur_func.basic_blocks@[j].iseq@.len() as int,
                ) by {
                    if j == b {
                        assert(cur_func.basic_blocks@[j].liveness.def@ == def@);
                    }
                }
            }
            b = b + 1;
        }
        proof {
            assert(m_def_views(*cur_func) =~= m_spec_defs(*cur_func));
        }
    }

    /// Runs the backward propagation over one function whose `def` sets are
    /// already in place.
    fn visit(cur_func: &mut MachineFunction)
        requires
            old(cur_func).wf(),
            m_def_views(*old(cur_func)) == m_spec_defs(*old(cur_func)),
        ensures
            m_same_shape(*final(cur_func), *old(cur_func)),
            final(cur_func).wf(),
            m_analyzed(*final(cur_func)),
            forall|i: int|
                0 <= i < final(cur_func).instr_arena@.len() ==> (#[trigger] final(cur_func).instr_arena@[i]).vreg == old(cur_func).instr_arena@[i].vreg,
    {
        let nb = cur_func.basic_blocks.len();
        let n_ids = cur_func.instr_arena.len();

        let mut preds: Vec<Vec<usize>> = Vec::new();
        let mut defs: Vec<IdSet> = Vec::new();
        let mut b: usize = 0;
        while b < nb
            invariant
                b <= nb,
                cur_func.basic_blocks@.len() == nb,
                cur_func.wf(),
                preds@.len() == b,
                defs@.len() == b,
                forall|j: int|
                    0 <= j < b ==> (#[trigger] preds@[j])@ == cur_func.basic_blocks@[j].pred@,
                forall|j: int|
                    0 <= j < b ==> (#[trigger] defs@[j])@
                        == cur_func.basic_blocks@[j].liveness.def@,
            decreases nb - b,
        {
            let mut pl: Vec<usize> = Vec::new();
            let npred = cur_func.basic_blocks[b].pred.len();
            let mut k: usize = 0;
            while k < npred
                invariant
                    k <= npred,
                    b < nb,
                    cur_func.basic_blocks@.len() == nb,
                    npred == cur_func.basic_blocks@[b as int].pred@.len(),
                    pl@ == cur_func.basic_blocks@[b as int].pred@.subrange(0, k as int),
                decreases npred - k,
            {
                pl.push(cur_func.basic_blocks[b].pred[k]);
                proof {
                    assert(pl@ =~= cur_func.basic_blocks@[b as int].pred@.subrange(
                        0,
                        k as int + 1,
                    ));
                }
                k = k + 1;
            }
            proof {
                assert(pl@ =~= cur_func.basic_blocks@[b as int].pred@);
            }
            preds.push(pl);
            defs.push(cur_func.basic_blocks[b].liveness.def.duplicate());
            b = b + 1;
        }

        let ghost insts0 = cur_func.instr_arena@;
        let ghost iseqs0 = m_iseq_views(*cur_func);
        let mut events: Vec<UseEvent> = Vec::new();
        let mut b2: usize = 0;
        while b2 < nb
            invariant
                b2 <= nb,
                cur_func.basic_blocks@.len() == nb,
                cur_func.wf(),
                iseqs0 == m_iseq_views(*cur_func),
                insts0 == cur_func.instr_arena@,
                events@ == m_events_upto(insts0, iseqs0, b2 as int),
                forall|t: int|
                    0 <= t < events@.len() ==> (#[trigger] events@[t]).block < nb && events@[t].id
                        < cur_func.instr_arena@.len() && events@[t].incoming is None,
            decreases nb - b2,
        {
            let np = cur_func.basic_blocks[b2].iseq.len();
            let mut pos: usize = 0;
            while pos < np
                invariant
                    pos <= np,
                    b2 < nb,
                    cur_func.basic_blocks@.len() == nb,
                    np == cur_func.basic_blocks@[b2 as int].iseq@.len(),
                    cur_func.wf(),
                    iseqs0 == m_iseq_views(*cur_func),
                    insts0 == cur_func.instr_arena@,
                    events@ == m_events_upto(insts0, iseqs0, b2 as int) + m_iseq_events(
                        insts0,
                        iseqs0[b2 as int],
                        b2,
                        pos as int,
                    ),
                    forall|t: int|
                        0 <= t < events@.len() ==> (#[trigger] events@[t]).block < nb
                            && events@[t].id < cur_func.instr_arena@.len() && events@[t].incoming
                            is None,
                decreases np - pos,
            {
                let instr_id = cur_func.basic_blocks[b2].iseq[pos];
                let nops = cur_func.instr_arena[instr_id].operands.len();
                let mut oi: usize = 0;
                while oi < nops
                    invariant
                        oi <= nops,
                        b2 < nb,
                        pos < np,
                        instr_id < cur_func.instr_arena@.len(),
                        cur_func.basic_blocks@.len() == nb,
                        np == cur_func.basic_blocks@[b2 as int].iseq@.len(),
                        cur_func.basic_blocks@[b2 as int].iseq@[pos as int] == instr_id,
                        cur_func.wf(),
                        iseqs0 == m_iseq_views(*cur_func),
                        insts0 == cur_func.instr_arena@,
                        nops == cur_func.instr_arena@[instr_id as int].operands@.len(),
                        events@ == m_events_upto(insts0, iseqs0, b2 as int) + m_iseq_events(
                            insts0,
                            iseqs0[b2 as int],
                            b2,
                            pos as int,
                        ) + m_ops_events(
                            insts0[instr_id as int].operands@,
                            b2,
                            oi as int,
                        ),
                        forall|t: int|
                            0 <= t < events@.len() ==> (#[trigger] events@[t]).block < nb
                                && events@[t].id < cur_func.instr_arena@.len()
                                && events@[t].incoming is None,
                    decreases nops - oi,
                {
                    let op = cur_func.instr_arena[instr_id].operands[oi];
                    match op {
                        MachineOperand::Instr(used) => {
                            events.push(UseEvent { block: b2, id: used, incoming: None });
                        },
                        _ => {
                        },
                    }
                    proof {
                        assert(events@ =~= m_events_upto(insts0, iseqs0, b2 as int)
                            + m_iseq_events(insts0, iseqs0[b2 as int], b2, pos as int)
                            + m_ops_events(
                            insts0[instr_id as int].operands@,
                            b2,
                            oi as int + 1,
                        ));
                    }
                    oi = oi + 1;
                }
                proof {
                    assert(events@ =~= m_events_upto(insts0, iseqs0, b2 as int) + m_iseq_events(
                        insts0,
                        iseqs0[b2 as int],
                        b2,
                        pos as int + 1,
                    ));
                }
                pos = pos + 1;
            }
            proof {
                assert(events@ =~= m_events_upto(insts0, iseqs0, b2 as int + 1));
            }
            b2 = b2 + 1;
        }

        proof {
            assert forall|bj: int, k: int|
                0 <= bj < preds@.len() && 0 <= k < preds@[bj]@.len() implies (#[trigger] preds@[
            bj]@[k]) < preds@.len() by {
                assert(preds@[bj]@ == cur_func.basic_blocks@[bj].pred@);
            }
        }
        let (mut live_ins, mut live_outs) = propagate(&preds, &defs, &events, n_ids);
        let ghost ghost_ins = crate::dataflow::set_views(live_ins@);
        let ghost ghost_outs = crate::dataflow::set_views(live_outs@);
        let ghost ghost_preds = crate::dataflow::vec_views(preds@);
        let ghost ghost_defs = crate::dataflow::set_views(defs@);
        let ghost ghost_events = events@;

        proof {
            assert forall|j: int|
                0 <= j < nb implies (#[trigger] cur_func.basic_blocks@[j]).liveness.def@
                == m_def_ids(
                cur_func.instr_arena@,
                cur_func.basic_blocks@[j].iseq@,
                cur_func.basic_blocks@[j].iseq@.len() as int,
            ) by {
                assert(m_def_views(*cur_func)[j] == m_spec_defs(*cur_func)[j]);
            }
            assert(crate::dataflow::set_views(live_ins@) =~= ghost_ins.subrange(0, nb as int));
            assert(crate::dataflow::set_views(live_outs@) =~= ghost_outs.subrange(0, nb as int));
        }
        let mut b3: usize = nb;
        while b3 > 0
            invariant
                b3 <= nb,
                cur_func.basic_blocks@.len() == nb,
                cur_func.wf(),
                m_same_shape(*cur_func, *old(cur_func)),
                cur_func.instr_arena@ == old(cur_func).instr_arena@,
                live_ins@.len() == b3,
                live_outs@.len() == b3,
                forall|j: int|
                    0 <= j < nb ==> (#[trigger] cur_func.basic_blocks@[j]).liveness.def@
                        == m_def_ids(
                        cur_func.instr_arena@,
                        cur_func.basic_blocks@[j].iseq@,
                        cur_func.basic_blocks@[j].iseq@.len() as int,
                    ),
                forall|j: int|
                    0 <= j < nb ==> (#[trigger] cur_func.basic_blocks@[j]).liveness.def@ == old(cur_func).basic_blocks@[j].liveness.def@,
                crate::dataflow::set_views(live_ins@) == ghost_ins.subrange(0, b3 as int),
                crate::dataflow::set_views(live_outs@) == ghost_outs.subrange(0, b3 as int),
                forall|j: int|
                    b3 <= j < nb ==> (#[trigger] cur_func.basic_blocks@[j]).liveness.live_in@
                        == ghost_ins[j] && cur_func.basic_blocks@[j].liveness.live_out@
                        == ghost_outs[j],
            decreases b3,
        {
            let ghost pre_li = live_ins@;
            let ghost pre_lo = live_outs@;
            let li = live_ins.pop().unwrap();
            let lo = live_outs.pop().unwrap();
            proof {
                assert(li@ == crate::dataflow::set_views(pre_li)[b3 - 1]);
                assert(lo@ == crate::dataflow::set_views(pre_lo)[b3 - 1]);
                assert(crate::dataflow::set_views(live_ins@) =~= ghost_ins.subrange(
                    0,
                    b3 as int - 1,
                ));
                assert(crate::dataflow::set_views(live_outs@) =~= ghost_outs.subrange(
                    0,
                    b3 as int - 1,
                ));
            }
            cur_func.basic_blocks[b3 - 1].liveness.live_in = li;
            cur_func.basic_blocks[b3 - 1].liveness.live_out = lo;
            b3 = b3 - 1;
        }
        proof {
            assert(m_def_views(*cur_func) =~= m_spec_defs(*cur_func));
            assert(m_preds(*cur_func) =~= ghost_preds);
            assert(m_def_views(*cur_func) =~= ghost_defs);
            assert(m_in_views(*cur_func) =~= ghost_ins);
            assert(m_out_views(*cur_func) =~= ghost_outs);
            assert(m_iseq_views(*cur_func) =~= iseqs0);
            assert(m_events(*cur_func) == ghost_events);
            assert forall|b4: int, v: usize|
                0 <= b4 < cur_func.basic_blocks@.len() && (
                #[trigger] cur_func.basic_blocks@[b4].liveness.live_in@.contains(
                    v,
                )) implies !cur_func.basic_blocks@[b4].liveness.def@.contains(v) by {
                assert(ghost_ins[b4].contains(v));
                assert(!ghost_defs[b4].contains(v));
                assert(ghost_defs[b4] == cur_func.basic_blocks@[b4].liveness.def@);
            }
            assert(m_analyzed(*cur_func));
        }
    }
}

} // verus!
