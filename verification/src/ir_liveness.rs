use crate::collections::IdSet;
use crate::dataflow::{is_least_solution, propagate, UseEvent};
use crate::ir::{Function, Instruction, Module, Opcode, Operand, Value};
use crate::types::Type;
use vstd::prelude::*;

verus! {

/// Whether the instruction with arena id `id` defines an observable value:
/// its opcode yields one, or it is a call whose own return type is non-void.
pub open spec fn ir_defines(insts: Seq<Instruction>, id: int) -> bool {
    insts[id].opcode.spec_returns_value() || (insts[id].opcode == Opcode::Call && insts[id].ty
        != Type::Void)
}

/// The ids defined by the first `pos` instructions of a block.
pub open spec fn ir_def_ids(
    insts: Seq<Instruction>,
    iseq: Seq<Value>,
    pos: int,
) -> Set<usize>
    decreases pos,
{
    if pos <= 0 {
        Set::empty()
    } else {
        let rest = ir_def_ids(insts, iseq, pos - 1);
        match iseq[pos - 1] {
            Value::Instruction(id) => if ir_defines(insts, id as int) {
                rest.insert(id)
            } else {
                rest
            },
            _ => rest,
        }
    }
}

/// The block a phi operand at position `i` draws its value from.
pub open spec fn phi_incoming_of(ops: Seq<Operand>, i: int) -> Option<usize> {
    if i + 1 < ops.len() {
        match ops[i + 1] {
            Operand::BasicBlock(b) => Some(b),
            _ => None,
        }
    } else {
        None
    }
}

/// The use events contributed by the first `n` operands of one instruction
/// sitting in block `b`.
pub open spec fn ops_events(ops: Seq<Operand>, b: usize, is_phi: bool, n: int) -> Seq<UseEvent>
    decreases n,
{
    if n <= 0 {
        Seq::empty()
    } else {
        let rest = ops_events(ops, b, is_phi, n - 1);
        match ops[n - 1] {
            Operand::Value(v) => match v.spec_get_inst_id() {
                Some(id) => if is_phi {
                    match phi_incoming_of(ops, n - 1) {
                        Some(p) => rest.push(UseEvent { block: b, id, incoming: Some(p) }),
                        None => rest,
                    }
                } else {
                    rest.push(UseEvent { block: b, id, incoming: None })
                },
                None => rest,
            },
            _ => rest,
        }
    }
}

/// The use events contributed by the first `pos` instructions of block `b`.
pub open spec fn iseq_events(
    insts: Seq<Instruction>,
    iseq: Seq<Value>,
    b: usize,
    pos: int,
) -> Seq<UseEvent>
    decreases pos,
{
    if pos <= 0 {
        Seq::empty()
    } else {
        let rest = iseq_events(insts, iseq, b, pos - 1);
        match iseq[pos - 1] {
            Value::Instruction(id) => rest + ops_events(
                insts[id as int].operands@,
                b,
                insts[id as int].opcode == Opcode::Phi,
                insts[id as int].operands@.len() as int,
            ),
            _ => rest,
        }
    }
}

/// The per-block instruction orders of the function.
pub open spec fn iseq_views(f: Function) -> Seq<Seq<Value>> {
    Seq::new(f.basic_blocks@.len(), |b: int| f.basic_blocks@[b].iseq@)
}

/// Every use event of the first `nb` blocks, in visit order.
pub open spec fn ir_events_upto(
    insts: Seq<Instruction>,
    iseqs: Seq<Seq<Value>>,
    nb: int,
) -> Seq<UseEvent>
    decreases nb,
{
    if nb <= 0 {
        Seq::empty()
    } else {
        ir_events_upto(insts, iseqs, nb - 1) + iseq_events(
            insts,
            iseqs[nb - 1],
            (nb - 1) as usize,
            iseqs[nb - 1].len() as int,
        )
    }
}

/// Every use event of the function.
pub open spec fn ir_events(f: Function) -> Seq<UseEvent> {
    ir_events_upto(f.inst_table@, iseq_views(f), f.basic_blocks@.len() as int)
}

/// The per-block predecessor lists of the function.
pub open spec fn ir_preds(f: Function) -> Seq<Seq<usize>> {
    Seq::new(f.basic_blocks@.len(), |b: int| f.basic_blocks@[b].pred@)
}

/// The per-block `def` sets as the analysis computes them.
pub open spec fn ir_spec_defs(f: Function) -> Seq<Set<usize>> {
    Seq::new(
        f.basic_blocks@.len(),
        |b: int|
            ir_def_ids(
                f.inst_table@,
                f.basic_blocks@[b].iseq@,
                f.basic_blocks@[b].iseq@.len() as int,
            ),
    )
}

/// The recorded `def` sets of the function.
pub open spec fn ir_def_views(f: Function) -> Seq<Set<usize>> {
    Seq::new(f.basic_blocks@.len(), |b: int| f.basic_blocks@[b].liveness.def@)
}

/// The recorded `live_in` sets of the function.
pub open spec fn ir_in_views(f: Function) -> Seq<Set<usize>> {
    Seq::new(f.basic_blocks@.len(), |b: int| f.basic_blocks@[b].liveness.live_in@)
}

/// The recorded `live_out` sets of the function.
pub open spec fn ir_out_views(f: Function) -> Seq<Set<usize>> {
    Seq::new(f.basic_blocks@.len(), |b: int| f.basic_blocks@[b].liveness.live_out@)
}

/// The two functions agree on everything but the liveness records.
pub open spec fn same_cfg(a: Function, b: Function) -> bool {
    &&& a.name == b.name
    &&& a.ret_ty == b.ret_ty
    &&& a.inst_table@ == b.inst_table@
    &&& a.basic_blocks@.len() == b.basic_blocks@.len()
    &&& forall|i: int|
        0 <= i < a.basic_blocks@.len() ==> (#[trigger] a.basic_blocks@[i]).iseq@
            == b.basic_blocks@[i].iseq@ && a.basic_blocks@[i].pred@ == b.basic_blocks@[i].pred@
            && a.basic_blocks@[i].succ@ == b.basic_blocks@[i].succ@
}

/// The IR-level liveness pass: fills every block's `def`, `live_in` and
/// `live_out` record.
pub struct IRLivenessAnalyzer {}

impl IRLivenessAnalyzer {
    pub fn new() -> (r: Self) {
        IRLivenessAnalyzer {  }
    }

    /// Analyzes every function of the module.
    pub fn analyze(&mut self, module: &mut Module)
        requires
            forall|i: int|
                0 <= i < old(module).functions@.len() ==> (#[trigger] old(module).functions@[i]).wf(),
        ensures
            final(module).name == old(module).name,
            final(module).types == old(module).types,
            final(module).functions@.len() == old(module).functions@.len(),
            forall|i: int|
                0 <= i < old(module).functions@.len() ==> same_cfg(
                    #[trigger] final(module).functions@[i],
                    old(module).functions@[i],
                ) && analyzed(final(module).functions@[i]),
    {
        let n = module.functions.len();
        let mut i: usize = 0;
        while i < n
            invariant
                module.functions@.len() == n,
                module.name == old(module).name,
                module.types == old(module).types,
                forall|j: int|
                    0 <= j < n ==> same_cfg(
                        #[trigger] module.functions@[j],
                        old(module).functions@[j],
                    ),
                forall|j: int| 0 <= j < n ==> (#[trigger] module.functions@[j]).wf(),
                forall|j: int| 0 <= j < i ==> analyzed(#[trigger] module.functions@[j]),
            decreases n - i,
        {
            let f = &mut module.functions[i];
            Self::set_def_fn(f);
            Self::visit_fn(f);
            i = i + 1;
        }
    }

    /// Fills the `def` sets of one function.
    pub fn set_def(&mut self, f: &mut Function)
        requires
            old(f).wf(),
        ensures
            same_cfg(*final(f), *old(f)),
            final(f).wf(),
            ir_def_views(*final(f)) == ir_spec_defs(*final(f)),
            forall|b: int|
                0 <= b < final(f).basic_blocks@.len() ==> (#[trigger] final(f).basic_blocks@[b]).liveness.live_in@ == old(f).basic_blocks@[b].liveness.live_in@
                    && final(f).basic_blocks@[b].liveness.live_out@ == old(f).basic_blocks@[b].liveness.live_out@,
    {
        Self::set_def_fn(f)
    }

    /// Runs the backward propagation over one function whose `def` sets are
    /// already in place.
    pub fn visit(&mut self, f: &mut Function)
        requires
            old(f).wf(),
            ir_def_views(*old(f)) == ir_spec_defs(*old(f)),
        ensures
            same_cfg(*final(f), *old(f)),
            final(f).wf(),
            analyzed(*final(f)),
    {
        Self::visit_fn(f)
    }

    fn set_def_fn(f: &mut Function)
        requires
            old(f).wf(),
        ensures
            same_cfg(*final(f), *old(f)),
            final(f).wf(),
            ir_def_views(*final(f)) == ir_spec_defs(*final(f)),
            forall|b: int|
                0 <= b < final(f).basic_blocks@.len() ==> (#[trigger] final(f).basic_blocks@[b]).liveness.live_in@ == old(f).basic_blocks@[b].liveness.live_in@
                    && final(f).basic_blocks@[b].liveness.live_out@ == old(f).basic_blocks@[b].liveness.live_out@,
    {
        let nb = f.basic_blocks.len();
        let mut b: usize = 0;
        while b < nb
            invariant
                b <= nb,
                f.basic_blocks@.len() == nb,
                f.inst_table@ == old(f).inst_table@,
                f.ret_ty == old(f).ret_ty,
                f.name == old(f).name,
                f.wf(),
                same_cfg(*f, *old(f)),
                forall|j: int|
                    0 <= j < nb ==> (#[trigger] f.basic_blocks@[j]).liveness.live_in@ == old(f).basic_blocks@[j].liveness.live_in@ && f.basic_blocks@[j].liveness.live_out@
                        == old(f).basic_blocks@[j].liveness.live_out@,
                forall|j: int|
                    0 <= j < b ==> (#[trigger] f.basic_blocks@[j]).liveness.def@ == ir_def_ids(
                        f.inst_table@,
                        f.basic_blocks@[j].iseq@,
                        f.basic_blocks@[j].iseq@.len() as int,
                    ),
            decreases nb - b,
        {
            let np = f.basic_blocks[b].iseq.len();
            let mut def = IdSet::new();
            let mut pos: usize = 0;
            while pos < np
                invariant
                    pos <= np,
                    b < nb,
                    f.basic_blocks@.len() == nb,
                    np == f.basic_blocks@[b as int].iseq@.len(),
                    f.wf(),
                    def@ == ir_def_ids(
                        f.inst_table@,
                        f.basic_blocks@[b as int].iseq@,
                        pos as int,
                    ),
                decreases np - pos,
            {
                let inst_val = f.basic_blocks[b].iseq[pos];
                let inst_id = match inst_val.get_inst_id() {
                    Some(id) => id,
                    None => {
                        proof {
                            assert(false);
                        }
                        0
                    },
                };
                let opcode = f.inst_table[inst_id].opcode;
                let call_defines = opcode == Opcode::Call && !(f.inst_table[inst_id].ty
                    == Type::Void);
                if call_defines {
                    let _ = def.insert(inst_id);
                } else if opcode.returns_value() {
                    let _ = def.insert(inst_id);
                } else {
                    proof {
                        assert(def@ =~= ir_def_ids(
                            f.inst_table@,
                            f.basic_blocks@[b as int].iseq@,
                            pos as int + 1,
                        ));
                    }
                }
                pos = pos + 1;
            }
            f.basic_blocks[b].liveness.def = def;
            proof {
                assert forall|j: int|
                    0 <= j < b + 1 implies (#[trigger] f.basic_blocks@[j]).liveness.def@
                    == ir_def_ids(
                    f.inst_table@,
                    f.basic_blocks@[j].iseq@,
                    f.basic_blocks@[j].iseq@.len() as int,
                ) by {
                    if j == b {
                        assert(f.basic_blocks@[j].liveness.def@ == def@);
                    }
                }
            }
            b = b + 1;
        }
        proof {
            assert(ir_def_views(*f) =~= ir_spec_defs(*f));
        }
    }

    fn visit_fn(f: &mut Function)
        requires
            old(f).wf(),
            ir_def_views(*old(f)) == ir_spec_defs(*old(f)),
        ensures
            same_cfg(*final(f), *old(f)),
            final(f).wf(),
            analyzed(*final(f)),
    {
        let nb = f.basic_blocks.len();
        let n_ids = f.inst_table.len();

        let mut preds: Vec<Vec<usize>> = Vec::new();
        let mut defs: Vec<IdSet> = Vec::new();
        let mut b: usize = 0;
        while b < nb
            invariant
                b <= nb,
                f.basic_blocks@.len() == nb,
                f.wf(),
                preds@.len() == b,
                defs@.len() == b,
                forall|j: int|
                    0 <= j < b ==> (#[trigger] preds@[j])@ == f.basic_blocks@[j].pred@,
                forall|j: int|
                    0 <= j < b ==> (#[trigger] defs@[j])@ == f.basic_blocks@[j].liveness.def@,
            decreases nb - b,
        {
            let mut pl: Vec<usize> = Vec::new();
            let npred = f.basic_blocks[b].pred.len();
            let mut k: usize = 0;
            while k < npred
                invariant
                    b < nb,
                    f.basic_blocks@.len() == nb,
                    npred == f.basic_blocks@[b as int].pred@.len(),
                    pl@ == f.basic_blocks@[b as int].pred@.subrange(0, k as int),
                    k <= npred,
                decreases npred - k,
            {
                pl.push(f.basic_blocks[b].pred[k]);
                proof {
                    assert(pl@ =~= f.basic_blocks@[b as int].pred@.subrange(0, k as int + 1));
                }
                k = k + 1;
            }
            proof {
                assert(pl@ =~= f.basic_blocks@[b as int].pred@);
            }
            preds.push(pl);
            defs.push(f.basic_blocks[b].liveness.def.duplicate());
            b = b + 1;
        }

        let ghost insts0 = f.inst_table@;
        let ghost iseqs0 = iseq_views(*f);
        let mut events: Vec<UseEvent> = Vec::new();
        let mut b2: usize = 0;
        while b2 < nb
            invariant
                b2 <= nb,
                f.basic_blocks@.len() == nb,
                f.wf(),
                iseqs0 == iseq_views(*f),
                insts0 == f.inst_table@,
                events@ == ir_events_upto(insts0, iseqs0, b2 as int),
                forall|t: int|
                    0 <= t < events@.len() ==> (#[trigger] events@[t]).block < nb
                        && events@[t].id < f.inst_table@.len() && match events@[t].incoming {
                        Some(p) => p < nb,
                        None => true,
                    },
            decreases nb - b2,
        {
            let np = f.basic_blocks[b2].iseq.len();
            let mut pos: usize = 0;
            while pos < np
                invariant
                    pos <= np,
                    b2 < nb,
                    f.basic_blocks@.len() == nb,
                    np == f.basic_blocks@[b2 as int].iseq@.len(),
                    f.wf(),
                    iseqs0 == iseq_views(*f),
                    insts0 == f.inst_table@,
                    events@ == ir_events_upto(insts0, iseqs0, b2 as int) + iseq_events(
                        insts0,
                        iseqs0[b2 as int],
                        b2,
                        pos as int,
                    ),
                    forall|t: int|
                        0 <= t < events@.len() ==> (#[trigger] events@[t]).block < nb
                            && events@[t].id < f.inst_table@.len() && match events@[t].incoming {
                            Some(p) => p < nb,
                            None => true,
                        },
                decreases np - pos,
            {
                let inst_val = f.basic_blocks[b2].iseq[pos];
                let inst_id = match inst_val.get_inst_id() {
                    Some(id) => id,
                    None => {
                        proof {
                            assert(false);
                        }
                        0
                    },
                };
                let is_phi = f.inst_table[inst_id].opcode == Opcode::Phi;
                let nops = f.inst_table[inst_id].operands.len();
                let mut oi: usize = 0;
                while oi < nops
                    invariant
                        oi <= nops,
                        b2 < nb,
                        inst_id < f.inst_table@.len(),
                        f.basic_blocks@.len() == nb,
                        np == f.basic_blocks@[b2 as int].iseq@.len(),
                        pos < np,
                        iseqs0 == iseq_views(*f),
                        insts0 == f.inst_table@,
                        f.basic_blocks@[b2 as int].iseq@[pos as int] == Value::Instruction(
                            inst_id,
                        ),
                        f.wf(),
                        is_phi == (f.inst_table@[inst_id as int].opcode == Opcode::Phi),
                        nops == f.inst_table@[inst_id as int].operands@.len(),
                        events@ == ir_events_upto(insts0, iseqs0, b2 as int) + iseq_events(
                            insts0,
                            iseqs0[b2 as int],
                            b2,
                            pos as int,
                        ) + ops_events(
                            insts0[inst_id as int].operands@,
                            b2,
                            is_phi,
                            oi as int,
                        ),
                        forall|t: int|
                            0 <= t < events@.len() ==> (#[trigger] events@[t]).block < nb
                                && events@[t].id < f.inst_table@.len() && match events@[t].incoming {
                                Some(p) => p < nb,
                                None => true,
                            },
                    decreases nops - oi,
                {
                    let op = f.inst_table[inst_id].operands[oi];
                    match op {
                        Operand::Value(v) => {
                            match v.get_inst_id() {
                                Some(used) => {
                                    if is_phi {
                                        let inc = if oi + 1 < nops {
                                            match f.inst_table[inst_id].operands[oi + 1] {
                                                Operand::BasicBlock(p) => Some(p),
                                                _ => None,
                                            }
                                        } else {
                                            None
                                        };
                                        match inc {
                                            Some(p) => {
                                                events.push(
                                                    UseEvent {
                                                        block: b2,
                                                        id: used,
                                                        incoming: Some(p),
                                                    },
                                                );
                                            },
                                            None => {
                                            },
                                        }
                                    } else {
                                        events.push(
                                            UseEvent { block: b2, id: used, incoming: None },
                                        );
                                    }
                                },
                                None => {
                                },
                            }
                        },
                        _ => {
                        },
                    }
                    proof {
                        assert(events@ =~= ir_events_upto(insts0, iseqs0, b2 as int) + iseq_events(
                            insts0,
                            iseqs0[b2 as int],
                            b2,
                            pos as int,
                        ) + ops_events(
                            insts0[inst_id as int].operands@,
                            b2,
                            is_phi,
                            oi as int + 1,
                        ));
                    }
                    oi = oi + 1;
                }
                proof {
                    assert(events@ =~= ir_events_upto(insts0, iseqs0, b2 as int) + iseq_events(
                        insts0,
                        iseqs0[b2 as int],
                        b2,
                        pos as int + 1,
                    ));
                }
                pos = pos + 1;
            }
            proof {
                assert(events@ =~= ir_events_upto(insts0, iseqs0, b2 as int + 1));
            }
            b2 = b2 + 1;
        }

        proof {
            assert forall|bj: int, k: int|
                0 <= bj < preds@.len() && 0 <= k < preds@[bj]@.len() implies (#[trigger] preds@[
            bj]@[k]) < preds@.len() by {
                assert(preds@[bj]@ == f.basic_blocks@[bj].pred@);
            }
        }
        let (mut live_ins, mut live_outs) = propagate(&preds, &defs, &events, n_ids);
        let ghost ghost_ins = crate::dataflow::set_views(live_ins@);
        let ghost ghost_outs = crate::dataflow::set_views(live_outs@);
        let ghost ghost_preds = crate::dataflow::vec_views(preds@);
        let ghost ghost_defs = crate::dataflow::set_views(defs@);
        let ghost ghost_events = events@;

        proof {
            assert forall|j: int|
                0 <= j < nb implies (#[trigger] f.basic_blocks@[j]).liveness.def@ == ir_def_ids(
                f.inst_table@,
                f.basic_blocks@[j].iseq@,
                f.basic_blocks@[j].iseq@.len() as int,
            ) by {
                assert(ir_def_views(*f)[j] == ir_spec_defs(*f)[j]);
            }
        }
        proof {
            assert(crate::dataflow::set_views(live_ins@) =~= ghost_ins.subrange(0, nb as int));
            assert(crate::dataflow::set_views(live_outs@) =~= ghost_outs.subrange(0, nb as int));
        }
        let mut b3: usize = nb;
        while b3 > 0
            invariant
                b3 <= nb,
                f.basic_blocks@.len() == nb,
                f.wf(),
                same_cfg(*f, *old(f)),
                live_ins@.len() == b3,
                live_outs@.len() == b3,
                forall|j: int|
                    0 <= j < nb ==> (#[trigger] f.basic_blocks@[j]).liveness.def@ == ir_def_ids(
                        f.inst_table@,
                        f.basic_blocks@[j].iseq@,
                        f.basic_blocks@[j].iseq@.len() as int,
                    ),
                forall|j: int|
                    0 <= j < b3 ==> (#[trigger] f.basic_blocks@[j]).liveness.def@ == old(f).basic_blocks@[j].liveness.def@,
                forall|j: int|
                    b3 <= j < nb ==> (#[trigger] f.basic_blocks@[j]).liveness.def@ == old(f).basic_blocks@[j].liveness.def@,
                crate::dataflow::set_views(live_ins@) == ghost_ins.subrange(0, b3 as int),
                crate::dataflow::set_views(live_outs@) == ghost_outs.subrange(0, b3 as int),
                forall|j: int|
                    b3 <= j < nb ==> (#[trigger] f.basic_blocks@[j]).liveness.live_in@
                        == ghost_ins[j] && f.basic_blocks@[j].liveness.live_out@ == ghost_outs[j],
            decreases b3,
        {
            let ghost pre_li = live_ins@;
            let ghost pre_lo = live_outs@;
            let li = live_ins.pop().unwrap();
            let lo = live_outs.pop().unwrap();
            proof {
                assert(li@ == crate::dataflow::set_views(pre_li)[b3 - 1]);
                assert(lo@ == crate::dataflow::set_views(pre_lo)[b3 - 1]);
                assert(crate::dataflow::set_views(live_ins@) =~= ghost_ins.subrange(
                    0,
                    b3 as int - 1,
                ));
                assert(crate::dataflow::set_views(live_outs@) =~= ghost_outs.subrange(
                    0,
                    b3 as int - 1,
                ));
            }
            f.basic_blocks[b3 - 1].liveness.live_in = li;
            f.basic_blocks[b3 - 1].liveness.live_out = lo;
            b3 = b3 - 1;
        }
        proof {
            assert(ir_def_views(*f) =~= ir_spec_defs(*f));
            assert(ir_preds(*f) =~= ghost_preds);
            assert(ir_def_views(*f) =~= ghost_defs);
            assert(ir_in_views(*f) =~= ghost_ins);
            assert(ir_out_views(*f) =~= ghost_outs);
            assert(iseq_views(*f) =~= iseqs0);
            assert(ir_events(*f) == ghost_events);
            assert(ir_spec_defs(*f) =~= ir_spec_defs(*old(f)));
            assert(ir_def_views(*f) =~= ir_def_views(*old(f)));
            assert forall|b: int, v: usize|
                0 <= b < f.basic_blocks@.len() && (
                #[trigger] f.basic_blocks@[b].liveness.live_in@.contains(v)) implies !f.basic_blocks@[
            b].liveness.def@.contains(v) by {
                assert(ghost_ins[b].contains(v));
                assert(!ghost_defs[b].contains(v));
                assert(ghost_defs[b] == f.basic_blocks@[b].liveness.def@);
            }
            assert(analyzed(*f));
        }
    }
}

/// Liveness is idempotent: two analyzed states of one function (same
/// control flow and instructions, so same defs and uses) carry identical
/// `live_in` and `live_out` sets — re-running the analysis on cleared sets
/// can only reproduce them.
pub proof fn lemma_liveness_idempotent(f1: Function, f2: Function)
    requires
        analyzed(f1),
        analyzed(f2),
        same_cfg(f1, f2),
    ensures
        forall|b: int|
            0 <= b < f1.basic_blocks@.len() ==> (#[trigger] f1.basic_blocks@[b]).liveness.live_in@
                =~= f2.basic_blocks@[b].liveness.live_in@
                && f1.basic_blocks@[b].liveness.live_out@
                =~= f2.basic_blocks@[b].liveness.live_out@,
{
    assert(ir_preds(f1) =~= ir_preds(f2));
    assert(iseq_views(f1) =~= iseq_views(f2));
    assert(ir_events(f1) == ir_events(f2));
    assert(ir_spec_defs(f1) =~= ir_spec_defs(f2));
    assert(ir_def_views(f1) == ir_def_views(f2));
    crate::dataflow::lemma_least_solution_unique(
        ir_preds(f1),
        ir_def_views(f1),
        ir_events(f1),
        ir_in_views(f1),
        ir_out_views(f1),
        ir_in_views(f2),
        ir_out_views(f2),
    );
    assert forall|b: int|
        0 <= b < f1.basic_blocks@.len() implies (#[trigger] f1.basic_blocks@[b]).liveness.live_in@
        =~= f2.basic_blocks@[b].liveness.live_in@ && f1.basic_blocks@[b].liveness.live_out@
        =~= f2.basic_blocks@[b].liveness.live_out@ by {
        assert(ir_in_views(f1)[b] =~= ir_in_views(f2)[b]);
        assert(ir_out_views(f1)[b] =~= ir_out_views(f2)[b]);
    }
}

/// The function's liveness records are exactly the least solution of the
/// closure rules for its own graph, defs and uses, and `def` and `live_in`
/// are disjoint in every block.
pub open spec fn analyzed(f: Function) -> bool {
    &&& ir_def_views(f) == ir_spec_defs(f)
    &&& is_least_solution(ir_preds(f), ir_def_views(f), ir_events(f), ir_in_views(f), ir_out_views(f))
    &&& forall|b: int, v: usize|
        0 <= b < f.basic_blocks@.len() && (#[trigger] f.basic_blocks@[b].liveness.live_in@.contains(
            v,
        )) ==> !f.basic_blocks@[b].liveness.def@.contains(v)
}

} // verus!
