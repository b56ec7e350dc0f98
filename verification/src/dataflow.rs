use crate::collections::IdSet;
use vstd::prelude::*;

verus! {

/// One observed use of a value: block `block` uses the value defined by
/// instruction `id`. For a phi operand, `incoming` names the predecessor
/// block the value arrives from; for an ordinary operand it is `None`.
#[derive(Clone, Copy, Debug)]
pub struct UseEvent {
    pub block: usize,
    pub id: usize,
    pub incoming: Option<usize>,
}

/// The per-block member sets of a `Vec<IdSet>`, as mathematical sets.
pub open spec fn set_views(s: Seq<IdSet>) -> Seq<Set<usize>> {
    Seq::new(s.len(), |i: int| s[i]@)
}

/// The per-block predecessor lists, as mathematical sequences.
pub open spec fn vec_views(s: Seq<Vec<usize>>) -> Seq<Seq<usize>> {
    Seq::new(s.len(), |i: int| s[i]@)
}

/// The value `v`, live into some successor of `b`, is recorded live out of
/// every listed predecessor `preds[b][k]`.
pub open spec fn spread_done(preds: Seq<Seq<usize>>, outs: Seq<Set<usize>>, b: int, v: usize) -> bool {
    forall|k: int| 0 <= k < preds[b].len() ==> outs[#[trigger] preds[b][k] as int].contains(v)
}

/// What one use demands of the liveness sets: the value is live into the
/// use's block unless defined there, and it is live out of the incoming
/// predecessor (for a phi use) or of every predecessor (otherwise).
pub open spec fn event_held(
    preds: Seq<Seq<usize>>,
    defs: Seq<Set<usize>>,
    ev: UseEvent,
    ins: Seq<Set<usize>>,
    outs: Seq<Set<usize>>,
) -> bool {
    !defs[ev.block as int].contains(ev.id) ==> {
        &&& ins[ev.block as int].contains(ev.id)
        &&& match ev.incoming {
            Some(p) => outs[p as int].contains(ev.id),
            None => spread_done(preds, outs, ev.block as int, ev.id),
        }
    }
}

/// The closure rules of backward liveness over a block graph: every use is
/// honoured, a value live out of a block and not defined there is live into
/// it, and a value live into a block is live out of each of its
/// predecessors.
pub open spec fn is_solution(
    preds: Seq<Seq<usize>>,
    defs: Seq<Set<usize>>,
    events: Seq<UseEvent>,
    ins: Seq<Set<usize>>,
    outs: Seq<Set<usize>>,
) -> bool {
    &&& forall|e: int|
        0 <= e < events.len() ==> event_held(preds, defs, #[trigger] events[e], ins, outs)
    &&& forall|b: int, v: usize|
        0 <= b < preds.len() && #[trigger] outs[b].contains(v) && !defs[b].contains(v)
            ==> ins[b].contains(v)
    &&& forall|b: int, v: usize|
        0 <= b < preds.len() && #[trigger] outs[b].contains(v) && !defs[b].contains(v)
            ==> spread_done(preds, outs, b, v)
}

/// Pointwise containment of per-block sets.
pub open spec fn contained_in(xs: Seq<Set<usize>>, ys: Seq<Set<usize>>) -> bool {
    forall|b: int, v: usize|
        0 <= b < xs.len() && #[trigger] xs[b].contains(v) ==> ys[b].contains(v)
}

/// The sets are not merely closed under the rules but the least ones that
/// are: they hold nothing any other solution could omit.
pub open spec fn is_least_solution(
    preds: Seq<Seq<usize>>,
    defs: Seq<Set<usize>>,
    events: Seq<UseEvent>,
    ins: Seq<Set<usize>>,
    outs: Seq<Set<usize>>,
) -> bool {
    &&& is_solution(preds, defs, events, ins, outs)
    &&& forall|ins2: Seq<Set<usize>>, outs2: Seq<Set<usize>>|
        ins2.len() == preds.len() && outs2.len() == preds.len() && #[trigger] is_solution(
            preds,
            defs,
            events,
            ins2,
            outs2,
        ) ==> contained_in(ins, ins2) && contained_in(outs, outs2)
}

/// Liveness has one answer: two least solutions agree set for set. Running
/// the analysis again on cleared sets can only reproduce the same records.
pub proof fn lemma_least_solution_unique(
    preds: Seq<Seq<usize>>,
    defs: Seq<Set<usize>>,
    events: Seq<UseEvent>,
    ins1: Seq<Set<usize>>,
    outs1: Seq<Set<usize>>,
    ins2: Seq<Set<usize>>,
    outs2: Seq<Set<usize>>,
)
    requires
        ins1.len() == preds.len(),
        outs1.len() == preds.len(),
        ins2.len() == preds.len(),
        outs2.len() == preds.len(),
        is_least_solution(preds, defs, events, ins1, outs1),
        is_least_solution(preds, defs, events, ins2, outs2),
    ensures
        forall|b: int| 0 <= b < preds.len() ==> #[trigger] ins1[b] =~= ins2[b],
        forall|b: int| 0 <= b < preds.len() ==> #[trigger] outs1[b] =~= outs2[b],
{
    assert(is_solution(preds, defs, events, ins1, outs1));
    assert(is_solution(preds, defs, events, ins2, outs2));
    assert(contained_in(ins1, ins2) && contained_in(outs1, outs2));
    assert(contained_in(ins2, ins1) && contained_in(outs2, outs1));
}

/// Phi attribution: a value a phi draws from predecessor `p` is live out
/// of that named predecessor, and live into the phi's own block, unless the
/// block itself defines it.
pub proof fn lemma_phi_attribution(
    preds: Seq<Seq<usize>>,
    defs: Seq<Set<usize>>,
    events: Seq<UseEvent>,
    ins: Seq<Set<usize>>,
    outs: Seq<Set<usize>>,
    e: int,
)
    requires
        is_least_solution(preds, defs, events, ins, outs),
        0 <= e < events.len(),
        events[e].incoming is Some,
        !defs[events[e].block as int].contains(events[e].id),
    ensures
        outs[events[e].incoming.unwrap() as int].contains(events[e].id),
        ins[events[e].block as int].contains(events[e].id),
{
    assert(event_held(preds, defs, events[e], ins, outs));
}

/// No over-propagation: the computed sets never exceed what the closure
/// rules force, so a block that some solution keeps clean stays clean. In
/// particular a phi's value does not leak into the predecessors it is not
/// drawn from.
pub proof fn lemma_no_overpropagation(
    preds: Seq<Seq<usize>>,
    defs: Seq<Set<usize>>,
    events: Seq<UseEvent>,
    ins: Seq<Set<usize>>,
    outs: Seq<Set<usize>>,
    ins2: Seq<Set<usize>>,
    outs2: Seq<Set<usize>>,
    b: int,
    v: usize,
)
    requires
        is_least_solution(preds, defs, events, ins, outs),
        ins.len() == preds.len(),
        outs.len() == preds.len(),
        ins2.len() == preds.len(),
        outs2.len() == preds.len(),
        is_solution(preds, defs, events, ins2, outs2),
        0 <= b < preds.len(),
        !outs2[b].contains(v),
    ensures
        !outs[b].contains(v),
{
    assert(contained_in(outs, outs2));
}

/// Internal bookkeeping bounds: `n` blocks, members below `n_ids`, finite.
pub open spec fn engine_state_ok(
    n: int,
    n_ids: nat,
    ins: Seq<Set<usize>>,
    outs: Seq<Set<usize>>,
) -> bool {
    &&& ins.len() == n
    &&& outs.len() == n
    &&& forall|b: int| 0 <= b < n ==> (#[trigger] ins[b]).finite()
    &&& forall|b: int| 0 <= b < n ==> (#[trigger] outs[b]).finite()
    &&& forall|b: int, v: usize| 0 <= b < n && #[trigger] ins[b].contains(v) ==> v < n_ids
    &&& forall|b: int, v: usize| 0 <= b < n && #[trigger] outs[b].contains(v) ==> v < n_ids
}

/// Every queued pair names a block and a value already live out of it.
pub open spec fn wl_ok(
    n: int,
    n_ids: nat,
    outs: Seq<Set<usize>>,
    wl: Seq<(usize, usize)>,
) -> bool {
    forall|t: int|
        0 <= t < wl.len() ==> (#[trigger] wl[t]).0 < n && wl[t].1 < n_ids
            && outs[wl[t].0 as int].contains(wl[t].1)
}

/// The pair `(c, v)` is queued for propagation.
pub open spec fn wl_has(wl: Seq<(usize, usize)>, c: int, v: usize) -> bool {
    exists|t: int| 0 <= t < wl.len() && #[trigger] wl[t] == ((c as usize, v))
}

/// Every liveness fact not yet propagated onward is queued: a value live
/// out of a block either has been pushed into the block's `live_in` and all
/// its predecessors' `live_out`, or still sits on the worklist.
pub open spec fn wl_closed(
    preds: Seq<Seq<usize>>,
    defs: Seq<Set<usize>>,
    ins: Seq<Set<usize>>,
    outs: Seq<Set<usize>>,
    wl: Seq<(usize, usize)>,
) -> bool {
    forall|c: int, v: usize|
        0 <= c < preds.len() && #[trigger] outs[c].contains(v) && !defs[c].contains(v) ==> (
        ins[c].contains(v) && spread_done(preds, outs, c, v)) || wl_has(wl, c, v)
}

/// Every member of every `ins`/`outs` set is demanded by every solution.
pub open spec fn below_all_solutions(
    preds: Seq<Seq<usize>>,
    defs: Seq<Set<usize>>,
    events: Seq<UseEvent>,
    ins: Seq<Set<usize>>,
    outs: Seq<Set<usize>>,
) -> bool {
    forall|ins2: Seq<Set<usize>>, outs2: Seq<Set<usize>>|
        ins2.len() == preds.len() && outs2.len() == preds.len() && #[trigger] is_solution(
            preds,
            defs,
            events,
            ins2,
            outs2,
        ) ==> contained_in(ins, ins2) && contained_in(outs, outs2)
}

/// How far the `outs` sets still are from saturation: summed free capacity
/// of each block's set, `n_ids` less what it already holds.
pub open spec fn sum_slack(outs: Seq<Set<usize>>, n_ids: nat) -> int
    decreases outs.len(),
{
    if outs.len() == 0 {
        0
    } else {
        sum_slack(outs.drop_last(), n_ids) + n_ids - outs.last().len()
    }
}

/// A finite set of machine words below `u` holds at most `u` members.
pub proof fn lemma_usize_set_len_bound(s: Set<usize>, u: nat)
    requires
        s.finite(),
        forall|v: usize| #[trigger] s.contains(v) ==> (v as nat) < u,
    ensures
        s.len() <= u,
    decreases u,
{
    if u == 0 {
        if s.len() > 0 {
            let v = s.choose();
            assert(s.contains(v));
        }
    } else {
        let top = (u - 1) as usize;
        if s.contains(top) {
            let s2 = s.remove(top);
            assert(forall|v: usize| #[trigger] s2.contains(v) ==> (v as nat) < u - 1);
            lemma_usize_set_len_bound(s2, (u - 1) as nat);
        } else {
            assert(forall|v: usize| #[trigger] s.contains(v) ==> (v as nat) < u - 1);
            lemma_usize_set_len_bound(s, (u - 1) as nat);
        }
    }
}

/// Slack is never negative while the sets stay bounded by `n_ids`.
proof fn lemma_sum_slack_nonneg(outs: Seq<Set<usize>>, n_ids: nat)
    requires
        forall|b: int| 0 <= b < outs.len() ==> (#[trigger] outs[b]).finite(),
        forall|b: int, v: usize|
            0 <= b < outs.len() && #[trigger] outs[b].contains(v) ==> (v as nat) < n_ids,
    ensures
        sum_slack(outs, n_ids) >= 0,
    decreases outs.len(),
{
    if outs.len() > 0 {
        lemma_usize_set_len_bound(outs.last(), n_ids);
        lemma_sum_slack_nonneg(outs.drop_last(), n_ids);
    }
}

/// Adding one new member to one block's set lowers the slack by one.
proof fn lemma_sum_slack_insert(outs: Seq<Set<usize>>, n_ids: nat, b: int, v: usize)
    requires
        0 <= b < outs.len(),
        forall|i: int| 0 <= i < outs.len() ==> (#[trigger] outs[i]).finite(),
        !outs[b].contains(v),
    ensures
        sum_slack(outs.update(b, outs[b].insert(v)), n_ids) == sum_slack(outs, n_ids) - 1,
    decreases outs.len(),
{
    let updated = outs.update(b, outs[b].insert(v));
    if b == outs.len() - 1 {
        assert(updated.drop_last() =~= outs.drop_last());
        assert(updated.last() == outs.last().insert(v));
        assert(outs.last().insert(v).len() == outs.last().len() + 1);
    } else {
        assert(updated.drop_last() =~= outs.drop_last().update(b, outs.drop_last()[b].insert(v)));
        assert(updated.last() == outs.last());
        lemma_sum_slack_insert(outs.drop_last(), n_ids, b, v);
    }
}

/// The value `v` must be live into block `b` under every solution: either a
/// use in `b` demands it, or it is already known live out of `b`.
pub open spec fn justified_in(
    preds: Seq<Seq<usize>>,
    defs: Seq<Set<usize>>,
    events: Seq<UseEvent>,
    outs: Seq<Set<usize>>,
    b: int,
    v: usize,
) -> bool {
    &&& !defs[b].contains(v)
    &&& {
        ||| exists|e: int|
            0 <= e < events.len() && (#[trigger] events[e]).block == b && events[e].id == v
        ||| outs[b].contains(v)
    }
}

/// The value `v` must be live out of block `p` under every solution: a use
/// reached along an edge from `p` demands it, or it flows out of a block
/// `c` whose predecessor list names `p`.
pub open spec fn justified_out(
    preds: Seq<Seq<usize>>,
    defs: Seq<Set<usize>>,
    events: Seq<UseEvent>,
    outs: Seq<Set<usize>>,
    p: int,
    v: usize,
) -> bool {
    ||| exists|e: int|
        0 <= e < events.len() && (#[trigger] events[e]).id == v && !defs[events[e].block as int].contains(v)
            && match events[e].incoming {
            Some(q) => q == p,
            None => exists|k: int|
                0 <= k < preds[events[e].block as int].len() && #[trigger] preds[
                    events[e].block as int
                ][k] == p,
        }
    ||| exists|c: int|
        0 <= c < preds.len() && (#[trigger] outs[c]).contains(v) && !defs[c].contains(v)
            && exists|k: int| 0 <= k < preds[c].len() && #[trigger] preds[c][k] == p
}

/// Inserting a justified value into a `live_in` set keeps the state below
/// every solution.
proof fn lemma_min_insert_in(
    preds: Seq<Seq<usize>>,
    defs: Seq<Set<usize>>,
    events: Seq<UseEvent>,
    ins: Seq<Set<usize>>,
    outs: Seq<Set<usize>>,
    b: int,
    v: usize,
)
    requires
        ins.len() == preds.len(),
        outs.len() == preds.len(),
        0 <= b < preds.len(),
        below_all_solutions(preds, defs, events, ins, outs),
        justified_in(preds, defs, events, outs, b, v),
    ensures
        below_all_solutions(
            preds,
            defs,
            events,
            ins.update(b, ins[b].insert(v)),
            outs,
        ),
{
    let new_ins = ins.update(b, ins[b].insert(v));
    assert forall|ins2: Seq<Set<usize>>, outs2: Seq<Set<usize>>|
        ins2.len() == preds.len() && outs2.len() == preds.len() && #[trigger] is_solution(
            preds,
            defs,
            events,
            ins2,
            outs2,
        ) implies contained_in(new_ins, ins2) && contained_in(outs, outs2) by {
        assert(contained_in(ins, ins2) && contained_in(outs, outs2));
        assert(ins2[b].contains(v)) by {
            if exists|e: int|
                0 <= e < events.len() && (#[trigger] events[e]).block == b && events[e].id == v {
                let e = choose|e: int|
                    0 <= e < events.len() && (#[trigger] events[e]).block == b && events[e].id
                        == v;
                assert(event_held(preds, defs, events[e], ins2, outs2));
            } else {
                assert(outs[b].contains(v));
                assert(outs2[b].contains(v));
            }
        }
        assert forall|b2: int, v2: usize|
            0 <= b2 < new_ins.len() && #[trigger] new_ins[b2].contains(v2) implies ins2[b2].contains(
            v2,
        ) by {
            if b2 == b && v2 == v {
            } else {
                assert(ins[b2].contains(v2));
            }
        }
    }
}

/// Inserting a justified value into a `live_out` set keeps the state below
/// every solution.
proof fn lemma_min_insert_out(
    preds: Seq<Seq<usize>>,
    defs: Seq<Set<usize>>,
    events: Seq<UseEvent>,
    ins: Seq<Set<usize>>,
    outs: Seq<Set<usize>>,
    p: int,
    v: usize,
)
    requires
        ins.len() == preds.len(),
        outs.len() == preds.len(),
        0 <= p < preds.len(),
        below_all_solutions(preds, defs, events, ins, outs),
        justified_out(preds, defs, events, outs, p, v),
    ensures
        below_all_solutions(
            preds,
            defs,
            events,
            ins,
            outs.update(p, outs[p].insert(v)),
        ),
{
    let new_outs = outs.update(p, outs[p].insert(v));
    assert forall|ins2: Seq<Set<usize>>, outs2: Seq<Set<usize>>|
        ins2.len() == preds.len() && outs2.len() == preds.len() && #[trigger] is_solution(
            preds,
            defs,
            events,
            ins2,
            outs2,
        ) implies contained_in(ins, ins2) && contained_in(new_outs, outs2) by {
        assert(contained_in(ins, ins2) && contained_in(outs, outs2));
        assert(outs2[p].contains(v)) by {
            if exists|e: int|
                0 <= e < events.len() && (#[trigger] events[e]).id == v && !defs[
                    events[e].block as int
                ].contains(v) && match events[e].incoming {
                    Some(q) => q == p,
                    None => exists|k: int|
                        0 <= k < preds[events[e].block as int].len() && #[trigger] preds[
                            events[e].block as int
                        ][k] == p,
                } {
                let e = choose|e: int|
                    0 <= e < events.len() && (#[trigger] events[e]).id == v && !defs[
                        events[e].block as int
                    ].contains(v) && match events[e].incoming {
                        Some(q) => q == p,
                        None => exists|k: int|
                            0 <= k < preds[events[e].block as int].len() && #[trigger] preds[
                                events[e].block as int
                            ][k] == p,
                    };
                assert(event_held(preds, defs, events[e], ins2, outs2));
                match events[e].incoming {
                    Some(_) => {
                    },
                    None => {
                        assert(spread_done(preds, outs2, events[e].block as int, v));
                        let k = choose|k: int|
                            0 <= k < preds[events[e].block as int].len() && #[trigger] preds[
                                events[e].block as int
                            ][k] == p;
                        assert(outs2[preds[events[e].block as int][k] as int].contains(v));
                    },
                }
            } else {
                let c = choose|c: int|
                    0 <= c < preds.len() && (#[trigger] outs[c]).contains(v) && !defs[c].contains(
                        v,
                    ) && exists|k: int| 0 <= k < preds[c].len() && #[trigger] preds[c][k] == p;
                assert(outs2[c].contains(v));
                assert(spread_done(preds, outs2, c, v));
                let k = choose|k: int| 0 <= k < preds[c].len() && #[trigger] preds[c][k] == p;
                assert(outs2[preds[c][k] as int].contains(v));
            }
        }
        assert forall|b2: int, v2: usize|
            0 <= b2 < new_outs.len() && #[trigger] new_outs[b2].contains(v2) implies outs2[
            b2
        ].contains(v2) by {
            if b2 == p && v2 == v {
            } else {
                assert(outs[b2].contains(v2));
            }
        }
    }
}

/// As `wl_closed`, but the pair `(c, v)` is being propagated right now and
/// is allowed to be neither finished nor queued.
pub open spec fn wl_closed_except(
    preds: Seq<Seq<usize>>,
    defs: Seq<Set<usize>>,
    ins: Seq<Set<usize>>,
    outs: Seq<Set<usize>>,
    wl: Seq<(usize, usize)>,
    c: int,
    v: usize,
) -> bool {
    forall|c2: int, v2: usize|
        0 <= c2 < preds.len() && #[trigger] outs[c2].contains(v2) && !defs[c2].contains(v2) && !(c2
            == c && v2 == v) ==> (ins[c2].contains(v2) && spread_done(preds, outs, c2, v2))
            || wl_has(wl, c2, v2)
}

/// Growing the sets preserves every already-honoured use.
proof fn lemma_events_mono(
    preds: Seq<Seq<usize>>,
    defs: Seq<Set<usize>>,
    events: Seq<UseEvent>,
    ins1: Seq<Set<usize>>,
    outs1: Seq<Set<usize>>,
    ins2: Seq<Set<usize>>,
    outs2: Seq<Set<usize>>,
    bound: int,
)
    requires
        ins1.len() == preds.len(),
        outs1.len() == preds.len(),
        ins2.len() == preds.len(),
        outs2.len() == preds.len(),
        contained_in(ins1, ins2),
        contained_in(outs1, outs2),
        forall|e: int| 0 <= e < bound ==> event_held(preds, defs, #[trigger] events[e], ins1, outs1),
        forall|e: int|
            0 <= e < bound ==> (#[trigger] events[e]).block < preds.len() && match events[e].incoming {
                Some(p) => p < preds.len(),
                None => true,
            },
        forall|b: int, k: int|
            0 <= b < preds.len() && 0 <= k < preds[b].len() ==> (#[trigger] preds[b][k]) < preds.len(),
    ensures
        forall|e: int| 0 <= e < bound ==> event_held(preds, defs, #[trigger] events[e], ins2, outs2),
{
    assert forall|e: int| 0 <= e < bound implies event_held(
        preds,
        defs,
        #[trigger] events[e],
        ins2,
        outs2,
    ) by {
        let ev = events[e];
        assert(event_held(preds, defs, ev, ins1, outs1));
        if !defs[ev.block as int].contains(ev.id) {
            assert(ins1[ev.block as int].contains(ev.id));
            assert(ins2[ev.block as int].contains(ev.id));
            match ev.incoming {
                Some(p) => {
                    assert(outs1[p as int].contains(ev.id));
                    assert(outs2[p as int].contains(ev.id));
                },
                None => {
                    assert(spread_done(preds, outs1, ev.block as int, ev.id));
                    assert forall|k: int| 0 <= k < preds[ev.block as int].len() implies outs2[
                        #[trigger] preds[ev.block as int][k] as int
                    ].contains(ev.id) by {
                        assert(outs1[preds[ev.block as int][k] as int].contains(ev.id));
                        assert(preds[ev.block as int][k] < preds.len());
                    }
                },
            }
        }
    }
}

/// Inserts `v` into the set of block `b`, reporting whether it was new.
fn insert_at(sets: &mut Vec<IdSet>, b: usize, v: usize) -> (newly: bool)
    requires
        b < old(sets)@.len(),
    ensures
        final(sets)@.len() == old(sets)@.len(),
        set_views(final(sets)@) == set_views(old(sets)@).update(
            b as int,
            set_views(old(sets)@)[b as int].insert(v),
        ),
        newly == !set_views(old(sets)@)[b as int].contains(v),
        contained_in(set_views(old(sets)@), set_views(final(sets)@)),
{
    let newly = sets[b].insert(v);
    proof {
        assert(set_views(sets@) =~= set_views(old(sets)@).update(
            b as int,
            set_views(old(sets)@)[b as int].insert(v),
        ));
    }
    newly
}

/// A queued pair survives a push of something else.
proof fn lemma_wl_has_push(wl: Seq<(usize, usize)>, x: (usize, usize))
    ensures
        forall|c2: int, v2: usize| wl_has(wl, c2, v2) ==> #[trigger] wl_has(wl.push(x), c2, v2),
{
    assert forall|c2: int, v2: usize| wl_has(wl, c2, v2) implies #[trigger] wl_has(
        wl.push(x),
        c2,
        v2,
    ) by {
        let t = choose|t: int| 0 <= t < wl.len() && #[trigger] wl[t] == ((c2 as usize, v2));
        assert(wl.push(x)[t] == ((c2 as usize, v2)));
    }
}

/// Popping the last queued pair leaves the queue closed for all but it.
proof fn lemma_wl_pop(
    preds: Seq<Seq<usize>>,
    defs: Seq<Set<usize>>,
    ins: Seq<Set<usize>>,
    outs: Seq<Set<usize>>,
    wl: Seq<(usize, usize)>,
)
    requires
        wl.len() > 0,
        preds.len() <= usize::MAX,
        wl_closed(preds, defs, ins, outs, wl),
    ensures
        wl_closed_except(
            preds,
            defs,
            ins,
            outs,
            wl.subrange(0, wl.len() - 1),
            wl.last().0 as int,
            wl.last().1,
        ),
{
    let rest = wl.subrange(0, wl.len() - 1);
    let c = wl.last().0 as int;
    let v = wl.last().1;
    assert forall|c2: int, v2: usize|
        0 <= c2 < preds.len() && #[trigger] outs[c2].contains(v2) && !defs[c2].contains(v2) && !(c2
            == c && v2 == v) implies (ins[c2].contains(v2) && spread_done(preds, outs, c2, v2))
        || wl_has(rest, c2, v2) by {
        if !(ins[c2].contains(v2) && spread_done(preds, outs, c2, v2)) {
            assert(wl_has(wl, c2, v2));
            let t = choose|t: int| 0 <= t < wl.len() && #[trigger] wl[t] == ((c2 as usize, v2));
            if t == wl.len() - 1 {
                assert(wl[t] == wl.last());
                assert(c2 as usize == wl.last().0 && v2 == wl.last().1);
                assert(c2 == c && v2 == v);
                assert(false);
            } else {
                assert(rest[t] == ((c2 as usize, v2)));
            }
        }
    }
}

/// The justification a whole-predecessor-list spread carries: a phi-free
/// use in `b` demands the value there, or the value is live out of `b` and
/// not defined in it.
pub open spec fn out_justifier(
    preds: Seq<Seq<usize>>,
    defs: Seq<Set<usize>>,
    events: Seq<UseEvent>,
    outs: Seq<Set<usize>>,
    b: int,
    v: usize,
) -> bool {
    ||| exists|e: int|
        0 <= e < events.len() && (#[trigger] events[e]).id == v && events[e].block == b
            && !defs[b].contains(v) && events[e].incoming is None
    ||| (outs[b].contains(v) && !defs[b].contains(v))
}

/// Records `v` as live out of block `t`, queueing the pair if it is news.
fn spread_one(
    preds: &Vec<Vec<usize>>,
    defs: &Vec<IdSet>,
    events: &Vec<UseEvent>,
    outs: &mut Vec<IdSet>,
    worklist: &mut Vec<(usize, usize)>,
    t: usize,
    v: usize,
    n_ids: usize,
    ins_v: Ghost<Seq<Set<usize>>>,
)
    requires
        defs@.len() == preds@.len(),
        t < preds@.len(),
        v < n_ids,
        old(outs)@.len() == preds@.len(),
        ins_v@.len() == preds@.len(),
        engine_state_ok(preds@.len() as int, n_ids as nat, ins_v@, set_views(old(outs)@)),
        wl_ok(preds@.len() as int, n_ids as nat, set_views(old(outs)@), old(worklist)@),
        below_all_solutions(
            vec_views(preds@),
            set_views(defs@),
            events@,
            ins_v@,
            set_views(old(outs)@),
        ),
        justified_out(
            vec_views(preds@),
            set_views(defs@),
            events@,
            set_views(old(outs)@),
            t as int,
            v,
        ),
    ensures
        final(outs)@.len() == preds@.len(),
        engine_state_ok(preds@.len() as int, n_ids as nat, ins_v@, set_views(final(outs)@)),
        wl_ok(preds@.len() as int, n_ids as nat, set_views(final(outs)@), final(worklist)@),
        below_all_solutions(
            vec_views(preds@),
            set_views(defs@),
            events@,
            ins_v@,
            set_views(final(outs)@),
        ),
        contained_in(set_views(old(outs)@), set_views(final(outs)@)),
        set_views(final(outs)@)[t as int].contains(v),
        forall|b2: int, v2: usize|
            0 <= b2 < preds@.len() && #[trigger] set_views(final(outs)@)[b2].contains(v2)
                && !set_views(old(outs)@)[b2].contains(v2) ==> v2 == v && wl_has(
                final(worklist)@,
                b2,
                v2,
            ),
        forall|c2: int, v2: usize|
            wl_has(old(worklist)@, c2, v2) ==> #[trigger] wl_has(final(worklist)@, c2, v2),
        sum_slack(set_views(final(outs)@), n_ids as nat) <= sum_slack(
            set_views(old(outs)@),
            n_ids as nat,
        ),
        sum_slack(set_views(final(outs)@), n_ids as nat) + final(worklist)@.len() <= sum_slack(
            set_views(old(outs)@),
            n_ids as nat,
        ) + old(worklist)@.len(),
{
    let ghost pre = set_views(outs@);
    let ghost wl_pre = worklist@;
    let newly = insert_at(outs, t, v);
    if newly {
        worklist.push((t, v));
        proof {
            lemma_min_insert_out(
                vec_views(preds@),
                set_views(defs@),
                events@,
                ins_v@,
                pre,
                t as int,
                v,
            );
            lemma_sum_slack_insert(pre, n_ids as nat, t as int, v);
            lemma_wl_has_push(wl_pre, (t, v));
            assert(worklist@ == wl_pre.push((t, v)));
            assert(wl_has(worklist@, t as int, v)) by {
                assert(worklist@[wl_pre.len() as int] == ((t, v)));
            }
        }
    } else {
        proof {
            assert(pre[t as int].insert(v) =~= pre[t as int]);
            assert(set_views(outs@) =~= pre);
        }
    }
}

/// Records `v` as live out of every predecessor of block `b`.
fn spread_to_preds(
    preds: &Vec<Vec<usize>>,
    defs: &Vec<IdSet>,
    events: &Vec<UseEvent>,
    outs: &mut Vec<IdSet>,
    worklist: &mut Vec<(usize, usize)>,
    b: usize,
    v: usize,
    n_ids: usize,
    ins_v: Ghost<Seq<Set<usize>>>,
)
    requires
        defs@.len() == preds@.len(),
        forall|b2: int, k: int|
            0 <= b2 < preds@.len() && 0 <= k < preds@[b2]@.len() ==> (#[trigger] preds@[b2]@[k])
                < preds@.len(),
        b < preds@.len(),
        v < n_ids,
        old(outs)@.len() == preds@.len(),
        ins_v@.len() == preds@.len(),
        engine_state_ok(preds@.len() as int, n_ids as nat, ins_v@, set_views(old(outs)@)),
        wl_ok(preds@.len() as int, n_ids as nat, set_views(old(outs)@), old(worklist)@),
        below_all_solutions(
            vec_views(preds@),
            set_views(defs@),
            events@,
            ins_v@,
            set_views(old(outs)@),
        ),
        out_justifier(
            vec_views(preds@),
            set_views(defs@),
            events@,
            set_views(old(outs)@),
            b as int,
            v,
        ),
    ensures
        final(outs)@.len() == preds@.len(),
        engine_state_ok(preds@.len() as int, n_ids as nat, ins_v@, set_views(final(outs)@)),
        wl_ok(preds@.len() as int, n_ids as nat, set_views(final(outs)@), final(worklist)@),
        below_all_solutions(
            vec_views(preds@),
            set_views(defs@),
            events@,
            ins_v@,
            set_views(final(outs)@),
        ),
        contained_in(set_views(old(outs)@), set_views(final(outs)@)),
        spread_done(vec_views(preds@), set_views(final(outs)@), b as int, v),
        forall|b2: int, v2: usize|
            0 <= b2 < preds@.len() && #[trigger] set_views(final(outs)@)[b2].contains(v2)
                && !set_views(old(outs)@)[b2].contains(v2) ==> v2 == v && wl_has(
                final(worklist)@,
                b2,
                v2,
            ),
        forall|c2: int, v2: usize|
            wl_has(old(worklist)@, c2, v2) ==> #[trigger] wl_has(final(worklist)@, c2, v2),
        sum_slack(set_views(final(outs)@), n_ids as nat) <= sum_slack(
            set_views(old(outs)@),
            n_ids as nat,
        ),
        sum_slack(set_views(final(outs)@), n_ids as nat) + final(worklist)@.len() <= sum_slack(
            set_views(old(outs)@),
            n_ids as nat,
        ) + old(worklist)@.len(),
{
    let ghost pv = vec_views(preds@);
    let ghost dv = set_views(defs@);
    let ghost entry_outs = set_views(outs@);
    let ghost entry_wl = worklist@;
    let np = preds[b].len();
    let mut k: usize = 0;
    while k < np
        invariant
            k <= np,
            np == pv[b as int].len(),
            outs@.len() == preds@.len(),
            engine_state_ok(preds@.len() as int, n_ids as nat, ins_v@, set_views(outs@)),
            wl_ok(preds@.len() as int, n_ids as nat, set_views(outs@), worklist@),
            below_all_solutions(pv, dv, events@, ins_v@, set_views(outs@)),
            contained_in(entry_outs, set_views(outs@)),
            forall|k2: int|
                0 <= k2 < k ==> set_views(outs@)[#[trigger] pv[b as int][k2] as int].contains(v),
            forall|b2: int, v2: usize|
                0 <= b2 < preds@.len() && #[trigger] set_views(outs@)[b2].contains(v2)
                    && !entry_outs[b2].contains(v2) ==> v2 == v && wl_has(worklist@, b2, v2),
            forall|c2: int, v2: usize|
                wl_has(entry_wl, c2, v2) ==> #[trigger] wl_has(worklist@, c2, v2),
            sum_slack(set_views(outs@), n_ids as nat) <= sum_slack(entry_outs, n_ids as nat),
            sum_slack(set_views(outs@), n_ids as nat) + worklist@.len() <= sum_slack(
                entry_outs,
                n_ids as nat,
            ) + entry_wl.len(),
        decreases np - k,
    {
        let t = preds[b][k];
        proof {
            assert(justified_out(pv, dv, events@, set_views(outs@), t as int, v)) by {
                if out_justifier(pv, dv, events@, entry_outs, b as int, v) {
                    if exists|e: int|
                        0 <= e < events@.len() && (#[trigger] events@[e]).id == v && events@[e].block
                            == b as int && !dv[b as int].contains(v) && events@[e].incoming
                            is None {
                        let e = choose|e: int|
                            0 <= e < events@.len() && (#[trigger] events@[e]).id == v
                                && events@[e].block == b as int && !dv[b as int].contains(v)
                                && events@[e].incoming is None;
                        assert(0 <= k < pv[events@[e].block as int].len() && pv[
                            events@[e].block as int
                        ][k as int] == t as int);
                    } else {
                        assert(entry_outs[b as int].contains(v) && !dv[b as int].contains(v));
                        assert(set_views(outs@)[b as int].contains(v));
                        assert(0 <= k < pv[b as int].len() && pv[b as int][k as int] == t as int);
                    }
                }
            }
        }
        let ghost step_outs = set_views(outs@);
        let ghost step_wl = worklist@;
        spread_one(preds, defs, events, outs, worklist, t, v, n_ids, ins_v);
        proof {
            assert forall|k2: int| 0 <= k2 < k + 1 implies set_views(outs@)[
                #[trigger] pv[b as int][k2] as int
            ].contains(v) by {
                if k2 < k {
                    assert(step_outs[pv[b as int][k2] as int].contains(v));
                }
            }
            assert forall|b2: int, v2: usize|
                0 <= b2 < preds@.len() && #[trigger] set_views(outs@)[b2].contains(v2)
                    && !entry_outs[b2].contains(v2) implies v2 == v && wl_has(
                worklist@,
                b2,
                v2,
            ) by {
                if step_outs[b2].contains(v2) {
                    assert(wl_has(step_wl, b2, v2));
                }
            }
        }
        k = k + 1;
    }
}

/// Computes the `live_in` / `live_out` sets of every block as the least
/// solution of the liveness closure rules: every use is seeded, and a
/// worklist then drives each newly live-out value backwards through the
/// predecessor lists until nothing changes.
pub fn propagate(
    preds: &Vec<Vec<usize>>,
    defs: &Vec<IdSet>,
    events: &Vec<UseEvent>,
    n_ids: usize,
) -> (r: (Vec<IdSet>, Vec<IdSet>))
    requires
        defs@.len() == preds@.len(),
        forall|b: int, k: int|
            0 <= b < preds@.len() && 0 <= k < preds@[b]@.len() ==> (#[trigger] preds@[b]@[k])
                < preds@.len(),
        forall|e: int| 0 <= e < events@.len() ==> (#[trigger] events@[e]).block < preds@.len(),
        forall|e: int| 0 <= e < events@.len() ==> (#[trigger] events@[e]).id < n_ids,
        forall|e: int|
            0 <= e < events@.len() ==> match (#[trigger] events@[e]).incoming {
                Some(p) => p < preds@.len(),
                None => true,
            },
    ensures
        r.0@.len() == preds@.len(),
        r.1@.len() == preds@.len(),
        is_least_solution(
            vec_views(preds@),
            set_views(defs@),
            events@,
            set_views(r.0@),
            set_views(r.1@),
        ),
        forall|b: int, v: usize|
            0 <= b < preds@.len() && #[trigger] set_views(r.0@)[b].contains(v) ==> !set_views(
                defs@,
            )[b].contains(v),
        engine_state_ok(preds@.len() as int, n_ids as nat, set_views(r.0@), set_views(r.1@)),
{
    let ghost pv = vec_views(preds@);
    let ghost dv = set_views(defs@);
    let ghost nn = preds@.len() as int;
    let ghost uu = n_ids as nat;
    let n = preds.len();

    let mut ins: Vec<IdSet> = Vec::new();
    let mut outs: Vec<IdSet> = Vec::new();
    let mut b0: usize = 0;
    while b0 < n
        invariant
            b0 <= n,
            ins@.len() == b0,
            outs@.len() == b0,
            forall|i: int| 0 <= i < b0 ==> (#[trigger] ins@[i])@ == Set::<usize>::empty(),
            forall|i: int| 0 <= i < b0 ==> (#[trigger] outs@[i])@ == Set::<usize>::empty(),
        decreases n - b0,
    {
        ins.push(IdSet::new());
        outs.push(IdSet::new());
        b0 = b0 + 1;
    }
    let mut worklist: Vec<(usize, usize)> = Vec::new();

    let mut e: usize = 0;
    while e < events.len()
        invariant
            e <= events@.len(),
            ins@.len() == preds@.len(),
            outs@.len() == preds@.len(),
            engine_state_ok(nn, uu, set_views(ins@), set_views(outs@)),
            wl_ok(nn, uu, set_views(outs@), worklist@),
            wl_closed(pv, dv, set_views(ins@), set_views(outs@), worklist@),
            below_all_solutions(pv, dv, events@, set_views(ins@), set_views(outs@)),
            forall|e2: int|
                0 <= e2 < e ==> event_held(
                    pv,
                    dv,
                    #[trigger] events@[e2],
                    set_views(ins@),
                    set_views(outs@),
                ),
            forall|b: int, v: usize|
                0 <= b < nn && #[trigger] set_views(ins@)[b].contains(v) ==> !dv[b].contains(v),
        decreases events@.len() - e,
    {
        let ev = events[e];
        if !defs[ev.block].contains(ev.id) {
            let ghost ins_pre = set_views(ins@);
            let ghost outs_pre = set_views(outs@);
            proof {
                assert(justified_in(pv, dv, events@, outs_pre, ev.block as int, ev.id)) by {
                    assert((#[trigger] events@[e as int]).block == ev.block);
                }
                lemma_min_insert_in(pv, dv, events@, ins_pre, outs_pre, ev.block as int, ev.id);
            }
            let _ = insert_at(&mut ins, ev.block, ev.id);
            proof {
                lemma_events_mono(
                    pv,
                    dv,
                    events@,
                    ins_pre,
                    outs_pre,
                    set_views(ins@),
                    outs_pre,
                    e as int,
                );
            }
            match ev.incoming {
                Some(p) => {
                    proof {
                        assert(justified_out(pv, dv, events@, set_views(outs@), p as int, ev.id))
                            by {
                            assert((#[trigger] events@[e as int]).id == ev.id);
                        }
                    }
                    spread_one(
                        preds,
                        defs,
                        events,
                        &mut outs,
                        &mut worklist,
                        p,
                        ev.id,
                        n_ids,
                        Ghost(set_views(ins@)),
                    );
                },
                None => {
                    proof {
                        assert(out_justifier(
                            pv,
                            dv,
                            events@,
                            set_views(outs@),
                            ev.block as int,
                            ev.id,
                        )) by {
                            assert((#[trigger] events@[e as int]).id == ev.id);
                        }
                    }
                    spread_to_preds(
                        preds,
                        defs,
                        events,
                        &mut outs,
                        &mut worklist,
                        ev.block,
                        ev.id,
                        n_ids,
                        Ghost(set_views(ins@)),
                    );
                },
            }
            proof {
                lemma_events_mono(
                    pv,
                    dv,
                    events@,
                    set_views(ins@),
                    outs_pre,
                    set_views(ins@),
                    set_views(outs@),
                    e as int,
                );
                assert(wl_closed(pv, dv, set_views(ins@), set_views(outs@), worklist@)) by {
                    assert forall|c2: int, v2: usize|
                        0 <= c2 < pv.len() && #[trigger] set_views(outs@)[c2].contains(v2) && !dv[
                        c2].contains(v2) implies (set_views(ins@)[c2].contains(v2) && spread_done(
                        pv,
                        set_views(outs@),
                        c2,
                        v2,
                    )) || wl_has(worklist@, c2, v2) by {
                        if outs_pre[c2].contains(v2) {
                            if ins_pre[c2].contains(v2) && spread_done(pv, outs_pre, c2, v2) {
                                assert forall|k: int| 0 <= k < pv[c2].len() implies set_views(
                                    outs@,
                                )[#[trigger] pv[c2][k] as int].contains(v2) by {
                                    assert(outs_pre[pv[c2][k] as int].contains(v2));
                                }
                            }
                        }
                    }
                }
            }
        }
        e = e + 1;
    }

    while worklist.len() > 0
        invariant
            ins@.len() == preds@.len(),
            outs@.len() == preds@.len(),
            engine_state_ok(nn, uu, set_views(ins@), set_views(outs@)),
            wl_ok(nn, uu, set_views(outs@), worklist@),
            wl_closed(pv, dv, set_views(ins@), set_views(outs@), worklist@),
            below_all_solutions(pv, dv, events@, set_views(ins@), set_views(outs@)),
            forall|e2: int|
                0 <= e2 < events@.len() ==> event_held(
                    pv,
                    dv,
                    #[trigger] events@[e2],
                    set_views(ins@),
                    set_views(outs@),
                ),
            forall|b: int, v: usize|
                0 <= b < nn && #[trigger] set_views(ins@)[b].contains(v) ==> !dv[b].contains(v),
        decreases sum_slack(set_views(outs@), uu), worklist@.len(),
    {
        let ghost wl0 = worklist@;
        let ghost slack0 = sum_slack(set_views(outs@), uu);
        let item = worklist.pop().unwrap();
        let c = item.0;
        let v = item.1;
        proof {
            assert((#[trigger] wl0[wl0.len() - 1]).0 < nn);
            lemma_wl_pop(pv, dv, set_views(ins@), set_views(outs@), wl0);
            assert(wl_closed_except(
                pv,
                dv,
                set_views(ins@),
                set_views(outs@),
                worklist@,
                c as int,
                v,
            ));
        }
        if !defs[c].contains(v) {
            let ghost ins_pre = set_views(ins@);
            proof {
                assert(justified_in(pv, dv, events@, set_views(outs@), c as int, v));
                lemma_min_insert_in(pv, dv, events@, ins_pre, set_views(outs@), c as int, v);
            }
            let _ = insert_at(&mut ins, c, v);
            proof {
                lemma_events_mono(
                    pv,
                    dv,
                    events@,
                    ins_pre,
                    set_views(outs@),
                    set_views(ins@),
                    set_views(outs@),
                    events@.len() as int,
                );
            }
            let ghost outs_mid = set_views(outs@);
            let ghost wl_mid = worklist@;
            spread_to_preds(
                preds,
                defs,
                events,
                &mut outs,
                &mut worklist,
                c,
                v,
                n_ids,
                Ghost(set_views(ins@)),
            );
            proof {
                lemma_events_mono(
                    pv,
                    dv,
                    events@,
                    set_views(ins@),
                    outs_mid,
                    set_views(ins@),
                    set_views(outs@),
                    events@.len() as int,
                );
                assert(wl_closed(pv, dv, set_views(ins@), set_views(outs@), worklist@)) by {
                    assert forall|c2: int, v2: usize|
                        0 <= c2 < pv.len() && #[trigger] set_views(outs@)[c2].contains(v2) && !dv[
                        c2].contains(v2) implies (set_views(ins@)[c2].contains(v2) && spread_done(
                        pv,
                        set_views(outs@),
                        c2,
                        v2,
                    )) || wl_has(worklist@, c2, v2) by {
                        if c2 == c && v2 == v {
                            assert(set_views(ins@)[c2].contains(v2));
                            assert(spread_done(pv, set_views(outs@), c2, v2));
                        } else if outs_mid[c2].contains(v2) {
                            if ins_pre[c2].contains(v2) && spread_done(pv, outs_mid, c2, v2) {
                                assert forall|k: int| 0 <= k < pv[c2].len() implies set_views(
                                    outs@,
                                )[#[trigger] pv[c2][k] as int].contains(v2) by {
                                    assert(outs_mid[pv[c2][k] as int].contains(v2));
                                }
                            } else {
                                assert(wl_has(wl_mid, c2, v2));
                            }
                        }
                    }
                }
                lemma_sum_slack_nonneg(set_views(outs@), uu);
            }
        } else {
            proof {
                assert(wl_closed(pv, dv, set_views(ins@), set_views(outs@), worklist@));
                lemma_sum_slack_nonneg(set_views(outs@), uu);
            }
        }
    }

    proof {
        assert(is_solution(pv, dv, events@, set_views(ins@), set_views(outs@))) by {
            assert forall|b: int, v: usize|
                0 <= b < pv.len() && #[trigger] set_views(outs@)[b].contains(v) && !dv[b].contains(
                v,
            ) implies set_views(ins@)[b].contains(v) && spread_done(
                pv,
                set_views(outs@),
                b,
                v,
            ) by {
                assert(!wl_has(worklist@, b, v));
            }
        }
    }
    (ins, outs)
}

} // verus!
