//! What holds of sticky routing over more than one operation.

use vstd::prelude::*;

#[allow(unused_imports)]
use crate::binding_table::{is_earliest, live_part, Binding};
#[allow(unused_imports)]
use crate::clock::NANOS_PER_SEC;
#[allow(unused_imports)]
use crate::session_affinity::{
    floored_ttl, lemma_live_part_len, lemma_room, AffinityState, StickyOutcome, CAPACITY, MIN_TTL_SECS,
};

verus! {

/// A session that is bound is found, with the credential of that binding whatever it was bound to
/// before, until the time to live has passed, and not after.
pub proof fn bound_session_is_found(
    state: AffinityState,
    next: AffinityState,
    session: Seq<char>,
    credential_id: u64,
    now: int,
    later: int,
)
    requires
        state.enabled,
        credential_id != 0,
        i128::MIN <= now,
        state.expiry(now) <= i128::MAX,
        state.binds_to(next, session, credential_id, now),
    ensures
        later < state.expiry(now) ==> next.bound(session, later) == Some(credential_id),
        later >= state.expiry(now) ==> next.bound(session, later) is None,
{
}

/// A binding holds for at least the least time to live, whatever time to live was asked for.
pub proof fn binding_outlasts_the_floor(
    state: AffinityState,
    next: AffinityState,
    session: Seq<char>,
    credential_id: u64,
    now: int,
    later: int,
)
    requires
        state.valid(),
        state.enabled,
        credential_id != 0,
        i128::MIN <= now,
        state.expiry(now) <= i128::MAX,
        state.binds_to(next, session, credential_id, now),
        later < now + MIN_TTL_SECS * NANOS_PER_SEC,
    ensures
        next.bound(session, later) == Some(credential_id),
{
}

/// Nothing is bound while sticky routing is switched off, nor ever to credential 0.
pub proof fn refused_binding_changes_nothing(
    state: AffinityState,
    next: AffinityState,
    session: Seq<char>,
    credential_id: u64,
    now: int,
)
    requires
        !state.enabled || credential_id == 0,
        state.binds_to(next, session, credential_id, now),
    ensures
        next == state,
{
}

/// No session is ever bound to credential 0.
pub proof fn credential_zero_is_never_found(state: AffinityState, session: Seq<char>, now: int)
    requires
        state.valid(),
    ensures
        state.bound(session, now) != Some(0u64),
{
}

/// Switching sticky routing off or on, or another time to live, has no effect on the bindings that
/// exist.
pub proof fn settings_leave_bindings(
    state: AffinityState,
    enabled: bool,
    ttl_secs: u64,
    session: Seq<char>,
    now: int,
)
    ensures
        (AffinityState { enabled, ..state }).bound(session, now) == state.bound(session, now),
        (AffinityState { ttl_secs: floored_ttl(ttl_secs), ..state }).bound(session, now)
            == state.bound(session, now),
{
}

/// A binding that is not renewed and has expired stays so.
pub proof fn expiry_is_final(state: AffinityState, session: Seq<char>, now: int, later: int)
    requires
        now <= later,
        state.bound(session, now) is None,
    ensures
        state.bound(session, later) is None,
{
}

/// A lookup changes no later answer: it renews nothing, and what it removes had expired. The
/// binding of the session, if it has expired, is gone.
pub proof fn lookup_changes_no_answer(
    state: AffinityState,
    session: Seq<char>,
    now: int,
    other: Seq<char>,
    later: int,
)
    requires
        now <= later,
    ensures
        state.after_lookup(session, now).bound(other, later) == state.bound(other, later),
        state.bound(session, now) is None ==> !state.after_lookup(
            session,
            now,
        ).bindings.contains_key(session),
{
}

/// Eviction of expired bindings changes no later answer, and leaves exactly those that hold.
pub proof fn eviction_changes_no_answer(
    state: AffinityState,
    now: int,
    session: Seq<char>,
    later: int,
)
    requires
        now <= later,
    ensures
        state.after_evict(now).bound(session, later) == state.bound(session, later),
        state.after_evict(now).bindings.contains_key(session) <==> state.bound(session, now)
            is Some,
{
}

/// To bind a session changes no later answer for another one as long as fewer sessions than the
/// capacity hold a binding, or the session has one already.
pub proof fn binding_spares_the_others(
    state: AffinityState,
    next: AffinityState,
    session: Seq<char>,
    credential_id: u64,
    now: int,
    other: Seq<char>,
    later: int,
)
    requires
        state.valid(),
        state.binds_to(next, session, credential_id, now),
        state.bindings.contains_key(session) || live_part(state.bindings, now).len() < CAPACITY,
        other != session,
        now <= later,
    ensures
        next.bound(other, later) == state.bound(other, later),
{
}

/// To bind a session takes the binding from at most one other, and only from one that no other
/// binding in force expires before.
pub proof fn binding_evicts_at_most_the_earliest(
    state: AffinityState,
    next: AffinityState,
    session: Seq<char>,
    credential_id: u64,
    now: int,
)
    requires
        state.valid(),
        state.binds_to(next, session, credential_id, now),
    ensures
        exists|victim: Seq<char>|
            {
                &&& forall|other: Seq<char>, later: int|
                    other != session && other != victim && now <= later ==> #[trigger] next.bound(
                        other,
                        later,
                    ) == state.bound(other, later)
                &&& #[trigger] next.bound(victim, now) != state.bound(victim, now) && victim
                    != session ==> is_earliest(live_part(state.bindings, now), victim)
            },
{
    let live = live_part(state.bindings, now);
    let spared = if !state.enabled || credential_id == 0 || state.bindings.contains_key(session)
        || live.len() < CAPACITY {
        session
    } else {
        lemma_live_part_len(state.bindings, now);
        let kept = choose|kept: Map<Seq<char>, Binding>| #[trigger]
            state.makes_room(kept, now) && next == (AffinityState {
                bindings: kept.insert(session, state.fresh_binding(credential_id, now)),
                ..state
            });
        choose|victim: Seq<char>| #[trigger]
            is_earliest(live, victim) && kept == live.remove(victim)
    };
    assert(next.bound(spared, now) == next.bound(spared, now));
}

/// Every operation keeps what every state keeps: the number of bindings never exceeds the
/// capacity, the time to live never falls below its floor, and nothing is bound to credential 0.
pub proof fn operations_keep_the_invariant(
    state: AffinityState,
    next: AffinityState,
    session: Seq<char>,
    credential_id: u64,
    now: int,
    outcome: StickyOutcome,
    enabled: bool,
    ttl_secs: u64,
)
    requires
        state.valid(),
        state.binds_to(next, session, credential_id, now),
    ensures
        AffinityState::initial(enabled, ttl_secs).valid(),
        next.valid(),
        state.after_lookup(session, now).valid(),
        state.after_evict(now).valid(),
        state.after_expire(session, now).valid(),
        state.after_record(outcome).valid(),
        (AffinityState { enabled, ..state }).valid(),
        (AffinityState { ttl_secs: floored_ttl(ttl_secs), ..state }).valid(),
{
    lemma_live_part_len(state.bindings, now);
    if state.enabled && credential_id != 0 && !state.bindings.contains_key(session) {
        let kept = choose|kept: Map<Seq<char>, Binding>| #[trigger]
            state.makes_room(kept, now) && next == (AffinityState {
                bindings: kept.insert(session, state.fresh_binding(credential_id, now)),
                ..state
            });
        lemma_room(state, kept, now);
    }
}

/// An operation on the table, with the time at which it takes place where that matters.
pub enum Operation {
    Lookup { session: Seq<char>, now: int },
    Bind { session: Seq<char>, credential_id: u64, now: int },
    EvictExpired { now: int },
    Record { outcome: StickyOutcome },
    SetEnabled { enabled: bool },
    SetTtlSecs { ttl_secs: u64 },
}

impl Operation {
    /// `next` may follow `state` where the operation takes place.
    pub open spec fn leads(self, state: AffinityState, next: AffinityState) -> bool {
        match self {
            Operation::Lookup { session, now } => next == state.after_lookup(session, now),
            Operation::Bind { session, credential_id, now } => state.binds_to(
                next,
                session,
                credential_id,
                now,
            ),
            Operation::EvictExpired { now } => next == state.after_evict(now),
            Operation::Record { outcome } => next == state.after_record(outcome),
            Operation::SetEnabled { enabled } => next == (AffinityState { enabled, ..state }),
            Operation::SetTtlSecs { ttl_secs } => next == (AffinityState {
                ttl_secs: floored_ttl(ttl_secs),
                ..state
            }),
        }
    }

    /// The operation takes place no later than `later`.
    pub open spec fn is_by(self, later: int) -> bool {
        match self {
            Operation::Lookup { session: _, now } => now <= later,
            Operation::Bind { session: _, credential_id: _, now } => now <= later,
            Operation::EvictExpired { now } => now <= later,
            _ => true,
        }
    }

    /// The operation neither binds `session` nor can take its binding in force to make room: there
    /// is room, or another binding in force expires before it, or it has none.
    pub open spec fn spares(self, state: AffinityState, session: Seq<char>) -> bool {
        match self {
            Operation::Bind { session: other, credential_id: _, now } => {
                &&& other != session
                &&& {
                    ||| state.bindings.contains_key(other)
                    ||| live_part(state.bindings, now).len() < CAPACITY
                    ||| !is_earliest(live_part(state.bindings, now), session)
                }
            },
            _ => true,
        }
    }

    /// The operation binds `session` in `state`: sticky routing is on, and the credential is not 0.
    pub open spec fn binds(self, state: AffinityState, session: Seq<char>) -> bool {
        self matches Operation::Bind { session: bound, credential_id, now: _ } && bound == session
            && state.enabled && credential_id != 0
    }

    /// The times of the operation, and of the binding that it makes in `state`, are in the range of
    /// times.
    pub open spec fn in_range(self, state: AffinityState) -> bool {
        self matches Operation::Bind { session: _, credential_id: _, now } ==> i128::MIN <= now
            && state.expiry(now) <= i128::MAX
    }
}

/// `states` are the states before and after each of the operations, in order.
pub open spec fn is_run(states: Seq<AffinityState>, operations: Seq<Operation>) -> bool {
    &&& states.len() == operations.len() + 1
    &&& forall|i: int|
        0 <= i < operations.len() ==> (#[trigger] operations[i]).leads(states[i], states[i + 1])
}

/// Every state that is reached from a new table keeps the invariant.
pub proof fn every_run_keeps_the_invariant(
    states: Seq<AffinityState>,
    operations: Seq<Operation>,
    enabled: bool,
    ttl_secs: u64,
)
    requires
        is_run(states, operations),
        states.first() == AffinityState::initial(enabled, ttl_secs),
    ensures
        states.last().valid(),
    decreases operations.len(),
{
    if operations.len() > 0 {
        let last = operations.last();
        let state = states[states.len() - 2];
        every_run_keeps_the_invariant(states.drop_last(), operations.drop_last(), enabled, ttl_secs);
        assert(last.leads(state, states.last()));
        match last {
            Operation::Bind { session, credential_id, now } => {
                operations_keep_the_invariant(
                    state,
                    states.last(),
                    session,
                    credential_id,
                    now,
                    StickyOutcome::Off,
                    enabled,
                    ttl_secs,
                );
            },
            Operation::EvictExpired { now } => {
                lemma_live_part_len(state.bindings, now);
            },
            _ => {},
        }
    }
}

/// Whatever takes place in between, the answer for a session stays what it was, as long as the
/// session is not bound anew and its binding is not the one that has to make room.
pub proof fn answer_survives_a_run(
    states: Seq<AffinityState>,
    operations: Seq<Operation>,
    session: Seq<char>,
    later: int,
)
    requires
        states.first().valid(),
        is_run(states, operations),
        forall|i: int| 0 <= i < operations.len() ==> (#[trigger] operations[i]).is_by(later),
        forall|i: int|
            0 <= i < operations.len() ==> (#[trigger] operations[i]).spares(states[i], session),
    ensures
        states.last().bound(session, later) == states.first().bound(session, later),
    decreases operations.len(),
{
    if operations.len() > 0 {
        answer_survives_a_run(states.drop_last(), operations.drop_last(), session, later);
        let last = operations.last();
        let state = states[states.len() - 2];
        assert(last.leads(state, states.last()));
        assert(last.is_by(later));
        assert(last.spares(state, session));
    }
}

/// The operation at `i` is the last of a run that binds `session`.
pub open spec fn is_last_bind(
    states: Seq<AffinityState>,
    operations: Seq<Operation>,
    session: Seq<char>,
    i: int,
) -> bool {
    &&& 0 <= i < operations.len()
    &&& operations[i].binds(states[i], session)
    &&& forall|j: int|
        i < j < operations.len() ==> !(#[trigger] operations[j]).binds(states[j], session)
}

/// A binding that there is after a run is the one that the last bind of its session made.
proof fn lemma_binding_is_of_last_bind(
    states: Seq<AffinityState>,
    operations: Seq<Operation>,
    session: Seq<char>,
) -> (i: int)
    requires
        is_run(states, operations),
        states.first().bindings == Map::<Seq<char>, Binding>::empty(),
        states.last().bindings.contains_key(session),
    ensures
        is_last_bind(states, operations, session, i),
        operations[i] matches Operation::Bind { session: _, credential_id, now }
            && states.last().bindings[session] == states[i].fresh_binding(credential_id, now),
    decreases operations.len(),
{
    let last = operations.len() - 1;
    assert(operations.len() > 0);
    assert(operations[last].leads(states[last], states[last + 1]));
    if operations[last].binds(states[last], session) {
        last
    } else {
        assert(states[last].bindings.contains_key(session) && states[last].bindings[session]
            == states.last().bindings[session]);
        let i = lemma_binding_is_of_last_bind(
            states.drop_last(),
            operations.drop_last(),
            session,
        );
        assert forall|j: int| i < j < operations.len() implies !(#[trigger] operations[j]).binds(
            states[j],
            session,
        ) by {
            if j < last {
                assert(!operations.drop_last()[j].binds(states.drop_last()[j], session));
            }
        }
        i
    }
}

/// A credential that is found after a run on a new table is that of the last bind of this very
/// session, and that bind was made less than the time to live of then ago. The times of all binds
/// are in the range of times.
pub proof fn found_credential_is_of_last_bind(
    states: Seq<AffinityState>,
    operations: Seq<Operation>,
    enabled: bool,
    ttl_secs: u64,
    session: Seq<char>,
    later: int,
)
    requires
        is_run(states, operations),
        states.first() == AffinityState::initial(enabled, ttl_secs),
        forall|i: int|
            0 <= i < operations.len() ==> (#[trigger] operations[i]).in_range(states[i]),
    ensures
        states.last().bound(session, later) matches Some(found) ==> exists|i: int| #[trigger]
            is_last_bind(states, operations, session, i) && (operations[i] matches Operation::Bind {
                session: _,
                credential_id,
                now,
            } && credential_id == found && later < now + states[i].ttl_secs * NANOS_PER_SEC),
{
    if states.last().bound(session, later) is Some {
        let i = lemma_binding_is_of_last_bind(states, operations, session);
        assert(operations[i].in_range(states[i]));
    }
}

/// The number of operations of a run that record a hit.
pub open spec fn hits_recorded(operations: Seq<Operation>) -> nat {
    operations.filter(
        |operation: Operation| operation == Operation::Record { outcome: StickyOutcome::Hit },
    ).len()
}

/// The number of operations of a run that record a miss of either kind.
pub open spec fn misses_recorded(operations: Seq<Operation>) -> nat {
    operations.filter(
        |operation: Operation|
            operation == Operation::Record { outcome: StickyOutcome::MissFirst } || operation
                == Operation::Record { outcome: StickyOutcome::MissUnavailable },
    ).len()
}

/// Over any run the counters grow by the hits and the misses that it records, modulo 2^64, and by
/// nothing else.
pub proof fn counters_count_over_runs(states: Seq<AffinityState>, operations: Seq<Operation>)
    requires
        is_run(states, operations),
    ensures
        states.last().hits == (states.first().hits + hits_recorded(operations))
            % 0x1_0000_0000_0000_0000,
        states.last().misses == (states.first().misses + misses_recorded(operations))
            % 0x1_0000_0000_0000_0000,
    decreases operations.len(),
{
    reveal(Seq::filter);
    if operations.len() > 0 {
        let last = operations.len() - 1;
        counters_count_over_runs(states.drop_last(), operations.drop_last());
        assert(operations[last].leads(states[last], states[last + 1]));
    }
}

/// After a run the switch is as the last operation of it that sets the switch has left it, the one
/// at `i`, and as before the run where there is none, with `i` at -1.
pub proof fn switch_is_as_last_set(
    states: Seq<AffinityState>,
    operations: Seq<Operation>,
    i: int,
)
    requires
        is_run(states, operations),
        -1 <= i < operations.len(),
        i >= 0 ==> operations[i] is SetEnabled,
        forall|j: int| i < j < operations.len() ==> (#[trigger] operations[j]) !is SetEnabled,
    ensures
        i >= 0 ==> states.last().enabled == operations[i]->enabled,
        i == -1 ==> states.last().enabled == states.first().enabled,
    decreases operations.len(),
{
    if operations.len() > 0 {
        let last = operations.len() - 1;
        assert(operations[last].leads(states[last], states[last + 1]));
        if i < last {
            switch_is_as_last_set(states.drop_last(), operations.drop_last(), i);
        }
    }
}

/// After a run the time to live is as the last operation of it that sets the time to live has left
/// it, the one at `i`, and as before the run where there is none, with `i` at -1.
pub proof fn ttl_is_as_last_set(
    states: Seq<AffinityState>,
    operations: Seq<Operation>,
    i: int,
)
    requires
        is_run(states, operations),
        -1 <= i < operations.len(),
        i >= 0 ==> operations[i] is SetTtlSecs,
        forall|j: int| i < j < operations.len() ==> (#[trigger] operations[j]) !is SetTtlSecs,
    ensures
        i >= 0 ==> states.last().ttl_secs == floored_ttl(operations[i]->ttl_secs),
        i == -1 ==> states.last().ttl_secs == states.first().ttl_secs,
    decreases operations.len(),
{
    if operations.len() > 0 {
        let last = operations.len() - 1;
        assert(operations[last].leads(states[last], states[last + 1]));
        if i < last {
            ttl_is_as_last_set(states.drop_last(), operations.drop_last(), i);
        }
    }
}

/// The active bindings in the figures are no more than the bindings there are, as many where the
/// expired ones have been evicted, and eviction does not change their number.
pub proof fn stats_count_live_bindings(state: AffinityState, now: int)
    requires
        state.valid(),
    ensures
        state.stats_at(now).active_bindings <= state.bindings.len(),
        state.after_evict(now).stats_at(now) == state.stats_at(now),
        state.stats_at(now).active_bindings == state.after_evict(now).bindings.len(),
{
    lemma_live_part_len(state.bindings, now);
    let live = live_part(state.bindings, now);
    assert(live_part(live, now) =~= live);
}

/// The state after a run of outcomes is counted.
pub open spec fn after_records(state: AffinityState, outcomes: Seq<StickyOutcome>) -> AffinityState
    decreases outcomes.len(),
{
    if outcomes.len() == 0 {
        state
    } else {
        after_records(state, outcomes.drop_last()).after_record(outcomes.last())
    }
}

/// The number of hits in a run of outcomes.
pub open spec fn hits_in(outcomes: Seq<StickyOutcome>) -> nat {
    outcomes.filter(|outcome: StickyOutcome| outcome == StickyOutcome::Hit).len()
}

/// The number of misses of either kind in a run of outcomes.
pub open spec fn misses_in(outcomes: Seq<StickyOutcome>) -> nat {
    outcomes.filter(
        |outcome: StickyOutcome|
            outcome == StickyOutcome::MissFirst || outcome == StickyOutcome::MissUnavailable,
    ).len()
}

/// The counters hold the hits and the misses of all outcomes that were recorded, modulo 2^64.
/// `Off` is counted in neither, and recording changes nothing else.
pub proof fn counters_count_outcomes(state: AffinityState, outcomes: Seq<StickyOutcome>)
    ensures
        after_records(state, outcomes) == (AffinityState {
            hits: ((state.hits + hits_in(outcomes)) % 0x1_0000_0000_0000_0000) as u64,
            misses: ((state.misses + misses_in(outcomes)) % 0x1_0000_0000_0000_0000) as u64,
            ..state
        }),
    decreases outcomes.len(),
{
    reveal(Seq::filter);
    if outcomes.len() > 0 {
        counters_count_outcomes(state, outcomes.drop_last());
    }
}

/// The labels of different outcomes differ.
pub proof fn labels_tell_outcomes_apart(a: StickyOutcome, b: StickyOutcome)
    ensures
        a.label() == b.label() <==> a == b,
{
    reveal_strlit("hit");
    reveal_strlit("miss_first");
    reveal_strlit("miss_unavailable");
    reveal_strlit("off");
    assert(StickyOutcome::Hit.label().len() == 3);
    assert(StickyOutcome::MissFirst.label().len() == 10);
    assert(StickyOutcome::MissUnavailable.label().len() == 16);
    assert(StickyOutcome::Off.label().len() == 3);
    assert(StickyOutcome::Hit.label()[0] != StickyOutcome::Off.label()[0]);
}

} // verus!
