//! What the operations of sticky routing give and change, in terms of settings, counters, bindings
//! and times.
//!
//! A law here speaks of any call: `call_ensures(f, args, out)` says that `f` may give `out` for
//! `args`. Of a table that a call changes, `old` is what it was before the call and `final` what it
//! is after it.

use vstd::prelude::*;

#[allow(unused_imports)]
use crate::affinity_laws::{
    counters_count_over_runs, hits_recorded, is_run, misses_recorded, Operation,
};
#[allow(unused_imports)]
use crate::binding_table::{is_earliest, live_part, Binding, BindingTable};
#[allow(unused_imports)]
use crate::clock::Clock;
#[allow(unused_imports)]
use crate::session_affinity::{
    lemma_live_part_len, lemma_room, AffinityState, RouteDecision, SessionAffinity,
    SessionAffinityStats, StickyOutcome,
};

verus! {

/// The time to live that is in force where `ttl_secs` is asked for: that many seconds, but no less
/// than 60.
pub open spec fn is_ttl_for(in_force: u64, ttl_secs: u64) -> bool {
    &&& ttl_secs >= 60 ==> in_force == ttl_secs
    &&& ttl_secs < 60 ==> in_force == 60
}

/// `session` has a binding in force at `now`, to `credential_id`.
pub open spec fn in_force(
    bindings: Map<Seq<char>, Binding>,
    session: Seq<char>,
    now: int,
    credential_id: u64,
) -> bool {
    &&& bindings.contains_key(session)
    &&& now < bindings[session].expires_at as int
    &&& bindings[session].credential_id == credential_id
}

/// `session` has no binding in force at `now`.
pub open spec fn not_in_force(bindings: Map<Seq<char>, Binding>, session: Seq<char>, now: int) -> bool {
    bindings.contains_key(session) ==> bindings[session].expires_at as int <= now
}

/// The settings and the counters are the same.
pub open spec fn same_settings_and_counters(state: AffinityState, next: AffinityState) -> bool {
    &&& next.enabled == state.enabled
    &&& next.ttl_secs == state.ttl_secs
    &&& next.hits == state.hits
    &&& next.misses == state.misses
}

/// A lookup of `session` at `now` answers `out`: the credential of the binding in force, if there
/// is one. It changes nothing but that it drops a binding of `session` that has expired.
pub open spec fn answers(
    state: AffinityState,
    next: AffinityState,
    session: Seq<char>,
    now: int,
    out: Option<u64>,
) -> bool {
    &&& same_settings_and_counters(state, next)
    &&& forall|credential_id: u64|
        out == Some(credential_id) <==> #[trigger] in_force(
            state.bindings,
            session,
            now,
            credential_id,
        )
    &&& out is None <==> not_in_force(state.bindings, session, now)
    &&& next.bindings.contains_key(session) <==> out is Some
    &&& forall|other: Seq<char>| #![trigger next.bindings.contains_key(other)]
        other != session ==> (next.bindings.contains_key(other) <==> state.bindings.contains_key(
            other,
        ))
    &&& forall|other: Seq<char>| #[trigger]
        next.bindings.contains_key(other) ==> next.bindings[other] == state.bindings[other]
}

/// Room for one more among 8192 bindings is made at `now`: nothing goes while there is room; else
/// all that have expired go, and if that is not enough, one more, that no other expires before.
pub open spec fn drops_for_room(
    bindings: Map<Seq<char>, Binding>,
    next: Map<Seq<char>, Binding>,
    session: Seq<char>,
    now: int,
) -> bool {
    // nothing goes where the session has a binding already, or there is room
    &&& bindings.contains_key(session) || bindings.len() < 8192 ==> forall|other: Seq<char>|
        #[trigger] bindings.contains_key(other) ==> next.contains_key(other)
    // else no binding stays that has expired
    &&& !bindings.contains_key(session) && bindings.len() >= 8192 ==> forall|other: Seq<char>|
        #[trigger] next.contains_key(other) && other != session ==> now
            < bindings[other].expires_at as int
    // of the bindings in force, only one that no other in force expires before
    &&& forall|gone: Seq<char>, other: Seq<char>|
        #![trigger next.contains_key(gone), bindings.contains_key(other)]
        bindings.contains_key(gone) && !next.contains_key(gone) && now
            < bindings[gone].expires_at as int && bindings.contains_key(other) && now
            < bindings[other].expires_at as int ==> bindings[gone].expires_at as int
            <= bindings[other].expires_at as int
    // and no more than one, and only to come down to 8192
    &&& forall|gone: Seq<char>, also_gone: Seq<char>|
        #![trigger next.contains_key(gone), next.contains_key(also_gone)]
        bindings.contains_key(gone) && !next.contains_key(gone) && now
            < bindings[gone].expires_at as int && bindings.contains_key(also_gone)
            && !next.contains_key(also_gone) && now < bindings[also_gone].expires_at as int
            ==> gone == also_gone
    &&& forall|gone: Seq<char>| #[trigger]
        bindings.contains_key(gone) && !next.contains_key(gone) && now
            < bindings[gone].expires_at as int ==> next.len() == 8192
}

/// `session` is bound to `credential_id` at `now`, unless sticky routing is off or the credential is
/// 0, where nothing changes. The binding ends the time to live after `now`.
pub open spec fn takes_effect(
    state: AffinityState,
    next: AffinityState,
    session: Seq<char>,
    credential_id: u64,
    now: int,
) -> bool {
    &&& same_settings_and_counters(state, next)
    &&& !state.enabled || credential_id == 0 ==> next.bindings == state.bindings
    &&& state.enabled && credential_id != 0 ==> {
        &&& next.bindings.contains_key(session)
        &&& next.bindings[session].credential_id == credential_id
        &&& next.bindings[session].expires_at as int == now + state.ttl_secs * 1_000_000_000
        &&& forall|other: Seq<char>| #[trigger]
            next.bindings.contains_key(other) && other != session ==> state.bindings.contains_key(
                other,
            ) && next.bindings[other] == state.bindings[other]
        &&& next.bindings.dom().finite()
        &&& next.bindings.len() <= 8192
        &&& drops_for_room(state.bindings, next.bindings, session, now)
    }
}

/// The bindings of `bindings` that are in force at `now` are left, and nothing else.
pub open spec fn only_expired_are_gone(
    bindings: Map<Seq<char>, Binding>,
    next: Map<Seq<char>, Binding>,
    now: int,
) -> bool {
    &&& forall|session: Seq<char>| #[trigger]
        next.contains_key(session) <==> bindings.contains_key(session) && now
            < bindings[session].expires_at as int
    &&& forall|session: Seq<char>| #[trigger]
        next.contains_key(session) ==> next[session] == bindings[session]
}

/// The figures show the switch, the time to live and the counters as they are, and the number of
/// the sessions in `live`.
pub open spec fn shows(
    stats: SessionAffinityStats,
    state: AffinityState,
    live: Set<Seq<char>>,
) -> bool {
    &&& stats.enabled == state.enabled
    &&& stats.ttl_secs == state.ttl_secs
    &&& stats.hits == state.hits
    &&& stats.misses == state.misses
    &&& stats.active_bindings as int == live.len()
}

/// `live` are the sessions that have a binding in force at `now`.
pub open spec fn are_live(
    live: Set<Seq<char>>,
    bindings: Map<Seq<char>, Binding>,
    now: int,
) -> bool {
    forall|session: Seq<char>| #[trigger]
        live.contains(session) <==> bindings.contains_key(session) && now
            < bindings[session].expires_at as int
}

/// A binding holds before its expiry, not at it and not after it.
pub proof fn binding_holds_before_its_expiry(binding: &Binding, now: i128, live: bool)
    requires
        call_ensures(Binding::is_live, (binding, now), live),
    ensures
        live <==> (now as int) < binding.expires_at as int,
{
}

/// A new table has the switch and the time to live that were asked for, the latter no less than 60
/// seconds, zero counters, and no binding.
pub proof fn new_table_is_as_asked(
    enabled: bool,
    ttl_secs: u64,
    affinity: SessionAffinity,
    shown_enabled: bool,
    shown_ttl: u64,
    n: usize,
)
    requires
        call_ensures(SessionAffinity::new, (enabled, ttl_secs), affinity),
        call_ensures(SessionAffinity::is_enabled, (&affinity,), shown_enabled),
        call_ensures(SessionAffinity::ttl_secs, (&affinity,), shown_ttl),
        call_ensures(SessionAffinity::len, (&affinity,), n),
    ensures
        shown_enabled == enabled,
        is_ttl_for(shown_ttl, ttl_secs),
        n == 0,
        affinity@.enabled == enabled,
        is_ttl_for(affinity@.ttl_secs, ttl_secs),
        affinity@.hits == 0,
        affinity@.misses == 0,
        forall|session: Seq<char>| !(#[trigger] affinity@.bindings.contains_key(session)),
{
}

/// No session is found in a new table.
pub proof fn new_table_answers_nothing(
    enabled: bool,
    ttl_secs: u64,
    affinity: &mut SessionAffinity,
    session: &str,
    now: i128,
    out: Option<u64>,
)
    requires
        call_ensures(SessionAffinity::new, (enabled, ttl_secs), *old(affinity)),
        call_ensures(SessionAffinity::lookup_at, (affinity, session, now), out),
    ensures
        out is None,
{
}

/// The time to live that was set last is in force and is what is told, and nothing else changes.
pub proof fn set_ttl_is_in_force(
    affinity: &mut SessionAffinity,
    ttl_secs: u64,
    shown: u64,
)
    requires
        call_ensures(SessionAffinity::set_ttl_secs, (affinity, ttl_secs), ()),
        call_ensures(SessionAffinity::ttl_secs, (final(affinity),), shown),
    ensures
        is_ttl_for(shown, ttl_secs),
        is_ttl_for(final(affinity)@.ttl_secs, ttl_secs),
        final(affinity)@.enabled == old(affinity)@.enabled,
        final(affinity)@.hits == old(affinity)@.hits,
        final(affinity)@.misses == old(affinity)@.misses,
        final(affinity)@.bindings == old(affinity)@.bindings,
{
}

/// The switch is as it was set last and is what is told, and nothing else changes.
pub proof fn set_switch_is_in_force(
    affinity: &mut SessionAffinity,
    enabled: bool,
    shown: bool,
)
    requires
        call_ensures(SessionAffinity::set_enabled, (affinity, enabled), ()),
        call_ensures(SessionAffinity::is_enabled, (final(affinity),), shown),
    ensures
        shown == enabled,
        final(affinity)@.enabled == enabled,
        final(affinity)@.ttl_secs == old(affinity)@.ttl_secs,
        final(affinity)@.hits == old(affinity)@.hits,
        final(affinity)@.misses == old(affinity)@.misses,
        final(affinity)@.bindings == old(affinity)@.bindings,
{
}

/// A lookup answers with the binding in force.
pub proof fn lookup_answers(
    affinity: &mut SessionAffinity,
    session: &str,
    now: i128,
    out: Option<u64>,
)
    requires
        call_ensures(SessionAffinity::lookup_at, (affinity, session, now), out),
    ensures
        answers(old(affinity)@, final(affinity)@, session@, now as int, out),
{
}

/// A lookup that reads the clock answers with the binding in force at a time that the clock may
/// read.
pub proof fn lookup_by_clock_answers(
    affinity: &mut SessionAffinity,
    session: &str,
    out: Option<u64>,
)
    requires
        call_ensures(SessionAffinity::lookup, (affinity, session), out),
    ensures
        exists|now: i128| #[trigger]
            call_ensures(Clock::now, (&old(affinity).clock_of(),), now) && answers(
                old(affinity)@,
                final(affinity)@,
                session@,
                now as int,
                out,
            ),
{
    let now = choose|now: i128| #[trigger]
        call_ensures(Clock::now, (&old(affinity).clock_of(),), now) && out == old(affinity)@.bound(
            session@,
            now as int,
        ) && final(affinity)@ == old(affinity)@.after_lookup(session@, now as int);
    assert(call_ensures(Clock::now, (&old(affinity).clock_of(),), now));
}

proof fn lemma_takes_effect(
    state: AffinityState,
    next: AffinityState,
    session: Seq<char>,
    credential_id: u64,
    now: int,
)
    requires
        state.valid(),
        i128::MIN <= now,
        state.enabled && credential_id != 0 ==> now + state.ttl_secs * 1_000_000_000 <= i128::MAX,
        state.binds_to(next, session, credential_id, now),
    ensures
        takes_effect(state, next, session, credential_id, now),
{
    let live = live_part(state.bindings, now);
    lemma_live_part_len(state.bindings, now);
    if state.enabled && credential_id != 0 {
        let fresh = state.fresh_binding(credential_id, now);
        if state.bindings.contains_key(session) {
            assert(state.bindings.insert(session, fresh).dom() =~= state.bindings.dom());
        } else {
            let kept = choose|kept: Map<Seq<char>, Binding>| #[trigger]
                state.makes_room(kept, now) && next == (AffinityState {
                    bindings: kept.insert(session, fresh),
                    ..state
                });
            lemma_room(state, kept, now);
            if state.bindings.len() >= 8192 && live.len() >= 8192 {
                let victim = choose|victim: Seq<char>| #[trigger]
                    is_earliest(live, victim) && kept == live.remove(victim);
                assert(kept.dom() =~= live.dom().remove(victim));
                assert(next.bindings.len() == 8192);
                assert forall|other: Seq<char>| #[trigger]
                    state.bindings.contains_key(other) && now
                        < state.bindings[other].expires_at as int implies live[victim].expires_at
                    as int <= state.bindings[other].expires_at as int by {
                    assert(live.contains_key(other));
                }
            }
        }
    }
}

/// To bind a session takes effect.
pub proof fn bind_takes_effect(
    affinity: &mut SessionAffinity,
    session: &str,
    credential_id: u64,
    now: i128,
)
    requires
        old(affinity).wf(),
        old(affinity)@.enabled && credential_id != 0 ==> now + old(affinity)@.ttl_secs
            * 1_000_000_000 <= i128::MAX,
        call_ensures(SessionAffinity::bind_at, (affinity, session, credential_id, now), ()),
    ensures
        takes_effect(
            old(affinity)@,
            final(affinity)@,
            session@,
            credential_id,
            now as int,
        ),
{
    lemma_takes_effect(
        old(affinity)@,
        final(affinity)@,
        session@,
        credential_id,
        now as int,
    );
}

/// To bind a session by the clock takes effect at a time that the clock may read.
pub proof fn bind_by_clock_takes_effect(
    affinity: &mut SessionAffinity,
    session: &str,
    credential_id: u64,
)
    requires
        old(affinity).wf(),
        call_ensures(SessionAffinity::bind, (affinity, session, credential_id), ()),
    ensures
        exists|now: i128| #[trigger]
            call_ensures(Clock::now, (&old(affinity).clock_of(),), now) && takes_effect(
                old(affinity)@,
                final(affinity)@,
                session@,
                credential_id,
                now as int,
            ),
{
    let now = choose|now: i128| #[trigger]
        call_ensures(Clock::now, (&old(affinity).clock_of(),), now) && old(affinity)@.binds_to(
            final(affinity)@,
            session@,
            credential_id,
            now as int,
        );
    assert(call_ensures(Clock::now, (&old(affinity).clock_of(),), now));
    lemma_takes_effect(
        old(affinity)@,
        final(affinity)@,
        session@,
        credential_id,
        now as int,
    );
}

/// A session that was bound is found with its credential at every time before the time to live has
/// passed since, whatever the time to live is, and at no time after.
pub proof fn bound_session_is_found_for_its_ttl(
    affinity: &mut SessionAffinity,
    bound: &mut SessionAffinity,
    session: &str,
    credential_id: u64,
    now: i128,
    ttl_secs: u64,
    later: i128,
    out: Option<u64>,
)
    requires
        call_ensures(SessionAffinity::ttl_secs, (old(affinity),), ttl_secs),
        call_ensures(SessionAffinity::is_enabled, (old(affinity),), true),
        credential_id != 0,
        now + ttl_secs * 1_000_000_000 <= i128::MAX,
        call_ensures(SessionAffinity::bind_at, (affinity, session, credential_id, now), ()),
        *old(bound) == *final(affinity),
        call_ensures(SessionAffinity::lookup_at, (bound, session, later), out),
    ensures
        later < now + ttl_secs * 1_000_000_000 ==> out == Some(credential_id),
        later >= now + ttl_secs * 1_000_000_000 ==> out is None,
{
}

/// A table that was made with a time to live of at least a minute holds a binding for just that
/// long.
pub proof fn asked_ttl_is_how_long_a_binding_holds(
    ttl_secs: u64,
    affinity: &mut SessionAffinity,
    bound: &mut SessionAffinity,
    session: &str,
    credential_id: u64,
    now: i128,
    later: i128,
    out: Option<u64>,
)
    requires
        ttl_secs >= 60,
        credential_id != 0,
        now + ttl_secs * 1_000_000_000 <= i128::MAX,
        call_ensures(SessionAffinity::new, (true, ttl_secs), *old(affinity)),
        call_ensures(SessionAffinity::bind_at, (affinity, session, credential_id, now), ()),
        *old(bound) == *final(affinity),
        call_ensures(SessionAffinity::lookup_at, (bound, session, later), out),
    ensures
        later < now + ttl_secs * 1_000_000_000 ==> out == Some(credential_id),
        later >= now + ttl_secs * 1_000_000_000 ==> out is None,
{
}

/// To bind one session in a table with room changes no answer for another: it is the same before
/// and after.
pub proof fn bind_with_room_changes_no_other_answer(
    affinity: &mut SessionAffinity,
    unbound: &mut SessionAffinity,
    bound: &mut SessionAffinity,
    session: &str,
    credential_id: u64,
    now: i128,
    n: usize,
    other: &str,
    later: i128,
    out_before: Option<u64>,
    out_after: Option<u64>,
)
    requires
        call_ensures(SessionAffinity::len, (old(affinity),), n),
        n < 8192,
        other@ != session@,
        *old(unbound) == *old(affinity),
        call_ensures(SessionAffinity::lookup_at, (unbound, other, later), out_before),
        call_ensures(SessionAffinity::bind_at, (affinity, session, credential_id, now), ()),
        *old(bound) == *final(affinity),
        call_ensures(SessionAffinity::lookup_at, (bound, other, later), out_after),
    ensures
        out_before == out_after,
{
}

/// There are never more than 8192 bindings, nor a time to live under 60 seconds, nor credential 0.
pub proof fn bounds_hold_of_every_table(
    affinity: &mut SessionAffinity,
    n: usize,
    ttl_secs: u64,
    session: &str,
    now: i128,
    out: Option<u64>,
)
    requires
        old(affinity).wf(),
        call_ensures(SessionAffinity::len, (old(affinity),), n),
        call_ensures(SessionAffinity::ttl_secs, (old(affinity),), ttl_secs),
        call_ensures(SessionAffinity::lookup_at, (affinity, session, now), out),
    ensures
        n <= 8192,
        ttl_secs >= 60,
        out != Some(0u64),
{
}

/// Every operation leaves a table of which the bounds hold, with the clock that it had.
pub proof fn operations_leave_a_table(
    bound: &mut SessionAffinity,
    looked_up: &mut SessionAffinity,
    evicted: &mut SessionAffinity,
    recorded: &mut SessionAffinity,
    session: &str,
    credential_id: u64,
    now: i128,
    out: Option<u64>,
    outcome: StickyOutcome,
)
    requires
        call_ensures(SessionAffinity::bind_at, (bound, session, credential_id, now), ()),
        call_ensures(SessionAffinity::lookup_at, (looked_up, session, now), out),
        call_ensures(SessionAffinity::evict_expired_at, (evicted, now), ()),
        call_ensures(SessionAffinity::record, (recorded, outcome), ()),
    ensures
        final(bound).wf() && final(bound).clock_of() == old(bound).clock_of(),
        final(looked_up).wf() && final(looked_up).clock_of() == old(looked_up).clock_of(),
        final(evicted).wf() && final(evicted).clock_of() == old(evicted).clock_of(),
        final(recorded).wf() && final(recorded).clock_of() == old(recorded).clock_of(),
{
}

/// A hit adds one to the hits and nothing to the misses, a miss of either kind adds one to the
/// misses and nothing to the hits, and `Off` adds to neither. After 2^64 - 1 a counter is 0. Nothing
/// else changes.
pub proof fn record_counts_one(affinity: &mut SessionAffinity, outcome: StickyOutcome)
    requires
        call_ensures(SessionAffinity::record, (affinity, outcome), ()),
    ensures
        outcome == StickyOutcome::Hit ==> final(affinity)@.hits as int == (old(affinity)@.hits + 1)
            % 0x1_0000_0000_0000_0000 && final(affinity)@.misses == old(affinity)@.misses,
        outcome == StickyOutcome::MissFirst || outcome == StickyOutcome::MissUnavailable ==> final(affinity)@.misses as int == (old(affinity)@.misses + 1) % 0x1_0000_0000_0000_0000 && final(affinity)@.hits == old(affinity)@.hits,
        outcome == StickyOutcome::Off ==> final(affinity)@.hits == old(affinity)@.hits && final(affinity)@.misses == old(affinity)@.misses,
        final(affinity)@.enabled == old(affinity)@.enabled,
        final(affinity)@.ttl_secs == old(affinity)@.ttl_secs,
        final(affinity)@.bindings == old(affinity)@.bindings,
{
}

/// The figures show the state as it is, and count the bindings in force.
pub proof fn stats_show_the_state(
    affinity: &SessionAffinity,
    now: i128,
    stats: SessionAffinityStats,
    live: Set<Seq<char>>,
)
    requires
        call_ensures(SessionAffinity::stats_at, (affinity, now), stats),
        are_live(live, affinity@.bindings, now as int),
    ensures
        shows(stats, affinity@, live),
{
    assert(live =~= live_part(affinity@.bindings, now as int).dom());
}

/// The figures by the clock show the state as it is, and count the bindings in force at a time that
/// the clock may read.
pub proof fn stats_by_clock_show_the_state(affinity: &SessionAffinity, stats: SessionAffinityStats)
    requires
        call_ensures(SessionAffinity::stats, (affinity,), stats),
    ensures
        stats.enabled == affinity@.enabled,
        stats.ttl_secs == affinity@.ttl_secs,
        stats.hits == affinity@.hits,
        stats.misses == affinity@.misses,
        exists|now: i128, live: Set<Seq<char>>|
            #![trigger call_ensures(Clock::now, (&affinity.clock_of(),), now), live.len()]
            call_ensures(Clock::now, (&affinity.clock_of(),), now) && are_live(
                live,
                affinity@.bindings,
                now as int,
            ) && stats.active_bindings as int == live.len(),
{
    let now = choose|now: i128| #[trigger]
        call_ensures(Clock::now, (&affinity.clock_of(),), now) && stats == affinity@.stats_at(
            now as int,
        ) && stats.active_bindings == live_part(affinity@.bindings, now as int).len();
    let live = live_part(affinity@.bindings, now as int).dom();
    assert(call_ensures(Clock::now, (&affinity.clock_of(),), now));
    assert(are_live(live, affinity@.bindings, now as int));
    assert(stats.active_bindings as int == live.len());
}

/// The figures tell what the switch and the time to live are told to be.
pub proof fn stats_agree_with_settings(
    affinity: &SessionAffinity,
    now: i128,
    stats: SessionAffinityStats,
    enabled: bool,
    ttl_secs: u64,
)
    requires
        call_ensures(SessionAffinity::stats_at, (affinity, now), stats),
        call_ensures(SessionAffinity::is_enabled, (affinity,), enabled),
        call_ensures(SessionAffinity::ttl_secs, (affinity,), ttl_secs),
    ensures
        stats.enabled == enabled,
        stats.ttl_secs == ttl_secs,
{
}

/// To record one outcome moves the figures by that outcome: hits and misses before and after.
pub proof fn stats_move_by_what_is_recorded(
    affinity: &mut SessionAffinity,
    outcome: StickyOutcome,
    now: i128,
    before: SessionAffinityStats,
    after: SessionAffinityStats,
)
    requires
        call_ensures(SessionAffinity::stats_at, (old(affinity), now), before),
        call_ensures(SessionAffinity::record, (affinity, outcome), ()),
        call_ensures(SessionAffinity::stats_at, (final(affinity), now), after),
    ensures
        after.hits as int == (before.hits + if outcome == StickyOutcome::Hit {
            1int
        } else {
            0int
        }) % 0x1_0000_0000_0000_0000,
        after.misses as int == (before.misses + if outcome == StickyOutcome::MissFirst || outcome
            == StickyOutcome::MissUnavailable {
            1int
        } else {
            0int
        }) % 0x1_0000_0000_0000_0000,
        after.enabled == before.enabled,
        after.ttl_secs == before.ttl_secs,
        after.active_bindings == before.active_bindings,
{
}

/// After a run on a new table the figures show as hits the number of hits recorded, and as misses
/// that of the misses, modulo 2^64.
pub proof fn stats_show_what_was_recorded(
    states: Seq<AffinityState>,
    operations: Seq<Operation>,
    enabled: bool,
    ttl_secs: u64,
    affinity: &SessionAffinity,
    now: i128,
    stats: SessionAffinityStats,
)
    requires
        is_run(states, operations),
        states.first() == AffinityState::initial(enabled, ttl_secs),
        affinity@ == states.last(),
        call_ensures(SessionAffinity::stats_at, (affinity, now), stats),
    ensures
        stats.hits as int == hits_recorded(operations) % 0x1_0000_0000_0000_0000,
        stats.misses as int == misses_recorded(operations) % 0x1_0000_0000_0000_0000,
{
    counters_count_over_runs(states, operations);
}

/// Eviction takes out the bindings that have expired and nothing else.
pub proof fn eviction_takes_out_the_expired(affinity: &mut SessionAffinity, now: i128)
    requires
        call_ensures(SessionAffinity::evict_expired_at, (affinity, now), ()),
    ensures
        same_settings_and_counters(old(affinity)@, final(affinity)@),
        only_expired_are_gone(old(affinity)@.bindings, final(affinity)@.bindings, now as int),
{
}

/// Eviction by the clock takes out the bindings that have expired at a time that the clock may read,
/// and nothing else.
pub proof fn eviction_by_clock_takes_out_the_expired(affinity: &mut SessionAffinity)
    requires
        call_ensures(SessionAffinity::evict_expired, (affinity,), ()),
    ensures
        same_settings_and_counters(old(affinity)@, final(affinity)@),
        exists|now: i128| #[trigger]
            call_ensures(Clock::now, (&old(affinity).clock_of(),), now) && only_expired_are_gone(
                old(affinity)@.bindings,
                final(affinity)@.bindings,
                now as int,
            ),
{
    let now = choose|now: i128| #[trigger]
        call_ensures(Clock::now, (&old(affinity).clock_of(),), now) && final(affinity)@ == old(affinity)@.after_evict(now as int);
    assert(call_ensures(Clock::now, (&old(affinity).clock_of(),), now));
}

/// After eviction there are as many bindings as the figures counted in force.
pub proof fn eviction_leaves_what_was_counted(
    affinity: &mut SessionAffinity,
    now: i128,
    stats: SessionAffinityStats,
    n: usize,
)
    requires
        call_ensures(SessionAffinity::stats_at, (old(affinity), now), stats),
        call_ensures(SessionAffinity::evict_expired_at, (affinity, now), ()),
        call_ensures(SessionAffinity::len, (final(affinity),), n),
    ensures
        n == stats.active_bindings,
{
}

/// The number of bindings is the number of sessions that have one, expired or not.
pub proof fn len_counts_sessions(affinity: &SessionAffinity, n: usize, sessions: Set<Seq<char>>)
    requires
        call_ensures(SessionAffinity::len, (affinity,), n),
        forall|session: Seq<char>| #[trigger]
            sessions.contains(session) <==> affinity@.bindings.contains_key(session),
    ensures
        n as int == sessions.len(),
{
    assert(sessions =~= affinity@.bindings.dom());
}

/// The binding of `session` ends a second before `now`; everything else is as it was.
pub open spec fn ends_a_second_before(
    state: AffinityState,
    next: AffinityState,
    session: Seq<char>,
    now: int,
) -> bool {
    &&& same_settings_and_counters(state, next)
    &&& forall|other: Seq<char>| #[trigger]
        next.bindings.contains_key(other) <==> state.bindings.contains_key(other)
    &&& forall|other: Seq<char>| #[trigger]
        next.bindings.contains_key(other) && other != session ==> next.bindings[other]
            == state.bindings[other]
    &&& state.bindings.contains_key(session) ==> {
        &&& next.bindings[session].credential_id == state.bindings[session].credential_id
        &&& next.bindings[session].expires_at as int == now - 1_000_000_000
    }
}

/// To expire a session ends its binding a second before the time given.
pub proof fn expiring_ends_a_binding(affinity: &mut SessionAffinity, session: &str, now: i128)
    requires
        now - 1_000_000_000 >= i128::MIN,
        call_ensures(SessionAffinity::expire_at, (affinity, session, now), ()),
    ensures
        ends_a_second_before(old(affinity)@, final(affinity)@, session@, now as int),
{
}

/// To expire a session by the clock ends its binding a second before a time that the clock may read.
pub proof fn expiring_by_clock_ends_a_binding(affinity: &mut SessionAffinity, session: &str)
    requires
        call_ensures(SessionAffinity::expire_now, (affinity, session), ()),
    ensures
        exists|now: i128| #[trigger]
            call_ensures(Clock::now, (&old(affinity).clock_of(),), now) && ends_a_second_before(
                old(affinity)@,
                final(affinity)@,
                session@,
                now as int,
            ),
{
    let now = choose|now: i128| #[trigger]
        call_ensures(Clock::now, (&old(affinity).clock_of(),), now) && final(affinity)@ == old(affinity)@.after_expire(session@, now as int);
    assert(call_ensures(Clock::now, (&old(affinity).clock_of(),), now));
}

/// A clock reads from 0 to the last nanosecond before 2^64 seconds.
pub proof fn clock_reads_in_range(clock: &Clock, nanos: i128)
    requires
        call_ensures(Clock::now, (clock,), nanos),
    ensures
        0 <= nanos < 0x1_0000_0000_0000_0000 * 1_000_000_000,
{
}

/// The labels of the outcomes.
pub proof fn labels_are_as_traced(outcome: StickyOutcome, label: &'static str)
    requires
        call_ensures(StickyOutcome::as_str, (outcome,), label),
    ensures
        outcome == StickyOutcome::Hit ==> label@ == "hit"@,
        outcome == StickyOutcome::MissFirst ==> label@ == "miss_first"@,
        outcome == StickyOutcome::MissUnavailable ==> label@ == "miss_unavailable"@,
        outcome == StickyOutcome::Off ==> label@ == "off"@,
{
}

/// Where sticky routing has no part the decision is off and names no credential.
pub proof fn no_decision_is_off(decision: RouteDecision)
    requires
        call_ensures(RouteDecision::none, (), decision),
    ensures
        decision.sticky_outcome == StickyOutcome::Off,
        decision.previous_credential_id is None,
{
}

/// What a table gives of a session after it was put in, replaced or taken out, and of the others.
pub proof fn table_keeps_what_is_put_in(
    inserted: &mut BindingTable,
    removed: &mut BindingTable,
    session: &str,
    binding: Binding,
    other: &str,
    after_insert: Option<Binding>,
    after_remove: Option<Binding>,
)
    requires
        call_ensures(BindingTable::insert, (inserted, session, binding), ()),
        call_ensures(BindingTable::get, (final(inserted), other), after_insert),
        call_ensures(BindingTable::remove, (removed, session), ()),
        call_ensures(BindingTable::get, (final(removed), other), after_remove),
    ensures
        other@ == session@ ==> after_insert == Some(binding) && after_remove is None,
        other@ != session@ && old(inserted)@.contains_key(other@) ==> after_insert == Some(
            old(inserted)@[other@],
        ),
        other@ != session@ && !old(inserted)@.contains_key(other@) ==> after_insert is None,
        other@ != session@ && old(removed)@.contains_key(other@) ==> after_remove == Some(
            old(removed)@[other@],
        ),
        other@ != session@ && !old(removed)@.contains_key(other@) ==> after_remove is None,
{
}

/// A table evicts one binding that no other expires before, retains those in force, and counts them.
pub proof fn table_evicts_the_earliest_and_retains_the_live(
    evicted: &mut BindingTable,
    retained: &mut BindingTable,
    table: &BindingTable,
    now: i128,
    n: usize,
    live: Set<Seq<char>>,
)
    requires
        call_ensures(BindingTable::evict_earliest, (evicted,), ()),
        call_ensures(BindingTable::retain_live, (retained, now), ()),
        call_ensures(BindingTable::count_live, (table, now), n),
        are_live(live, table@, now as int),
    ensures
        exists|victim: Seq<char>|
            {
                &&& #[trigger] old(evicted)@.contains_key(victim)
                &&& final(evicted)@ == old(evicted)@.remove(victim)
                &&& forall|other: Seq<char>| #[trigger]
                    old(evicted)@.contains_key(other) ==> old(evicted)@[victim].expires_at as int
                        <= old(evicted)@[other].expires_at as int
            },
        only_expired_are_gone(old(retained)@, final(retained)@, now as int),
        n as int == live.len(),
{
    let victim = choose|victim: Seq<char>| #[trigger]
        is_earliest(old(evicted)@, victim) && final(evicted)@ == old(evicted)@.remove(victim);
    assert(old(evicted)@.contains_key(victim));
    assert(live =~= live_part(table@, now as int).dom());
}

} // verus!
