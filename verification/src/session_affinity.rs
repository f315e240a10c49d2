//! Sticky session routing: later turns of a session go, where they can, to the credential that
//! served its last successful turn.
//!
//! This module keeps the bindings of sessions to credentials and takes no part in judging whether
//! a credential can be used. The scheduler asks for the binding of a session before it selects a
//! credential. Where the bound credential can still be used it stays with it, else it falls back
//! to balancing the load and binds the session anew after success.
//!
//! The number of bindings is bounded, and each binding ends with its time to live.

use vstd::prelude::*;

use crate::binding_table::{Binding, BindingTable};
#[allow(unused_imports)]
use crate::binding_table::{is_earliest, live_part};
use crate::clock::{Clock, NANOS_PER_SEC};
use crate::sticky::{HIT, MISS_FIRST, MISS_UNAVAILABLE, OFF};

verus! {

/// The most bindings that are kept. To stay within it, expired bindings are dropped first, and
/// then the one that expires earliest.
pub const CAPACITY: usize = 8192;

/// The least time to live, so that a setting of 0 does not make sticky routing void.
pub const MIN_TTL_SECS: u64 = 60;

/// What sticky routing came to in one selection of a credential.
#[derive(Clone, Copy, Debug, PartialEq, Eq, Structural)]
pub enum StickyOutcome {
    /// The bound credential can be used and is used.
    Hit,
    /// The session has no binding: it is its first turn, or the binding has expired.
    MissFirst,
    /// The session has a binding, but its credential cannot be used now.
    MissUnavailable,
    /// Sticky routing is switched off.
    Off,
}

impl StickyOutcome {
    /// The label under which a trace records the outcome.
    pub open spec fn label(self) -> Seq<char> {
        match self {
            StickyOutcome::Hit => HIT@,
            StickyOutcome::MissFirst => MISS_FIRST@,
            StickyOutcome::MissUnavailable => MISS_UNAVAILABLE@,
            StickyOutcome::Off => OFF@,
        }
    }

    /// The label under which a trace records the outcome.
    pub fn as_str(self) -> (label: &'static str)
        ensures
            label@ == self.label(),
    {
        match self {
            StickyOutcome::Hit => HIT,
            StickyOutcome::MissFirst => MISS_FIRST,
            StickyOutcome::MissUnavailable => MISS_UNAVAILABLE,
            StickyOutcome::Off => OFF,
        }
    }
}

/// What the selection of a credential tells its caller, for traces and for the hit rate.
#[derive(Clone, Copy, Debug)]
pub struct RouteDecision {
    pub sticky_outcome: StickyOutcome,
    /// The credential that the session was bound to before the selection, usable or not.
    pub previous_credential_id: Option<u64>,
}

impl RouteDecision {
    /// The decision where sticky routing had no part.
    pub fn none() -> (decision: RouteDecision)
        ensures
            decision.sticky_outcome == StickyOutcome::Off,
            decision.previous_credential_id == None::<u64>,
    {
        RouteDecision { sticky_outcome: StickyOutcome::Off, previous_credential_id: None }
    }
}

/// Figures of sticky routing, for administration.
#[derive(Clone, Copy, Debug)]
pub struct SessionAffinityStats {
    pub enabled: bool,
    pub ttl_secs: u64,
    pub hits: u64,
    pub misses: u64,
    pub active_bindings: usize,
}

impl Default for SessionAffinityStats {
    fn default() -> (stats: SessionAffinityStats)
        ensures
            stats == (SessionAffinityStats {
                enabled: false,
                ttl_secs: 0,
                hits: 0,
                misses: 0,
                active_bindings: 0,
            }),
    {
        SessionAffinityStats { enabled: false, ttl_secs: 0, hits: 0, misses: 0, active_bindings: 0 }
    }
}

/// `ttl_secs`, or the least time to live if that is more.
pub open spec fn floored_ttl(ttl_secs: u64) -> u64 {
    if ttl_secs < MIN_TTL_SECS {
        MIN_TTL_SECS
    } else {
        ttl_secs
    }
}

/// The successor of a counter of 64 bits, which starts again after its greatest value.
pub open spec fn next_count(count: u64) -> u64 {
    if count == u64::MAX {
        0
    } else {
        (count + 1) as u64
    }
}

/// The state of sticky routing: its settings, its counters and the bindings of sessions.
#[verifier::ext_equal]
pub struct AffinityState {
    pub enabled: bool,
    pub ttl_secs: u64,
    pub hits: u64,
    pub misses: u64,
    pub bindings: Map<Seq<char>, Binding>,
}

impl AffinityState {
    /// What every state keeps: the floor of the time to live, the bound on the number of bindings,
    /// and that no session is bound to credential 0.
    pub open spec fn valid(self) -> bool {
        &&& self.ttl_secs >= MIN_TTL_SECS
        &&& self.bindings.dom().finite()
        &&& self.bindings.len() <= CAPACITY
        &&& forall|session: Seq<char>| #[trigger]
            self.bindings.contains_key(session) ==> self.bindings[session].credential_id != 0
    }

    /// The state of a new table.
    pub open spec fn initial(enabled: bool, ttl_secs: u64) -> AffinityState {
        AffinityState {
            enabled,
            ttl_secs: floored_ttl(ttl_secs),
            hits: 0,
            misses: 0,
            bindings: Map::empty(),
        }
    }

    /// The credential that `session` is bound to at `now`.
    pub open spec fn bound(self, session: Seq<char>, now: int) -> Option<u64> {
        if self.bindings.contains_key(session) && self.bindings[session].live_at(now) {
            Some(self.bindings[session].credential_id)
        } else {
            None
        }
    }

    /// The state after a lookup of `session` at `now`: a binding of it that has expired is gone.
    pub open spec fn after_lookup(self, session: Seq<char>, now: int) -> AffinityState {
        if self.bindings.contains_key(session) && !self.bindings[session].live_at(now) {
            AffinityState { bindings: self.bindings.remove(session), ..self }
        } else {
            self
        }
    }

    /// When a binding that is made at `now` expires.
    pub open spec fn expiry(self, now: int) -> int {
        now + self.ttl_secs * NANOS_PER_SEC
    }

    /// The binding to `credential_id` that is made at `now`.
    pub open spec fn fresh_binding(self, credential_id: u64, now: int) -> Binding {
        Binding { credential_id, expires_at: self.expiry(now) as i128 }
    }

    /// `kept` is what may be left of the bindings where room is made at `now` for one more: all of
    /// them below the capacity; else those that have not expired, less one that expires earliest
    /// if even they reach the capacity.
    pub open spec fn makes_room(self, kept: Map<Seq<char>, Binding>, now: int) -> bool {
        let live = live_part(self.bindings, now);
        if self.bindings.len() < CAPACITY {
            kept == self.bindings
        } else if live.len() < CAPACITY {
            kept == live
        } else {
            exists|victim: Seq<char>| #[trigger]
                is_earliest(live, victim) && kept == live.remove(victim)
        }
    }

    /// `next` may follow where `session` is bound to `credential_id` at `now`. Nothing changes
    /// while sticky routing is switched off, nor for credential 0. A session that has a binding,
    /// expired or not, has it replaced.
    pub open spec fn binds_to(
        self,
        next: AffinityState,
        session: Seq<char>,
        credential_id: u64,
        now: int,
    ) -> bool {
        let fresh = self.fresh_binding(credential_id, now);
        if !self.enabled || credential_id == 0 {
            next == self
        } else if self.bindings.contains_key(session) {
            next == (AffinityState { bindings: self.bindings.insert(session, fresh), ..self })
        } else {
            exists|kept: Map<Seq<char>, Binding>| #[trigger]
                self.makes_room(kept, now) && next == (AffinityState {
                    bindings: kept.insert(session, fresh),
                    ..self
                })
        }
    }

    /// The state after one outcome is counted. `Off` counts neither as a hit nor as a miss.
    pub open spec fn after_record(self, outcome: StickyOutcome) -> AffinityState {
        match outcome {
            StickyOutcome::Hit => AffinityState { hits: next_count(self.hits), ..self },
            StickyOutcome::MissFirst | StickyOutcome::MissUnavailable => AffinityState {
                misses: next_count(self.misses),
                ..self
            },
            StickyOutcome::Off => self,
        }
    }

    /// The state without the bindings that have expired at `now`.
    pub open spec fn after_evict(self, now: int) -> AffinityState {
        AffinityState { bindings: live_part(self.bindings, now), ..self }
    }

    /// The state where a binding of `session` ended a second before `now`.
    pub open spec fn after_expire(self, session: Seq<char>, now: int) -> AffinityState {
        if self.bindings.contains_key(session) {
            let ended = Binding {
                credential_id: self.bindings[session].credential_id,
                expires_at: (now - NANOS_PER_SEC) as i128,
            };
            AffinityState { bindings: self.bindings.insert(session, ended), ..self }
        } else {
            self
        }
    }

    /// The figures at `now`. Bindings that have expired are not counted.
    pub open spec fn stats_at(self, now: int) -> SessionAffinityStats {
        SessionAffinityStats {
            enabled: self.enabled,
            ttl_secs: self.ttl_secs,
            hits: self.hits,
            misses: self.misses,
            active_bindings: live_part(self.bindings, now).len() as usize,
        }
    }
}

/// The bindings of sessions to credentials.
///
/// The operations whose names end in `_at` take the time, in nanoseconds. The others read it from
/// the clock of the table.
pub struct SessionAffinity {
    table: BindingTable,
    clock: Clock,
    enabled: bool,
    ttl_secs: u64,
    hits: u64,
    misses: u64,
}

impl View for SessionAffinity {
    type V = AffinityState;

    closed spec fn view(&self) -> AffinityState {
        AffinityState {
            enabled: self.enabled,
            ttl_secs: self.ttl_secs,
            hits: self.hits,
            misses: self.misses,
            bindings: self.table@,
        }
    }
}

impl SessionAffinity {
    /// The clock that the operations without a time read. It stays the same, so that times on it
    /// can be compared with each other.
    pub closed spec fn clock_of(&self) -> Clock {
        self.clock
    }

    /// The invariant of the inner table.
    pub closed spec fn table_wf(&self) -> bool {
        self.table.wf()
    }

    /// The invariant of the table.
    pub open spec fn wf(&self) -> bool {
        self.table_wf() && self@.valid()
    }

    /// A table without bindings. The time to live is at least `MIN_TTL_SECS`.
    pub fn new(enabled: bool, ttl_secs: u64) -> (affinity: SessionAffinity)
        ensures
            affinity.wf(),
            affinity@ == AffinityState::initial(enabled, ttl_secs),
            call_ensures(Clock::start, (), affinity.clock_of()),
    {
        SessionAffinity {
            table: BindingTable::new(),
            clock: Clock::start(),
            enabled,
            ttl_secs: if ttl_secs < MIN_TTL_SECS {
                MIN_TTL_SECS
            } else {
                ttl_secs
            },
            hits: 0,
            misses: 0,
        }
    }

    /// Whether sticky routing is switched on.
    pub fn is_enabled(&self) -> (enabled: bool)
        ensures
            enabled == self@.enabled,
    {
        self.enabled
    }

    /// Switches sticky routing on or off. The bindings stay, and hit again once it is back on.
    pub fn set_enabled(&mut self, enabled: bool)
        requires
            old(self).wf(),
        ensures
            final(self).wf(),
            final(self).clock_of() == old(self).clock_of(),
            final(self)@ == (AffinityState { enabled, ..old(self)@ }),
    {
        self.enabled = enabled;
    }

    /// The time to live of bindings made from now on.
    pub fn ttl_secs(&self) -> (ttl_secs: u64)
        ensures
            ttl_secs == self@.ttl_secs,
    {
        self.ttl_secs
    }

    /// Sets the time to live, to at least `MIN_TTL_SECS`. It holds for bindings made or renewed
    /// after this; those that exist expire when they would have.
    pub fn set_ttl_secs(&mut self, ttl_secs: u64)
        requires
            old(self).wf(),
        ensures
            final(self).wf(),
            final(self).clock_of() == old(self).clock_of(),
            final(self)@ == (AffinityState { ttl_secs: floored_ttl(ttl_secs), ..old(self)@ }),
    {
        self.ttl_secs = if ttl_secs < MIN_TTL_SECS {
            MIN_TTL_SECS
        } else {
            ttl_secs
        };
    }

    /// The time to live in nanoseconds.
    fn ttl(&self) -> (nanos: i128)
        ensures
            nanos == self@.ttl_secs * NANOS_PER_SEC,
            0 <= nanos <= u64::MAX * NANOS_PER_SEC,
    {
        self.ttl_secs as i128 * NANOS_PER_SEC
    }

    /// The credential that `session` is bound to at `now`. A binding that has expired counts as
    /// none and is removed. The binding is not renewed.
    pub fn lookup_at(&mut self, session: &str, now: i128) -> (credential_id: Option<u64>)
        requires
            old(self).wf(),
        ensures
            final(self).wf(),
            final(self).clock_of() == old(self).clock_of(),
            credential_id == old(self)@.bound(session@, now as int),
            final(self)@ == old(self)@.after_lookup(session@, now as int),
    {
        match self.table.get(session) {
            Some(binding) => {
                if binding.is_live(now) {
                    Some(binding.credential_id)
                } else {
                    self.table.remove(session);
                    None
                }
            },
            None => None,
        }
    }

    /// The credential that `session` is bound to. A binding that has expired counts as none and
    /// is removed. The binding is not renewed.
    pub fn lookup(&mut self, session: &str) -> (credential_id: Option<u64>)
        requires
            old(self).wf(),
        ensures
            final(self).wf(),
            final(self).clock_of() == old(self).clock_of(),
            exists|now: i128| #[trigger]
                call_ensures(Clock::now, (&old(self).clock_of(),), now) && credential_id == old(
                    self,
                )@.bound(session@, now as int) && final(self)@ == old(self)@.after_lookup(
                    session@,
                    now as int,
                ),
    {
        let now = self.clock.now();
        let credential_id = self.lookup_at(session, now);
        assert(call_ensures(Clock::now, (&old(self).clock_of(),), now));
        credential_id
    }

    /// Records that `credential_id` served `session` at `now`: makes or renews its binding.
    pub fn bind_at(&mut self, session: &str, credential_id: u64, now: i128)
        requires
            old(self).wf(),
            old(self)@.enabled && credential_id != 0 ==> old(self)@.expiry(now as int) <= i128::MAX,
        ensures
            final(self).wf(),
            final(self).clock_of() == old(self).clock_of(),
            old(self)@.binds_to(final(self)@, session@, credential_id, now as int),
    {
        if !self.enabled || credential_id == 0 {
            return;
        }
        let binding = Binding { credential_id, expires_at: now + self.ttl() };
        if self.table.get(session).is_some() {
            self.table.insert(session, binding);
            return;
        }
        if self.table.len() >= CAPACITY {
            self.table.retain_live(now);
        }
        if self.table.len() >= CAPACITY {
            self.table.evict_earliest();
        }
        let ghost kept = self.table@;
        proof {
            lemma_live_part_len(old(self)@.bindings, now as int);
            assert(old(self)@.makes_room(kept, now as int));
            lemma_room(old(self)@, kept, now as int);
        }
        self.table.insert(session, binding);
        assert(self@ =~= (AffinityState {
            bindings: kept.insert(session@, old(self)@.fresh_binding(credential_id, now as int)),
            ..old(self)@
        }));
    }

    /// Records that `credential_id` has just served `session`: makes or renews its binding. Times
    /// are counted exactly whatever the time to live is: one that is too long for an `Instant` to
    /// hold its end makes a binding like any other, and does not panic.
    pub fn bind(&mut self, session: &str, credential_id: u64)
        requires
            old(self).wf(),
        ensures
            final(self).wf(),
            final(self).clock_of() == old(self).clock_of(),
            exists|now: i128| #[trigger]
                call_ensures(Clock::now, (&old(self).clock_of(),), now) && old(self)@.binds_to(
                    final(self)@,
                    session@,
                    credential_id,
                    now as int,
                ),
    {
        let now = self.clock.now();
        self.bind_at(session, credential_id, now);
        assert(call_ensures(Clock::now, (&old(self).clock_of(),), now));
    }

    /// Counts one outcome of a selection. `Off` has no part in the hit rate.
    pub fn record(&mut self, outcome: StickyOutcome)
        requires
            old(self).wf(),
        ensures
            final(self).wf(),
            final(self).clock_of() == old(self).clock_of(),
            final(self)@ == old(self)@.after_record(outcome),
    {
        match outcome {
            StickyOutcome::Hit => {
                self.hits = self.hits.wrapping_add(1);
            },
            StickyOutcome::MissFirst | StickyOutcome::MissUnavailable => {
                self.misses = self.misses.wrapping_add(1);
            },
            StickyOutcome::Off => {},
        }
    }

    /// The figures at `now`.
    pub fn stats_at(&self, now: i128) -> (stats: SessionAffinityStats)
        requires
            self.wf(),
        ensures
            stats == self@.stats_at(now as int),
            stats.active_bindings == live_part(self@.bindings, now as int).len(),
    {
        SessionAffinityStats {
            enabled: self.enabled,
            ttl_secs: self.ttl_secs,
            hits: self.hits,
            misses: self.misses,
            active_bindings: self.table.count_live(now),
        }
    }

    /// The figures at present.
    pub fn stats(&self) -> (stats: SessionAffinityStats)
        requires
            self.wf(),
        ensures
            exists|now: i128| #[trigger]
                call_ensures(Clock::now, (&self.clock_of(),), now) && stats == self@.stats_at(
                    now as int,
                ) && stats.active_bindings == live_part(self@.bindings, now as int).len(),
    {
        let now = self.clock.now();
        let stats = self.stats_at(now);
        assert(call_ensures(Clock::now, (&self.clock_of(),), now));
        stats
    }

    /// Removes the bindings that have expired at `now`.
    pub fn evict_expired_at(&mut self, now: i128)
        requires
            old(self).wf(),
        ensures
            final(self).wf(),
            final(self).clock_of() == old(self).clock_of(),
            final(self)@ == old(self)@.after_evict(now as int),
    {
        let ghost before = self.table@;
        self.table.retain_live(now);
        proof {
            lemma_live_part_len(before, now as int);
        }
    }

    /// Removes the bindings that have expired. A lookup removes only the one that it meets.
    pub fn evict_expired(&mut self)
        requires
            old(self).wf(),
        ensures
            final(self).wf(),
            final(self).clock_of() == old(self).clock_of(),
            exists|now: i128| #[trigger]
                call_ensures(Clock::now, (&old(self).clock_of(),), now) && final(self)@ == old(
                    self,
                )@.after_evict(now as int),
    {
        let now = self.clock.now();
        self.evict_expired_at(now);
        assert(call_ensures(Clock::now, (&old(self).clock_of(),), now));
    }

    /// The number of bindings, expired ones included.
    pub fn len(&self) -> (n: usize)
        requires
            self.wf(),
        ensures
            n == self@.bindings.len(),
    {
        self.table.len()
    }

    /// Ends the binding of `session` a second before `now`, if it has one.
    pub fn expire_at(&mut self, session: &str, now: i128)
        requires
            old(self).wf(),
            old(self)@.bindings.contains_key(session@) ==> now - NANOS_PER_SEC >= i128::MIN,
        ensures
            final(self).wf(),
            final(self).clock_of() == old(self).clock_of(),
            final(self)@ == old(self)@.after_expire(session@, now as int),
    {
        if let Some(binding) = self.table.get(session) {
            let ended = Binding {
                credential_id: binding.credential_id,
                expires_at: now - NANOS_PER_SEC,
            };
            self.table.insert(session, ended);
        }
    }

    /// Ends the binding of `session` a second ago, if it has one.
    pub fn expire_now(&mut self, session: &str)
        requires
            old(self).wf(),
        ensures
            final(self).wf(),
            final(self).clock_of() == old(self).clock_of(),
            exists|now: i128| #[trigger]
                call_ensures(Clock::now, (&old(self).clock_of(),), now) && final(self)@ == old(
                    self,
                )@.after_expire(session@, now as int),
    {
        let now = self.clock.now();
        self.expire_at(session, now);
        assert(call_ensures(Clock::now, (&old(self).clock_of(),), now));
    }
}

/// Where room is made, bindings are only dropped, and one more is within the capacity.
pub proof fn lemma_room(state: AffinityState, kept: Map<Seq<char>, Binding>, now: int)
    requires
        state.valid(),
        state.makes_room(kept, now),
    ensures
        kept.dom().finite(),
        kept.len() < CAPACITY,
        kept.submap_of(state.bindings),
{
    let live = live_part(state.bindings, now);
    lemma_live_part_len(state.bindings, now);
    if state.bindings.len() >= CAPACITY && live.len() >= CAPACITY {
        let victim = choose|victim: Seq<char>| #[trigger]
            is_earliest(live, victim) && kept == live.remove(victim);
        assert(live.dom().remove(victim) =~= kept.dom());
    }
}

/// What is left of a finite number of bindings is no more than there were.
pub proof fn lemma_live_part_len(bindings: Map<Seq<char>, Binding>, now: int)
    requires
        bindings.dom().finite(),
    ensures
        live_part(bindings, now).dom().finite(),
        live_part(bindings, now).len() <= bindings.len(),
{
    assert(live_part(bindings, now).dom().subset_of(bindings.dom()));
    vstd::set_lib::lemma_len_subset(live_part(bindings, now).dom(), bindings.dom());
}

} // verus!
