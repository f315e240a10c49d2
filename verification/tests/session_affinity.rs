use kiro_gateway::session_affinity::{
    RouteDecision, SessionAffinity, SessionAffinityStats, StickyOutcome, CAPACITY, MIN_TTL_SECS,
};
use kiro_gateway::sticky;

const SEC: i128 = 1_000_000_000;

#[test]
fn bind_then_lookup_hits() {
    let mut a = SessionAffinity::new(true, 3600);
    assert_eq!(a.lookup("s1"), None);
    a.bind("s1", 7);
    assert_eq!(a.lookup("s1"), Some(7));
    // A new binding replaces the old one.
    a.bind("s1", 9);
    assert_eq!(a.lookup("s1"), Some(9));
}

#[test]
fn expired_binding_is_removed_on_lookup() {
    let mut a = SessionAffinity::new(true, 3600);
    a.bind("s1", 7);
    a.expire_now("s1");
    assert_eq!(a.lookup("s1"), None);
    assert_eq!(a.len(), 0, "an expired binding goes with the lookup");
}

#[test]
fn disabled_does_not_bind_but_keeps_existing() {
    let mut a = SessionAffinity::new(true, 3600);
    a.bind("s1", 7);
    a.set_enabled(false);
    a.bind("s2", 8);
    assert_eq!(a.lookup("s2"), None, "nothing is bound while switched off");
    assert_eq!(a.lookup("s1"), Some(7), "existing bindings stay");
}

#[test]
fn zero_credential_is_never_bound() {
    let mut a = SessionAffinity::new(true, 3600);
    a.bind("s1", 0);
    assert_eq!(a.lookup("s1"), None);
}

#[test]
fn ttl_floor_is_enforced() {
    let mut a = SessionAffinity::new(true, 0);
    assert_eq!(a.ttl_secs(), MIN_TTL_SECS);
    a.set_ttl_secs(5);
    assert_eq!(a.ttl_secs(), MIN_TTL_SECS);
    a.set_ttl_secs(7200);
    assert_eq!(a.ttl_secs(), 7200);
}

#[test]
fn capacity_evicts_earliest_expiry() {
    let mut a = SessionAffinity::new(true, 3600);
    for i in 0..CAPACITY {
        a.bind(&format!("s{i}"), 1);
    }
    assert_eq!(a.len(), CAPACITY);
    // Let s0 expire first.
    a.expire_now("s0");
    a.bind("overflow", 2);
    assert_eq!(a.len(), CAPACITY, "the capacity is kept");
    assert_eq!(a.lookup("s0"), None, "the expired binding is gone");
    assert_eq!(a.lookup("overflow"), Some(2));
    assert_eq!(a.lookup("s1"), Some(1), "a binding in force stays");
}

#[test]
fn stats_count_hits_and_misses_but_not_off() {
    let mut a = SessionAffinity::new(true, 3600);
    a.record(StickyOutcome::Hit);
    a.record(StickyOutcome::Hit);
    a.record(StickyOutcome::MissFirst);
    a.record(StickyOutcome::MissUnavailable);
    a.record(StickyOutcome::Off);
    let s = a.stats();
    assert_eq!(s.hits, 2);
    assert_eq!(s.misses, 2);
}

#[test]
fn evict_expired_drops_only_dead_entries() {
    let mut a = SessionAffinity::new(true, 3600);
    a.bind("live", 1);
    a.bind("dead", 2);
    a.expire_now("dead");
    a.evict_expired();
    assert_eq!(a.len(), 1);
    assert_eq!(a.lookup("live"), Some(1));
}

#[test]
fn binding_holds_until_its_expiry() {
    let mut a = SessionAffinity::new(true, 100);
    a.bind_at("s", 5, 10 * SEC);
    assert_eq!(a.lookup_at("s", 110 * SEC - 1), Some(5));
    assert_eq!(a.len(), 1);
    assert_eq!(a.lookup_at("s", 110 * SEC), None);
    assert_eq!(a.len(), 0);
    // It stays gone, at whatever time it is asked for.
    assert_eq!(a.lookup_at("s", 10 * SEC), None);
}

#[test]
fn floor_gives_every_binding_a_minute() {
    let mut a = SessionAffinity::new(true, 0);
    a.bind_at("s", 5, 0);
    assert_eq!(a.lookup_at("s", 60 * SEC - 1), Some(5));
    assert_eq!(a.lookup_at("s", 60 * SEC), None);
}

#[test]
fn lookup_does_not_renew_but_bind_does() {
    let mut a = SessionAffinity::new(true, 100);
    a.bind_at("s", 5, 0);
    assert_eq!(a.lookup_at("s", 99 * SEC), Some(5));
    assert_eq!(a.lookup_at("s", 100 * SEC), None);
    a.bind_at("s", 5, 0);
    a.bind_at("s", 5, 50 * SEC);
    assert_eq!(a.lookup_at("s", 149 * SEC), Some(5));
    assert_eq!(a.lookup_at("s", 150 * SEC), None);
}

#[test]
fn new_ttl_holds_for_later_bindings_only() {
    let mut a = SessionAffinity::new(true, 100);
    a.bind_at("old", 1, 0);
    a.set_ttl_secs(1000);
    a.bind_at("new", 2, 0);
    assert_eq!(a.lookup_at("old", 100 * SEC), None);
    assert_eq!(a.lookup_at("new", 100 * SEC), Some(2));
    assert_eq!(a.lookup_at("new", 1000 * SEC), None);
}

#[test]
fn bindings_hit_again_after_switching_back_on() {
    let mut a = SessionAffinity::new(true, 100);
    assert!(a.is_enabled());
    a.bind_at("s", 5, 0);
    a.set_enabled(false);
    assert!(!a.is_enabled());
    a.bind_at("s", 6, 0);
    a.set_enabled(true);
    assert_eq!(a.lookup_at("s", 1), Some(5));
    a.bind_at("s", 6, 0);
    assert_eq!(a.lookup_at("s", 1), Some(6));
}

#[test]
fn full_table_loses_the_binding_that_expires_earliest() {
    let mut a = SessionAffinity::new(true, 3600);
    for i in 0..CAPACITY {
        // s5000 expires first.
        let now = if i == 5000 { 0 } else { 1 + i as i128 };
        a.bind_at(&format!("s{i}"), 1 + i as u64, now);
    }
    a.bind_at("overflow", 2, SEC);
    assert_eq!(a.len(), CAPACITY);
    assert_eq!(a.lookup_at("s5000", SEC), None);
    assert_eq!(a.lookup_at("overflow", SEC), Some(2));
    for i in 0..CAPACITY {
        if i != 5000 {
            assert_eq!(a.lookup_at(&format!("s{i}"), SEC), Some(1 + i as u64));
        }
    }
}

#[test]
fn full_table_drops_all_expired_bindings_first() {
    let mut a = SessionAffinity::new(true, 100);
    for i in 0..CAPACITY {
        let now = if i < 10 { 0 } else { 50 * SEC };
        a.bind_at(&format!("s{i}"), 1, now);
    }
    // A session that is bound already needs no room.
    a.bind_at("s3", 9, 60 * SEC);
    assert_eq!(a.len(), CAPACITY);
    a.bind_at("overflow", 2, 120 * SEC);
    assert_eq!(a.len(), CAPACITY - 9 + 1);
    assert_eq!(a.lookup_at("s3", 120 * SEC), Some(9));
    assert_eq!(a.lookup_at("s4", 120 * SEC), None);
    assert_eq!(a.lookup_at("s10", 120 * SEC), Some(1));
}

#[test]
fn stats_report_settings_and_live_bindings() {
    let mut a = SessionAffinity::new(false, 7200);
    let s = a.stats();
    assert!(!s.enabled);
    assert_eq!(s.ttl_secs, 7200);
    assert_eq!(s.active_bindings, 0);
    a.set_enabled(true);
    a.set_ttl_secs(100);
    a.bind_at("early", 1, 0);
    a.bind_at("late", 2, 50 * SEC);
    let s = a.stats_at(100 * SEC);
    assert!(s.enabled);
    assert_eq!(s.ttl_secs, 100);
    assert_eq!(s.active_bindings, 1);
    assert_eq!(a.len(), 2);
    a.evict_expired_at(100 * SEC);
    assert_eq!(a.len(), 1);
    assert_eq!(a.stats_at(100 * SEC).active_bindings, 1);
    assert_eq!(a.stats_at(50 * SEC).active_bindings, 1);
}

#[test]
fn answer_survives_other_operations() {
    let mut a = SessionAffinity::new(true, 100);
    a.bind_at("s", 5, 0);
    a.bind_at("other", 6, 10 * SEC);
    a.lookup_at("other", 20 * SEC);
    a.record(StickyOutcome::Hit);
    a.set_ttl_secs(60);
    a.set_enabled(false);
    a.bind_at("s", 7, 30 * SEC);
    a.set_enabled(true);
    a.expire_at("other", 40 * SEC);
    a.evict_expired_at(50 * SEC);
    assert_eq!(a.lookup_at("s", 100 * SEC - 1), Some(5));
    assert_eq!(a.lookup_at("s", 100 * SEC), None);
    assert_eq!(a.len(), 0);
}

#[test]
fn mixed_run_keeps_last_bind_counters_and_settings() {
    let mut a = SessionAffinity::new(true, 100);
    a.bind_at("s", 5, 0);
    a.record(StickyOutcome::MissFirst);
    a.set_ttl_secs(200);
    a.bind_at("s", 6, 10 * SEC);
    a.set_ttl_secs(1);
    a.record(StickyOutcome::Hit);
    a.set_enabled(false);
    a.bind_at("s", 7, 20 * SEC);
    a.record(StickyOutcome::Off);
    a.set_enabled(true);
    a.bind_at("s", 0, 30 * SEC);
    a.lookup_at("other", 40 * SEC);
    a.record(StickyOutcome::MissUnavailable);
    a.evict_expired_at(50 * SEC);
    // The last bind that took effect is that to 6, with the time to live of then.
    assert_eq!(a.lookup_at("s", 210 * SEC - 1), Some(6));
    assert_eq!(a.lookup_at("s", 210 * SEC), None);
    let s = a.stats_at(0);
    assert_eq!((s.hits, s.misses), (1, 2));
    assert!(s.enabled);
    assert_eq!(s.ttl_secs, MIN_TTL_SECS);
}

#[test]
fn clock_of_the_table_moves_on() {
    let mut a = SessionAffinity::new(true, 60);
    // This binding ended when the table was made, so the clock is past it.
    a.bind_at("s", 5, -60 * SEC);
    assert_eq!(a.stats().active_bindings, 0);
    assert_eq!(a.lookup("s"), None);
    // This one has a minute left, less what has passed since.
    a.bind_at("s", 5, 0);
    assert_eq!(a.stats().active_bindings, 1);
    assert_eq!(a.lookup("s"), Some(5));
}

#[test]
fn longest_time_to_live_is_counted_exactly() {
    let mut a = SessionAffinity::new(true, u64::MAX);
    a.bind("s", 5);
    assert_eq!(a.lookup("s"), Some(5));
    a.bind_at("s", 6, 0);
    assert_eq!(a.lookup_at("s", u64::MAX as i128 * SEC - 1), Some(6));
    assert_eq!(a.lookup_at("s", u64::MAX as i128 * SEC), None);
}

#[test]
fn expiring_a_session_without_a_binding_does_nothing() {
    let mut a = SessionAffinity::new(true, 60);
    a.expire_now("s");
    a.expire_at("s", 0);
    assert_eq!(a.len(), 0);
    a.bind_at("s", 5, 0);
    a.expire_at("s", 10 * SEC);
    assert_eq!(a.lookup_at("s", 9 * SEC - 1), Some(5));
    assert_eq!(a.lookup_at("s", 9 * SEC), None);
}

#[test]
fn labels_tell_outcomes_apart() {
    assert_eq!(StickyOutcome::Hit.as_str(), sticky::HIT);
    assert_eq!(StickyOutcome::MissFirst.as_str(), sticky::MISS_FIRST);
    assert_eq!(StickyOutcome::MissUnavailable.as_str(), sticky::MISS_UNAVAILABLE);
    assert_eq!(StickyOutcome::Off.as_str(), sticky::OFF);
    assert_ne!(sticky::HIT, sticky::OFF);
    assert_ne!(sticky::MISS_FIRST, sticky::MISS_UNAVAILABLE);
}

#[test]
fn no_decision_is_off_and_unbound() {
    let d = RouteDecision::none();
    assert_eq!(d.sticky_outcome, StickyOutcome::Off);
    assert_eq!(d.previous_credential_id, None);
}

#[test]
fn default_stats_are_zero() {
    let s = SessionAffinityStats::default();
    assert!(!s.enabled);
    assert_eq!((s.ttl_secs, s.hits, s.misses, s.active_bindings), (0, 0, 0, 0));
}
