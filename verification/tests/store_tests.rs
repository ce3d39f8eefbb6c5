use dnsmasq_cli_rs::model::{Outcome, QueryEvent};
use dnsmasq_cli_rs::store::{
    epoch_millis, map_row, now_millis, prune_cutoff, tail_text, tail_value, time_range_of, DayRow, Summary,
};

#[test]
fn stored_outcome_names_read_back() {
    for o in [
        Outcome::Blocked,
        Outcome::Forwarded,
        Outcome::Cached,
        Outcome::CachedStale,
        Outcome::Reply,
        Outcome::Hosts,
        Outcome::Unknown,
        Outcome::Other("config".to_string()),
    ] {
        assert_eq!(Outcome::from_db(o.as_str()), o);
    }
    assert_eq!(Outcome::from_db("nameserver"), Outcome::Other("nameserver".to_string()));
}

#[test]
fn row_from_columns() {
    let r = map_row(
        7,
        1000,
        Some(12),
        None,
        "10.0.0.1".to_string(),
        "x.com".to_string(),
        Some("A".to_string()),
        "blocked",
        Some("0.0.0.0".to_string()),
        "raw line".to_string(),
    );
    assert_eq!(r.id, 7);
    assert_eq!(r.ev.ts, 1000);
    assert_eq!(r.ev.pid, Some(12));
    assert_eq!(r.ev.seq, None);
    assert_eq!(r.ev.outcome, Outcome::Blocked);
    assert_eq!(r.ev.answer.as_deref(), Some("0.0.0.0"));
    assert_eq!(r.ev.raw, "raw line");
}

#[test]
fn tail_position_roundtrip() {
    for n in [0u64, 1, 9, 10, 12345, u64::MAX] {
        assert_eq!(tail_value(Some(tail_text(n))), n);
    }
    assert_eq!(tail_text(4096), "4096");
    assert_eq!(tail_value(None), 0);
    assert_eq!(tail_value(Some("garbage".to_string())), 0);
    assert_eq!(tail_value(Some("-3".to_string())), 0);
}

#[test]
fn time_range_needs_both_ends() {
    assert_eq!(time_range_of(Some(1), Some(5)), Some((1, 5)));
    assert_eq!(time_range_of(None, Some(5)), None);
    assert_eq!(time_range_of(None, None), None);
}

#[test]
fn prune_cutoff_is_now_minus_age() {
    assert_eq!(prune_cutoff(10_000, 3_000), 7_000);
    assert!(now_millis() > 1_600_000_000_000);
}

#[test]
fn day_rows() {
    let z = DayRow::zeros(86_400_000);
    assert_eq!(z.day_ms, 86_400_000);
    assert_eq!((z.cached, z.reply, z.forwarded, z.blocked), (0, 0, 0, 0));
    let d = DayRow { day_ms: 0, cached: 3, reply: 4, forwarded: 5, blocked: 9 };
    assert_eq!(d.resolved(), 12);
}

#[test]
fn empty_summary() {
    let s = Summary::default();
    assert_eq!((s.total, s.blocked), (0, 0));
    assert!(s.domains.is_empty() && s.blocked_domains.is_empty() && s.outcomes.is_empty());
}

#[test]
fn new_event_defaults() {
    let e = QueryEvent::new(5, "d.com".to_string());
    assert_eq!(e.ts, 5);
    assert_eq!(e.domain, "d.com");
    assert_eq!(e.outcome, Outcome::Unknown);
    assert!(e.client.is_empty() && e.raw.is_empty());
    assert_eq!((e.pid, e.seq), (None, None));
}

#[test]
fn epoch_millis_conversion() {
    assert_eq!(epoch_millis(None), 0);
    assert_eq!(epoch_millis(Some(1_700_000_000_123)), 1_700_000_000_123);
    assert_eq!(epoch_millis(Some(1u128 << 64)), 0);
}
