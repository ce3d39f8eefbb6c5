use dnsmasq_cli_rs::model::Outcome;
use dnsmasq_cli_rs::parser::{is_null_addr, parse_line, Parsed};

fn outcome_of(line: &str) -> (Option<i64>, Outcome, Option<String>) {
    match parse_line(line, 0) {
        Parsed::Outcome { seq, outcome, answer } => (seq, outcome, answer),
        other => panic!("not an outcome line: {other:?}"),
    }
}

#[test]
fn query_line_with_pid_prefix() {
    let line = "dnsmasq[123]: 42 192.168.1.10/53000 query[A] example.com from 192.168.1.10";
    match parse_line(line, 1_700_000_000_000) {
        Parsed::Query(ev) => {
            assert_eq!(ev.ts, 1_700_000_000_000);
            assert_eq!(ev.pid, Some(123));
            assert_eq!(ev.seq, Some(42));
            assert_eq!(ev.client, "192.168.1.10");
            assert_eq!(ev.domain, "example.com");
            assert_eq!(ev.qtype.as_deref(), Some("A"));
            assert_eq!(ev.outcome, Outcome::Unknown);
            assert_eq!(ev.answer, None);
            assert_eq!(ev.raw, line);
        }
        other => panic!("expected a query, got {other:?}"),
    }
}

#[test]
fn query_line_without_prefix() {
    match parse_line("  7 10.0.0.2/4000 query[AAAA] a.b.c from 10.0.0.9  ", 5) {
        Parsed::Query(ev) => {
            assert_eq!(ev.pid, None);
            assert_eq!(ev.seq, Some(7));
            assert_eq!(ev.client, "10.0.0.9");
            assert_eq!(ev.qtype.as_deref(), Some("AAAA"));
            assert_eq!(ev.raw, "7 10.0.0.2/4000 query[AAAA] a.b.c from 10.0.0.9");
        }
        other => panic!("expected a query, got {other:?}"),
    }
}

#[test]
fn syslog_prefix_is_dropped() {
    let line = "Sep 12 14:12:54 host daemon.info dnsmasq[28206]: 3 1.2.3.4/5 reply x.org is 9.9.9.9";
    assert_eq!(
        outcome_of(line),
        (Some(3), Outcome::Reply, Some("9.9.9.9".to_string()))
    );
}

#[test]
fn forwarded_answer_is_the_server() {
    assert_eq!(
        outcome_of("5 1.2.3.4/5 forwarded x.org to 8.8.8.8"),
        (Some(5), Outcome::Forwarded, Some("8.8.8.8".to_string()))
    );
}

#[test]
fn null_reply_and_config_are_blocked() {
    assert_eq!(outcome_of("1 a/1 config ads.com is 0.0.0.0").1, Outcome::Blocked);
    assert_eq!(outcome_of("1 a/1 config ads.com is ::").1, Outcome::Blocked);
    assert_eq!(outcome_of("1 a/1 reply ads.com is 0.0.0.0").1, Outcome::Blocked);
    assert_eq!(
        outcome_of("1 a/1 config lan.host is 192.168.0.5").1,
        Outcome::Other("config".to_string())
    );
}

#[test]
fn other_outcome_kinds() {
    assert_eq!(outcome_of("1 a/1 cached x is NXDOMAIN").1, Outcome::Cached);
    assert_eq!(outcome_of("1 a/1 cached-stale x is 1.1.1.1").1, Outcome::CachedStale);
    assert_eq!(outcome_of("1 a/1 /etc/hosts h is 127.0.0.1").1, Outcome::Hosts);
    assert_eq!(
        outcome_of("1 a/1 nameserver x is 1.1.1.1").1,
        Outcome::Other("nameserver".to_string())
    );
}

#[test]
fn answer_joins_the_remaining_words() {
    assert_eq!(
        outcome_of("2 a/1 reply x.org is <CNAME> y").2,
        Some("<CNAME> y".to_string())
    );
    assert_eq!(outcome_of("2 a/1 cached x.org").2, None);
}

#[test]
fn uninteresting_lines_are_ignored() {
    assert!(matches!(parse_line("", 0), Parsed::Ignore));
    assert!(matches!(parse_line("   ", 0), Parsed::Ignore));
    assert!(matches!(parse_line("dnsmasq[1]: started, version 2.90", 0), Parsed::Ignore));
    assert!(matches!(parse_line("9 a/1 dnssec-query x", 0), Parsed::Ignore));
}

#[test]
fn null_addresses() {
    assert!(is_null_addr("0.0.0.0"));
    assert!(is_null_addr(" :: "));
    assert!(is_null_addr("0.0.0.0..."));
    assert!(!is_null_addr("0.0.0.1"));
    assert!(!is_null_addr(""));
}

#[test]
fn outcome_names() {
    assert_eq!(Outcome::Blocked.as_str(), "blocked");
    assert_eq!(Outcome::CachedStale.as_str(), "cached-stale");
    assert_eq!(Outcome::Other("config".to_string()).as_str(), "config");
    assert!(Outcome::Blocked.is_blocked());
    assert!(!Outcome::Reply.is_blocked());
}
