use std::collections::HashMap;

use dnsmasq_cli_rs::ingest::{
    flush_stale, heartbeat_message, log_line, poll_sleep_ms, process_lines, pruned_message,
    retention_ms, heartbeat_due, prune_due, safe_offset, should_commit, stale_keys, start_message, tail_reset, Pending,
    Finished, Tail,
};
use dnsmasq_cli_rs::model::Outcome;

struct Feeder {
    buf: Vec<u8>,
    base: u64,
    pending: HashMap<i64, Pending>,
    pid: Option<i64>,
    batch: Vec<Finished>,
}

impl Feeder {
    fn new() -> Self {
        Feeder { buf: Vec::new(), base: 0, pending: HashMap::new(), pid: None, batch: Vec::new() }
    }

    fn feed(&mut self, text: &str) {
        self.buf.extend_from_slice(text.as_bytes());
        process_lines(&mut self.buf, &mut self.base, &mut self.pending, &mut self.pid, &mut self.batch);
    }
}

#[test]
fn query_and_reply_become_one_event() {
    let mut t = Feeder::new();
    t.feed("1 10.0.0.1/5000 query[A] x.com from 10.0.0.1\n1 10.0.0.1/5000 reply x.com is 1.2.3.4\n");
    assert_eq!(t.batch.len(), 1);
    let ev = &t.batch[0].ev;
    assert_eq!(ev.domain, "x.com");
    assert_eq!(ev.client, "10.0.0.1");
    assert_eq!(ev.seq, Some(1));
    assert_eq!(ev.outcome, Outcome::Reply);
    assert_eq!(ev.answer.as_deref(), Some("1.2.3.4"));
    assert!(t.pending.is_empty());
}

#[test]
fn unfinished_line_waits_in_the_buffer() {
    let mut t = Feeder::new();
    let first = "1 a/1 query[A] x.com from a\n";
    t.feed(first);
    t.feed("1 a/1 reply x.com i");
    assert_eq!(t.base, first.len() as u64);
    assert_eq!(t.buf, b"1 a/1 reply x.com i".to_vec());
    assert!(t.batch.is_empty());
    assert_eq!(t.pending.len(), 1);
    t.feed("s 5.6.7.8\n");
    assert_eq!(t.batch.len(), 1);
    assert_eq!(t.batch[0].ev.answer.as_deref(), Some("5.6.7.8"));
    assert!(t.buf.is_empty());
}

#[test]
fn forwarded_then_reply_keeps_the_reply() {
    let mut t = Feeder::new();
    t.feed("2 c/1 query[A] y.org from c\n2 c/1 forwarded y.org to 8.8.8.8\n");
    assert!(t.batch.is_empty());
    t.feed("2 c/1 reply y.org is 5.5.5.5\n");
    assert_eq!(t.batch.len(), 1);
    assert_eq!(t.batch[0].ev.outcome, Outcome::Reply);
    assert_eq!(t.batch[0].ev.answer.as_deref(), Some("5.5.5.5"));
}

#[test]
fn forwarded_without_reply_is_flushed_as_forwarded() {
    let mut t = Feeder::new();
    t.feed("3 c/1 query[A] z.net from c\n3 c/1 forwarded z.net to 9.9.9.9\n");
    flush_stale(&mut t.pending, &mut t.batch, false);
    assert_eq!(t.batch.len(), 1);
    assert_eq!(t.batch[0].ev.outcome, Outcome::Forwarded);
    assert_eq!(t.batch[0].ev.answer.as_deref(), Some("9.9.9.9"));
    assert!(t.pending.is_empty());
}

#[test]
fn fresh_pending_query_is_not_stale() {
    let mut t = Feeder::new();
    t.feed("4 c/1 query[A] w.net from c\n");
    flush_stale(&mut t.pending, &mut t.batch, true);
    assert!(t.batch.is_empty());
    assert_eq!(t.pending.len(), 1);
}

#[test]
fn new_pid_flushes_pending_queries() {
    let mut t = Feeder::new();
    t.feed("dnsmasq[10]: 5 c/1 query[A] old.com from c\n");
    t.feed("dnsmasq[11]: 5 c/1 query[A] new.com from c\n");
    assert_eq!(t.batch.len(), 1);
    assert_eq!(t.batch[0].ev.domain, "old.com");
    assert_eq!(t.batch[0].ev.outcome, Outcome::Unknown);
    assert_eq!(t.pid, Some(11));
    assert_eq!(t.pending.len(), 1);
    assert_eq!(t.pending[&5].ev.domain, "new.com");
}

#[test]
fn flush_order_is_by_seq() {
    let mut t = Feeder::new();
    t.feed("9 c/1 query[A] nine from c\n3 c/1 query[A] three from c\n6 c/1 query[A] six from c\n");
    flush_stale(&mut t.pending, &mut t.batch, false);
    let names: Vec<&str> = t.batch.iter().map(|e| e.ev.domain.as_str()).collect();
    assert_eq!(names, vec!["three", "six", "nine"]);
}

#[test]
fn query_without_seq_is_stored_at_once() {
    let mut t = Feeder::new();
    t.feed("query[A] q.com from 1.1.1.1\n");
    assert_eq!(t.batch.len(), 1);
    assert_eq!(t.batch[0].ev.outcome, Outcome::Unknown);
    assert_eq!(t.batch[0].ev.seq, None);
}

#[test]
fn outcome_without_query_is_dropped() {
    let mut t = Feeder::new();
    t.feed("8 c/1 reply nothing.com is 1.1.1.1\n");
    assert!(t.batch.is_empty());
    assert!(t.pending.is_empty());
}

#[test]
fn safe_offset_stays_before_pending_lines() {
    let mut t = Feeder::new();
    assert_eq!(safe_offset(&t.pending, 77), 77);
    let first = "1 a/1 query[A] done.com from a\n1 a/1 reply done.com is 1.1.1.1\n";
    t.feed(first);
    t.feed("2 a/1 query[A] wait.com from a\n");
    assert_eq!(safe_offset(&t.pending, t.base), first.len() as u64);
}

#[test]
fn rotation_and_truncation() {
    assert_eq!(tail_reset(0, 42, 10, 0), (42, true));
    assert_eq!(tail_reset(41, 42, 10, 5), (42, true));
    assert_eq!(tail_reset(42, 42, 3, 5), (42, true));
    assert_eq!(tail_reset(42, 42, 10, 5), (42, false));
}

#[test]
fn commit_decision() {
    assert!(should_commit(1, 5, 5));
    assert!(should_commit(0, 6, 5));
    assert!(!should_commit(0, 5, 5));
}

#[test]
fn service_timing() {
    assert_eq!(poll_sleep_ms(1000), 1000);
    assert_eq!(poll_sleep_ms(10), 100);
    assert_eq!(retention_ms(30), 2_592_000_000);
}

#[test]
fn service_messages() {
    assert_eq!(log_line("hello"), "[dnsmasq-cli-rs] hello");
    assert_eq!(
        start_message("/var/log/dnsmasq.log", "/tmp/x.db", 30),
        "ingest start: log=/var/log/dnsmasq.log db=/tmp/x.db retention=30d"
    );
    assert_eq!(
        heartbeat_message(12, 3456, 2),
        "heartbeat: +12 rows, offset=3456, pending=2"
    );
    assert_eq!(pruned_message(0), None);
    assert_eq!(pruned_message(5), Some("pruned 5 rows".to_string()));
}

#[test]
fn stale_selection_is_the_ten_second_rule() {
    let ages = vec![(1i64, 9_999u128), (2, 10_000), (3, 0), (4, 60_000)];
    assert_eq!(stale_keys(&ages), vec![2, 4]);
    assert!(stale_keys(&Vec::new()).is_empty());
}

#[test]
fn tail_reads_each_byte_once() {
    let mut t = Tail::new(0, 0);
    let from = t.open_file(7, 40);
    assert_eq!(from, 0);
    assert_eq!(t.inode, 7);
    let first = "1 a/1 query[A] x.com from a\n1 a/1 reply x.c";
    t.feed(first.as_bytes().to_vec());
    let consumed = "1 a/1 query[A] x.com from a\n".len() as u64;
    assert_eq!(t.base, consumed);
    // Reading goes on after the unfinished line, not from its start.
    let from = t.open_file(7, 1000);
    assert_eq!(from, first.len() as u64);
    t.feed(b"om is 1.2.3.4\n".to_vec());
    assert!(t.buf.is_empty());
    let c = t.end_round().expect("events to commit");
    assert_eq!(c.events.len(), 1);
    assert_eq!(c.events[0].ev.domain, "x.com");
    assert_eq!(c.events[0].ev.answer.as_deref(), Some("1.2.3.4"));
    assert_eq!((c.inode, c.offset), (7, t.base));
    assert_eq!(t.last_committed, t.base);
    // Nothing new: nothing to commit.
    assert!(t.end_round().is_none());
}

#[test]
fn tail_offset_waits_for_pending_queries() {
    let mut t = Tail::new(5, 100);
    t.open_file(5, 1000);
    t.feed(b"2 a/1 query[A] wait.com from a\n".to_vec());
    let c = t.end_round().expect("the offset is new");
    assert!(c.events.is_empty());
    assert_eq!(c.offset, 100);
    assert_eq!(t.pending.len(), 1);
}

#[test]
fn tail_follows_rotation_and_truncation() {
    let mut t = Tail::new(5, 100);
    assert_eq!(t.open_file(6, 1000), 0);
    assert_eq!(t.inode, 6);
    t.feed(b"abc".to_vec());
    assert_eq!(t.open_file(6, 1), 0);
    assert!(t.buf.is_empty());
}

#[test]
fn events_after_a_pending_line_wait_for_it() {
    let mut t = Tail::new(5, 0);
    t.open_file(5, 1000);
    let first = "1 a/1 query[A] slow.com from a\n";
    t.feed(format!("{first}2 a/1 query[A] fast.com from a\n2 a/1 reply fast.com is 1.1.1.1\n").into_bytes());
    // fast.com's line lies after the pending slow.com line: storing it now would store
    // it again after a restart from offset 0.
    let c = t.end_round().expect("the offset is new");
    assert_eq!(c.offset, 0);
    assert!(c.events.is_empty());
    assert_eq!(t.batch.len(), 1);
    assert_eq!(t.batch[0].line_start, first.len() as u64);
    t.feed(b"1 a/1 reply slow.com is 2.2.2.2\n".to_vec());
    let c = t.end_round().expect("both events");
    assert_eq!(c.offset, t.base);
    let names: Vec<&str> = c.events.iter().map(|f| f.ev.domain.as_str()).collect();
    assert_eq!(names, vec!["fast.com", "slow.com"]);
    assert!(c.events.iter().all(|f| f.line_start < c.offset));
    assert!(t.batch.is_empty());
}

#[test]
fn crash_and_restart_store_each_line_once() {
    let lines = [
        "1 a/1 query[A] a.com from x\n",
        "2 a/1 query[A] b.com from x\n",
        "2 a/1 reply b.com is 1.1.1.1\n",
        "1 a/1 reply a.com is 2.2.2.2\n",
        "3 a/1 query[A] c.com from x\n",
        "3 a/1 reply c.com is 3.3.3.3\n",
    ];
    let file: String = lines.concat();
    let starts: Vec<u64> = (0..lines.len())
        .map(|i| lines[..i].iter().map(|l| l.len() as u64).sum())
        .collect();
    let mut stored: Vec<(u64, String)> = Vec::new();
    let mut offsets: Vec<u64> = Vec::new();

    // The first run reads the first five lines in three rounds, then crashes.
    let mut t = Tail::new(9, 0);
    let mut rounds: Vec<&str> = Vec::new();
    rounds.push(&file[..starts[3] as usize]);
    rounds.push(&file[starts[3] as usize..starts[4] as usize]);
    rounds.push(&file[starts[4] as usize..starts[5] as usize]);
    for chunk in rounds {
        let from = t.open_file(9, file.len() as u64);
        assert_eq!(from, t.base + t.buf.len() as u64);
        t.feed(chunk.as_bytes().to_vec());
        if let Some(c) = t.end_round() {
            offsets.push(c.offset);
            for f in &c.events {
                stored.push((f.line_start, f.ev.domain.clone()));
            }
        }
    }
    // c.com's query is pending at the crash: the last offset is its line.
    let (inode, last) = (t.inode, t.last_committed);
    assert_eq!(last, starts[4]);
    drop(t);

    // The restart resumes at the stored position and reads the file from there.
    let mut t = Tail::new(inode, last);
    let from = t.open_file(9, file.len() as u64);
    assert_eq!(from, last);
    t.feed(file.as_bytes()[from as usize..].to_vec());
    let c = t.end_round().expect("the rest of the file");
    offsets.push(c.offset);
    for f in &c.events {
        stored.push((f.line_start, f.ev.domain.clone()));
    }

    assert!(offsets.windows(2).all(|w| w[0] <= w[1]));
    stored.sort();
    assert_eq!(
        stored,
        vec![
            (starts[0], "a.com".to_string()),
            (starts[1], "b.com".to_string()),
            (starts[4], "c.com".to_string()),
        ]
    );
}

#[test]
fn service_timers() {
    assert!(!heartbeat_due(299_999));
    assert!(heartbeat_due(300_000));
    assert!(!prune_due(3_599_999));
    assert!(prune_due(3_600_000));
}
