//! Turning tailed log bytes into query events.
//!
//! - A `query[...]` line waits as *pending* under its `seq` until the outcome line
//!   with the same `seq` arrives; the pair becomes one event.
//! - A new dnsmasq PID restarts `seq` at 1, so all pending queries are finished then.
//! - Pending queries that wait too long are finished without an answer.
//! - The offset stored with a batch never passes the line of a pending query.

use vstd::prelude::*;
use vstd::std_specs::hash::{group_hash_axioms, spec_keys_iter};
use vstd::std_specs::iter::IteratorSpec;

use std::collections::HashMap;
use std::time::Instant;

use crate::model::{events_view, opt_str, Outcome, OutcomeV, QueryEvent, QueryEventV};
use crate::parser::{parse_line, parse_line_spec, Parsed, ParsedV};
use crate::store::{fits_i64, now_millis};
use crate::text::{decimal, padded_int, push_decimal, push_padded_i64, push_str};
use crate::util::DAY_MS;

verus! {

broadcast use group_hash_axioms;

#[verifier::external_type_specification]
#[verifier::external_body]
pub struct ExInstant(Instant);

/// How long a pending query waits for its outcome line, in milliseconds.
pub const PENDING_TIMEOUT_MS: u64 = 10_000;

/// A query line waiting for its outcome line.
pub struct Pending {
    pub ev: QueryEvent,
    /// Offset of the query line from the start of the file.
    pub line_start: u64,
    pub forwarded_to: Option<String>,
    pub saw_forwarded: bool,
    pub at: Instant,
}

pub struct PendingV {
    pub ev: QueryEventV,
    pub line_start: u64,
    pub forwarded_to: Option<Seq<char>>,
    pub saw_forwarded: bool,
    pub at: Instant,
}

impl View for Pending {
    type V = PendingV;

    open spec fn view(&self) -> PendingV {
        PendingV {
            ev: self.ev@,
            line_start: self.line_start,
            forwarded_to: opt_str(self.forwarded_to),
            saw_forwarded: self.saw_forwarded,
            at: self.at,
        }
    }
}

pub open spec fn pending_view(m: Map<i64, Pending>) -> Map<i64, PendingV> {
    m.map_values(|p: Pending| p@)
}

/// A finished event and the offset of the line it started from (its query line).
pub struct Finished {
    pub line_start: u64,
    pub ev: QueryEvent,
}

pub struct FinishedV {
    pub line_start: u64,
    pub ev: QueryEventV,
}

impl View for Finished {
    type V = FinishedV;

    open spec fn view(&self) -> FinishedV {
        FinishedV { line_start: self.line_start, ev: self.ev@ }
    }
}

pub open spec fn finished_view(s: Seq<Finished>) -> Seq<FinishedV> {
    s.map_values(|f: Finished| f@)
}

/// The state the tailer keeps between lines.
pub struct IngestV {
    pub pending: Map<i64, PendingV>,
    pub cur_pid: Option<i64>,
    pub batch: Seq<FinishedV>,
}

pub open spec fn ingest_view(
    pending: HashMap<i64, Pending>,
    cur_pid: Option<i64>,
    batch: Vec<Finished>,
) -> IngestV {
    IngestV { pending: pending_view(pending@), cur_pid, batch: finished_view(batch@) }
}

/// The event of a query that is finished without an outcome line: `forwarded` when
/// it was forwarded (with the upstream server as answer), `unknown` otherwise.
pub open spec fn finalize(p: PendingV) -> QueryEventV {
    QueryEventV {
        outcome: if p.saw_forwarded {
            OutcomeV::Forwarded
        } else {
            OutcomeV::Unknown
        },
        answer: if p.ev.answer is Some {
            p.ev.answer
        } else {
            p.forwarded_to
        },
        ..p.ev
    }
}

/// Every finished event after the first `n` of `batch` is a pending query of `m`,
/// finished.
pub open spec fn added_from(batch: Seq<FinishedV>, n: int, m: Map<i64, PendingV>) -> bool {
    forall|i: int| n <= i < batch.len() ==> #[trigger] finished_from(batch[i], m)
}

/// `f` is a pending query of `m`, finished.
pub open spec fn finished_from(f: FinishedV, m: Map<i64, PendingV>) -> bool {
    exists|k: i64| #[trigger] m.contains_key(k) && f == finish(m[k])
}

/// Every pending query and every finished event starts at or after offset `l`.
pub open spec fn from_offset(m: Map<i64, PendingV>, batch: Seq<FinishedV>, l: int) -> bool {
    &&& forall|k: i64| #[trigger] m.contains_key(k) ==> l <= m[k].line_start
    &&& forall|i: int| 0 <= i < batch.len() ==> l <= #[trigger] batch[i].line_start
}

/// A pending query finished without an outcome line, with its line.
pub open spec fn finish(p: PendingV) -> FinishedV {
    FinishedV { line_start: p.line_start, ev: finalize(p) }
}

pub open spec fn strictly_increasing(ks: Seq<i64>) -> bool {
    forall|i: int, j: int| 0 <= i < j < ks.len() ==> ks[i] < ks[j]
}

/// The keys of `s` in increasing order.
pub open spec fn sorted_keys(s: Set<i64>) -> Seq<i64> {
    choose|ks: Seq<i64>| strictly_increasing(ks) && ks.to_set() == s
}

/// Two increasing enumerations of one set are the same sequence.
pub proof fn lemma_sorted_unique(a: Seq<i64>, b: Seq<i64>)
    requires
        strictly_increasing(a),
        strictly_increasing(b),
        a.to_set() == b.to_set(),
    ensures
        a == b,
    decreases a.len(),
{
    if a.len() == 0 || b.len() == 0 {
        if a.len() > 0 {
            assert(a.to_set().contains(a[0]));
        }
        if b.len() > 0 {
            assert(b.to_set().contains(b[0]));
        }
        assert(a =~= b);
    } else {
        assert(a.to_set().contains(a[0]));
        assert(b.to_set().contains(b[0]));
        assert(b.contains(a[0]));
        assert(a.contains(b[0]));
        let i = choose|i: int| 0 <= i < b.len() && b[i] == a[0];
        let j = choose|j: int| 0 <= j < a.len() && a[j] == b[0];
        assert(a[0] == b[0]) by {
            if i > 0 {
                assert(b[0] < b[i]);
            }
            if j > 0 {
                assert(a[0] < a[j]);
            }
        }
        let ta = a.drop_first();
        let tb = b.drop_first();
        assert(ta.to_set() =~= tb.to_set()) by {
            assert forall|x: i64| ta.to_set().contains(x) implies tb.to_set().contains(x) by {
                let k = choose|k: int| 0 <= k < ta.len() && ta[k] == x;
                assert(a[k + 1] == x);
                assert(a.to_set().contains(x));
                let m = choose|m: int| 0 <= m < b.len() && b[m] == x;
                if m == 0 {
                    assert(a[0] < a[k + 1]);
                }
                assert(tb[m - 1] == x);
            }
            assert forall|x: i64| tb.to_set().contains(x) implies ta.to_set().contains(x) by {
                let k = choose|k: int| 0 <= k < tb.len() && tb[k] == x;
                assert(b[k + 1] == x);
                assert(b.to_set().contains(x));
                let m = choose|m: int| 0 <= m < a.len() && a[m] == x;
                if m == 0 {
                    assert(b[0] < b[k + 1]);
                }
                assert(ta[m - 1] == x);
            }
        }
        lemma_sorted_unique(ta, tb);
        assert(a =~= b) by {
            assert forall|k: int| 0 <= k < a.len() implies a[k] == b[k] by {
                if k > 0 {
                    assert(a[k] == ta[k - 1]);
                    assert(b[k] == tb[k - 1]);
                }
            }
        }
    }
}

/// `sorted_keys` is the increasing enumeration of the set.
pub proof fn lemma_sorted_keys(ks: Seq<i64>, s: Set<i64>)
    requires
        strictly_increasing(ks),
        ks.to_set() == s,
    ensures
        sorted_keys(s) == ks,
{
    let c = sorted_keys(s);
    assert(strictly_increasing(c) && c.to_set() == s);
    lemma_sorted_unique(c, ks);
}

/// Finishes the pending queries whose `seq` is in `sel`, in increasing `seq` order.
pub open spec fn flush_spec(st: IngestV, sel: Set<i64>) -> IngestV {
    IngestV {
        pending: st.pending.remove_keys(sel),
        batch: st.batch + sorted_keys(sel).map_values(|k: i64| finish(st.pending[k])),
        ..st
    }
}

/// What one parsed line does to the state. `line_start` is the offset of the line,
/// `at` when it was handled.
pub open spec fn handle_spec(p: ParsedV, line_start: u64, at: Instant, st: IngestV) -> IngestV {
    match p {
        ParsedV::Query(ev) => {
            let st1 = match ev.pid {
                Some(pid) => if st.cur_pid != Some(pid) {
                    IngestV { cur_pid: Some(pid), ..flush_spec(st, st.pending.dom()) }
                } else {
                    st
                },
                None => st,
            };
            match ev.seq {
                Some(seq) => IngestV {
                    pending: st1.pending.insert(
                        seq,
                        PendingV { ev, line_start, forwarded_to: None, saw_forwarded: false, at },
                    ),
                    ..st1
                },
                None => IngestV { batch: st1.batch.push(FinishedV { line_start, ev }), ..st1 },
            }
        },
        ParsedV::Outcome { seq: Some(seq), outcome, answer } => if st.pending.contains_key(seq) {
            let p = st.pending[seq];
            if outcome is Forwarded {
                IngestV {
                    pending: st.pending.insert(
                        seq,
                        PendingV {
                            ev: QueryEventV { answer, ..p.ev },
                            forwarded_to: answer,
                            saw_forwarded: true,
                            ..p
                        },
                    ),
                    ..st
                }
            } else {
                IngestV {
                    pending: st.pending.remove(seq),
                    batch: st.batch.push(
                        FinishedV {
                            line_start: p.line_start,
                            ev: QueryEventV {
                                outcome,
                                answer: if answer is Some {
                                    answer
                                } else {
                                    p.ev.answer
                                },
                                ..p.ev
                            },
                        },
                    ),
                    ..st
                }
            }
        } else {
            st
        },
        _ => st,
    }
}

// ---------------------------------------------------------------------------
// Finishing pending queries
// ---------------------------------------------------------------------------

proof fn lemma_insert_to_set(s: Seq<i64>, j: int, x: i64)
    requires
        0 <= j <= s.len(),
    ensures
        s.insert(j, x).to_set() == s.to_set().insert(x),
{
    let t = s.insert(j, x);
    assert forall|y: i64| t.to_set().contains(y) <==> s.to_set().insert(x).contains(y) by {
        if t.contains(y) {
            let k = choose|k: int| 0 <= k < t.len() && #[trigger] t[k] == y;
            if k < j {
                assert(s[k] == y);
            } else if k > j {
                assert(s[k - 1] == y);
            }
        }
        if s.contains(y) {
            let k = choose|k: int| 0 <= k < s.len() && #[trigger] s[k] == y;
            if k < j {
                assert(t[k] == y);
            } else {
                assert(t[k + 1] == y);
            }
        }
        if y == x {
            assert(t[j] == x);
        }
    }
    assert(t.to_set() =~= s.to_set().insert(x));
}

/// Sorts distinct keys into increasing order.
fn sort_keys(v: Vec<i64>) -> (r: Vec<i64>)
    requires
        v@.no_duplicates(),
    ensures
        strictly_increasing(r@),
        r@.to_set() == v@.to_set(),
{
    let mut out: Vec<i64> = Vec::new();
    let mut i: usize = 0;
    while i < v.len()
        invariant
            i <= v@.len(),
            v@.no_duplicates(),
            strictly_increasing(out@),
            out@.to_set() == v@.take(i as int).to_set(),
        decreases v@.len() - i,
    {
        let x = v[i];
        let mut j: usize = 0;
        while j < out.len() && out[j] < x
            invariant
                j <= out@.len(),
                strictly_increasing(out@),
                forall|k: int| 0 <= k < j ==> out@[k] < x,
            decreases out@.len() - j,
        {
            j = j + 1;
        }
        proof {
            assert(!out@.contains(x)) by {
                if out@.contains(x) {
                    let k = choose|k: int| 0 <= k < out@.len() && out@[k] == x;
                    assert(out@.to_set().contains(x));
                    assert(v@.take(i as int).contains(x));
                    let m = choose|m: int| 0 <= m < i && #[trigger] v@.take(i as int)[m] == x;
                    assert(v@[m] == v@[i as int]);
                }
            }
        }
        let ghost before = out@;
        out.insert(j, x);
        proof {
            assert(out@ =~= before.insert(j as int, x));
            assert forall|a: int, b: int| 0 <= a < b < out@.len() implies out@[a] < out@[b] by {
                if b < j {
                } else if a < j && b == j {
                } else if a < j {
                    assert(out@[b] == before[b - 1]);
                    if j < before.len() {
                        assert(x <= before[j as int]);
                    }
                } else if a == j {
                    assert(out@[b] == before[b - 1]);
                    assert(before[j as int] >= x);
                    if b - 1 > j {
                        assert(before[j as int] < before[b - 1]);
                    }
                } else {
                    assert(out@[a] == before[a - 1]);
                    assert(out@[b] == before[b - 1]);
                }
            }
            assert(v@.take(i + 1) =~= v@.take(i as int).push(x));
            v@.take(i as int).lemma_push_to_set_commute(x);
            lemma_insert_to_set(before, j as int, x);
        }
        i = i + 1;
    }
    proof {
        assert(v@.take(v@.len() as int) =~= v@);
    }
    out
}

/// Finishes the pending queries of the given keys (increasing, all pending), in order.
pub fn flush_keys(
    pending: &mut HashMap<i64, Pending>,
    batch: &mut Vec<Finished>,
    keys: &Vec<i64>,
)
    requires
        strictly_increasing(keys@),
        keys@.to_set().subset_of(old(pending)@.dom()),
    ensures
        pending_view(final(pending)@) == flush_spec(
            ingest_view(*old(pending), None, *old(batch)),
            keys@.to_set(),
        ).pending,
        finished_view(final(batch)@) == flush_spec(
            ingest_view(*old(pending), None, *old(batch)),
            keys@.to_set(),
        ).batch,
        final(batch)@.len() >= old(batch)@.len(),
        finished_view(final(batch)@).take(old(batch)@.len() as int) == finished_view(old(batch)@),
        added_from(finished_view(final(batch)@), old(batch)@.len() as int, pending_view(old(pending)@)),
{
    let ghost st0 = ingest_view(*pending, None, *batch);
    proof {
        lemma_sorted_keys(keys@, keys@.to_set());
        assert forall|m: int| 0 <= m < keys@.len() implies st0.pending.contains_key(#[trigger] keys@[m]) by {
            assert(keys@.to_set().contains(keys@[m]));
        }
    }
    let mut i: usize = 0;
    while i < keys.len()
        invariant
            i <= keys@.len(),
            strictly_increasing(keys@),
            keys@.to_set().subset_of(st0.pending.dom()),
            pending_view(pending@) == st0.pending.remove_keys(keys@.take(i as int).to_set()),
            finished_view(batch@) == st0.batch + keys@.take(i as int).map_values(
                |k: i64| finish(st0.pending[k]),
            ),
            forall|m: int| 0 <= m < keys@.len() ==> st0.pending.contains_key(#[trigger] keys@[m]),
        decreases keys@.len() - i,
    {
        let k = keys[i];
        proof {
            assert(keys@.to_set().contains(k));
            assert(!keys@.take(i as int).to_set().contains(k)) by {
                if keys@.take(i as int).contains(k) {
                    let m = choose|m: int| 0 <= m < i && #[trigger] keys@.take(i as int)[m] == k;
                    assert(keys@[m] < keys@[i as int]);
                }
            }
            assert(pending_view(pending@).contains_key(k));
        }
        let ghost pre = pending@;
        let removed = pending.remove(&k);
        match removed {
            Some(mut p) => {
                let ghost pv = p@;
                proof {
                    assert(pre[k] == p);
                    assert(pending_view(pre)[k] == pv);
                    assert(st0.pending[k] == pending_view(pre)[k]);
                }
                p.ev.outcome = if p.saw_forwarded {
                    Outcome::Forwarded
                } else {
                    Outcome::Unknown
                };
                if p.ev.answer.is_none() {
                    p.ev.answer = p.forwarded_to;
                }
                let ghost b0 = batch@;
                let start = p.line_start;
                batch.push(Finished { line_start: start, ev: p.ev });
                proof {
                    assert(pv == st0.pending[k]);
                    assert(finished_view(batch@) =~= finished_view(b0).push(finish(pv)));
                    assert(keys@.take(i + 1) =~= keys@.take(i as int).push(k));
                    assert(keys@.take(i + 1).map_values(|k: i64| finish(st0.pending[k]))
                        =~= keys@.take(i as int).map_values(|k: i64| finish(st0.pending[k])).push(
                        finish(st0.pending[k]),
                    ));
                    keys@.take(i as int).lemma_push_to_set_commute(k);
                    assert(keys@.take(i + 1).to_set() =~= keys@.take(i as int).to_set().insert(k));
                    assert(pending@ == pre.remove(k));
                    assert(pending_view(pending@) =~= pending_view(pre).remove(k));
                    assert(pending_view(pending@) =~= st0.pending.remove_keys(
                        keys@.take(i + 1).to_set(),
                    ));
                }
            },
            None => {
                proof {
                    assert(false);
                }
            },
        }
        i = i + 1;
    }
    proof {
        assert(keys@.take(keys@.len() as int) =~= keys@);
        let b1 = finished_view(batch@);
        let n0 = st0.batch.len() as int;
        assert(b1.take(n0) =~= st0.batch);
        assert forall|i: int| n0 <= i < b1.len() implies #[trigger] finished_from(b1[i], st0.pending) by {
            let k = keys@[i - n0];
            assert(b1[i] == finish(st0.pending[k]));
            assert(st0.pending.contains_key(k));
        }
    }
}

#[verifier::external_body]
/// Calls `Instant::elapsed` and gives the time passed since `at` in whole
/// milliseconds. It depends on the clock, so nothing is claimed of it.
fn elapsed_ms(at: &Instant) -> (ms: u128) {
    at.elapsed().as_millis()
}

#[verifier::external_body]
/// Calls `Instant::now`. Nothing is claimed of the value: it is the time.
fn instant_now() -> (t: Instant) {
    Instant::now()
}

/// The keys of `(key, waited milliseconds)` readings.
pub open spec fn reading_keys(ages: Seq<(i64, u128)>) -> Seq<i64> {
    ages.map_values(|a: (i64, u128)| a.0)
}

/// The keys whose reading says they waited `PENDING_TIMEOUT_MS` or more.
pub open spec fn stale_set(ages: Seq<(i64, u128)>) -> Set<i64> {
    Set::new(
        |k: i64|
            exists|i: int|
                0 <= i < ages.len() && #[trigger] ages[i].0 == k && ages[i].1
                    >= PENDING_TIMEOUT_MS as u128,
    )
}

/// The keys among `(key, waited milliseconds)` readings that waited
/// `PENDING_TIMEOUT_MS` or more, in the order of the readings.
pub fn stale_keys(ages: &Vec<(i64, u128)>) -> (ks: Vec<i64>)
    ensures
        ks@.to_set() == stale_set(ages@),
        reading_keys(ages@).no_duplicates() ==> ks@.no_duplicates(),
{
    let mut ks: Vec<i64> = Vec::new();
    let ghost mut src: Seq<int> = Seq::empty();
    let mut i: usize = 0;
    while i < ages.len()
        invariant
            i <= ages@.len(),
            src.len() == ks@.len(),
            forall|m: int| 0 <= m < src.len() ==> 0 <= #[trigger] src[m] < i,
            forall|a: int, b: int| 0 <= a < b < src.len() ==> #[trigger] src[a] < #[trigger] src[b],
            forall|m: int|
                0 <= m < src.len() ==> ages@[#[trigger] src[m]].0 == ks@[m] && ages@[src[m]].1
                    >= PENDING_TIMEOUT_MS as u128,
            forall|j: int|
                0 <= j < i && ages@[j].1 >= PENDING_TIMEOUT_MS as u128 ==> #[trigger] ks@.contains(
                    ages@[j].0,
                ),
        decreases ages@.len() - i,
    {
        let (k, w) = ages[i];
        if w >= PENDING_TIMEOUT_MS as u128 {
            let ghost before = ks@;
            ks.push(k);
            proof {
                src = src.push(i as int);
                assert forall|j: int|
                    0 <= j < i + 1 && ages@[j].1 >= PENDING_TIMEOUT_MS as u128 implies #[trigger] ks@.contains(
                    ages@[j].0,
                ) by {
                    if j < i {
                        assert(before.contains(ages@[j].0));
                        let m = choose|m: int| 0 <= m < before.len() && before[m] == ages@[j].0;
                        assert(ks@[m] == before[m]);
                    } else {
                        assert(ks@[before.len() as int] == k);
                    }
                }
            }
        }
        i = i + 1;
    }
    proof {
        assert forall|k: i64| ks@.to_set().contains(k) <==> stale_set(ages@).contains(k) by {
            if ks@.contains(k) {
                let m = choose|m: int| 0 <= m < ks@.len() && ks@[m] == k;
                assert(ages@[src[m]].0 == k);
            }
            if stale_set(ages@).contains(k) {
                let j = choose|j: int|
                    0 <= j < ages@.len() && #[trigger] ages@[j].0 == k && ages@[j].1
                        >= PENDING_TIMEOUT_MS as u128;
                assert(ks@.contains(ages@[j].0));
            }
        }
        assert(ks@.to_set() =~= stale_set(ages@));
        if reading_keys(ages@).no_duplicates() {
            assert forall|a: int, b: int| 0 <= a < b < ks@.len() implies ks@[a] != ks@[b] by {
                assert(src[a] < src[b]);
                assert(reading_keys(ages@)[src[a]] == ks@[a]);
                assert(reading_keys(ages@)[src[b]] == ks@[b]);
            }
        }
    }
    ks
}

/// Finishes pending queries: all of them, or (`only_stale`) those whose clock reading
/// says they waited `PENDING_TIMEOUT_MS` or more (see `stale_keys`). The clock is read
/// once per pending query; the readings are free, and for every reading the result is
/// the one stated. Queries are finished in increasing `seq` order.
pub fn flush_stale(
    pending: &mut HashMap<i64, Pending>,
    batch: &mut Vec<Finished>,
    only_stale: bool,
)
    ensures
        exists|ages: Seq<(i64, u128)>|
            {
                &&& reading_keys(ages).to_set() == old(pending)@.dom()
                &&& reading_keys(ages).no_duplicates()
                &&& pending_view(final(pending)@) == flush_spec(
                    ingest_view(*old(pending), None, *old(batch)),
                    if only_stale {
                        stale_set(ages)
                    } else {
                        old(pending)@.dom()
                    },
                ).pending
                &&& finished_view(final(batch)@) == flush_spec(
                    ingest_view(*old(pending), None, *old(batch)),
                    if only_stale {
                        stale_set(ages)
                    } else {
                        old(pending)@.dom()
                    },
                ).batch
            },
        !only_stale ==> pending_view(final(pending)@) == flush_spec(
            ingest_view(*old(pending), None, *old(batch)),
            old(pending)@.dom(),
        ).pending,
        !only_stale ==> finished_view(final(batch)@) == flush_spec(
            ingest_view(*old(pending), None, *old(batch)),
            old(pending)@.dom(),
        ).batch,
        final(batch)@.len() >= old(batch)@.len(),
        finished_view(final(batch)@).take(old(batch)@.len() as int) == finished_view(old(batch)@),
        added_from(finished_view(final(batch)@), old(batch)@.len() as int, pending_view(old(pending)@)),
        pending_view(final(pending)@).submap_of(pending_view(old(pending)@)),
{
    let mut keys: Vec<i64> = Vec::new();
    let mut ages: Vec<(i64, u128)> = Vec::new();
    let ghost dom = pending@.dom();
    let ghost ks = spec_keys_iter(&*pending).remaining().unref();
    proof {
        assert(ks.to_set() == dom);
        assert(ks.no_duplicates());
    }
    for k in it: pending.keys()
        invariant
            dom == pending@.dom(),
            ks == it.seq().unref(),
            ks.to_set() == dom,
            ks.no_duplicates(),
            keys@ == ks.take(it.index()),
            reading_keys(ages@) == ks.take(it.index()),
    {
        let ghost idx = it.index();
        proof {
            assert(*k == ks[idx]);
            assert(ks.take(idx + 1) =~= ks.take(idx).push(*k));
        }
        let w = if only_stale {
            match pending.get(k) {
                Some(p) => elapsed_ms(&p.at),
                None => 0,
            }
        } else {
            0
        };
        keys.push(*k);
        let ghost before = ages@;
        ages.push((*k, w));
        proof {
            assert(reading_keys(ages@) =~= reading_keys(before).push(*k));
        }
    }
    proof {
        assert(ks.take(ks.len() as int) =~= ks);
    }
    let sel = if only_stale {
        stale_keys(&ages)
    } else {
        keys
    };
    proof {
        if only_stale {
            assert forall|x: i64| stale_set(ages@).contains(x) implies dom.contains(x) by {
                let j = choose|j: int|
                    0 <= j < ages@.len() && #[trigger] ages@[j].0 == x && ages@[j].1
                        >= PENDING_TIMEOUT_MS as u128;
                assert(reading_keys(ages@)[j] == x);
                assert(reading_keys(ages@).contains(x));
            }
        }
    }
    let sorted = sort_keys(sel);
    flush_keys(pending, batch, &sorted);
    proof {
        assert(pending_view(pending@).submap_of(pending_view(old(pending)@)));
    }
}

// ---------------------------------------------------------------------------
// Handling lines
// ---------------------------------------------------------------------------

/// Every pending query line starts before `bound`.
pub open spec fn starts_below(m: Map<i64, PendingV>, bound: int) -> bool {
    forall|k: i64| m.contains_key(k) ==> (#[trigger] m[k]).line_start < bound
}

/// Finishing pending queries keeps the remaining ones below any bound they were below.
proof fn lemma_flush_starts_below(st: IngestV, sel: Set<i64>, bound: int)
    requires
        starts_below(st.pending, bound),
    ensures
        starts_below(flush_spec(st, sel).pending, bound),
{
}

/// A line never lets a pending query start at or after `bound` when the line itself
/// starts before it.
pub proof fn lemma_handle_starts_below(p: ParsedV, line_start: u64, at: Instant, st: IngestV, bound: int)
    requires
        starts_below(st.pending, bound),
        line_start < bound,
    ensures
        starts_below(handle_spec(p, line_start, at, st).pending, bound),
{
    let st2 = handle_spec(p, line_start, at, st);
    match p {
        ParsedV::Query(ev) => {
            lemma_flush_starts_below(st, st.pending.dom(), bound);
        },
        _ => {},
    }
}

/// Finishing pending queries keeps everything at or after an offset it was at or
/// after.
proof fn lemma_flush_from_offset(
    pv0: Map<i64, PendingV>,
    fv0: Seq<FinishedV>,
    pv1: Map<i64, PendingV>,
    fv1: Seq<FinishedV>,
    l: int,
)
    requires
        from_offset(pv0, fv0, l),
        fv1.len() >= fv0.len(),
        fv1.take(fv0.len() as int) == fv0,
        added_from(fv1, fv0.len() as int, pv0),
        pv1.submap_of(pv0),
    ensures
        from_offset(pv1, fv1, l),
{
    assert forall|i: int| 0 <= i < fv1.len() implies l <= #[trigger] fv1[i].line_start by {
        if i < fv0.len() {
            assert(fv1.take(fv0.len() as int)[i] == fv1[i]);
        } else {
            assert(finished_from(fv1[i], pv0));
            let k = choose|k: i64| #[trigger] pv0.contains_key(k) && fv1[i] == finish(pv0[k]);
            assert(l <= pv0[k].line_start);
        }
    }
    assert forall|k: i64| #[trigger] pv1.contains_key(k) implies l <= pv1[k].line_start by {
        assert(pv0.contains_key(k) && pv1[k] == pv0[k]);
    }
}

/// Applies one parsed line to the state.
pub fn handle_parsed(
    parsed: Parsed,
    line_start: u64,
    at: Instant,
    pending: &mut HashMap<i64, Pending>,
    cur_pid: &mut Option<i64>,
    batch: &mut Vec<Finished>,
)
    ensures
        ingest_view(*final(pending), *final(cur_pid), *final(batch)) == handle_spec(
            parsed@,
            line_start,
            at,
            ingest_view(*old(pending), *old(cur_pid), *old(batch)),
        ),
        forall|l: int|
            from_offset(pending_view(old(pending)@), finished_view(old(batch)@), l) && l <= line_start
                ==> #[trigger] from_offset(
                pending_view(final(pending)@),
                finished_view(final(batch)@),
                l,
            ),
{
    let ghost st = ingest_view(*pending, *cur_pid, *batch);
    let ghost pv0 = pending_view(pending@);
    let ghost fv0 = finished_view(batch@);
    match parsed {
        Parsed::Query(ev) => {
            match ev.pid {
                Some(p) => {
                    let same = match *cur_pid {
                        Some(c) => c == p,
                        None => false,
                    };
                    if !same {
                        let ghost p0 = *pending;
                        let ghost b0 = *batch;
                        flush_stale(pending, batch, false);
                        proof {
                            assert(pending_view(p0@).dom() == p0@.dom());
                            assert forall|l: int| from_offset(pv0, fv0, l) implies #[trigger] from_offset(
                                pending_view(pending@),
                                finished_view(batch@),
                                l,
                            ) by {
                                lemma_flush_from_offset(
                                    pv0,
                                    fv0,
                                    pending_view(pending@),
                                    finished_view(batch@),
                                    l,
                                );
                            }
                        }
                        *cur_pid = Some(p);
                    }
                },
                None => {},
            }
            let ghost st1 = ingest_view(*pending, *cur_pid, *batch);
            let ghost pv1 = pending_view(pending@);
            let ghost fv1 = finished_view(batch@);
            assert(forall|l: int| from_offset(pv0, fv0, l) ==> #[trigger] from_offset(pv1, fv1, l));
            proof {
                assert(st1 == match ev@.pid {
                    Some(pid) => if st.cur_pid != Some(pid) {
                        IngestV { cur_pid: Some(pid), ..flush_spec(st, st.pending.dom()) }
                    } else {
                        st
                    },
                    None => st,
                });
            }
            match ev.seq {
                Some(seq) => {
                    let ghost evv = ev@;
                    let ghost pre = pending@;
                    pending.insert(
                        seq,
                        Pending { ev, line_start, forwarded_to: None, saw_forwarded: false, at },
                    );
                    proof {
                        assert(pending_view(pending@) =~= pending_view(pre).insert(
                            seq,
                            PendingV {
                                ev: evv,
                                line_start,
                                forwarded_to: None,
                                saw_forwarded: false,
                                at,
                            },
                        ));
                        assert forall|l: int|
                            from_offset(pv0, fv0, l) && l <= line_start implies #[trigger] from_offset(
                            pending_view(pending@),
                            finished_view(batch@),
                            l,
                        ) by {
                            assert(from_offset(pv1, fv1, l));
                        }
                    }
                },
                None => {
                    let ghost b0 = batch@;
                    let ghost evv = ev@;
                    batch.push(Finished { line_start, ev });
                    proof {
                        assert(finished_view(batch@) =~= finished_view(b0).push(
                            FinishedV { line_start, ev: evv },
                        ));
                        assert forall|l: int|
                            from_offset(pv0, fv0, l) && l <= line_start implies #[trigger] from_offset(
                            pending_view(pending@),
                            finished_view(batch@),
                            l,
                        ) by {
                            assert(from_offset(pv1, fv1, l));
                        }
                    }
                },
            }
        },
        Parsed::Outcome { seq: Some(seq), outcome, answer } => {
            let ghost pre = pending@;
            let removed = pending.remove(&seq);
            match removed {
                Some(mut p) => {
                    let ghost pv = p@;
                    proof {
                        assert(pre[seq] == p);
                        assert(pending_view(pre)[seq] == pv);
                        assert(pending@ == pre.remove(seq));
                    }
                    match outcome {
                        Outcome::Forwarded => {
                            p.saw_forwarded = true;
                            p.ev.answer = match &answer {
                                Some(a) => Some(a.clone()),
                                None => None,
                            };
                            p.forwarded_to = answer;
                            let ghost mid = pending@;
                            let ghost pv2 = p@;
                            pending.insert(seq, p);
                            proof {
                                assert(pending_view(pending@) =~= pending_view(pre).insert(seq, pv2));
                                assert forall|l: int| from_offset(pv0, fv0, l) implies #[trigger] from_offset(
                                    pending_view(pending@),
                                    finished_view(batch@),
                                    l,
                                ) by {
                                    assert(pv0.contains_key(seq));
                                }
                            }
                        },
                        o => {
                            p.ev.outcome = o;
                            if answer.is_some() {
                                p.ev.answer = answer;
                            }
                            let ghost b0 = batch@;
                            let ghost evv = p.ev@;
                            let start = p.line_start;
                            batch.push(Finished { line_start: start, ev: p.ev });
                            proof {
                                assert(finished_view(batch@) =~= finished_view(b0).push(
                                    FinishedV { line_start: start, ev: evv },
                                ));
                                assert(pending_view(pending@) =~= pending_view(pre).remove(seq));
                                assert forall|l: int| from_offset(pv0, fv0, l) implies #[trigger] from_offset(
                                    pending_view(pending@),
                                    finished_view(batch@),
                                    l,
                                ) by {
                                    assert(pv0.contains_key(seq));
                                }
                            }
                        },
                    }
                },
                None => {
                    proof {
                        assert(!pending_view(pre).contains_key(seq));
                        assert(pending@ == pre);
                    }
                },
            }
        },
        _ => {},
    }
}

/// Handles one log line: parses it with the current time as its ingest time and
/// applies it. The clock readings are free; for every reading the result is the one
/// `handle_spec` gives.
pub fn handle_line(
    line: &str,
    line_start: u64,
    pending: &mut HashMap<i64, Pending>,
    cur_pid: &mut Option<i64>,
    batch: &mut Vec<Finished>,
)
    ensures
        exists|ts: i64, at: Instant|
            ingest_view(*final(pending), *final(cur_pid), *final(batch)) == handle_spec(
                parse_line_spec(line@, ts),
                line_start,
                at,
                ingest_view(*old(pending), *old(cur_pid), *old(batch)),
            ),
        forall|l: int|
            from_offset(pending_view(old(pending)@), finished_view(old(batch)@), l) && l <= line_start
                ==> #[trigger] from_offset(
                pending_view(final(pending)@),
                finished_view(final(batch)@),
                l,
            ),
{
    let ts = now_millis();
    let parsed = parse_line(line, ts);
    let at = instant_now();
    handle_parsed(parsed, line_start, at, pending, cur_pid, batch);
}

// ---------------------------------------------------------------------------
// Complete lines of the tail buffer
// ---------------------------------------------------------------------------

/// Lossy UTF-8 decoding (`String::from_utf8_lossy`): invalid sequences become U+FFFD.
pub uninterp spec fn utf8_lossy(bytes: Seq<u8>) -> Seq<char>;

#[verifier::external_body]
/// Calls `String::from_utf8_lossy` on `buf[lo..hi]`. Its result is `utf8_lossy` of the
/// bytes, which depends on them alone; valid UTF-8 is decoded unchanged (as std documents).
fn decode_lossy(buf: &Vec<u8>, lo: usize, hi: usize) -> (s: String)
    requires
        lo <= hi <= buf@.len(),
    ensures
        s@ == utf8_lossy(buf@.subrange(lo as int, hi as int)),
        vstd::utf8::valid_utf8(buf@.subrange(lo as int, hi as int)) ==> s@ == vstd::utf8::decode_utf8(
            buf@.subrange(lo as int, hi as int),
        ),
{
    String::from_utf8_lossy(&buf[lo..hi]).into_owned()
}

pub open spec fn is_next_newline(b: Seq<u8>, i: int, k: int) -> bool {
    &&& i <= k < b.len()
    &&& b[k] == 10
    &&& forall|j: int| i <= j < k ==> b[j] != 10
}

/// Position of the first `\n` at or after `i`.
pub open spec fn next_newline(b: Seq<u8>, i: int) -> Option<int> {
    if exists|k: int| is_next_newline(b, i, k) {
        Some(choose|k: int| is_next_newline(b, i, k))
    } else {
        None
    }
}

proof fn lemma_next_newline(b: Seq<u8>, i: int, k: int)
    requires
        is_next_newline(b, i, k),
    ensures
        next_newline(b, i) == Some(k),
{
    let c = choose|c: int| is_next_newline(b, i, c);
    assert(is_next_newline(b, i, c));
    if c < k {
        assert(b[c] != 10);
    }
    if k < c {
        assert(b[k] != 10);
    }
}

/// The complete lines from position `i` on: each line's text and the file offset of its
/// start (`base` is the offset of `b[0]`).
pub open spec fn lines_from(b: Seq<u8>, i: int, base: int) -> Seq<(Seq<char>, int)>
    decreases b.len() - i,
{
    match next_newline(b, i) {
        Some(k) => if i <= k < b.len() {
            seq![(utf8_lossy(b.subrange(i, k)), base + i)] + lines_from(b, k + 1, base)
        } else {
            Seq::empty()
        },
        None => Seq::empty(),
    }
}

/// Where the complete lines from position `i` on end.
pub open spec fn complete_end(b: Seq<u8>, i: int) -> int
    decreases b.len() - i,
{
    match next_newline(b, i) {
        Some(k) => if i <= k < b.len() {
            complete_end(b, k + 1)
        } else {
            i
        },
        None => i,
    }
}

/// Handles the lines in order, with the given ingest times and handling instants.
pub open spec fn handle_lines(
    ls: Seq<(Seq<char>, int)>,
    tss: Seq<i64>,
    ats: Seq<Instant>,
    st: IngestV,
) -> IngestV
    decreases ls.len(),
{
    if ls.len() == 0 {
        st
    } else {
        handle_spec(
            parse_line_spec(ls.last().0, tss.last()),
            ls.last().1 as u64,
            ats.last(),
            handle_lines(ls.drop_last(), tss.drop_last(), ats.drop_last(), st),
        )
    }
}

/// Handles every complete line of `buf` (whose first byte sits at file offset `base`)
/// and keeps the unfinished tail: `base` moves past the consumed bytes.
pub fn process_lines(
    buf: &mut Vec<u8>,
    base: &mut u64,
    pending: &mut HashMap<i64, Pending>,
    cur_pid: &mut Option<i64>,
    batch: &mut Vec<Finished>,
)
    requires
        *old(base) + old(buf)@.len() <= u64::MAX,
    ensures
        ({
            let end = complete_end(old(buf)@, 0);
            &&& 0 <= end <= old(buf)@.len()
            &&& final(buf)@ == old(buf)@.skip(end)
            &&& *final(base) == *old(base) + end
        }),
        exists|tss: Seq<i64>, ats: Seq<Instant>|
            {
                &&& tss.len() == lines_from(old(buf)@, 0, *old(base) as int).len()
                &&& ats.len() == tss.len()
                &&& ingest_view(*final(pending), *final(cur_pid), *final(batch)) == handle_lines(
                    lines_from(old(buf)@, 0, *old(base) as int),
                    tss,
                    ats,
                    ingest_view(*old(pending), *old(cur_pid), *old(batch)),
                )
            },
        starts_below(pending_view(old(pending)@), *old(base) as int) ==> starts_below(
            pending_view(final(pending)@),
            *final(base) as int,
        ),
        forall|l: int|
            from_offset(pending_view(old(pending)@), finished_view(old(batch)@), l) && l
                <= *old(base) ==> #[trigger] from_offset(
                pending_view(final(pending)@),
                finished_view(final(batch)@),
                l,
            ),
{
    let ghost b = buf@;
    let ghost pv0 = pending_view(pending@);
    let ghost fv0 = finished_view(batch@);
    let ghost base0 = *base as int;
    let ghost st0 = ingest_view(*pending, *cur_pid, *batch);
    let ghost below0 = starts_below(st0.pending, base0);
    let ghost mut done: Seq<(Seq<char>, int)> = Seq::empty();
    let ghost mut tss: Seq<i64> = Seq::empty();
    let ghost mut ats: Seq<Instant> = Seq::empty();
    let mut start: usize = 0;
    loop
        invariant
            buf@ == b,
            *base as int == base0,
            base0 + b.len() <= u64::MAX,
            0 <= start <= b.len(),
            lines_from(b, 0, base0) == done + lines_from(b, start as int, base0),
            complete_end(b, 0) == complete_end(b, start as int),
            tss.len() == done.len(),
            ats.len() == done.len(),
            ingest_view(*pending, *cur_pid, *batch) == handle_lines(done, tss, ats, st0),
            below0 ==> starts_below(pending_view(pending@), base0 + start),
            forall|l: int|
                from_offset(pv0, fv0, l) && l <= base0 ==> #[trigger] from_offset(
                    pending_view(pending@),
                    finished_view(batch@),
                    l,
                ),
        ensures
            buf@ == b,
            *base as int == base0,
            0 <= start <= b.len(),
            complete_end(b, 0) == start,
            lines_from(b, 0, base0) == done,
            tss.len() == done.len(),
            ats.len() == done.len(),
            ingest_view(*pending, *cur_pid, *batch) == handle_lines(done, tss, ats, st0),
            below0 ==> starts_below(pending_view(pending@), base0 + start),
            forall|l: int|
                from_offset(pv0, fv0, l) && l <= base0 ==> #[trigger] from_offset(
                    pending_view(pending@),
                    finished_view(batch@),
                    l,
                ),
        decreases b.len() - start,
    {
        let mut j = start;
        while j < buf.len() && buf[j] != 10
            invariant
                buf@ == b,
                start <= j <= b.len(),
                forall|x: int| start <= x < j ==> b[x] != 10,
            decreases b.len() - j,
        {
            j = j + 1;
        }
        if j >= buf.len() {
            proof {
                if exists|k: int| is_next_newline(b, start as int, k) {
                    let k = choose|k: int| is_next_newline(b, start as int, k);
                    assert(b[k] == 10);
                }
                assert(next_newline(b, start as int) is None);
                assert(lines_from(b, start as int, base0) =~= Seq::empty());
                assert(complete_end(b, start as int) == start);
                assert(done + Seq::<(Seq<char>, int)>::empty() =~= done);
            }
            break;
        }
        proof {
            lemma_next_newline(b, start as int, j as int);
        }
        let line = decode_lossy(buf, start, j);
        let line_start = *base + start as u64;
        let ghost pre = ingest_view(*pending, *cur_pid, *batch);
        let ghost pre_pending = pending_view(pending@);
        let ghost pre_batch = finished_view(batch@);
        handle_line(line.as_str(), line_start, pending, cur_pid, batch);
        proof {
            assert forall|l: int| from_offset(pv0, fv0, l) && l <= base0 implies #[trigger] from_offset(
                pending_view(pending@),
                finished_view(batch@),
                l,
            ) by {
                assert(from_offset(pre_pending, pre_batch, l));
            }
            let (ts, at) = choose|ts: i64, at: Instant|
                ingest_view(*pending, *cur_pid, *batch) == handle_spec(
                    parse_line_spec(line@, ts),
                    line_start,
                    at,
                    pre,
                );
            let l = (utf8_lossy(b.subrange(start as int, j as int)), base0 + start);
            assert(lines_from(b, start as int, base0) == seq![l] + lines_from(b, j + 1, base0));
            assert(complete_end(b, start as int) == complete_end(b, j + 1));
            let done2 = done.push(l);
            let tss2 = tss.push(ts);
            let ats2 = ats.push(at);
            assert(done2.drop_last() =~= done);
            assert(tss2.drop_last() =~= tss);
            assert(ats2.drop_last() =~= ats);
            assert(handle_lines(done2, tss2, ats2, st0) == ingest_view(*pending, *cur_pid, *batch));
            assert(lines_from(b, 0, base0) =~= done2 + lines_from(b, j + 1, base0));
            if below0 {
                lemma_handle_starts_below(
                    parse_line_spec(line@, ts),
                    line_start,
                    at,
                    pre,
                    base0 + j + 1,
                );
            }
            done = done2;
            tss = tss2;
            ats = ats2;
        }
        start = j + 1;
    }
    let rest = buf.split_off(start);
    let ghost head = buf@;
    *buf = rest;
    *base = *base + start as u64;
    proof {
        assert(buf@ =~= b.skip(start as int));
        assert(tss.len() == lines_from(b, 0, base0).len() && ats.len() == tss.len()
            && ingest_view(*pending, *cur_pid, *batch) == handle_lines(
            lines_from(b, 0, base0),
            tss,
            ats,
            st0,
        ));
    }
}

// ---------------------------------------------------------------------------
// Decisions of the tail loop
// ---------------------------------------------------------------------------

/// The offset to store with a batch: the start of the oldest pending query line, or
/// `base` when nothing is pending. Re-reading from there after a crash loses no
/// pending query.
pub fn safe_offset(pending: &HashMap<i64, Pending>, base: u64) -> (r: u64)
    ensures
        pending@.dom().len() == 0 ==> r == base,
        pending@.dom().len() > 0 ==> exists|k: i64|
            #[trigger] pending@.contains_key(k) && pending@[k].line_start == r,
        forall|k: i64| #[trigger] pending@.contains_key(k) ==> r <= pending@[k].line_start,
        starts_below(pending_view(pending@), base as int) ==> r <= base,
{
    let ghost ks = spec_keys_iter(pending).remaining().unref();
    proof {
        assert(ks.to_set() == pending@.dom());
        assert(ks.len() == pending@.dom().len());
    }
    let mut acc: Option<u64> = None;
    for k in it: pending.keys()
        invariant
            ks == it.seq().unref(),
            ks.to_set() == pending@.dom(),
            ks.len() == pending@.dom().len(),
            acc is None <==> it.index() == 0,
            acc matches Some(a) ==> (exists|m: int|
                0 <= m < it.index() && #[trigger] pending@[ks[m]].line_start == a),
            acc matches Some(a) ==> (forall|m: int|
                0 <= m < it.index() ==> a <= #[trigger] pending@[ks[m]].line_start),
    {
        let ghost idx = it.index();
        proof {
            assert(ks[idx] == *k);
            assert(ks.to_set().contains(*k));
        }
        match pending.get(k) {
            Some(p) => {
                let v = p.line_start;
                acc = match acc {
                    Some(a) => if v < a {
                        Some(v)
                    } else {
                        Some(a)
                    },
                    None => Some(v),
                };
            },
            None => {
                proof {
                    assert(false);
                }
            },
        }
    }
    proof {
        assert(ks.len() == pending@.dom().len());
        assert forall|k: i64| #[trigger] pending@.contains_key(k) implies ks.contains(k) by {
            assert(ks.to_set().contains(k));
        }
    }
    match acc {
        Some(a) => {
            proof {
                let m = choose|m: int| 0 <= m < ks.len() && #[trigger] pending@[ks[m]].line_start == a;
                assert(ks.to_set().contains(ks[m]));
                assert(pending@.contains_key(ks[m]));
                if starts_below(pending_view(pending@), base as int) {
                    assert(pending_view(pending@).contains_key(ks[m]));
                    assert(pending_view(pending@)[ks[m]].line_start < base);
                }
            }
            a
        },
        None => base,
    }
}

/// What to do when the log file is opened: the inode to follow and whether to read it
/// from the start (a new file after rotation, or one that shrank: truncation).
pub fn tail_reset(inode: u64, file_ino: u64, file_len: u64, read_pos: u64) -> (r: (u64, bool))
    ensures
        r == if inode == 0 || file_ino != inode {
            (file_ino, true)
        } else if file_len < read_pos {
            (inode, true)
        } else {
            (inode, false)
        },
{
    if inode == 0 || file_ino != inode {
        (file_ino, true)
    } else if file_len < read_pos {
        (inode, true)
    } else {
        (inode, false)
    }
}

/// A batch is committed when it holds events or the safe offset moved.
pub fn should_commit(batch_len: usize, safe: u64, last_committed: u64) -> (b: bool)
    ensures
        b == (batch_len > 0 || safe != last_committed),
{
    batch_len > 0 || safe != last_committed
}

// ---------------------------------------------------------------------------
// The tail of the log, round by round
// ---------------------------------------------------------------------------

/// `off` is where reading may start again after a crash: the start of the oldest
/// pending query line, or `base` when nothing is pending.
pub open spec fn safe_for(m: Map<i64, PendingV>, base: u64, off: u64) -> bool {
    &&& (m.dom().len() == 0 ==> off == base)
    &&& (m.dom().len() > 0 ==> exists|k: i64| #[trigger] m.contains_key(k) && m[k].line_start == off)
    &&& forall|k: i64| #[trigger] m.contains_key(k) ==> off <= m[k].line_start
}

/// The tailer's state: the file it follows, the offset of the first unconsumed byte,
/// the bytes of an unfinished line, the pending queries, the events not yet stored and
/// the offset of the last commit (`u64::MAX` before the first one).
pub struct Tail {
    pub inode: u64,
    pub base: u64,
    pub buf: Vec<u8>,
    pub pending: HashMap<i64, Pending>,
    pub cur_pid: Option<i64>,
    pub batch: Vec<Finished>,
    pub last_committed: u64,
}

/// What to store in one transaction: finished events, the inode followed and the
/// offset to resume from. Every event's line starts before the offset, so reading
/// again from there after a crash cannot produce it a second time; across rounds and a
/// restart, `lemma_each_line_stored_once` states it.
pub struct Commit {
    pub events: Vec<Finished>,
    pub inode: u64,
    pub offset: u64,
}

/// The tailer holds nothing from before `l`: every pending query and every finished
/// event starts at or after `l`, every pending query starts before `base`, and `l` is
/// not past `base`. Reading on from `base` then only adds lines at or after `l`.
pub open spec fn resume_from(t: Tail, l: int) -> bool {
    &&& from_offset(pending_view(t.pending@), finished_view(t.batch@), l)
    &&& starts_below(pending_view(t.pending@), t.base as int)
    &&& l <= t.base
}

/// A round's result, for a tailer that held nothing from before `l`: a commit's offset
/// is not below `l`, and each of its events has a line in `[l, offset)`.
pub open spec fn commit_within(l: int, c: Option<Commit>) -> bool {
    match c {
        Some(cm) => {
            &&& l <= cm.offset
            &&& forall|i: int|
                0 <= i < cm.events@.len() ==> l <= #[trigger] cm.events@[i].line_start
                    < cm.offset
        },
        None => true,
    }
}

/// The point the tailer holds nothing before after a round: the new offset after a
/// commit, `l` otherwise.
pub open spec fn next_floor(l: int, c: Option<Commit>) -> int {
    match c {
        Some(cm) => cm.offset as int,
        None => l,
    }
}

/// The point the tailer holds nothing before after the first `n` rounds (results `cs`)
/// of a run that resumed at `floor`.
pub open spec fn floor_after(floor: int, cs: Seq<Option<Commit>>, n: int) -> int
    decreases n,
{
    if n <= 0 {
        floor
    } else {
        next_floor(floor_after(floor, cs, n - 1), cs[n - 1])
    }
}

/// The finished events of lines before `off` (they may be stored with `off`).
pub open spec fn committed(b: Seq<FinishedV>, off: u64) -> Seq<FinishedV> {
    b.filter(|f: FinishedV| f.line_start < off)
}

/// The finished events of lines at or after `off` (reading from `off` again would
/// produce them again, so they wait).
pub open spec fn held(b: Seq<FinishedV>, off: u64) -> Seq<FinishedV> {
    b.filter(|f: FinishedV| f.line_start >= off)
}

/// Splits finished events at `off`, each part in its order.
fn split_at_offset(batch: Vec<Finished>, off: u64) -> (r: (Vec<Finished>, Vec<Finished>))
    ensures
        finished_view(r.0@) == committed(finished_view(batch@), off),
        finished_view(r.1@) == held(finished_view(batch@), off),
{
    let ghost all = batch@;
    let mut out: Vec<Finished> = Vec::new();
    let mut keep: Vec<Finished> = Vec::new();
    for f in it: batch.into_iter()
        invariant
            it.seq() == all,
            finished_view(out@) == committed(finished_view(all.take(it.index() as int)), off),
            finished_view(keep@) == held(finished_view(all.take(it.index() as int)), off),
    {
        let ghost idx = it.index() as int;
        let ghost fv = f@;
        proof {
            reveal(Seq::filter);
            assert(finished_view(all.take(idx + 1)).drop_last() =~= finished_view(all.take(idx)));
            assert(all[idx] == f);
            assert(finished_view(all.take(idx + 1)).last() == fv);
        }
        let ghost o0 = out@;
        let ghost k0 = keep@;
        if f.line_start < off {
            out.push(f);
            proof {
                assert(finished_view(out@) =~= finished_view(o0).push(fv));
            }
        } else {
            keep.push(f);
            proof {
                assert(finished_view(keep@) =~= finished_view(k0).push(fv));
            }
        }
    }
    proof {
        assert(all.take(all.len() as int) =~= all);
    }
    (out, keep)
}

impl Tail {
    /// A tailer resuming at the stored position, with nothing pending.
    pub fn new(inode: u64, offset: u64) -> (t: Tail)
        ensures
            t.inode == inode,
            t.base == offset,
            t.buf@.len() == 0,
            t.pending@.dom().len() == 0,
            t.cur_pid is None,
            t.batch@.len() == 0,
            t.last_committed == u64::MAX,
            resume_from(t, offset as int),
    {
        Tail {
            inode,
            base: offset,
            buf: Vec::new(),
            pending: HashMap::new(),
            cur_pid: None,
            batch: Vec::new(),
            last_committed: u64::MAX,
        }
    }

    /// The log file is open and has this inode and length: says where to read from.
    /// A new file (rotation) or one shorter than what was read (truncation) is read
    /// from the start; otherwise reading goes on right after the bytes already held,
    /// so no byte is read twice.
    pub fn open_file(&mut self, file_ino: u64, file_len: u64) -> (read_from: u64)
        requires
            old(self).base + old(self).buf@.len() <= u64::MAX,
        ensures
            ({
                let pos = (old(self).base + old(self).buf@.len()) as u64;
                let reset = old(self).inode == 0 || file_ino != old(self).inode || file_len < pos;
                &&& final(self).inode == (if old(self).inode == 0 || file_ino != old(self).inode {
                    file_ino
                } else {
                    old(self).inode
                })
                &&& (reset ==> final(self).base == 0 && final(self).buf@.len() == 0)
                &&& (!reset ==> final(self).base == old(self).base && final(self).buf@
                    == old(self).buf@)
            }),
            read_from == final(self).base + final(self).buf@.len(),
            final(self).pending@ == old(self).pending@,
            final(self).cur_pid == old(self).cur_pid,
            final(self).batch@ == old(self).batch@,
            final(self).last_committed == old(self).last_committed,
            forall|l: int|
                #[trigger] resume_from(*old(self), l) && final(self).base == old(self).base
                    ==> resume_from(*final(self), l),
    {
        let pos = self.base + self.buf.len() as u64;
        let (ino, reset) = tail_reset(self.inode, file_ino, file_len, pos);
        self.inode = ino;
        if reset {
            self.base = 0;
            self.buf.clear();
        }
        self.base + self.buf.len() as u64
    }

    /// The bytes read from `open_file`'s position to the end: every complete line is
    /// handled, the unfinished one is kept, and the position moves by what was read.
    pub fn feed(&mut self, bytes: Vec<u8>)
        requires
            old(self).base + old(self).buf@.len() + bytes@.len() <= u64::MAX,
        ensures
            ({
                let all = old(self).buf@ + bytes@;
                let end = complete_end(all, 0);
                &&& final(self).buf@ == all.skip(end)
                &&& final(self).base == old(self).base + end
                &&& exists|tss: Seq<i64>, ats: Seq<Instant>|
                    {
                        &&& tss.len() == lines_from(all, 0, old(self).base as int).len()
                        &&& ats.len() == tss.len()
                        &&& ingest_view(final(self).pending, final(self).cur_pid, final(self).batch)
                            == handle_lines(
                            lines_from(all, 0, old(self).base as int),
                            tss,
                            ats,
                            ingest_view(old(self).pending, old(self).cur_pid, old(self).batch),
                        )
                    }
            }),
            final(self).base + final(self).buf@.len() == old(self).base + old(self).buf@.len()
                + bytes@.len(),
            starts_below(pending_view(old(self).pending@), old(self).base as int) ==> starts_below(
                pending_view(final(self).pending@),
                final(self).base as int,
            ),
            final(self).inode == old(self).inode,
            final(self).last_committed == old(self).last_committed,
            forall|l: int| #[trigger] resume_from(*old(self), l) ==> resume_from(*final(self), l),
    {
        let mut bytes = bytes;
        self.buf.append(&mut bytes);
        process_lines(
            &mut self.buf,
            &mut self.base,
            &mut self.pending,
            &mut self.cur_pid,
            &mut self.batch,
        );
    }

    /// Ends a round: finishes the queries that timed out and says what to commit, if
    /// anything. The offset is the safe one (the oldest pending query line, or `base`);
    /// the events committed are the finished ones whose line starts before it, and the
    /// others wait for a later round. A commit is made exactly when it has events or the
    /// offset moved. The clock readings are free, as for `flush_stale`.
    ///
    /// Across rounds: a tailer that held nothing from before `l` makes a commit within
    /// `l` (see `commit_within`) and afterwards holds nothing from before the new offset
    /// (or `l` when it did not commit); after any round whose pending queries started
    /// before `base`, it holds nothing from before its last committed offset, so the
    /// next commit's offset is not below that one.
    pub fn end_round(&mut self) -> (c: Option<Commit>)
        ensures
            exists|ages: Seq<(i64, u128)>|
                #![trigger reading_keys(ages)]
                {
                    let st1 = flush_spec(
                        ingest_view(old(self).pending, None, old(self).batch),
                        stale_set(ages),
                    );
                    &&& reading_keys(ages).to_set() == old(self).pending@.dom()
                    &&& reading_keys(ages).no_duplicates()
                    &&& pending_view(final(self).pending@) == st1.pending
                    &&& match c {
                        Some(cm) => {
                            &&& safe_for(pending_view(final(self).pending@), final(self).base, cm.offset)
                            &&& finished_view(cm.events@) == committed(st1.batch, cm.offset)
                            &&& finished_view(final(self).batch@) == held(st1.batch, cm.offset)
                            &&& (committed(st1.batch, cm.offset).len() > 0 || cm.offset
                                != old(self).last_committed)
                            &&& cm.inode == final(self).inode
                            &&& final(self).last_committed == cm.offset
                        },
                        None => {
                            &&& safe_for(
                                pending_view(final(self).pending@),
                                final(self).base,
                                old(self).last_committed,
                            )
                            &&& committed(st1.batch, old(self).last_committed).len() == 0
                            &&& finished_view(final(self).batch@) == held(
                                st1.batch,
                                old(self).last_committed,
                            )
                            &&& final(self).last_committed == old(self).last_committed
                        },
                    }
                },
            c matches Some(cm) ==> forall|i: int|
                0 <= i < cm.events@.len() ==> #[trigger] cm.events@[i].line_start < cm.offset,
            final(self).inode == old(self).inode,
            final(self).base == old(self).base,
            final(self).buf@ == old(self).buf@,
            final(self).cur_pid == old(self).cur_pid,
            starts_below(pending_view(old(self).pending@), old(self).base as int) ==> (
            c matches Some(cm) ==> cm.offset <= old(self).base),
            forall|l: int|
                #[trigger] resume_from(*old(self), l) ==> commit_within(l, c) && resume_from(
                    *final(self),
                    next_floor(l, c),
                ),
            starts_below(pending_view(old(self).pending@), old(self).base as int) ==> resume_from(
                *final(self),
                final(self).last_committed as int,
            ),
            resume_from(*old(self), old(self).last_committed as int) ==> (c matches Some(cm)
                ==> old(self).last_committed <= cm.offset),
    {
        let ghost t0 = *self;
        let ghost p0 = self.pending;
        let ghost b0 = self.batch;
        flush_stale(&mut self.pending, &mut self.batch, true);
        let ghost ages = choose|ages: Seq<(i64, u128)>|
            {
                &&& reading_keys(ages).to_set() == p0@.dom()
                &&& reading_keys(ages).no_duplicates()
                &&& pending_view(self.pending@) == flush_spec(
                    ingest_view(p0, None, b0),
                    stale_set(ages),
                ).pending
                &&& finished_view(self.batch@) == flush_spec(
                    ingest_view(p0, None, b0),
                    stale_set(ages),
                ).batch
            };
        let ghost st1 = flush_spec(ingest_view(p0, None, b0), stale_set(ages));
        let ghost pv1 = pending_view(self.pending@);
        let ghost fv1 = finished_view(self.batch@);
        proof {
            if starts_below(pending_view(p0@), self.base as int) {
                lemma_flush_starts_below(ingest_view(p0, None, b0), stale_set(ages), self.base as int);
            }
            assert forall|l: int| #[trigger]
                from_offset(pending_view(p0@), finished_view(b0@), l) implies from_offset(
                pv1,
                fv1,
                l,
            ) by {
                lemma_flush_from_offset(pending_view(p0@), finished_view(b0@), pv1, fv1, l);
            }
        }
        let safe = safe_offset(&self.pending, self.base);
        proof {
            let m = pending_view(self.pending@);
            assert(m.dom() == self.pending@.dom());
            assert forall|k: i64| #[trigger] m.contains_key(k) implies safe <= m[k].line_start by {
                assert(self.pending@.contains_key(k));
            }
            if m.dom().len() > 0 {
                let k = choose|k: i64| #[trigger] self.pending@.contains_key(k) && self.pending@[k].line_start == safe;
                assert(m.contains_key(k));
            }
            assert(safe_for(m, self.base, safe));
        }
        let mut taken: Vec<Finished> = Vec::new();
        std::mem::swap(&mut taken, &mut self.batch);
        let (out, keep) = split_at_offset(taken, safe);
        self.batch = keep;
        proof {
            let cv = committed(fv1, safe);
            let hv = held(fv1, safe);
            assert forall|i: int| 0 <= i < out@.len() implies #[trigger] out@[i].line_start < safe by {
                assert(finished_view(out@)[i] == out@[i]@);
                fv1.lemma_filter_pred(|f: FinishedV| f.line_start < safe, i);
            }
            assert forall|i: int| 0 <= i < hv.len() implies safe <= #[trigger] hv[i].line_start by {
                fv1.lemma_filter_pred(|f: FinishedV| f.line_start >= safe, i);
            }
            assert forall|l: int| #[trigger] from_offset(pv1, fv1, l) implies {
                &&& from_offset(pv1, hv, l)
                &&& forall|i: int| 0 <= i < cv.len() ==> l <= #[trigger] cv[i].line_start
            } by {
                assert forall|i: int| 0 <= i < hv.len() implies l <= #[trigger] hv[i].line_start by {
                    assert(hv.contains(hv[i]));
                    fv1.lemma_filter_contains_rev(|f: FinishedV| f.line_start >= safe, hv[i]);
                }
                assert forall|i: int| 0 <= i < cv.len() implies l <= #[trigger] cv[i].line_start by {
                    assert(cv.contains(cv[i]));
                    fv1.lemma_filter_contains_rev(|f: FinishedV| f.line_start < safe, cv[i]);
                }
            }
            if starts_below(pending_view(p0@), self.base as int) {
                assert(safe <= self.base);
                assert(from_offset(pv1, hv, safe as int));
                assert(resume_from(*self, safe as int));
            }
            assert forall|l: int| #[trigger] resume_from(t0, l) implies l <= safe && from_offset(
                pv1,
                fv1,
                l,
            ) by {
                assert(from_offset(pending_view(p0@), finished_view(b0@), l));
                if pv1.dom().len() > 0 {
                    let k = choose|k: i64| #[trigger] self.pending@.contains_key(k) && self.pending@[k].line_start == safe;
                    assert(pv1.contains_key(k));
                }
            }
        }
        let lc = self.last_committed;
        if should_commit(out.len(), safe, lc) {
            self.last_committed = safe;
            let r = Some(Commit { events: out, inode: self.inode, offset: safe });
            proof {
                assert(finished_view(out@).len() == out@.len());
                assert forall|l: int| #[trigger] resume_from(t0, l) implies commit_within(l, r)
                    && resume_from(*self, next_floor(l, r)) by {
                    assert(from_offset(pv1, fv1, l));
                    assert forall|i: int| 0 <= i < out@.len() implies l <= #[trigger] out@[i].line_start
                        < safe by {
                        assert(finished_view(out@)[i] == out@[i]@);
                    }
                }
            }
            r
        } else {
            proof {
                assert(finished_view(out@).len() == out@.len());
                assert forall|l: int| #[trigger] resume_from(t0, l) implies commit_within(l, None)
                    && resume_from(*self, l) by {
                    assert(from_offset(pv1, fv1, l));
                }
            }
            None
        }
    }
}

// ---------------------------------------------------------------------------
// Laws of the tail across rounds and restarts
// ---------------------------------------------------------------------------

/// The line of the `a`-th event stored by a round's commit, when there is one.
pub open spec fn stored_line(c: Option<Commit>, a: int) -> Option<int> {
    match c {
        Some(cm) => if 0 <= a < cm.events@.len() {
            Some(cm.events@[a].line_start as int)
        } else {
            None
        },
        None => None,
    }
}

/// Every round of a run that resumed at `floor` made its commit within the point the
/// tailer held nothing before.
pub open spec fn rounds_within(floor: int, cs: Seq<Option<Commit>>) -> bool {
    forall|k: int| 0 <= k < cs.len() ==> #[trigger] commit_within(floor_after(floor, cs, k), cs[k])
}

proof fn lemma_floor_steps(floor: int, cs: Seq<Option<Commit>>, i: int, j: int)
    requires
        0 <= i <= j <= cs.len(),
        rounds_within(floor, cs),
    ensures
        floor_after(floor, cs, i) <= floor_after(floor, cs, j),
    decreases j - i,
{
    if i < j {
        lemma_floor_steps(floor, cs, i, j - 1);
        assert(commit_within(floor_after(floor, cs, j - 1), cs[j - 1]));
    }
}

proof fn lemma_stored_between(floor: int, cs: Seq<Option<Commit>>, i: int, a: int)
    requires
        0 <= i < cs.len(),
        rounds_within(floor, cs),
        stored_line(cs[i], a) is Some,
    ensures
        floor_after(floor, cs, i) <= stored_line(cs[i], a)->0 < floor_after(floor, cs, i + 1),
        cs[i] is Some && floor_after(floor, cs, i + 1) == cs[i]->0.offset,
{
    assert(commit_within(floor_after(floor, cs, i), cs[i]));
    let cm = cs[i]->0;
    assert(floor_after(floor, cs, i) <= cm.events@[a].line_start < cm.offset);
}

/// No line's event is stored twice across the rounds of a run and a restart after a
/// crash. A run on one file that resumed at `floor` ends its rounds with the results
/// `cs`; the run restarted after a crash ends its rounds with the results `ds`. The
/// tailer functions meet the `requires`: `Tail::new(inode, floor)` holds nothing from
/// before `floor`, `open_file` without a reset and `feed` keep that, and `end_round`,
/// from a state holding nothing before `l`, commits within `l` and then holds nothing
/// before `next_floor(l, c)`. The restart is `Tail::new` with the inode and offset of
/// the last commit, that is from `floor_after(floor, cs, cs.len())`.
///
/// Then the commit offsets never go down, each commit's lines come after those of the
/// commits before it, every stored line starts before the restart offset, and every
/// line the restarted run stores comes after all the lines stored before the crash.
/// (That no line is skipped comes from the functions themselves: `end_round` leaves
/// nothing held or pending before its offset, and `open_file` on the same file reads
/// from exactly the offset a tailer was created with.)
pub proof fn lemma_each_line_stored_once(floor: int, cs: Seq<Option<Commit>>, ds: Seq<Option<Commit>>)
    requires
        rounds_within(floor, cs),
        rounds_within(floor_after(floor, cs, cs.len() as int), ds),
    ensures
        forall|i: int, j: int|
            0 <= i <= j <= cs.len() ==> floor_after(floor, cs, i) <= floor_after(floor, cs, j),
        forall|i: int, j: int|
            0 <= i < j < cs.len() && cs[i] is Some && cs[j] is Some ==> #[trigger] cs[i]->0.offset
                <= #[trigger] cs[j]->0.offset,
        forall|i: int, j: int, a: int, b: int|
            0 <= i < j < cs.len() && #[trigger] stored_line(cs[i], a) is Some
                && #[trigger] stored_line(cs[j], b) is Some ==> stored_line(cs[i], a)->0
                < stored_line(cs[j], b)->0,
        forall|i: int, a: int|
            0 <= i < cs.len() && #[trigger] stored_line(cs[i], a) is Some ==> stored_line(
                cs[i],
                a,
            )->0 < floor_after(floor, cs, cs.len() as int),
        forall|i: int, j: int, a: int, b: int|
            0 <= i < cs.len() && 0 <= j < ds.len() && #[trigger] stored_line(cs[i], a) is Some
                && #[trigger] stored_line(ds[j], b) is Some ==> stored_line(cs[i], a)->0
                < stored_line(ds[j], b)->0,
{
    let last = floor_after(floor, cs, cs.len() as int);
    assert forall|i: int, j: int| 0 <= i <= j <= cs.len() implies floor_after(floor, cs, i)
        <= floor_after(floor, cs, j) by {
        lemma_floor_steps(floor, cs, i, j);
    }
    assert forall|i: int, j: int|
        0 <= i < j < cs.len() && cs[i] is Some && cs[j] is Some implies #[trigger] cs[i]->0.offset
        <= #[trigger] cs[j]->0.offset by {
        assert(commit_within(floor_after(floor, cs, i), cs[i]));
        assert(commit_within(floor_after(floor, cs, j), cs[j]));
        lemma_floor_steps(floor, cs, i + 1, j);
    }
    assert forall|i: int, a: int|
        0 <= i < cs.len() && #[trigger] stored_line(cs[i], a) is Some implies stored_line(
        cs[i],
        a,
    )->0 < last by {
        lemma_stored_between(floor, cs, i, a);
        lemma_floor_steps(floor, cs, i + 1, cs.len() as int);
    }
    assert forall|i: int, j: int, a: int, b: int|
        0 <= i < j < cs.len() && #[trigger] stored_line(cs[i], a) is Some
            && #[trigger] stored_line(cs[j], b) is Some implies stored_line(cs[i], a)->0
        < stored_line(cs[j], b)->0 by {
        lemma_stored_between(floor, cs, i, a);
        lemma_stored_between(floor, cs, j, b);
        lemma_floor_steps(floor, cs, i + 1, j);
    }
    assert forall|i: int, j: int, a: int, b: int|
        0 <= i < cs.len() && 0 <= j < ds.len() && #[trigger] stored_line(cs[i], a) is Some
            && #[trigger] stored_line(ds[j], b) is Some implies stored_line(cs[i], a)->0
        < stored_line(ds[j], b)->0 by {
        lemma_stored_between(floor, cs, i, a);
        lemma_floor_steps(floor, cs, i + 1, cs.len() as int);
        lemma_stored_between(last, ds, j, b);
        lemma_floor_steps(last, ds, 0, j);
    }
}

// ---------------------------------------------------------------------------
// Laws of the line handling
// ---------------------------------------------------------------------------

/// A line the parser ignores (a DNSSEC query, a configuration line, ...) and an outcome
/// line without a `seq` change nothing: the pending queries keep waiting for their
/// outcome line, and nothing is finished.
pub proof fn lemma_ignored_line_changes_nothing(p: ParsedV, line_start: u64, at: Instant, st: IngestV)
    requires
        p is Ignore || p matches ParsedV::Outcome { seq: None, .. },
    ensures
        handle_spec(p, line_start, at, st) == st,
{
}

/// An outcome line whose `seq` has no pending query changes nothing either.
pub proof fn lemma_unpaired_outcome_changes_nothing(
    seq: i64,
    outcome: OutcomeV,
    answer: Option<Seq<char>>,
    line_start: u64,
    at: Instant,
    st: IngestV,
)
    requires
        !st.pending.contains_key(seq),
    ensures
        handle_spec(ParsedV::Outcome { seq: Some(seq), outcome, answer }, line_start, at, st) == st,
{
}

/// A query line, then ignored lines, then the outcome line of the same `seq`: the
/// ignored lines in between do not disturb the pairing, and the event is the one the
/// query and its outcome make together.
pub proof fn lemma_ignored_between_query_and_outcome(
    st: IngestV,
    ev: QueryEventV,
    seq: i64,
    q_start: u64,
    q_at: Instant,
    n: nat,
    i_start: u64,
    i_at: Instant,
    outcome: OutcomeV,
    answer: Option<Seq<char>>,
    o_start: u64,
    o_at: Instant,
)
    requires
        ev.seq == Some(seq),
    ensures
        ({
            let s1 = handle_spec(ParsedV::Query(ev), q_start, q_at, st);
            let s2 = ignored_times(n, i_start, i_at, s1);
            handle_spec(ParsedV::Outcome { seq: Some(seq), outcome, answer }, o_start, o_at, s2)
                == handle_spec(ParsedV::Outcome { seq: Some(seq), outcome, answer }, o_start, o_at, s1)
        }),
{
    lemma_ignored_times(n, i_start, i_at, handle_spec(ParsedV::Query(ev), q_start, q_at, st));
}

/// `n` ignored lines handled one after the other.
pub open spec fn ignored_times(n: nat, line_start: u64, at: Instant, st: IngestV) -> IngestV
    decreases n,
{
    if n == 0 {
        st
    } else {
        handle_spec(ParsedV::Ignore, line_start, at, ignored_times((n - 1) as nat, line_start, at, st))
    }
}

proof fn lemma_ignored_times(n: nat, line_start: u64, at: Instant, st: IngestV)
    ensures
        ignored_times(n, line_start, at, st) == st,
    decreases n,
{
    if n > 0 {
        lemma_ignored_times((n - 1) as nat, line_start, at, st);
    }
}

/// A query line and the outcome line of the same `seq` become one event: the query's
/// event with the outcome, and the outcome line's answer when it has one.
pub proof fn lemma_query_then_outcome(
    st: IngestV,
    ev: QueryEventV,
    seq: i64,
    line_start: u64,
    at: Instant,
    line_start2: u64,
    at2: Instant,
    outcome: OutcomeV,
    answer: Option<Seq<char>>,
)
    requires
        ev.seq == Some(seq),
        ev.pid is None || ev.pid == st.cur_pid,
        !(outcome is Forwarded),
    ensures
        ({
            let st1 = handle_spec(ParsedV::Query(ev), line_start, at, st);
            let st2 = handle_spec(
                ParsedV::Outcome { seq: Some(seq), outcome, answer },
                line_start2,
                at2,
                st1,
            );
            &&& st2.pending == st.pending.remove(seq)
            &&& st2.cur_pid == st.cur_pid
            &&& st2.batch == st.batch.push(
                FinishedV {
                    line_start,
                    ev: QueryEventV {
                        outcome,
                        answer: if answer is Some {
                            answer
                        } else {
                            ev.answer
                        },
                        ..ev
                    },
                },
            )
        }),
{
    let st1 = handle_spec(ParsedV::Query(ev), line_start, at, st);
    let st2 = handle_spec(
        ParsedV::Outcome { seq: Some(seq), outcome, answer },
        line_start2,
        at2,
        st1,
    );
    assert(st1.pending.contains_key(seq));
    assert(st2.pending =~= st.pending.remove(seq));
}

/// A forwarded query keeps waiting, and its final outcome line decides the event; when
/// that line has no answer, the upstream server stays as the answer.
pub proof fn lemma_forwarded_then_outcome(
    st: IngestV,
    ev: QueryEventV,
    seq: i64,
    at: Instant,
    server: Option<Seq<char>>,
    outcome: OutcomeV,
    answer: Option<Seq<char>>,
    line_start: u64,
)
    requires
        ev.seq == Some(seq),
        ev.pid is None || ev.pid == st.cur_pid,
        !(outcome is Forwarded),
    ensures
        ({
            let st1 = handle_spec(ParsedV::Query(ev), line_start, at, st);
            let st2 = handle_spec(
                ParsedV::Outcome { seq: Some(seq), outcome: OutcomeV::Forwarded, answer: server },
                line_start,
                at,
                st1,
            );
            let st3 = handle_spec(
                ParsedV::Outcome { seq: Some(seq), outcome, answer },
                line_start,
                at,
                st2,
            );
            &&& st2.batch == st.batch
            &&& st2.pending.contains_key(seq)
            &&& st3.pending == st.pending.remove(seq)
            &&& st3.batch == st.batch.push(
                FinishedV {
                    line_start,
                    ev: QueryEventV {
                        outcome,
                        answer: if answer is Some {
                            answer
                        } else {
                            server
                        },
                        ..ev
                    },
                },
            )
        }),
{
    let st1 = handle_spec(ParsedV::Query(ev), line_start, at, st);
    let st2 = handle_spec(
        ParsedV::Outcome { seq: Some(seq), outcome: OutcomeV::Forwarded, answer: server },
        line_start,
        at,
        st1,
    );
    let st3 = handle_spec(ParsedV::Outcome { seq: Some(seq), outcome, answer }, line_start, at, st2);
    assert(st1.pending.contains_key(seq));
    assert(st2.pending.contains_key(seq));
    assert(st3.pending =~= st.pending.remove(seq));
}

/// A query that was forwarded and then times out becomes a `forwarded` event whose
/// answer is the upstream server.
pub proof fn lemma_forwarded_then_timeout(
    st: IngestV,
    ev: QueryEventV,
    seq: i64,
    at: Instant,
    server: Option<Seq<char>>,
    line_start: u64,
)
    requires
        ev.seq == Some(seq),
        ev.pid is None || ev.pid == st.cur_pid,
        ev.answer is None,
        st.pending.dom().finite(),
    ensures
        ({
            let st1 = handle_spec(ParsedV::Query(ev), line_start, at, st);
            let st2 = handle_spec(
                ParsedV::Outcome { seq: Some(seq), outcome: OutcomeV::Forwarded, answer: server },
                line_start,
                at,
                st1,
            );
            let st3 = flush_spec(st2, set![seq]);
            &&& st3.pending == st.pending.remove(seq)
            &&& st3.batch == st.batch.push(
                FinishedV {
                    line_start,
                    ev: QueryEventV { outcome: OutcomeV::Forwarded, answer: server, ..ev },
                },
            )
        }),
{
    let st1 = handle_spec(ParsedV::Query(ev), line_start, at, st);
    let st2 = handle_spec(
        ParsedV::Outcome { seq: Some(seq), outcome: OutcomeV::Forwarded, answer: server },
        line_start,
        at,
        st1,
    );
    assert(st1.pending.contains_key(seq));
    assert(seq![seq].to_set() =~= set![seq]) by {
        assert(seq![seq][0] == seq);
        assert(seq![seq].contains(seq));
    }
    assert(strictly_increasing(seq![seq]));
    lemma_sorted_keys(seq![seq], set![seq]);
    let st3 = flush_spec(st2, set![seq]);
    assert(st3.pending =~= st.pending.remove(seq));
    assert(st3.batch =~= st.batch.push(
        FinishedV {
            line_start,
            ev: QueryEventV { outcome: OutcomeV::Forwarded, answer: server, ..ev },
        },
    ));
}

/// A query from a new dnsmasq PID finishes every earlier pending query first (their
/// `seq` numbers start over), so only the new query is pending afterwards.
pub proof fn lemma_new_pid_flushes(st: IngestV, ev: QueryEventV, seq: i64, pid: i64, line_start: u64, at: Instant)
    requires
        ev.seq == Some(seq),
        ev.pid == Some(pid),
        st.cur_pid != Some(pid),
    ensures
        ({
            let st1 = handle_spec(ParsedV::Query(ev), line_start, at, st);
            &&& st1.cur_pid == Some(pid)
            &&& st1.pending.dom() == set![seq]
            &&& st1.batch == flush_spec(st, st.pending.dom()).batch
        }),
{
    let st1 = handle_spec(ParsedV::Query(ev), line_start, at, st);
    assert(st1.pending.dom() =~= set![seq]);
}

/// An outcome line whose `seq` has no pending query changes nothing.
pub proof fn lemma_unmatched_outcome(
    st: IngestV,
    seq: i64,
    outcome: OutcomeV,
    answer: Option<Seq<char>>,
    line_start: u64,
    at: Instant,
)
    requires
        !st.pending.contains_key(seq),
    ensures
        handle_spec(ParsedV::Outcome { seq: Some(seq), outcome, answer }, line_start, at, st) == st,
{
}


// ---------------------------------------------------------------------------
// Timing and messages of the service loop
// ---------------------------------------------------------------------------

/// How often old rows are pruned, in milliseconds.
pub const PRUNE_INTERVAL_MS: u64 = 3_600_000;

/// How often the service reports its progress, in milliseconds.
pub const HEARTBEAT_INTERVAL_MS: u64 = 300_000;

/// Whether the progress report is due, `elapsed_ms` after the last one.
pub fn heartbeat_due(elapsed_ms: u128) -> (b: bool)
    ensures
        b == (elapsed_ms >= HEARTBEAT_INTERVAL_MS),
{
    elapsed_ms >= HEARTBEAT_INTERVAL_MS as u128
}

/// Whether old rows are due to be pruned, `elapsed_ms` after the last pruning.
pub fn prune_due(elapsed_ms: u128) -> (b: bool)
    ensures
        b == (elapsed_ms >= PRUNE_INTERVAL_MS),
{
    elapsed_ms >= PRUNE_INTERVAL_MS as u128
}

/// The pause between two reads of the log: `poll_ms`, but at least 100 ms.
pub fn poll_sleep_ms(poll_ms: u64) -> (r: u64)
    ensures
        r == (if poll_ms >= 100 {
            poll_ms
        } else {
            100
        }),
{
    if poll_ms >= 100 {
        poll_ms
    } else {
        100
    }
}

/// The retention in milliseconds.
pub fn retention_ms(retention_days: i64) -> (r: i64)
    requires
        fits_i64(retention_days * DAY_MS),
    ensures
        r == retention_days * DAY_MS,
{
    retention_days * DAY_MS
}

/// A line of the service log: the program's tag, then the message.
pub fn log_line(msg: &str) -> (r: String)
    ensures
        r@ == "[dnsmasq-cli-rs] "@ + msg@,
{
    let mut s = String::from_str("[dnsmasq-cli-rs] ");
    push_str(&mut s, msg);
    s
}

/// The message when the service starts.
pub fn start_message(log: &str, db: &str, retention_days: i64) -> (r: String)
    ensures
        r@ == "ingest start: log="@ + log@ + " db="@ + db@ + " retention="@ + padded_int(
            retention_days as int,
            0,
        ) + "d"@,
{
    let mut s = String::from_str("ingest start: log=");
    push_str(&mut s, log);
    push_str(&mut s, " db=");
    push_str(&mut s, db);
    push_str(&mut s, " retention=");
    push_padded_i64(&mut s, retention_days, 0);
    push_str(&mut s, "d");
    s
}

/// The periodic progress message: rows committed since the last one, the offset last
/// stored and the number of pending queries.
pub fn heartbeat_message(committed: usize, offset: u64, pending: usize) -> (r: String)
    ensures
        r@ == "heartbeat: +"@ + decimal(committed as nat) + " rows, offset="@ + decimal(
            offset as nat,
        ) + ", pending="@ + decimal(pending as nat),
{
    let mut s = String::from_str("heartbeat: +");
    push_decimal(&mut s, committed as u64);
    push_str(&mut s, " rows, offset=");
    push_decimal(&mut s, offset);
    push_str(&mut s, ", pending=");
    push_decimal(&mut s, pending as u64);
    s
}

/// The message after a prune that deleted rows; none when it deleted nothing.
pub fn pruned_message(n: usize) -> (r: Option<String>)
    ensures
        match r {
            Some(m) => n > 0 && m@ == "pruned "@ + decimal(n as nat) + " rows"@,
            None => n == 0,
        },
{
    if n > 0 {
        let mut s = String::from_str("pruned ");
        push_decimal(&mut s, n as u64);
        push_str(&mut s, " rows");
        Some(s)
    } else {
        None
    }
}

} // verus!
