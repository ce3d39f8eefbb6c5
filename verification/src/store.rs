//! The stored shape of the data: rows, aggregates, the tail position, the clock.
//!
//! The SQLite database itself is reached by the application; this module holds what
//! is computed on the values read from it or written to it.

use vstd::prelude::*;

use crate::model::{new_event, opt_str, outcome_name, Outcome, OutcomeV, QueryEvent, QueryEventV};
use crate::text::{
    decimal, lemma_decimal_parses_back, parse_u64_range, parse_u64_spec, str_eq, to_chars,
    u64_to_string,
};

verus! {

/// A row shown by the TUI (with its database id).
#[derive(Clone, Debug)]
pub struct DbRow {
    pub id: i64,
    pub ev: QueryEvent,
}

pub struct DbRowV {
    pub id: i64,
    pub ev: QueryEventV,
}

impl View for DbRow {
    type V = DbRowV;

    open spec fn view(&self) -> DbRowV {
        DbRowV { id: self.id, ev: self.ev@ }
    }
}

pub open spec fn rows_view(s: Seq<DbRow>) -> Seq<DbRowV> {
    s.map_values(|r: DbRow| r@)
}

/// Aggregates over a window (`ts >= from`).
#[derive(Clone, Debug)]
pub struct Summary {
    pub total: i64,
    pub blocked: i64,
    /// Top domains among the queries that were not blocked.
    pub domains: Vec<CountRow>,
    /// Top blocked domains.
    pub blocked_domains: Vec<CountRow>,
    pub clients: Vec<CountRow>,
    pub qtypes: Vec<CountRow>,
    /// Counts per outcome.
    pub outcomes: Vec<CountRow>,
}

impl Default for Summary {
    fn default() -> (s: Self)
        ensures
            s.total == 0,
            s.blocked == 0,
            s.domains@.len() == 0,
            s.blocked_domains@.len() == 0,
            s.clients@.len() == 0,
            s.qtypes@.len() == 0,
            s.outcomes@.len() == 0,
    {
        Summary {
            total: 0,
            blocked: 0,
            domains: Vec::new(),
            blocked_domains: Vec::new(),
            clients: Vec::new(),
            qtypes: Vec::new(),
            outcomes: Vec::new(),
        }
    }
}

/// One aggregate line: a key, its count and how many of those were blocked.
#[derive(Clone, Debug)]
pub struct CountRow {
    pub key: String,
    pub count: i64,
    pub blocked: i64,
}

pub struct CountRowV {
    pub key: Seq<char>,
    pub count: i64,
    pub blocked: i64,
}

impl View for CountRow {
    type V = CountRowV;

    open spec fn view(&self) -> CountRowV {
        CountRowV { key: self.key@, count: self.count, blocked: self.blocked }
    }
}

pub open spec fn counts_view(s: Seq<CountRow>) -> Seq<CountRowV> {
    s.map_values(|r: CountRow| r@)
}

/// Counts of one local day (`day_ms` is the UTC millis of its local midnight).
#[derive(Clone, Copy, Debug)]
pub struct DayRow {
    pub day_ms: i64,
    pub cached: i64,
    pub reply: i64,
    pub forwarded: i64,
    pub blocked: i64,
}

impl DayRow {
    /// A day without any query.
    pub fn zeros(day_ms: i64) -> (r: DayRow)
        ensures
            r == (DayRow { day_ms, cached: 0, reply: 0, forwarded: 0, blocked: 0 }),
    {
        DayRow { day_ms, cached: 0, reply: 0, forwarded: 0, blocked: 0 }
    }

    /// Queries that were answered (cached, replied or forwarded).
    pub fn resolved(&self) -> (r: i64)
        requires
            fits_i64(self.cached + self.reply),
            fits_i64(self.cached + self.reply + self.forwarded),
        ensures
            r == self.cached + self.reply + self.forwarded,
    {
        self.cached + self.reply + self.forwarded
    }
}

pub open spec fn fits_i64(x: int) -> bool {
    i64::MIN <= x <= i64::MAX
}

/// The outcome a stored name stands for. Names without a variant of their own come
/// back as `Other`.
pub open spec fn outcome_from_name(s: Seq<char>) -> OutcomeV {
    if s == "blocked"@ {
        OutcomeV::Blocked
    } else if s == "forwarded"@ {
        OutcomeV::Forwarded
    } else if s == "cached"@ {
        OutcomeV::Cached
    } else if s == "cached-stale"@ {
        OutcomeV::CachedStale
    } else if s == "reply"@ {
        OutcomeV::Reply
    } else if s == "hosts"@ {
        OutcomeV::Hosts
    } else if s == "unknown"@ {
        OutcomeV::Unknown
    } else {
        OutcomeV::Other(s)
    }
}

impl Outcome {
    /// The outcome of a stored name.
    pub fn from_db(s: &str) -> (o: Outcome)
        ensures
            o@ == outcome_from_name(s@),
    {
        if str_eq(s, "blocked") {
            Outcome::Blocked
        } else if str_eq(s, "forwarded") {
            Outcome::Forwarded
        } else if str_eq(s, "cached") {
            Outcome::Cached
        } else if str_eq(s, "cached-stale") {
            Outcome::CachedStale
        } else if str_eq(s, "reply") {
            Outcome::Reply
        } else if str_eq(s, "hosts") {
            Outcome::Hosts
        } else if str_eq(s, "unknown") {
            Outcome::Unknown
        } else {
            Outcome::Other(String::from_str(s))
        }
    }
}

/// Storing an outcome by its name and reading it back gives the same outcome (an
/// `Other` kind reads back as itself unless it is spelled like a named outcome).
pub proof fn lemma_outcome_name_roundtrip(o: OutcomeV)
    requires
        o matches OutcomeV::Other(s) ==> outcome_from_name(s) == o,
    ensures
        outcome_from_name(outcome_name(o)) == o,
{
    reveal_strlit("blocked");
    reveal_strlit("forwarded");
    reveal_strlit("cached");
    reveal_strlit("cached-stale");
    reveal_strlit("reply");
    reveal_strlit("hosts");
    reveal_strlit("unknown");
    let cs = "cached-stale"@;
    assert(cs.len() == 12 && cs[0] == 'c');
    assert(cs != "blocked"@ && cs != "forwarded"@ && cs != "cached"@);
    let b = "blocked"@;
    let f = "forwarded"@;
    let c = "cached"@;
    let r = "reply"@;
    let h = "hosts"@;
    let u = "unknown"@;
    assert(b[0] == 'b' && f[0] == 'f' && c[0] == 'c' && r[0] == 'r' && h[0] == 'h' && u[0] == 'u');
    assert(b != f && b != c && b != r && b != h && b != u);
    assert(f != c && f != r && f != h && f != u);
    assert(c != r && c != h && c != u);
    assert(r != h && r != u);
    assert(h != u);
}

/// A row from the columns of the `queries` table
/// (`id, ts, pid, seq, client, domain, qtype, outcome, answer, raw`).
pub fn map_row(
    id: i64,
    ts: i64,
    pid: Option<i64>,
    seq: Option<i64>,
    client: String,
    domain: String,
    qtype: Option<String>,
    outcome: &str,
    answer: Option<String>,
    raw: String,
) -> (r: DbRow)
    ensures
        r.id == id,
        r.ev@ == (QueryEventV {
            ts,
            pid,
            seq,
            client: client@,
            domain: domain@,
            qtype: opt_str(qtype),
            outcome: outcome_from_name(outcome@),
            answer: opt_str(answer),
            raw: raw@,
        }),
{
    DbRow {
        id,
        ev: QueryEvent {
            ts,
            pid,
            seq,
            client,
            domain,
            qtype,
            outcome: Outcome::from_db(outcome),
            answer,
            raw,
        },
    }
}

/// `MIN(ts), MAX(ts)` of the table: a range only when both are present.
pub fn time_range_of(min_ts: Option<i64>, max_ts: Option<i64>) -> (r: Option<(i64, i64)>)
    ensures
        r == match (min_ts, max_ts) {
            (Some(a), Some(b)) => Some((a, b)),
            _ => None,
        },
{
    match (min_ts, max_ts) {
        (Some(a), Some(b)) => Some((a, b)),
        _ => None,
    }
}

/// Rows older than `older_than_ms` before `now_ms` are pruned: `ts < cutoff`.
pub fn prune_cutoff(now_ms: i64, older_than_ms: i64) -> (c: i64)
    requires
        fits_i64(now_ms - older_than_ms),
    ensures
        c == now_ms - older_than_ms,
{
    now_ms - older_than_ms
}

// ---------------------------------------------------------------------------
// The tail position kept in the `meta` table
// ---------------------------------------------------------------------------

/// The text stored for a tail inode or offset.
pub fn tail_text(n: u64) -> (s: String)
    ensures
        s@ == decimal(n as nat),
{
    u64_to_string(n)
}

/// A stored tail inode or offset read back: the number, or 0 when it is missing or
/// is not a `u64`.
pub fn tail_value(s: Option<String>) -> (n: u64)
    ensures
        n == match s {
            Some(t) => match parse_u64_spec(t@) {
                Some(v) => v,
                None => 0,
            },
            None => 0,
        },
{
    match s {
        Some(t) => {
            let v = to_chars(t.as_str());
            proof {
                assert(v@.subrange(0, v@.len() as int) =~= t@);
            }
            match parse_u64_range(&v, 0, v.len()) {
                Some(n) => n,
                None => 0,
            }
        },
        None => 0,
    }
}

/// The tail position survives a restart: what is stored is read back unchanged.
pub proof fn lemma_tail_roundtrip(n: u64, stored: Seq<char>)
    requires
        stored == decimal(n as nat),
    ensures
        parse_u64_spec(stored) == Some(n),
{
    lemma_decimal_parses_back(n);
}

// ---------------------------------------------------------------------------
// The clock
// ---------------------------------------------------------------------------

#[verifier::external_type_specification]
#[verifier::external_body]
pub struct ExSystemTime(std::time::SystemTime);

#[verifier::external_body]
/// Calls `SystemTime::now`. Nothing is claimed of the value: it is the time.
fn system_now() -> (t: std::time::SystemTime) {
    std::time::SystemTime::now()
}

#[verifier::external_body]
/// Calls `SystemTime::duration_since(UNIX_EPOCH)`; `None` when `t` is before the epoch.
/// Nothing is claimed of the duration.
fn since_epoch(t: &std::time::SystemTime) -> (d: Option<std::time::Duration>) {
    match t.duration_since(std::time::UNIX_EPOCH) {
        Ok(d) => Some(d),
        Err(_) => None,
    }
}

#[verifier::external_body]
/// Calls `Duration::as_millis`. The duration is opaque here, so nothing is claimed of
/// the number.
fn duration_millis(d: &std::time::Duration) -> (ms: u128) {
    d.as_millis()
}

/// Unix millis from the milliseconds since the epoch (`None` when the clock reads
/// before the epoch): 0 then, otherwise the count as `as i64` converts it.
pub fn epoch_millis(ms: Option<u128>) -> (r: i64)
    ensures
        r == match ms {
            Some(m) => m as i64,
            None => 0i64,
        },
{
    match ms {
        Some(m) => m as i64,
        None => 0,
    }
}

/// The current time in unix millis (0 when the clock reads before the epoch). The
/// value is the clock's; `epoch_millis` states what is done with the reading.
pub fn now_millis() -> (r: i64) {
    let t = system_now();
    let ms = match since_epoch(&t) {
        Some(d) => Some(duration_millis(&d)),
        None => None,
    };
    epoch_millis(ms)
}

} // verus!
