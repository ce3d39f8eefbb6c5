//! Data model: a query event and the classification of its outcome.

use vstd::prelude::*;

verus! {

/// How dnsmasq finally answered a query.
#[derive(Clone, Debug, PartialEq, Eq)]
pub enum Outcome {
    /// Blocked by an ad-block entry such as `address=/.../0.0.0.0`.
    Blocked,
    /// Sent upstream (before the reply line arrives).
    Forwarded,
    /// Answered from dnsmasq's cache.
    Cached,
    /// Answered from an expired cache entry (serve-stale / use-stale-cache).
    CachedStale,
    /// Answered by the upstream server.
    Reply,
    /// Answered from /etc/hosts.
    Hosts,
    /// Anything else (`config` with a real address, `nameserver`, ...); keeps the kind.
    Other(String),
    /// No outcome line was seen.
    Unknown,
}

/// The mathematical value of an [`Outcome`].
pub enum OutcomeV {
    Blocked,
    Forwarded,
    Cached,
    CachedStale,
    Reply,
    Hosts,
    Other(Seq<char>),
    Unknown,
}

impl View for Outcome {
    type V = OutcomeV;

    open spec fn view(&self) -> OutcomeV {
        match self {
            Outcome::Blocked => OutcomeV::Blocked,
            Outcome::Forwarded => OutcomeV::Forwarded,
            Outcome::Cached => OutcomeV::Cached,
            Outcome::CachedStale => OutcomeV::CachedStale,
            Outcome::Reply => OutcomeV::Reply,
            Outcome::Hosts => OutcomeV::Hosts,
            Outcome::Other(s) => OutcomeV::Other(s@),
            Outcome::Unknown => OutcomeV::Unknown,
        }
    }
}

/// The name under which an outcome is stored and displayed.
pub open spec fn outcome_name(o: OutcomeV) -> Seq<char> {
    match o {
        OutcomeV::Blocked => "blocked"@,
        OutcomeV::Forwarded => "forwarded"@,
        OutcomeV::Cached => "cached"@,
        OutcomeV::CachedStale => "cached-stale"@,
        OutcomeV::Reply => "reply"@,
        OutcomeV::Hosts => "hosts"@,
        OutcomeV::Unknown => "unknown"@,
        OutcomeV::Other(s) => s,
    }
}

impl Outcome {
    pub fn as_str(&self) -> (r: &str)
        ensures
            r@ == outcome_name(self@),
    {
        match self {
            Outcome::Blocked => "blocked",
            Outcome::Forwarded => "forwarded",
            Outcome::Cached => "cached",
            Outcome::CachedStale => "cached-stale",
            Outcome::Reply => "reply",
            Outcome::Hosts => "hosts",
            Outcome::Unknown => "unknown",
            Outcome::Other(s) => s.as_str(),
        }
    }

    pub fn is_blocked(&self) -> (b: bool)
        ensures
            b == (self@ is Blocked),
    {
        match self {
            Outcome::Blocked => true,
            _ => false,
        }
    }
}

/// The view of an optional string.
pub open spec fn opt_str(o: Option<String>) -> Option<Seq<char>> {
    match o {
        Some(s) => Some(s@),
        None => None,
    }
}

/// One query: a `query[...]` line joined with the outcome line of the same `seq`.
#[derive(Clone, Debug)]
pub struct QueryEvent {
    /// Ingest time (unix millis); the dedicated dnsmasq log carries no timestamps.
    pub ts: i64,
    /// dnsmasq's PID (from the `dnsmasq[PID]:` prefix).
    pub pid: Option<i64>,
    /// The `log-queries=extra` sequence number; it restarts at 1 with dnsmasq.
    pub seq: Option<i64>,
    /// Client IP.
    pub client: String,
    pub domain: String,
    pub qtype: Option<String>,
    pub outcome: Outcome,
    /// Answer address, upstream server, NXDOMAIN and the like.
    pub answer: Option<String>,
    pub raw: String,
}

/// The mathematical value of a [`QueryEvent`].
pub struct QueryEventV {
    pub ts: i64,
    pub pid: Option<i64>,
    pub seq: Option<i64>,
    pub client: Seq<char>,
    pub domain: Seq<char>,
    pub qtype: Option<Seq<char>>,
    pub outcome: OutcomeV,
    pub answer: Option<Seq<char>>,
    pub raw: Seq<char>,
}

impl View for QueryEvent {
    type V = QueryEventV;

    open spec fn view(&self) -> QueryEventV {
        QueryEventV {
            ts: self.ts,
            pid: self.pid,
            seq: self.seq,
            client: self.client@,
            domain: self.domain@,
            qtype: opt_str(self.qtype),
            outcome: self.outcome@,
            answer: opt_str(self.answer),
            raw: self.raw@,
        }
    }
}

/// A fresh event: only the time and the domain are known.
pub open spec fn new_event(ts: i64, domain: Seq<char>) -> QueryEventV {
    QueryEventV {
        ts,
        pid: None,
        seq: None,
        client: Seq::empty(),
        domain,
        qtype: None,
        outcome: OutcomeV::Unknown,
        answer: None,
        raw: Seq::empty(),
    }
}

impl QueryEvent {
    pub fn new(ts: i64, domain: String) -> (r: Self)
        ensures
            r@ == new_event(ts, domain@),
    {
        QueryEvent {
            ts,
            pid: None,
            seq: None,
            client: String::new(),
            domain,
            qtype: None,
            outcome: Outcome::Unknown,
            answer: None,
            raw: String::new(),
        }
    }
}

/// The views of a sequence of events.
pub open spec fn events_view(s: Seq<QueryEvent>) -> Seq<QueryEventV> {
    s.map_values(|e: QueryEvent| e@)
}

} // verus!
