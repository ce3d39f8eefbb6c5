//! Parses dnsmasq query-log lines.
//!
//! The format is the one `log-queries=extra` produces:
//! ```text
//! dnsmasq[PID]: <seq> <client>/<port> query[A] <domain> from <client>
//! dnsmasq[PID]: <seq> <client>/<port> forwarded <domain> to <server>
//! dnsmasq[PID]: <seq> <client>/<port> reply <domain> is <ip>
//! dnsmasq[PID]: <seq> <client>/<port> cached <domain> is <ip|NXDOMAIN|NODATA>
//! dnsmasq[PID]: <seq> <client>/<port> config <domain> is <ip>      (0.0.0.0 / :: is a block)
//! dnsmasq[PID]: <seq> <client>/<port> /etc/hosts <domain> is <ip>
//! ```
//! The `dnsmasq[PID]:` prefix is optional (lines written straight to a log file lack it).

use vstd::prelude::*;

use crate::model::{opt_str, Outcome, OutcomeV, QueryEvent, QueryEventV};
use crate::text::{
    parse_i64_range, parse_i64_spec, push_char, range_eq, span_text, spans_text, spans_within,
    split_words, string_of, to_chars, trim, trim_bounds, trim_start, words, Span,
};

verus! {

/// What one log line says.
#[derive(Clone, Debug)]
pub enum Parsed {
    /// A `query[...]` line; its outcome is not known yet.
    Query(QueryEvent),
    /// An answer, forward, config or similar line.
    Outcome { seq: Option<i64>, outcome: Outcome, answer: Option<String> },
    /// A line of no interest.
    Ignore,
}

/// The mathematical value of [`Parsed`].
pub enum ParsedV {
    Query(QueryEventV),
    Outcome { seq: Option<i64>, outcome: OutcomeV, answer: Option<Seq<char>> },
    Ignore,
}

impl View for Parsed {
    type V = ParsedV;

    open spec fn view(&self) -> ParsedV {
        match self {
            Parsed::Query(ev) => ParsedV::Query(ev@),
            Parsed::Outcome { seq, outcome, answer } => ParsedV::Outcome {
                seq: *seq,
                outcome: outcome@,
                answer: opt_str(*answer),
            },
            Parsed::Ignore => ParsedV::Ignore,
        }
    }
}

// ---------------------------------------------------------------------------
// Searching
// ---------------------------------------------------------------------------

pub open spec fn is_first_char(s: Seq<char>, c: char, i: int) -> bool {
    &&& 0 <= i < s.len()
    &&& s[i] == c
    &&& forall|j: int| 0 <= j < i ==> s[j] != c
}

/// Position of the first `c` in `s` (`str::find` with a `char`).
pub open spec fn find_char(s: Seq<char>, c: char) -> Option<int> {
    if exists|i: int| is_first_char(s, c, i) {
        Some(choose|i: int| is_first_char(s, c, i))
    } else {
        None
    }
}

pub proof fn lemma_find_char(s: Seq<char>, c: char, i: int)
    requires
        is_first_char(s, c, i),
    ensures
        find_char(s, c) == Some(i),
{
    let k = choose|k: int| is_first_char(s, c, k);
    assert(is_first_char(s, c, k));
    if k < i {
        assert(s[k] != c);
    }
    if i < k {
        assert(s[i] != c);
    }
}

pub open spec fn occurs_at(s: Seq<char>, t: Seq<char>, i: int) -> bool {
    0 <= i && i + t.len() <= s.len() && s.subrange(i, i + t.len()) == t
}

pub open spec fn is_first_occurrence(s: Seq<char>, t: Seq<char>, i: int) -> bool {
    &&& occurs_at(s, t, i)
    &&& forall|j: int| 0 <= j < i ==> !occurs_at(s, t, j)
}

/// Position of the first occurrence of `t` in `s` (`str::find` with a `&str`).
pub open spec fn find_seq(s: Seq<char>, t: Seq<char>) -> Option<int> {
    if exists|i: int| is_first_occurrence(s, t, i) {
        Some(choose|i: int| is_first_occurrence(s, t, i))
    } else {
        None
    }
}

pub proof fn lemma_find_seq(s: Seq<char>, t: Seq<char>, i: int)
    requires
        is_first_occurrence(s, t, i),
    ensures
        find_seq(s, t) == Some(i),
{
    let k = choose|k: int| is_first_occurrence(s, t, k);
    assert(is_first_occurrence(s, t, k));
    if k < i {
        assert(!occurs_at(s, t, k));
    }
    if i < k {
        assert(!occurs_at(s, t, i));
    }
}

pub open spec fn is_first_word(ws: Seq<Seq<char>>, w: Seq<char>, i: int) -> bool {
    &&& 0 <= i < ws.len()
    &&& ws[i] == w
    &&& forall|j: int| 0 <= j < i ==> ws[j] != w
}

/// Position of the first word equal to `w` (`Iterator::position`).
pub open spec fn find_word(ws: Seq<Seq<char>>, w: Seq<char>) -> Option<int> {
    if exists|i: int| is_first_word(ws, w, i) {
        Some(choose|i: int| is_first_word(ws, w, i))
    } else {
        None
    }
}

pub proof fn lemma_find_word(ws: Seq<Seq<char>>, w: Seq<char>, i: int)
    requires
        is_first_word(ws, w, i),
    ensures
        find_word(ws, w) == Some(i),
{
    let k = choose|k: int| is_first_word(ws, w, k);
    assert(is_first_word(ws, w, k));
    if k < i {
        assert(ws[k] != w);
    }
    if i < k {
        assert(ws[i] != w);
    }
}

/// The word right after the first word equal to `w`, if both exist.
pub open spec fn word_after(ws: Seq<Seq<char>>, w: Seq<char>) -> Option<Seq<char>> {
    match find_word(ws, w) {
        Some(p) => if p + 1 < ws.len() {
            Some(ws[p + 1])
        } else {
            None
        },
        None => None,
    }
}

/// Words joined with single spaces (`[&str]::join(" ")`).
pub open spec fn join_words(ws: Seq<Seq<char>>) -> Seq<char>
    decreases ws.len(),
{
    if ws.len() == 0 {
        Seq::empty()
    } else if ws.len() == 1 {
        ws[0]
    } else {
        join_words(ws.drop_last()) + seq![' '] + ws.last()
    }
}

// ---------------------------------------------------------------------------
// The line format
// ---------------------------------------------------------------------------

/// Splits off a `dnsmasq[PID]:` prefix: the PID (when it is a number) and the rest
/// with leading whitespace removed. Anything before the prefix (a syslog header)
/// is dropped too. Without a complete prefix: no PID and the whole line.
pub open spec fn split_pid_spec(line: Seq<char>) -> (Option<i64>, Seq<char>) {
    match find_seq(line, "dnsmasq["@) {
        Some(start) => {
            let after = line.skip(start + "dnsmasq["@.len());
            match find_char(after, ']') {
                Some(end) => {
                    let rest = after.skip(end + 1);
                    let rest = if rest.len() > 0 && rest[0] == ':' {
                        rest.drop_first()
                    } else {
                        rest
                    };
                    (parse_i64_spec(after.take(end)), trim_start(rest))
                },
                None => (None, line),
            }
        },
        None => (None, line),
    }
}

/// `s` without its trailing dots.
pub open spec fn trim_end_dots(s: Seq<char>) -> Seq<char>
    decreases s.len(),
{
    if s.len() > 0 && s.last() == '.' {
        trim_end_dots(s.drop_last())
    } else {
        s
    }
}

/// A sinkhole answer: `0.0.0.0` or `::`, ignoring surrounding whitespace and trailing dots.
pub open spec fn is_null_addr_spec(s: Seq<char>) -> bool {
    let t = trim_end_dots(trim(s));
    t == "0.0.0.0"@ || t == "::"@
}

/// The event a `query[...]` line describes; `rest` holds the words after the
/// optional `<seq> <client>/<port>` pair.
pub open spec fn query_event_spec(
    rest: Seq<Seq<char>>,
    ts: i64,
    pid: Option<i64>,
    seq: Option<i64>,
    client0: Seq<char>,
    line: Seq<char>,
) -> QueryEventV {
    let stripped = rest[0].skip(6);
    QueryEventV {
        ts,
        pid,
        seq,
        client: match word_after(rest, "from"@) {
            Some(c) => c,
            None => client0,
        },
        domain: if rest.len() > 1 {
            rest[1]
        } else {
            Seq::empty()
        },
        qtype: if stripped.len() > 0 && stripped.last() == ']' {
            Some(stripped.drop_last())
        } else {
            None
        },
        outcome: OutcomeV::Unknown,
        answer: None,
        raw: line,
    }
}

/// The words from the fourth on, joined; none when there are no such words.
pub open spec fn answer_from_fourth(rest: Seq<Seq<char>>) -> Option<Seq<char>> {
    if rest.len() > 3 {
        Some(join_words(rest.skip(3)))
    } else {
        None
    }
}

/// The outcome a line of the given kind denotes, if it is one of interest.
pub open spec fn outcome_of_kind(kind: Seq<char>, answer: Seq<char>) -> Option<OutcomeV> {
    if kind == "forwarded"@ {
        Some(OutcomeV::Forwarded)
    } else if kind == "reply"@ {
        Some(
            if is_null_addr_spec(answer) {
                OutcomeV::Blocked
            } else {
                OutcomeV::Reply
            },
        )
    } else if kind == "cached"@ {
        Some(OutcomeV::Cached)
    } else if kind == "cached-stale"@ {
        Some(OutcomeV::CachedStale)
    } else if kind == "config"@ {
        Some(
            if is_null_addr_spec(answer) {
                OutcomeV::Blocked
            } else {
                OutcomeV::Other("config"@)
            },
        )
    } else if kind == "/etc/hosts"@ {
        Some(OutcomeV::Hosts)
    } else if kind == "nameserver"@ {
        Some(OutcomeV::Other("nameserver"@))
    } else {
        None
    }
}

/// What an outcome line says; `rest` holds the words after the optional
/// `<seq> <client>/<port>` pair.
pub open spec fn outcome_line_spec(rest: Seq<Seq<char>>, seq: Option<i64>) -> ParsedV {
    let kind = rest[0];
    let a3 = answer_from_fourth(rest);
    match outcome_of_kind(
        kind,
        match a3 {
            Some(a) => a,
            None => Seq::empty(),
        },
    ) {
        Some(o) => ParsedV::Outcome {
            seq,
            outcome: o,
            answer: if kind == "forwarded"@ {
                word_after(rest, "to"@)
            } else {
                a3
            },
        },
        None => ParsedV::Ignore,
    }
}

/// The words of a line start with `<seq> <client>/<port>`.
pub open spec fn has_seq_client(toks: Seq<Seq<char>>) -> bool {
    toks.len() >= 2 && parse_i64_spec(toks[0]) is Some && find_char(toks[1], '/') is Some
}

/// What a raw log line says; `ts` is the ingest time given to a query event.
pub open spec fn parse_line_spec(raw: Seq<char>, ts: i64) -> ParsedV {
    let line = trim(raw);
    let (pid, payload) = split_pid_spec(line);
    let toks = words(payload);
    let extra = has_seq_client(toks);
    let seq = if extra {
        parse_i64_spec(toks[0])
    } else {
        None
    };
    let client0 = if extra {
        toks[1].take(find_char(toks[1], '/').unwrap())
    } else {
        Seq::empty()
    };
    let rest = if extra {
        toks.skip(2)
    } else {
        toks
    };
    if line.len() == 0 || toks.len() == 0 || rest.len() == 0 {
        ParsedV::Ignore
    } else if rest[0].len() >= 6 && rest[0].take(6) == "query["@ {
        ParsedV::Query(query_event_spec(rest, ts, pid, seq, client0, line))
    } else {
        outcome_line_spec(rest, seq)
    }
}

// ---------------------------------------------------------------------------
// Implementation
// ---------------------------------------------------------------------------

/// First position of `c` in `v[lo..hi]`, relative to `lo`.
pub fn find_char_in(v: &Vec<char>, lo: usize, hi: usize, c: char) -> (r: Option<usize>)
    requires
        lo <= hi <= v@.len(),
    ensures
        match r {
            Some(k) => find_char(v@.subrange(lo as int, hi as int), c) == Some(k as int)
                && lo + k < hi,
            None => find_char(v@.subrange(lo as int, hi as int), c) is None,
        },
{
    let ghost s = v@.subrange(lo as int, hi as int);
    let mut i = lo;
    while i < hi
        invariant
            lo <= i <= hi,
            hi <= v@.len(),
            s == v@.subrange(lo as int, hi as int),
            forall|j: int| 0 <= j < i - lo ==> s[j] != c,
        decreases hi - i,
    {
        if v[i] == c {
            proof {
                assert(s[i - lo] == c);
                lemma_find_char(s, c, i - lo);
            }
            return Some(i - lo);
        }
        proof {
            assert(s[i - lo] == v@[i as int]);
        }
        i = i + 1;
    }
    proof {
        if exists|k: int| is_first_char(s, c, k) {
            let k = choose|k: int| is_first_char(s, c, k);
            assert(s[k] == c);
        }
    }
    None
}

/// First position of the word `w` among `ws[from..]`, relative to `from`.
fn find_word_in(v: &Vec<char>, ws: &Vec<Span>, from: usize, w: &str) -> (r: Option<usize>)
    requires
        from <= ws@.len(),
        spans_within(ws@, 0, v@.len() as int),
    ensures
        match r {
            Some(k) => find_word(spans_text(v@, ws@).skip(from as int), w@) == Some(k as int)
                && from + k < ws@.len(),
            None => find_word(spans_text(v@, ws@).skip(from as int), w@) is None,
        },
{
    let ghost t = spans_text(v@, ws@).skip(from as int);
    let mut i = from;
    while i < ws.len()
        invariant
            from <= i <= ws@.len(),
            spans_within(ws@, 0, v@.len() as int),
            t == spans_text(v@, ws@).skip(from as int),
            forall|j: int| 0 <= j < i - from ==> t[j] != w@,
        decreases ws@.len() - i,
    {
        let sp = &ws[i];
        let eq = range_eq(v, sp.lo, sp.hi, w);
        proof {
            assert(t[i - from] == span_text(v@, ws@[i as int]));
        }
        if eq {
            proof {
                lemma_find_word(t, w@, i - from);
            }
            return Some(i - from);
        }
        i = i + 1;
    }
    proof {
        if exists|k: int| is_first_word(t, w@, k) {
            let k = choose|k: int| is_first_word(t, w@, k);
            assert(t[k] == w@);
        }
    }
    None
}

/// The text of the word after the first word `w` among `ws[from..]`.
fn word_after_in(v: &Vec<char>, ws: &Vec<Span>, from: usize, w: &str) -> (r: Option<String>)
    requires
        from <= ws@.len(),
        spans_within(ws@, 0, v@.len() as int),
    ensures
        opt_str(r) == word_after(spans_text(v@, ws@).skip(from as int), w@),
{
    let ghost t = spans_text(v@, ws@).skip(from as int);
    match find_word_in(v, ws, from, w) {
        Some(p) => {
            assert(from + p < ws@.len());
            if ws.len() - from - p > 1 {
                let sp = &ws[from + p + 1];
                let s = string_of(v, sp.lo, sp.hi);
                proof {
                    assert(t[p + 1] == span_text(v@, ws@[from + p + 1]));
                }
                Some(s)
            } else {
                None
            }
        },
        None => None,
    }
}

/// The words `ws[from..]` joined with single spaces.
fn join_spans(v: &Vec<char>, ws: &Vec<Span>, from: usize) -> (s: String)
    requires
        from <= ws@.len(),
        spans_within(ws@, 0, v@.len() as int),
    ensures
        s@ == join_words(spans_text(v@, ws@).skip(from as int)),
{
    let ghost t = spans_text(v@, ws@).skip(from as int);
    let mut s = String::new();
    let mut i = from;
    proof {
        assert(t.take(0) =~= Seq::<Seq<char>>::empty());
    }
    while i < ws.len()
        invariant
            from <= i <= ws@.len(),
            spans_within(ws@, 0, v@.len() as int),
            t == spans_text(v@, ws@).skip(from as int),
            s@ == join_words(t.take(i - from)),
        decreases ws@.len() - i,
    {
        let ghost before = s@;
        if i > from {
            push_char(&mut s, ' ');
        }
        let sp = &ws[i];
        let mut k = sp.lo;
        let ghost mid = s@;
        while k < sp.hi
            invariant
                sp.lo <= k <= sp.hi <= v@.len(),
                s@ == mid + v@.subrange(sp.lo as int, k as int),
            decreases sp.hi - k,
        {
            push_char(&mut s, v[k]);
            proof {
                assert(v@.subrange(sp.lo as int, k + 1) =~= v@.subrange(sp.lo as int, k as int).push(
                    v@[k as int],
                ));
            }
            k = k + 1;
        }
        proof {
            let tk = t.take(i + 1 - from);
            assert(tk.last() == span_text(v@, ws@[i as int]));
            assert(tk.drop_last() =~= t.take(i - from));
            if i > from {
                assert(s@ =~= join_words(tk.drop_last()) + seq![' '] + tk.last());
            } else {
                assert(tk.len() == 1);
                assert(s@ =~= tk[0]);
            }
        }
        i = i + 1;
    }
    proof {
        assert(t.take(ws@.len() - from) =~= t);
    }
    s
}

/// Removes trailing dots from `v[lo..hi]`.
fn trim_dots_back(v: &Vec<char>, lo: usize, hi: usize) -> (k: usize)
    requires
        lo <= hi <= v@.len(),
    ensures
        lo <= k <= hi,
        v@.subrange(lo as int, k as int) == trim_end_dots(v@.subrange(lo as int, hi as int)),
{
    let mut k = hi;
    while k > lo && v[k - 1] == '.'
        invariant
            lo <= k <= hi <= v@.len(),
            trim_end_dots(v@.subrange(lo as int, hi as int)) == trim_end_dots(
                v@.subrange(lo as int, k as int),
            ),
        decreases k - lo,
    {
        proof {
            let s = v@.subrange(lo as int, k as int);
            assert(s.last() == v@[k - 1]);
            assert(s.drop_last() =~= v@.subrange(lo as int, k - 1));
        }
        k = k - 1;
    }
    proof {
        let s = v@.subrange(lo as int, k as int);
        if s.len() > 0 {
            assert(s.last() == v@[k - 1]);
        }
    }
    k
}

/// A sinkhole answer: `0.0.0.0` or `::`.
pub fn is_null_addr(s: &str) -> (b: bool)
    ensures
        b == is_null_addr_spec(s@),
{
    let v = to_chars(s);
    let (lo, hi) = trim_bounds(&v, 0, v.len());
    let k = trim_dots_back(&v, lo, hi);
    proof {
        assert(v@.subrange(0, v@.len() as int) =~= s@);
    }
    range_eq(&v, lo, k, "0.0.0.0") || range_eq(&v, lo, k, "::")
}

/// Splits a `dnsmasq[PID]:` prefix off `v[lo..hi]`: the PID and where the payload starts.
fn split_pid(v: &Vec<char>, lo: usize, hi: usize) -> (r: (Option<i64>, usize))
    requires
        lo <= hi <= v@.len(),
    ensures
        lo <= r.1 <= hi,
        r.0 == split_pid_spec(v@.subrange(lo as int, hi as int)).0,
        v@.subrange(r.1 as int, hi as int) == split_pid_spec(v@.subrange(lo as int, hi as int)).1,
{
    let ghost line = v@.subrange(lo as int, hi as int);
    let tag = "dnsmasq[";
    proof {
        reveal_strlit("dnsmasq[");
    }
    let mut i = lo;
    let mut found = false;
    while hi - i >= 8 && !found
        invariant
            lo <= i <= hi,
            hi <= v@.len(),
            line == v@.subrange(lo as int, hi as int),
            tag@.len() == 8,
            tag@ == "dnsmasq["@,
            found ==> occurs_at(line, tag@, i - lo),
            forall|j: int| 0 <= j < i - lo ==> !occurs_at(line, tag@, j),
        decreases hi - i + (if found { 0int } else { 1int }),
    {
        if range_eq(v, i, i + 8, tag) {
            proof {
                assert(line.subrange(i - lo, i - lo + 8) =~= v@.subrange(i as int, i + 8));
            }
            found = true;
        } else {
            proof {
                assert(line.subrange(i - lo, i - lo + 8) =~= v@.subrange(i as int, i + 8));
            }
            i = i + 1;
        }
    }
    if !found {
        proof {
            if exists|k: int| is_first_occurrence(line, tag@, k) {
                let k = choose|k: int| is_first_occurrence(line, tag@, k);
                assert(occurs_at(line, tag@, k));
            }
        }
        return (None, lo);
    }
    proof {
        lemma_find_seq(line, tag@, i - lo);
    }
    let a = i + 8;
    proof {
        assert(line.skip(i - lo + 8) =~= v@.subrange(a as int, hi as int));
    }
    match find_char_in(v, a, hi, ']') {
        Some(end) => {
            let pid = parse_i64_range(v, a, a + end);
            let ghost after = v@.subrange(a as int, hi as int);
            proof {
                assert(after.take(end as int) =~= v@.subrange(a as int, a + end));
            }
            let mut b = a + end + 1;
            proof {
                assert(after.skip(end + 1) =~= v@.subrange(b as int, hi as int));
            }
            if b < hi && v[b] == ':' {
                proof {
                    let rest = after.skip(end + 1);
                    assert(rest[0] == v@[b as int]);
                    assert(rest.drop_first() =~= v@.subrange(b + 1, hi as int));
                }
                b = b + 1;
            } else {
                proof {
                    let rest = after.skip(end + 1);
                    if rest.len() > 0 {
                        assert(rest[0] == v@[b as int]);
                    }
                }
            }
            let (c, _d) = trim_bounds(v, b, hi);
            (pid, c)
        },
        None => (None, lo),
    }
}

/// The event of a `query[...]` line whose words after the optional pair start at `toks[idx]`.
fn query_line(
    v: &Vec<char>,
    toks: &Vec<Span>,
    idx: usize,
    ts: i64,
    pid: Option<i64>,
    seq: Option<i64>,
    client0: String,
    lo: usize,
    hi: usize,
) -> (ev: QueryEvent)
    requires
        idx < toks@.len(),
        lo <= hi <= v@.len(),
        spans_within(toks@, 0, v@.len() as int),
        spans_text(v@, toks@)[idx as int].len() >= 6,
    ensures
        ev@ == query_event_spec(
            spans_text(v@, toks@).skip(idx as int),
            ts,
            pid,
            seq,
            client0@,
            v@.subrange(lo as int, hi as int),
        ),
{
    let ghost rest = spans_text(v@, toks@).skip(idx as int);
    let first = &toks[idx];
    proof {
        assert(rest[0] == span_text(v@, toks@[idx as int]));
    }
    let qtype = if first.hi - first.lo > 6 && v[first.hi - 1] == ']' {
        proof {
            let stripped = rest[0].skip(6);
            assert(stripped.last() == v@[first.hi - 1]);
            assert(stripped.drop_last() =~= v@.subrange(first.lo + 6, first.hi - 1));
        }
        Some(string_of(v, first.lo + 6, first.hi - 1))
    } else {
        proof {
            let stripped = rest[0].skip(6);
            if stripped.len() > 0 {
                assert(stripped.last() == v@[first.hi - 1]);
            }
        }
        None
    };
    let domain = if toks.len() - idx > 1 {
        let t = &toks[idx + 1];
        proof {
            assert(rest[1] == span_text(v@, toks@[idx + 1]));
        }
        string_of(v, t.lo, t.hi)
    } else {
        String::new()
    };
    let client = match word_after_in(v, toks, idx, "from") {
        Some(c) => c,
        None => client0,
    };
    let mut ev = QueryEvent::new(ts, domain);
    ev.pid = pid;
    ev.seq = seq;
    ev.client = client;
    ev.qtype = qtype;
    ev.raw = string_of(v, lo, hi);
    ev
}

/// What an outcome line says, its words after the optional pair starting at `toks[idx]`.
fn outcome_line(v: &Vec<char>, toks: &Vec<Span>, idx: usize, seq: Option<i64>) -> (r: Parsed)
    requires
        idx < toks@.len(),
        spans_within(toks@, 0, v@.len() as int),
    ensures
        r@ == outcome_line_spec(spans_text(v@, toks@).skip(idx as int), seq),
{
    let ghost w = spans_text(v@, toks@);
    let ghost rest = w.skip(idx as int);
    let first = &toks[idx];
    proof {
        assert(rest[0] == span_text(v@, toks@[idx as int]));
    }
    let a3: Option<String> = if toks.len() - idx > 3 {
        let a = join_spans(v, toks, idx + 3);
        proof {
            assert(rest.skip(3) =~= w.skip(idx + 3));
        }
        Some(a)
    } else {
        None
    };
    proof {
        reveal_strlit("");
        assert(""@ =~= Seq::<char>::empty());
    }
    let null = match &a3 {
        Some(a) => is_null_addr(a.as_str()),
        None => is_null_addr(""),
    };
    let (kl, kh) = (first.lo, first.hi);
    let outcome = if range_eq(v, kl, kh, "forwarded") {
        Outcome::Forwarded
    } else if range_eq(v, kl, kh, "reply") {
        if null {
            Outcome::Blocked
        } else {
            Outcome::Reply
        }
    } else if range_eq(v, kl, kh, "cached") {
        Outcome::Cached
    } else if range_eq(v, kl, kh, "cached-stale") {
        Outcome::CachedStale
    } else if range_eq(v, kl, kh, "config") {
        if null {
            Outcome::Blocked
        } else {
            Outcome::Other(String::from_str("config"))
        }
    } else if range_eq(v, kl, kh, "/etc/hosts") {
        Outcome::Hosts
    } else if range_eq(v, kl, kh, "nameserver") {
        Outcome::Other(String::from_str("nameserver"))
    } else {
        return Parsed::Ignore;
    };
    let fw = range_eq(v, kl, kh, "forwarded");
    let answer = if fw {
        word_after_in(v, toks, idx, "to")
    } else {
        a3
    };
    proof {
        let a3s = answer_from_fourth(rest);
        assert(opt_str(a3) == a3s);
        let ad = match a3s { Some(a) => a, None => Seq::empty() };
        assert(null == is_null_addr_spec(ad));
        assert(rest[0] == v@.subrange(kl as int, kh as int));
        assert(outcome_of_kind(rest[0], ad) == Some(outcome@));
        assert(opt_str(answer) == if rest[0] == "forwarded"@ { word_after(rest, "to"@) } else { a3s });
    }
    Parsed::Outcome { seq, outcome, answer }
}

/// Parses one line. `ts` is the ingest time (unix millis) given to a query event.
pub fn parse_line(raw: &str, ts: i64) -> (r: Parsed)
    ensures
        r@ == parse_line_spec(raw@, ts),
{
    let v = to_chars(raw);
    let (lo, hi) = trim_bounds(&v, 0, v.len());
    proof {
        assert(v@.subrange(0, v@.len() as int) =~= raw@);
    }
    let ghost line = v@.subrange(lo as int, hi as int);
    if lo == hi {
        return Parsed::Ignore;
    }
    let (pid, p) = split_pid(&v, lo, hi);
    let toks = split_words(&v, p, hi);
    let ghost w = spans_text(v@, toks@);
    proof {
        assert(spans_within(toks@, 0, v@.len() as int));
    }
    if toks.len() == 0 {
        return Parsed::Ignore;
    }
    // `<seq> <client>/<port>` in front.
    let mut idx: usize = 0;
    let mut seq: Option<i64> = None;
    let mut client = String::new();
    if toks.len() >= 2 {
        let t0 = &toks[0];
        let t1 = &toks[1];
        proof {
            assert(w[0] == span_text(v@, toks@[0]));
            assert(w[1] == span_text(v@, toks@[1]));
        }
        if let Some(n) = parse_i64_range(&v, t0.lo, t0.hi) {
            if let Some(slash) = find_char_in(&v, t1.lo, t1.hi, '/') {
                seq = Some(n);
                client = string_of(&v, t1.lo, t1.lo + slash);
                proof {
                    assert(w[1].take(slash as int) =~= v@.subrange(
                        t1.lo as int,
                        t1.lo + slash,
                    ));
                }
                idx = 2;
            }
        }
    }
    let ghost extra = has_seq_client(w);
    let ghost client0 = if extra {
        w[1].take(find_char(w[1], '/').unwrap())
    } else {
        Seq::empty()
    };
    proof {
        assert(extra <==> idx == 2);
        assert(seq == if extra {
            parse_i64_spec(w[0])
        } else {
            None
        });
        assert(client@ == client0);
    }
    let ghost rest = w.skip(idx as int);
    proof {
        assert(rest == if extra { w.skip(2) } else { w });
    }
    if idx >= toks.len() {
        return Parsed::Ignore;
    }
    let first = &toks[idx];
    proof {
        assert(rest[0] == span_text(v@, toks@[idx as int]));
    }
    let is_query = first.hi - first.lo >= 6 && range_eq(&v, first.lo, first.lo + 6, "query[");
    proof {
        if rest[0].len() >= 6 {
            assert(rest[0].take(6) =~= v@.subrange(first.lo as int, first.lo + 6));
        }
        assert(is_query == (rest[0].len() >= 6 && rest[0].take(6) == "query["@));
    }
    if is_query {
        let ev = query_line(&v, &toks, idx, ts, pid, seq, client, lo, hi);
        Parsed::Query(ev)
    } else {
        outcome_line(&v, &toks, idx, seq)
    }
}


/// A `config` or `reply` line is blocked exactly when its answer (the words from the
/// fourth on) is `0.0.0.0` or `::`; the line keeps its `seq` and its answer.
pub proof fn lemma_null_answer_blocked(rest: Seq<Seq<char>>, seq: Option<i64>)
    requires
        rest.len() > 0,
        rest[0] == "config"@ || rest[0] == "reply"@,
    ensures
        ({
            let a = match answer_from_fourth(rest) {
                Some(a) => a,
                None => Seq::empty(),
            };
            outcome_line_spec(rest, seq) matches ParsedV::Outcome { seq: s, outcome, answer } && s
                == seq && answer == answer_from_fourth(rest) && (outcome is Blocked
                <==> is_null_addr_spec(a))
        }),
{
    reveal_strlit("config");
    reveal_strlit("reply");
    reveal_strlit("forwarded");
    reveal_strlit("cached");
    reveal_strlit("cached-stale");
    assert("config"@[0] == 'c' && "reply"@[0] == 'r' && "forwarded"@[0] == 'f');
    assert("config"@[1] == 'o' && "cached"@[1] == 'a');
    assert("config"@.len() == 6 && "cached-stale"@.len() == 12);
}

} // verus!
