//! What the screens show: texts, colours and the visible part of the table.
//!
//! The widgets are drawn by the application; this module computes what goes in them.

use vstd::prelude::*;

use ratatui::layout::{Constraint, Direction, Layout, Rect};

use crate::model::{opt_str, outcome_name, Outcome, OutcomeV};
use crate::store::{counts_view, fits_i64, CountRow, CountRowV, DayRow, DbRow, DbRowV};
use crate::text::{decimal, padded_int, push_char, push_decimal, push_padded_i64, push_str, string_of, to_chars};
use crate::tui::{block_filter_label, period_label, Action, ActionV, Period, Tab};
use crate::util::{date_text, fmt_date, fmt_time, time_text};

verus! {

/// The colour of an outcome.
#[derive(Clone, Copy, PartialEq, Eq, Structural, Debug)]
pub enum Tint {
    Red,
    Green,
    Yellow,
    Blue,
    Magenta,
    DarkGray,
    Cyan,
}

/// The colour of an outcome name; names without a colour of their own are cyan.
pub open spec fn name_tint(name: Seq<char>) -> Tint {
    if name == "blocked"@ {
        Tint::Red
    } else if name == "forwarded"@ {
        Tint::Green
    } else if name == "cached"@ {
        Tint::Yellow
    } else if name == "reply"@ {
        Tint::Blue
    } else if name == "hosts"@ {
        Tint::Magenta
    } else if name == "unknown"@ {
        Tint::DarkGray
    } else {
        Tint::Cyan
    }
}

/// The colour of an outcome.
pub open spec fn outcome_tint_spec(o: OutcomeV) -> Tint {
    match o {
        OutcomeV::Blocked => Tint::Red,
        OutcomeV::Forwarded => Tint::Green,
        OutcomeV::Cached => Tint::Yellow,
        OutcomeV::Reply => Tint::Blue,
        OutcomeV::Hosts => Tint::Magenta,
        OutcomeV::Unknown => Tint::DarkGray,
        OutcomeV::CachedStale => Tint::Cyan,
        OutcomeV::Other(_) => Tint::Cyan,
    }
}

/// The colour of a row with this outcome.
pub fn outcome_style(o: &Outcome) -> (t: Tint)
    ensures
        t == outcome_tint_spec(o@),
{
    match o {
        Outcome::Blocked => Tint::Red,
        Outcome::Forwarded => Tint::Green,
        Outcome::Cached => Tint::Yellow,
        Outcome::Reply => Tint::Blue,
        Outcome::Hosts => Tint::Magenta,
        Outcome::Unknown => Tint::DarkGray,
        Outcome::CachedStale => Tint::Cyan,
        Outcome::Other(_) => Tint::Cyan,
    }
}

/// The colour of an outcome given by its stored name.
pub fn outcome_color(name: &str) -> (t: Tint)
    ensures
        t == name_tint(name@),
{
    if crate::text::str_eq(name, "blocked") {
        Tint::Red
    } else if crate::text::str_eq(name, "forwarded") {
        Tint::Green
    } else if crate::text::str_eq(name, "cached") {
        Tint::Yellow
    } else if crate::text::str_eq(name, "reply") {
        Tint::Blue
    } else if crate::text::str_eq(name, "hosts") {
        Tint::Magenta
    } else if crate::text::str_eq(name, "unknown") {
        Tint::DarkGray
    } else {
        Tint::Cyan
    }
}

/// A row and its stored name get the same colour.
pub proof fn lemma_tint_by_name(o: OutcomeV)
    requires
        o matches OutcomeV::Other(s) ==> name_tint(s) == Tint::Cyan,
    ensures
        name_tint(outcome_name(o)) == outcome_tint_spec(o),
{
    reveal_strlit("blocked");
    reveal_strlit("forwarded");
    reveal_strlit("cached");
    reveal_strlit("cached-stale");
    reveal_strlit("reply");
    reveal_strlit("hosts");
    reveal_strlit("unknown");
    let b = "blocked"@;
    let f = "forwarded"@;
    let c = "cached"@;
    let cs = "cached-stale"@;
    let r = "reply"@;
    let h = "hosts"@;
    let u = "unknown"@;
    assert(b[0] == 'b' && f[0] == 'f' && c[0] == 'c' && r[0] == 'r' && h[0] == 'h' && u[0] == 'u');
    assert(cs.len() != c.len() && cs[0] == 'c');
    assert(b != f && b != c && b != r && b != h && b != u);
    assert(f != c && f != r && f != h && f != u);
    assert(c != r && c != h && c != u);
    assert(r != h && r != u);
    assert(h != u);
}

// ---------------------------------------------------------------------------
// Texts
// ---------------------------------------------------------------------------

/// `s` cut to `n` characters: when longer, its first `n - 1` characters and `…`.
pub open spec fn truncated(s: Seq<char>, n: nat) -> Seq<char> {
    if s.len() <= n {
        s
    } else {
        s.take(if n >= 1 {
            n - 1
        } else {
            0
        }).push('…')
    }
}

/// `s` cut to at most `n` characters, an ellipsis marking the cut.
pub fn truncate(s: &str, n: usize) -> (r: String)
    ensures
        r@ == truncated(s@, n as nat),
{
    let v = to_chars(s);
    if v.len() <= n {
        String::from_str(s)
    } else {
        let k = if n >= 1 {
            n - 1
        } else {
            0
        };
        let mut r = string_of(&v, 0, k);
        push_char(&mut r, '…');
        proof {
            assert(v@.subrange(0, k as int) =~= s@.take(k as int));
        }
        r
    }
}

/// The question shown while an action waits for `y`/`n`.
pub open spec fn confirm_text(a: ActionV) -> Seq<char> {
    match a {
        ActionV::Whitelist(d) => "whitelist \""@ + d + "\" and reload dnsmasq?  (y/n)"@,
        ActionV::Reload => "reload dnsmasq?  (y/n)"@,
    }
}

/// The question shown while an action waits for `y`/`n`.
pub fn confirm_message(a: &Action) -> (r: String)
    ensures
        r@ == confirm_text(a@),
{
    match a {
        Action::Whitelist(d) => {
            let mut s = String::from_str("whitelist \"");
            push_str(&mut s, d.as_str());
            push_str(&mut s, "\" and reload dnsmasq?  (y/n)");
            s
        },
        Action::Reload => String::from_str("reload dnsmasq?  (y/n)"),
    }
}

/// The tab titles: the Live tab counts the shown rows, the Stats tab names its window.
pub open spec fn tab_titles_spec(shown: nat, p: Period) -> Seq<Seq<char>> {
    seq![
        " Live ("@ + decimal(shown) + ") "@,
        " Stats ["@ + period_label(p) + "] "@,
        " Daily "@,
    ]
}

pub open spec fn strings_view(v: Seq<String>) -> Seq<Seq<char>> {
    v.map_values(|s: String| s@)
}

/// The tab titles.
pub fn tab_titles(shown: usize, p: Period) -> (r: Vec<String>)
    ensures
        strings_view(r@) == tab_titles_spec(shown as nat, p),
{
    let mut live = String::from_str(" Live (");
    push_decimal(&mut live, shown as u64);
    push_str(&mut live, ") ");
    let mut stats = String::from_str(" Stats [");
    push_str(&mut stats, p.label());
    push_str(&mut stats, "] ");
    let daily = String::from_str(" Daily ");
    let mut v: Vec<String> = Vec::new();
    v.push(live);
    v.push(stats);
    v.push(daily);
    proof {
        assert(strings_view(v@) =~= tab_titles_spec(shown as nat, p));
    }
    v
}

/// Position of a tab among the titles.
pub fn tab_index(t: Tab) -> (i: usize)
    ensures
        i == match t {
            Tab::Live => 0usize,
            Tab::Stats => 1usize,
            Tab::Daily => 2usize,
        },
{
    match t {
        Tab::Live => 0,
        Tab::Stats => 1,
        Tab::Daily => 2,
    }
}

/// The title of the Live table: whether it follows new rows, and the database.
pub open spec fn live_title_spec(follow: bool, db: Seq<char>) -> Seq<char> {
    " queries  follow:"@ + (if follow {
        "on"@
    } else {
        "off"@
    }) + "  "@ + db + " "@
}

pub fn live_title(follow: bool, db: &str) -> (r: String)
    ensures
        r@ == live_title_spec(follow, db@),
{
    let mut s = String::from_str(" queries  follow:");
    push_str(
        &mut s,
        if follow {
            "on"
        } else {
            "off"
        },
    );
    push_str(&mut s, "  ");
    push_str(&mut s, db);
    push_str(&mut s, " ");
    s
}

/// The title of the summary gauge.
pub fn summary_title(p: Period) -> (r: String)
    ensures
        r@ == " summary ("@ + period_label(p) + " window) "@,
{
    let mut s = String::from_str(" summary (");
    push_str(&mut s, p.label());
    push_str(&mut s, " window) ");
    s
}

// ---------------------------------------------------------------------------
// The Live table
// ---------------------------------------------------------------------------

/// The part of the `len` visible rows on screen: from `scroll` (at most `len`) to
/// `scroll + height` (at most `len`).
pub fn live_window(len: usize, scroll: usize, height: usize) -> (r: (usize, usize))
    requires
        scroll + height <= usize::MAX,
    ensures
        r.0 == (if scroll <= len {
            scroll
        } else {
            len
        }),
        r.1 == (if scroll + height <= len {
            (scroll + height) as usize
        } else {
            len
        }),
        r.0 <= r.1 <= len,
{
    let end = if scroll + height <= len {
        scroll + height
    } else {
        len
    };
    let start = if scroll <= len {
        scroll
    } else {
        len
    };
    (start, end)
}

/// Where the highlighted row sits in the window: `cursor - scroll` (not below 0), when
/// there is any row.
pub fn selected_offset(len: usize, cursor: usize, scroll: usize) -> (r: Option<usize>)
    ensures
        r == (if len > 0 {
            Some(
                if cursor >= scroll {
                    (cursor - scroll) as usize
                } else {
                    0usize
                },
            )
        } else {
            None
        }),
{
    if len > 0 {
        Some(
            if cursor >= scroll {
                cursor - scroll
            } else {
                0
            },
        )
    } else {
        None
    }
}

pub open spec fn or_empty(o: Option<Seq<char>>) -> Seq<char> {
    match o {
        Some(s) => s,
        None => Seq::empty(),
    }
}

/// The cells of a Live row: local time, client, domain, type, result, answer.
pub open spec fn live_cells_spec(r: DbRowV, off: int) -> Seq<Seq<char>> {
    seq![
        time_text(r.ev.ts + off),
        r.ev.client,
        r.ev.domain,
        or_empty(r.ev.qtype),
        outcome_name(r.ev.outcome),
        or_empty(r.ev.answer),
    ]
}

fn copy_or_empty(o: &Option<String>) -> (r: String)
    ensures
        r@ == or_empty(opt_str(*o)),
{
    match o {
        Some(s) => String::from_str(s.as_str()),
        None => String::new(),
    }
}

/// The cells of a Live row.
pub fn live_cells(r: &DbRow, tz_offset_ms: i64) -> (cells: Vec<String>)
    requires
        fits_i64(r.ev.ts + tz_offset_ms),
    ensures
        strings_view(cells@) == live_cells_spec(r@, tz_offset_ms as int),
{
    let mut v: Vec<String> = Vec::new();
    v.push(fmt_time(r.ev.ts, tz_offset_ms));
    v.push(String::from_str(r.ev.client.as_str()));
    v.push(String::from_str(r.ev.domain.as_str()));
    v.push(copy_or_empty(&r.ev.qtype));
    v.push(String::from_str(r.ev.outcome.as_str()));
    v.push(copy_or_empty(&r.ev.answer));
    proof {
        assert(strings_view(v@) =~= live_cells_spec(r@, tz_offset_ms as int));
    }
    v
}

// ---------------------------------------------------------------------------
// The Daily tables
// ---------------------------------------------------------------------------

/// `n` as `Display` writes it.
pub open spec fn int_text(n: int) -> Seq<char> {
    padded_int(n, 0)
}

fn i64_text(n: i64) -> (s: String)
    ensures
        s@ == int_text(n as int),
{
    let mut s = String::new();
    push_padded_i64(&mut s, n, 0);
    proof {
        assert(s@ =~= int_text(n as int));
    }
    s
}

/// The days of the Daily table, the newest first.
pub fn days_newest_first(days: &Vec<DayRow>) -> (r: Vec<DayRow>)
    ensures
        r@ == days@.reverse(),
{
    let mut out: Vec<DayRow> = Vec::new();
    let mut i: usize = days.len();
    while i > 0
        invariant
            i <= days@.len(),
            out@ == days@.subrange(i as int, days@.len() as int).reverse(),
        decreases i,
    {
        i = i - 1;
        out.push(days[i]);
        proof {
            assert(days@.subrange(i as int, days@.len() as int).reverse() =~= days@.subrange(
                i + 1,
                days@.len() as int,
            ).reverse().push(days@[i as int]));
        }
    }
    proof {
        assert(days@.subrange(0, days@.len() as int) =~= days@);
    }
    out
}

/// A row of the query counts table: date, cached, reply, forwarded, their total.
pub open spec fn day_query_cells_spec(d: DayRow, off: int) -> Seq<Seq<char>> {
    seq![
        date_text(d.day_ms + off),
        int_text(d.cached as int),
        int_text(d.reply as int),
        int_text(d.forwarded as int),
        int_text(d.cached + d.reply + d.forwarded),
    ]
}

/// A row of the query counts table.
pub fn day_query_cells(d: &DayRow, tz_offset_ms: i64) -> (cells: Vec<String>)
    requires
        fits_i64(d.day_ms + tz_offset_ms),
        fits_i64(d.cached + d.reply),
        fits_i64(d.cached + d.reply + d.forwarded),
    ensures
        strings_view(cells@) == day_query_cells_spec(*d, tz_offset_ms as int),
{
    let mut v: Vec<String> = Vec::new();
    v.push(fmt_date(d.day_ms, tz_offset_ms));
    v.push(i64_text(d.cached));
    v.push(i64_text(d.reply));
    v.push(i64_text(d.forwarded));
    v.push(i64_text(d.resolved()));
    proof {
        assert(strings_view(v@) =~= day_query_cells_spec(*d, tz_offset_ms as int));
    }
    v
}

/// A row of the blocked table: date and blocked count.
pub fn day_blocked_cells(d: &DayRow, tz_offset_ms: i64) -> (cells: Vec<String>)
    requires
        fits_i64(d.day_ms + tz_offset_ms),
    ensures
        strings_view(cells@) == seq![date_text(d.day_ms + tz_offset_ms), int_text(d.blocked as int)],
{
    let mut v: Vec<String> = Vec::new();
    v.push(fmt_date(d.day_ms, tz_offset_ms));
    v.push(i64_text(d.blocked));
    proof {
        assert(strings_view(v@) =~= seq![
            date_text(d.day_ms + tz_offset_ms),
            int_text(d.blocked as int),
        ]);
    }
    v
}

// ---------------------------------------------------------------------------
// The Stats blocks
// ---------------------------------------------------------------------------

/// The largest count among the rows, and at least 1 (the bars' full length).
pub open spec fn counts_max_spec(rows: Seq<CountRowV>) -> i64
    decreases rows.len(),
{
    if rows.len() == 0 {
        1
    } else {
        let m = counts_max_spec(rows.drop_last());
        if rows.last().count > m {
            rows.last().count
        } else {
            m
        }
    }
}

/// The largest count among the rows, and at least 1.
pub fn counts_max(rows: &Vec<CountRow>) -> (m: i64)
    ensures
        m == counts_max_spec(counts_view(rows@)),
        m >= 1,
{
    let mut m: i64 = 1;
    let mut i: usize = 0;
    while i < rows.len()
        invariant
            i <= rows@.len(),
            m == counts_max_spec(counts_view(rows@.take(i as int))),
            m >= 1,
        decreases rows@.len() - i,
    {
        proof {
            assert(counts_view(rows@.take(i + 1)).drop_last() =~= counts_view(rows@.take(i as int)));
        }
        if rows[i].count > m {
            m = rows[i].count;
        }
        i = i + 1;
    }
    proof {
        assert(rows@.take(rows@.len() as int) =~= rows@);
    }
    m
}

/// The note after a count: ` (<n> blk)` when blocked queries are shown and there are any.
pub open spec fn blocked_note_spec(blocked: i64, show: bool) -> Seq<char> {
    if show && blocked > 0 {
        " ("@ + decimal(blocked as nat) + " blk)"@
    } else {
        Seq::empty()
    }
}

pub fn blocked_note(blocked: i64, show: bool) -> (r: String)
    ensures
        r@ == blocked_note_spec(blocked, show),
{
    if show && blocked > 0 {
        let mut s = String::from_str(" (");
        push_decimal(&mut s, blocked as u64);
        push_str(&mut s, " blk)");
        s
    } else {
        String::new()
    }
}

/// The outcome rows of the stacked bar: every outcome but `blocked`, in order.
pub open spec fn unblocked_rows(rows: Seq<CountRowV>) -> Seq<CountRowV> {
    rows.filter(|r: CountRowV| r.key != "blocked"@)
}

/// Sum of the counts.
pub open spec fn count_sum(rows: Seq<CountRowV>) -> int
    decreases rows.len(),
{
    if rows.len() == 0 {
        0
    } else {
        count_sum(rows.drop_last()) + rows.last().count
    }
}

/// The outcome rows of the stacked bar (all but `blocked`), in order.
pub fn stacked_rows(rows: &Vec<CountRow>) -> (r: Vec<CountRow>)
    ensures
        counts_view(r@) == unblocked_rows(counts_view(rows@)),
{
    let mut out: Vec<CountRow> = Vec::new();
    let mut i: usize = 0;
    while i < rows.len()
        invariant
            i <= rows@.len(),
            counts_view(out@) == unblocked_rows(counts_view(rows@.take(i as int))),
        decreases rows@.len() - i,
    {
        let r = &rows[i];
        proof {
            assert(counts_view(rows@.take(i + 1)) =~= counts_view(rows@.take(i as int)).push(r@));
            reveal(Seq::filter);
            assert(counts_view(rows@.take(i + 1)).drop_last() =~= counts_view(rows@.take(i as int)));
        }
        let ghost prev = out@;
        if !crate::text::str_eq(r.key.as_str(), "blocked") {
            out.push(
                CountRow { key: String::from_str(r.key.as_str()), count: r.count, blocked: r.blocked },
            );
            proof {
                assert(counts_view(out@) =~= counts_view(prev).push(r@));
            }
        }
        i = i + 1;
    }
    proof {
        assert(rows@.take(rows@.len() as int) =~= rows@);
    }
    out
}

/// The queries that were not blocked, for the top domains list: `total - blocked`, and
/// 0 when that is negative.
pub fn unblocked_total(total: i64, blocked: i64) -> (r: i64)
    requires
        i64::MIN <= total - blocked <= i64::MAX,
    ensures
        r == (if total - blocked > 0 {
            total - blocked
        } else {
            0
        }),
{
    let d = total - blocked;
    if d > 0 {
        d
    } else {
        0
    }
}

/// The sum of the counts, added up in order; `None` when a partial sum leaves `i64`
/// (where `Iterator::sum` would panic).
pub fn total_count(rows: &Vec<CountRow>) -> (t: Option<i64>)
    ensures
        match t {
            Some(v) => v == count_sum(counts_view(rows@)) && forall|k: int|
                0 <= k <= rows@.len() ==> fits_i64(#[trigger] count_sum(counts_view(rows@.take(k)))),
            None => exists|k: int|
                0 <= k <= rows@.len() && !fits_i64(#[trigger] count_sum(counts_view(rows@.take(k)))),
        },
{
    let mut t: i64 = 0;
    let mut i: usize = 0;
    proof {
        assert(counts_view(rows@.take(0)) =~= Seq::<CountRowV>::empty());
    }
    while i < rows.len()
        invariant
            i <= rows@.len(),
            t == count_sum(counts_view(rows@.take(i as int))),
            forall|k: int| 0 <= k <= i ==> fits_i64(#[trigger] count_sum(counts_view(rows@.take(k)))),
        decreases rows@.len() - i,
    {
        proof {
            assert(counts_view(rows@.take(i + 1)).drop_last() =~= counts_view(rows@.take(i as int)));
        }
        let c = rows[i].count;
        if (c > 0 && t > i64::MAX - c) || (c < 0 && t < i64::MIN - c) {
            proof {
                assert(!fits_i64(count_sum(counts_view(rows@.take(i + 1)))));
            }
            return None;
        }
        t = t + c;
        i = i + 1;
    }
    proof {
        assert(rows@.take(rows@.len() as int) =~= rows@);
    }
    Some(t)
}


// ---------------------------------------------------------------------------
// The confirmation box
// ---------------------------------------------------------------------------

/// Screen rectangles are written `(x, y, width, height)`.
///
/// The middle row of `area` when it is laid out vertically as fill, `height` rows,
/// fill (ratatui's layout solver decides the split).
pub uninterp spec fn middle_row(area: (u16, u16, u16, u16), height: u16) -> (u16, u16, u16, u16);

/// The middle column of `area` when it is laid out horizontally as fill, `width`
/// columns, fill.
pub uninterp spec fn middle_column(area: (u16, u16, u16, u16), width: u16) -> (u16, u16, u16, u16);

#[verifier::external_body]
/// Calls ratatui's `Layout::split` on `area`, vertically, with the constraints
/// `Fill(1)`, `Length(height)`, `Fill(1)`, and returns the second rectangle. The split
/// depends on these arguments alone; nothing more is claimed of it.
fn split_middle_row(area: (u16, u16, u16, u16), height: u16) -> (r: (u16, u16, u16, u16))
    ensures
        r == middle_row(area, height),
{
    let rect = Rect { x: area.0, y: area.1, width: area.2, height: area.3 };
    let parts = Layout::default().direction(Direction::Vertical).constraints(
        [Constraint::Fill(1), Constraint::Length(height), Constraint::Fill(1)],
    ).split(rect);
    (parts[1].x, parts[1].y, parts[1].width, parts[1].height)
}

#[verifier::external_body]
/// Calls ratatui's `Layout::split` on `area`, horizontally, with the constraints
/// `Fill(1)`, `Length(width)`, `Fill(1)`, and returns the second rectangle. The split
/// depends on these arguments alone; nothing more is claimed of it.
fn split_middle_column(area: (u16, u16, u16, u16), width: u16) -> (r: (u16, u16, u16, u16))
    ensures
        r == middle_column(area, width),
{
    let rect = Rect { x: area.0, y: area.1, width: area.2, height: area.3 };
    let parts = Layout::default().direction(Direction::Horizontal).constraints(
        [Constraint::Fill(1), Constraint::Length(width), Constraint::Fill(1)],
    ).split(rect);
    (parts[1].x, parts[1].y, parts[1].width, parts[1].height)
}

/// A `width` x `height` box in the middle of `area`: the middle column of the middle row.
pub fn centered(area: (u16, u16, u16, u16), width: u16, height: u16) -> (r: (u16, u16, u16, u16))
    ensures
        r == middle_column(middle_row(area, height), width),
{
    let row = split_middle_row(area, height);
    split_middle_column(row, width)
}

} // verus!
