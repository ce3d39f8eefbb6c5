//! The text printed by the `info` and `prune` subcommands.

use vstd::prelude::*;

use crate::store::fits_i64;
use crate::text::{decimal, padded_int, push_char, push_decimal, push_padded_i64, push_str};
use crate::util::{datetime_text, fmt_datetime};

verus! {

/// `s` padded with spaces on the right to `width` characters (`{:<width}`).
pub open spec fn pad_right(s: Seq<char>, width: nat) -> Seq<char> {
    if s.len() < width {
        s + Seq::new((width - s.len()) as nat, |i: int| ' ')
    } else {
        s
    }
}

pub open spec fn strings_view(v: Seq<String>) -> Seq<Seq<char>> {
    v.map_values(|s: String| s@)
}

/// The line of one outcome: two spaces, the name padded to 12, a space, the count.
pub open spec fn outcome_line(name: Seq<char>, count: i64) -> Seq<char> {
    "  "@ + pad_right(name, 12) + " "@ + padded_int(count as int, 0)
}

/// The lines of one outcome each.
pub open spec fn outcome_lines(b: Seq<(String, i64)>) -> Seq<Seq<char>>
    decreases b.len(),
{
    if b.len() == 0 {
        Seq::empty()
    } else {
        outcome_lines(b.drop_last()).push(outcome_line(b.last().0@, b.last().1))
    }
}

/// What `info` prints: the database, its row count, the time range of its rows
/// (local time) and the count of each outcome.
pub open spec fn info_spec(
    db: Seq<char>,
    rows: i64,
    range: Option<(i64, i64)>,
    breakdown: Seq<(String, i64)>,
    off: int,
) -> Seq<Seq<char>> {
    seq!["db:      "@ + db, "rows:    "@ + padded_int(rows as int, 0)] + seq![
        match range {
            Some((a, b)) => "range:   "@ + datetime_text(a + off) + " .. "@ + datetime_text(b + off),
            None => "range:   (empty)"@,
        },
    ] + if breakdown.len() == 0 {
        seq!["outcomes: (empty)"@]
    } else {
        seq!["outcomes:"@] + outcome_lines(breakdown)
    }
}

fn push_line(v: &mut Vec<String>, s: String)
    ensures
        strings_view(final(v)@) == strings_view(old(v)@).push(s@),
{
    let ghost s_view = s@;
    v.push(s);
    proof {
        assert(strings_view(v@) =~= strings_view(old(v)@).push(s_view));
    }
}

fn text_of(a: &str, b: &str) -> (r: String)
    ensures
        r@ == a@ + b@,
{
    let mut s = String::from_str(a);
    push_str(&mut s, b);
    s
}

/// The line of one outcome.
fn outcome_text(name: &str, count: i64) -> (r: String)
    ensures
        r@ == outcome_line(name@, count),
{
    let mut s = String::from_str("  ");
    push_str(&mut s, name);
    let ghost named = s@;
    let n = crate::text::to_chars(name).len();
    let mut k = n;
    while k < 12
        invariant
            n == name@.len(),
            n <= k <= 12 || (k == n && n >= 12),
            s@ == named + Seq::new((k - n) as nat, |i: int| ' '),
        decreases 12 - k,
    {
        push_char(&mut s, ' ');
        proof {
            assert(s@ =~= named + Seq::new((k + 1 - n) as nat, |i: int| ' '));
        }
        k = k + 1;
    }
    push_str(&mut s, " ");
    push_padded_i64(&mut s, count, 0);
    proof {
        if n < 12 {
            assert(s@ =~= outcome_line(name@, count));
        } else {
            assert(Seq::new(0, |i: int| ' ') =~= Seq::<char>::empty());
            assert(s@ =~= outcome_line(name@, count));
        }
    }
    s
}

/// The lines `info` prints.
pub fn info_lines(
    db: &str,
    rows: i64,
    range: Option<(i64, i64)>,
    breakdown: &Vec<(String, i64)>,
    tz_offset_ms: i64,
) -> (r: Vec<String>)
    requires
        range matches Some((a, b)) ==> fits_i64(a + tz_offset_ms) && fits_i64(b + tz_offset_ms),
    ensures
        strings_view(r@) == info_spec(db@, rows, range, breakdown@, tz_offset_ms as int),
{
    let mut v: Vec<String> = Vec::new();
    push_line(&mut v, text_of("db:      ", db));
    let mut count = String::from_str("rows:    ");
    push_padded_i64(&mut count, rows, 0);
    push_line(&mut v, count);
    match range {
        Some((a, b)) => {
            let mut s = String::from_str("range:   ");
            push_str(&mut s, fmt_datetime(a, tz_offset_ms).as_str());
            push_str(&mut s, " .. ");
            push_str(&mut s, fmt_datetime(b, tz_offset_ms).as_str());
            push_line(&mut v, s);
        },
        None => {
            push_line(&mut v, String::from_str("range:   (empty)"));
        },
    }
    let ghost head = strings_view(v@);
    if breakdown.len() == 0 {
        push_line(&mut v, String::from_str("outcomes: (empty)"));
    } else {
        push_line(&mut v, String::from_str("outcomes:"));
        let ghost head2 = strings_view(v@);
        let mut i: usize = 0;
        while i < breakdown.len()
            invariant
                i <= breakdown@.len(),
                strings_view(v@) == head2 + outcome_lines(breakdown@.take(i as int)),
            decreases breakdown@.len() - i,
        {
            let (name, c) = &breakdown[i];
            push_line(&mut v, outcome_text(name.as_str(), *c));
            proof {
                assert(breakdown@.take(i + 1).drop_last() =~= breakdown@.take(i as int));
                assert(head2 + outcome_lines(breakdown@.take(i + 1)) =~= (head2 + outcome_lines(
                    breakdown@.take(i as int),
                )).push(outcome_line(breakdown@[i as int].0@, breakdown@[i as int].1)));
            }
            i = i + 1;
        }
        proof {
            assert(breakdown@.take(breakdown@.len() as int) =~= breakdown@);
        }
    }
    proof {
        assert(strings_view(v@) =~= info_spec(db@, rows, range, breakdown@, tz_offset_ms as int));
    }
    v
}

/// What a dry-run `prune` prints.
pub fn prune_dry_run_text(n: i64, cutoff: i64, tz_offset_ms: i64) -> (r: String)
    requires
        fits_i64(cutoff + tz_offset_ms),
    ensures
        r@ == "[dry-run] "@ + padded_int(n as int, 0) + " rows with ts < "@ + datetime_text(
            cutoff + tz_offset_ms,
        ) + " would be deleted (use --apply)"@,
{
    let mut s = String::from_str("[dry-run] ");
    push_padded_i64(&mut s, n, 0);
    push_str(&mut s, " rows with ts < ");
    push_str(&mut s, fmt_datetime(cutoff, tz_offset_ms).as_str());
    push_str(&mut s, " would be deleted (use --apply)");
    s
}

/// What `prune --apply` prints.
pub fn prune_done_text(n: usize, cutoff: i64, tz_offset_ms: i64) -> (r: String)
    requires
        fits_i64(cutoff + tz_offset_ms),
    ensures
        r@ == "deleted "@ + decimal(n as nat) + " rows with ts < "@ + datetime_text(
            cutoff + tz_offset_ms,
        ),
{
    let mut s = String::from_str("deleted ");
    push_decimal(&mut s, n as u64);
    push_str(&mut s, " rows with ts < ");
    push_str(&mut s, fmt_datetime(cutoff, tz_offset_ms).as_str());
    s
}

} // verus!
