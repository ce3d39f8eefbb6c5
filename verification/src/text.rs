//! Character-level text helpers shared by the parsers and formatters.
//!
//! Every function here works on the `char` sequence of a string (its view),
//! and states its result over the spec functions defined in this module.

use vstd::prelude::*;

verus! {

// ---------------------------------------------------------------------------
// Whitespace
// ---------------------------------------------------------------------------

/// Unicode `White_Space`, the set of characters `char::is_whitespace` accepts.
pub open spec fn is_ws(c: char) -> bool {
    ||| c == '\t'
    ||| c == '\n'
    ||| c == '\x0B'
    ||| c == '\x0C'
    ||| c == '\r'
    ||| c == ' '
    ||| c == '\u{85}'
    ||| c == '\u{A0}'
    ||| c == '\u{1680}'
    ||| ('\u{2000}' <= c && c <= '\u{200A}')
    ||| c == '\u{2028}'
    ||| c == '\u{2029}'
    ||| c == '\u{202F}'
    ||| c == '\u{205F}'
    ||| c == '\u{3000}'
}

pub fn is_whitespace(c: char) -> (b: bool)
    ensures
        b == is_ws(c),
{
    c == '\t' || c == '\n' || c == '\x0B' || c == '\x0C' || c == '\r' || c == ' ' || c == '\u{85}'
        || c == '\u{A0}' || c == '\u{1680}' || ('\u{2000}' <= c && c <= '\u{200A}') || c
        == '\u{2028}' || c == '\u{2029}' || c == '\u{202F}' || c == '\u{205F}' || c == '\u{3000}'
}

/// `s` without its leading whitespace.
pub open spec fn trim_start(s: Seq<char>) -> Seq<char>
    decreases s.len(),
{
    if s.len() > 0 && is_ws(s[0]) {
        trim_start(s.drop_first())
    } else {
        s
    }
}

/// `s` without its trailing whitespace.
pub open spec fn trim_end(s: Seq<char>) -> Seq<char>
    decreases s.len(),
{
    if s.len() > 0 && is_ws(s.last()) {
        trim_end(s.drop_last())
    } else {
        s
    }
}

/// `s` without leading and trailing whitespace (`str::trim`).
pub open spec fn trim(s: Seq<char>) -> Seq<char> {
    trim_end(trim_start(s))
}

/// Every character of `s` in `[lo, hi)` is whitespace.
pub open spec fn all_ws(s: Seq<char>, lo: int, hi: int) -> bool {
    forall|i: int| lo <= i < hi ==> #[trigger] is_ws(s[i])
}

pub proof fn lemma_trim_start(s: Seq<char>, k: int)
    requires
        0 <= k <= s.len(),
        all_ws(s, 0, k),
        k == s.len() || !is_ws(s[k]),
    ensures
        trim_start(s) == s.skip(k),
    decreases k,
{
    if k > 0 {
        assert(is_ws(s[0]));
        let t = s.drop_first();
        assert forall|i: int| 0 <= i < k - 1 implies #[trigger] is_ws(t[i]) by {
            assert(t[i] == s[i + 1]);
        }
        if k < s.len() {
            assert(t[k - 1] == s[k]);
        }
        lemma_trim_start(t, k - 1);
        assert(t.skip(k - 1) =~= s.skip(k));
    } else {
        assert(s.skip(0) =~= s);
    }
}

pub proof fn lemma_trim_end(s: Seq<char>, k: int)
    requires
        0 <= k <= s.len(),
        all_ws(s, k, s.len() as int),
        k == 0 || !is_ws(s[k - 1]),
    ensures
        trim_end(s) == s.take(k),
    decreases s.len() - k,
{
    if k < s.len() {
        assert(is_ws(s.last()));
        let t = s.drop_last();
        assert forall|i: int| k <= i < t.len() implies #[trigger] is_ws(t[i]) by {
            assert(t[i] == s[i]);
        }
        if k > 0 {
            assert(t[k - 1] == s[k - 1]);
        }
        lemma_trim_end(t, k);
        assert(t.take(k) =~= s.take(k));
    } else {
        assert(s.take(k) =~= s);
    }
}

/// Index of the first character at or after `lo` that is not whitespace (or `hi`).
pub fn skip_ws(v: &Vec<char>, lo: usize, hi: usize) -> (k: usize)
    requires
        lo <= hi <= v@.len(),
    ensures
        lo <= k <= hi,
        all_ws(v@, lo as int, k as int),
        k == hi || !is_ws(v@[k as int]),
{
    let mut k = lo;
    while k < hi && is_whitespace(v[k])
        invariant
            lo <= k <= hi,
            hi <= v@.len(),
            all_ws(v@, lo as int, k as int),
        decreases hi - k,
    {
        k = k + 1;
    }
    k
}

/// One past the last character before `hi` that is not whitespace (or `lo`).
pub fn skip_ws_back(v: &Vec<char>, lo: usize, hi: usize) -> (k: usize)
    requires
        lo <= hi <= v@.len(),
    ensures
        lo <= k <= hi,
        all_ws(v@, k as int, hi as int),
        k == lo || !is_ws(v@[k - 1]),
{
    let mut k = hi;
    while k > lo && is_whitespace(v[k - 1])
        invariant
            lo <= k <= hi,
            hi <= v@.len(),
            all_ws(v@, k as int, hi as int),
        decreases k - lo,
    {
        k = k - 1;
    }
    k
}

/// The bounds of `trim(v[lo..hi])` inside `v`.
pub fn trim_bounds(v: &Vec<char>, lo: usize, hi: usize) -> (r: (usize, usize))
    requires
        lo <= hi <= v@.len(),
    ensures
        lo <= r.0 <= r.1 <= hi,
        v@.subrange(r.0 as int, r.1 as int) == trim(v@.subrange(lo as int, hi as int)),
        v@.subrange(r.0 as int, hi as int) == trim_start(v@.subrange(lo as int, hi as int)),
{
    let a = skip_ws(v, lo, hi);
    let b = skip_ws_back(v, a, hi);
    proof {
        let s = v@.subrange(lo as int, hi as int);
        assert forall|i: int| 0 <= i < a - lo implies #[trigger] is_ws(s[i]) by {
            assert(s[i] == v@[lo + i]);
        }
        if a < hi {
            assert(s[a - lo] == v@[a as int]);
        }
        lemma_trim_start(s, a - lo);
        let t = v@.subrange(a as int, hi as int);
        assert(s.skip(a - lo) =~= t);
        assert forall|i: int| b - a <= i < t.len() implies #[trigger] is_ws(t[i]) by {
            assert(t[i] == v@[a + i]);
        }
        if b > a {
            assert(t[b - a - 1] == v@[b - 1]);
        }
        lemma_trim_end(t, b - a);
        assert(t.take(b - a) =~= v@.subrange(a as int, b as int));
    }
    (a, b)
}

// ---------------------------------------------------------------------------
// Whitespace-separated words (`str::split_whitespace`)
// ---------------------------------------------------------------------------

/// Length of the run of non-whitespace characters at the start of `s`.
pub open spec fn word_len(s: Seq<char>) -> nat
    decreases s.len(),
{
    if s.len() > 0 && !is_ws(s[0]) {
        1 + word_len(s.drop_first())
    } else {
        0
    }
}

pub proof fn lemma_word_len_bound(s: Seq<char>)
    ensures
        word_len(s) <= s.len(),
    decreases s.len(),
{
    if s.len() > 0 && !is_ws(s[0]) {
        lemma_word_len_bound(s.drop_first());
    }
}

/// The maximal runs of non-whitespace characters of `s`, in order.
pub open spec fn words(s: Seq<char>) -> Seq<Seq<char>>
    decreases s.len(),
{
    if s.len() == 0 {
        Seq::empty()
    } else if is_ws(s[0]) {
        words(s.drop_first())
    } else {
        let w = word_len(s);
        proof {
            lemma_word_len_bound(s);
        }
        seq![s.take(w as int)] + words(s.skip(w as int))
    }
}

pub proof fn lemma_word_len(s: Seq<char>, k: int)
    requires
        0 <= k <= s.len(),
        forall|i: int| 0 <= i < k ==> !is_ws(#[trigger] s[i]),
        k == s.len() || is_ws(s[k]),
    ensures
        word_len(s) == k,
    decreases k,
{
    if k > 0 {
        let t = s.drop_first();
        assert forall|i: int| 0 <= i < k - 1 implies !is_ws(#[trigger] t[i]) by {
            assert(t[i] == s[i + 1]);
        }
        if k < s.len() {
            assert(t[k - 1] == s[k]);
        }
        lemma_word_len(t, k - 1);
    } else {
        assert(!(s.len() > 0 && !is_ws(s[0])));
    }
}

/// A word of a line, as a half-open range of character positions.
pub struct Span {
    pub lo: usize,
    pub hi: usize,
}

pub open spec fn span_text(v: Seq<char>, sp: Span) -> Seq<char> {
    v.subrange(sp.lo as int, sp.hi as int)
}

pub open spec fn spans_text(v: Seq<char>, sps: Seq<Span>) -> Seq<Seq<char>> {
    sps.map_values(|sp: Span| span_text(v, sp))
}

pub open spec fn spans_within(sps: Seq<Span>, lo: int, hi: int) -> bool {
    forall|i: int| 0 <= i < sps.len() ==> lo <= (#[trigger] sps[i]).lo <= sps[i].hi <= hi
}

/// Splits `v[lo..hi]` into its whitespace-separated words.
pub fn split_words(v: &Vec<char>, lo: usize, hi: usize) -> (r: Vec<Span>)
    requires
        lo <= hi <= v@.len(),
    ensures
        spans_within(r@, lo as int, hi as int),
        spans_text(v@, r@) == words(v@.subrange(lo as int, hi as int)),
{
    let mut out: Vec<Span> = Vec::new();
    let mut i = lo;
    while i < hi
        invariant
            lo <= i <= hi,
            hi <= v@.len(),
            spans_within(out@, lo as int, hi as int),
            words(v@.subrange(lo as int, hi as int)) == spans_text(v@, out@) + words(
                v@.subrange(i as int, hi as int),
            ),
        decreases hi - i,
    {
        let ghost s = v@.subrange(i as int, hi as int);
        if is_whitespace(v[i]) {
            proof {
                assert(s[0] == v@[i as int]);
                assert(s.drop_first() =~= v@.subrange(i + 1, hi as int));
            }
            i = i + 1;
        } else {
            let mut j = i + 1;
            while j < hi && !is_whitespace(v[j])
                invariant
                    i < j <= hi,
                    hi <= v@.len(),
                    forall|k: int| i <= k < j ==> !is_ws(#[trigger] v@[k]),
                decreases hi - j,
            {
                j = j + 1;
            }
            proof {
                assert forall|k: int| 0 <= k < j - i implies !is_ws(#[trigger] s[k]) by {
                    assert(s[k] == v@[i + k]);
                }
                if j < hi {
                    assert(s[j - i] == v@[j as int]);
                }
                lemma_word_len(s, j - i);
                assert(s[0] == v@[i as int]);
                assert(s.take(j - i) =~= v@.subrange(i as int, j as int));
                assert(s.skip(j - i) =~= v@.subrange(j as int, hi as int));
            }
            let ghost before = out@;
            out.push(Span { lo: i, hi: j });
            proof {
                assert(spans_text(v@, out@) =~= spans_text(v@, before) + seq![
                    v@.subrange(i as int, j as int),
                ]);
            }
            i = j;
        }
    }
    proof {
        assert(v@.subrange(hi as int, hi as int) =~= Seq::<char>::empty());
        assert(spans_text(v@, out@) + Seq::<Seq<char>>::empty() =~= spans_text(v@, out@));
    }
    out
}

// ---------------------------------------------------------------------------
// Integers (`str::parse::<i64>` / `str::parse::<u64>`)
// ---------------------------------------------------------------------------

pub open spec fn is_digit(c: char) -> bool {
    '0' <= c && c <= '9'
}

pub open spec fn digit_value(c: char) -> int {
    c as int - '0' as int
}

pub open spec fn all_digits(s: Seq<char>) -> bool {
    forall|i: int| 0 <= i < s.len() ==> is_digit(#[trigger] s[i])
}

/// The value of a string of decimal digits.
pub open spec fn digits_value(s: Seq<char>) -> int
    decreases s.len(),
{
    if s.len() == 0 {
        0
    } else {
        digits_value(s.drop_last()) * 10 + digit_value(s.last())
    }
}

/// The integer a decimal numeral denotes: an optional `+` or `-`, then at least
/// one digit and nothing else.
pub open spec fn numeral_value(s: Seq<char>) -> Option<int> {
    let neg = s.len() > 0 && s[0] == '-';
    let signed = s.len() > 0 && (s[0] == '-' || s[0] == '+');
    let d = if signed {
        s.drop_first()
    } else {
        s
    };
    if d.len() > 0 && all_digits(d) {
        Some(
            if neg {
                -digits_value(d)
            } else {
                digits_value(d)
            },
        )
    } else {
        None
    }
}

/// What `str::parse::<i64>` gives back: the numeral's value when it fits.
pub open spec fn parse_i64_spec(s: Seq<char>) -> Option<i64> {
    match numeral_value(s) {
        Some(v) => if i64::MIN <= v <= i64::MAX {
            Some(v as i64)
        } else {
            None
        },
        None => None,
    }
}

/// What `str::parse::<u64>` gives back: no `-` sign, and the value must fit.
pub open spec fn parse_u64_spec(s: Seq<char>) -> Option<u64> {
    if s.len() > 0 && s[0] == '-' {
        None
    } else {
        match numeral_value(s) {
            Some(v) => if 0 <= v <= u64::MAX {
                Some(v as u64)
            } else {
                None
            },
            None => None,
        }
    }
}

pub proof fn lemma_digits_value_nonneg(s: Seq<char>)
    requires
        all_digits(s),
    ensures
        digits_value(s) >= 0,
    decreases s.len(),
{
    if s.len() > 0 {
        assert(all_digits(s.drop_last())) by {
            assert forall|i: int| 0 <= i < s.drop_last().len() implies is_digit(
                #[trigger] s.drop_last()[i],
            ) by {
                assert(s.drop_last()[i] == s[i]);
            }
        }
        lemma_digits_value_nonneg(s.drop_last());
        assert(is_digit(s[s.len() - 1]));
    }
}

/// Extending an all-digit string never lowers its value.
pub proof fn lemma_digits_value_prefix(s: Seq<char>, k: int)
    requires
        all_digits(s),
        0 <= k <= s.len(),
    ensures
        digits_value(s.take(k)) <= digits_value(s),
    decreases s.len() - k,
{
    if k < s.len() {
        let t = s.drop_last();
        assert(all_digits(t)) by {
            assert forall|i: int| 0 <= i < t.len() implies is_digit(#[trigger] t[i]) by {
                assert(t[i] == s[i]);
            }
        }
        lemma_digits_value_prefix(t, k);
        assert(t.take(k) =~= s.take(k));
        lemma_digits_value_nonneg(t);
        assert(is_digit(s[s.len() - 1]));
    } else {
        assert(s.take(k) =~= s);
    }
}

/// Parses `v[lo..hi]` as a signed numeral whose magnitude may not exceed `limit`
/// (the magnitude limit depends on the sign).
fn parse_magnitude(v: &Vec<char>, lo: usize, hi: usize, limit: u128) -> (r: Option<u128>)
    requires
        lo <= hi <= v@.len(),
        limit <= u64::MAX,
    ensures
        ({
            let d = v@.subrange(lo as int, hi as int);
            match r {
                Some(m) => d.len() > 0 && all_digits(d) && m == digits_value(d) && m <= limit,
                None => !(d.len() > 0 && all_digits(d) && digits_value(d) <= limit),
            }
        }),
{
    let ghost d = v@.subrange(lo as int, hi as int);
    if lo == hi {
        return None;
    }
    let mut acc: u128 = 0;
    let mut i = lo;
    while i < hi
        invariant
            lo <= i <= hi,
            hi <= v@.len(),
            limit <= u64::MAX,
            d == v@.subrange(lo as int, hi as int),
            all_digits(d.take(i - lo)),
            acc == digits_value(d.take(i - lo)),
            acc <= limit,
        decreases hi - i,
    {
        let c = v[i];
        if !('0' <= c && c <= '9') {
            proof {
                assert(d[i - lo] == c);
            }
            return None;
        }
        let dv = (c as u32 - '0' as u32) as u128;
        proof {
            assert(d.take(i - lo + 1).drop_last() =~= d.take(i - lo));
            assert(d.take(i - lo + 1).last() == c);
            assert(all_digits(d.take(i - lo + 1))) by {
                assert forall|k: int| 0 <= k < i - lo + 1 implies is_digit(
                    #[trigger] d.take(i - lo + 1)[k],
                ) by {
                    if k < i - lo {
                        assert(d.take(i - lo + 1)[k] == d.take(i - lo)[k]);
                    }
                }
            }
        }
        acc = acc * 10 + dv;
        if acc > limit {
            proof {
                if all_digits(d) {
                    lemma_digits_value_prefix(d, i - lo + 1);
                }
            }
            return None;
        }
        i = i + 1;
    }
    proof {
        assert(d.take(hi - lo) =~= d);
    }
    Some(acc)
}

/// `v[lo..hi].parse::<i64>().ok()`.
pub fn parse_i64_range(v: &Vec<char>, lo: usize, hi: usize) -> (r: Option<i64>)
    requires
        lo <= hi <= v@.len(),
    ensures
        r == parse_i64_spec(v@.subrange(lo as int, hi as int)),
{
    let ghost s = v@.subrange(lo as int, hi as int);
    let neg = lo < hi && v[lo] == '-';
    let signed = lo < hi && (v[lo] == '-' || v[lo] == '+');
    let start = if signed {
        lo + 1
    } else {
        lo
    };
    proof {
        if signed {
            assert(s[0] == v@[lo as int]);
            assert(s.drop_first() =~= v@.subrange(start as int, hi as int));
        } else if lo < hi {
            assert(s[0] == v@[lo as int]);
        }
    }
    let limit: u128 = if neg {
        0x8000_0000_0000_0000
    } else {
        0x7fff_ffff_ffff_ffff
    };
    match parse_magnitude(v, start, hi, limit) {
        Some(m) => {
            let r: i128 = if neg {
                -(m as i128)
            } else {
                m as i128
            };
            Some(r as i64)
        },
        None => {
            proof {
                let d = v@.subrange(start as int, hi as int);
                if d.len() > 0 && all_digits(d) {
                    lemma_digits_value_nonneg(d);
                }
            }
            None
        },
    }
}

/// `v[lo..hi].parse::<u64>().ok()`.
pub fn parse_u64_range(v: &Vec<char>, lo: usize, hi: usize) -> (r: Option<u64>)
    requires
        lo <= hi <= v@.len(),
    ensures
        r == parse_u64_spec(v@.subrange(lo as int, hi as int)),
{
    let ghost s = v@.subrange(lo as int, hi as int);
    if lo < hi && v[lo] == '-' {
        proof {
            assert(s[0] == v@[lo as int]);
        }
        return None;
    }
    let signed = lo < hi && v[lo] == '+';
    let start = if signed {
        lo + 1
    } else {
        lo
    };
    proof {
        if signed {
            assert(s[0] == v@[lo as int]);
            assert(s.drop_first() =~= v@.subrange(start as int, hi as int));
        } else if lo < hi {
            assert(s[0] == v@[lo as int]);
        }
    }
    match parse_magnitude(v, start, hi, 0xffff_ffff_ffff_ffff) {
        Some(m) => Some(m as u64),
        None => {
            proof {
                let d = v@.subrange(start as int, hi as int);
                if d.len() > 0 && all_digits(d) {
                    lemma_digits_value_nonneg(d);
                }
            }
            None
        },
    }
}

// ---------------------------------------------------------------------------
// Decimal formatting (`Display` of integers, with `{:0N}` padding)
// ---------------------------------------------------------------------------

pub open spec fn digit_char(d: nat) -> char {
    if d == 0 { '0' } else if d == 1 { '1' } else if d == 2 { '2' } else if d == 3 { '3' }
    else if d == 4 { '4' } else if d == 5 { '5' } else if d == 6 { '6' } else if d == 7 { '7' }
    else if d == 8 { '8' } else { '9' }
}

pub proof fn lemma_digit_char(k: nat)
    requires
        k < 10,
    ensures
        digit_value(digit_char(k)) == k,
        is_digit(digit_char(k)),
{
}

/// The decimal digits of `n`, without leading zeros.
pub open spec fn decimal(n: nat) -> Seq<char>
    decreases n,
{
    if n < 10 {
        seq![digit_char(n)]
    } else {
        decimal(n / 10).push(digit_char(n % 10))
    }
}

/// `n` zeros.
pub open spec fn zeros(n: nat) -> Seq<char> {
    Seq::new(n, |i: int| '0')
}

/// `{:0width$}` of a non-negative integer: zeros in front up to `width` characters.
pub open spec fn padded(n: nat, width: nat) -> Seq<char> {
    let d = decimal(n);
    if d.len() < width {
        zeros((width - d.len()) as nat) + d
    } else {
        d
    }
}

/// `{:0width$}` of any integer: the sign counts toward the width.
pub open spec fn padded_int(n: int, width: nat) -> Seq<char> {
    if n >= 0 {
        padded(n as nat, width)
    } else {
        let d = decimal((-n) as nat);
        if d.len() + 1 < width {
            seq!['-'] + zeros((width - d.len() - 1) as nat) + d
        } else {
            seq!['-'] + d
        }
    }
}

pub proof fn lemma_decimal_digits(n: nat)
    ensures
        all_digits(decimal(n)),
        decimal(n).len() > 0,
        digits_value(decimal(n)) == n,
        decimal(n)[0] != '-',
    decreases n,
{
    lemma_digit_char(n % 10);
    if n >= 10 {
        lemma_decimal_digits(n / 10);
        let d = decimal(n);
        assert(d.drop_last() =~= decimal(n / 10));
        assert(d.last() == digit_char(n % 10));
        assert(digits_value(d) == digits_value(d.drop_last()) * 10 + digit_value(d.last()));
        assert(n == (n / 10) * 10 + n % 10);
        assert forall|i: int| 0 <= i < d.len() implies is_digit(#[trigger] d[i]) by {
            if i < d.len() - 1 {
                assert(d[i] == decimal(n / 10)[i]);
            }
        }
    } else {
        let d = decimal(n);
        assert(d.drop_last() =~= Seq::<char>::empty());
        assert(digits_value(d) == digits_value(d.drop_last()) * 10 + digit_value(d.last()));
    }
}

/// Formatting a `u64` in decimal and parsing it back gives the same number.
pub proof fn lemma_decimal_parses_back(n: u64)
    ensures
        parse_u64_spec(decimal(n as nat)) == Some(n),
{
    lemma_decimal_digits(n as nat);
    let d = decimal(n as nat);
    assert(d[0] != '+') by {
        assert(is_digit(d[0]));
    }
}

#[verifier::external_body]
/// Appends one character (`String::push`).
pub fn push_char(s: &mut String, c: char)
    ensures
        final(s)@ == old(s)@.push(c),
{
    s.push(c);
}

/// Appends the decimal digits of `n`.
pub fn push_decimal(s: &mut String, n: u64)
    ensures
        final(s)@ == old(s)@ + decimal(n as nat),
    decreases n,
{
    if n >= 10 {
        push_decimal(s, n / 10);
    }
    let ghost mid = s@;
    push_char(s, char_of_digit((n % 10) as u32));
    proof {
        if n >= 10 {
            assert(decimal(n as nat) == decimal((n / 10) as nat).push(digit_char((n % 10) as nat)));
        }
    }
}

fn char_of_digit(d: u32) -> (c: char)
    requires
        d < 10,
    ensures
        c == digit_char(d as nat),
{
    match d {
        0 => '0',
        1 => '1',
        2 => '2',
        3 => '3',
        4 => '4',
        5 => '5',
        6 => '6',
        7 => '7',
        8 => '8',
        _ => '9',
    }
}

/// The decimal text of `n` (`n.to_string()`).
pub fn u64_to_string(n: u64) -> (s: String)
    ensures
        s@ == decimal(n as nat),
{
    let mut s = String::new();
    push_decimal(&mut s, n);
    proof {
        assert(Seq::<char>::empty() + decimal(n as nat) =~= decimal(n as nat));
    }
    s
}

/// Appends `n` in decimal with zeros in front up to `width` characters.
pub fn push_padded(s: &mut String, n: u64, width: usize)
    ensures
        final(s)@ == old(s)@ + padded(n as nat, width as nat),
{
    let len = decimal_len(n);
    let ghost start = s@;
    if len < width {
        let mut k = len;
        while k < width
            invariant
                len <= k <= width,
                s@ == start + zeros((k - len) as nat),
            decreases width - k,
        {
            push_char(s, '0');
            proof {
                assert(zeros((k + 1 - len) as nat) =~= zeros((k - len) as nat).push('0'));
            }
            k = k + 1;
        }
    }
    let ghost mid = s@;
    push_decimal(s, n);
    proof {
        if len < width {
            assert(s@ =~= start + (zeros((width - len) as nat) + decimal(n as nat)));
        } else {
            assert(s@ =~= start + decimal(n as nat));
        }
    }
}

/// Appends `n` formatted as `{:0width$}`.
pub fn push_padded_i64(s: &mut String, n: i64, width: usize)
    ensures
        final(s)@ == old(s)@ + padded_int(n as int, width as nat),
{
    if n >= 0 {
        push_padded(s, n as u64, width);
    } else {
        let mag: u64 = (-(n as i128)) as u64;
        let ghost start = s@;
        push_char(s, '-');
        let len = decimal_len(mag);
        let w = if width > 0 {
            width - 1
        } else {
            0
        };
        push_padded(s, mag, w);
        proof {
            if len + 1 < width {
                assert(s@ =~= start + (seq!['-'] + zeros((width - len - 1) as nat) + decimal(
                    mag as nat,
                )));
            } else {
                assert(s@ =~= start + (seq!['-'] + decimal(mag as nat)));
            }
        }
    }
}

/// Number of decimal digits of `n`.
pub fn decimal_len(n: u64) -> (l: usize)
    ensures
        l == decimal(n as nat).len(),
        1 <= l <= 20,
    decreases n,
{
    if n < 10 {
        1
    } else {
        let l = decimal_len(n / 10);
        proof {
            assert(decimal(n as nat).len() == decimal((n / 10) as nat).len() + 1);
        }
        if l >= 20 {
            proof {
                lemma_decimal_len_bound(n as nat);
            }
        }
        l + 1
    }
}

proof fn lemma_decimal_len_bound(n: nat)
    requires
        n <= u64::MAX,
    ensures
        decimal(n).len() <= 20,
{
    reveal_with_fuel(pow10, 21);
    assert(pow10(20) == 100000000000000000000nat);
    lemma_decimal_len_le(n, 20);
}

/// `n < 10^k` bounds the number of digits by `k`.
proof fn lemma_decimal_len_le(n: nat, k: nat)
    requires
        k >= 1,
        n < pow10(k),
    ensures
        decimal(n).len() <= k,
    decreases k,
{
    if n >= 10 {
        if k == 1 {
            assert(pow10(1) == 10 * pow10(0));
        } else {
            assert(pow10(k) == 10 * pow10((k - 1) as nat));
            assert(n / 10 < pow10((k - 1) as nat));
            lemma_decimal_len_le(n / 10, (k - 1) as nat);
        }
    }
}

pub open spec fn pow10(k: nat) -> nat
    decreases k,
{
    if k == 0 {
        1
    } else {
        10 * pow10((k - 1) as nat)
    }
}

// ---------------------------------------------------------------------------
// Building strings and comparing
// ---------------------------------------------------------------------------

/// The characters of `s`, in order.
pub fn to_chars(s: &str) -> (v: Vec<char>)
    ensures
        v@ == s@,
{
    let mut v: Vec<char> = Vec::new();
    for c in it: s.chars()
        invariant
            v@ == it.seq().take(it.index() as int),
            it.seq() == s@,
    {
        v.push(c);
    }
    v
}

/// The string made of `v[lo..hi]`.
pub fn string_of(v: &Vec<char>, lo: usize, hi: usize) -> (s: String)
    requires
        lo <= hi <= v@.len(),
    ensures
        s@ == v@.subrange(lo as int, hi as int),
{
    let mut s = String::new();
    let mut i = lo;
    while i < hi
        invariant
            lo <= i <= hi,
            hi <= v@.len(),
            s@ == v@.subrange(lo as int, i as int),
        decreases hi - i,
    {
        push_char(&mut s, v[i]);
        proof {
            assert(v@.subrange(lo as int, i + 1) =~= v@.subrange(lo as int, i as int).push(
                v@[i as int],
            ));
        }
        i = i + 1;
    }
    s
}

/// Appends `t`'s characters.
pub fn push_str(s: &mut String, t: &str)
    ensures
        final(s)@ == old(s)@ + t@,
{
    s.append(t);
}

/// `v[lo..hi] == t`.
pub fn range_eq(v: &Vec<char>, lo: usize, hi: usize, t: &str) -> (b: bool)
    requires
        lo <= hi <= v@.len(),
    ensures
        b == (v@.subrange(lo as int, hi as int) == t@),
{
    let tv = to_chars(t);
    if hi - lo != tv.len() {
        proof {
            assert(v@.subrange(lo as int, hi as int).len() != t@.len());
        }
        return false;
    }
    let mut i: usize = 0;
    while i < tv.len()
        invariant
            i <= tv@.len(),
            tv@ == t@,
            hi - lo == tv@.len(),
            lo <= hi <= v@.len(),
            forall|k: int| 0 <= k < i ==> v@[lo + k] == tv@[k],
        decreases tv@.len() - i,
    {
        if v[lo + i] != tv[i] {
            proof {
                assert(v@.subrange(lo as int, hi as int)[i as int] != t@[i as int]);
            }
            return false;
        }
        i = i + 1;
    }
    proof {
        assert(v@.subrange(lo as int, hi as int) =~= t@);
    }
    true
}

/// `a == b` on strings.
pub fn str_eq(a: &str, b: &str) -> (r: bool)
    ensures
        r == (a@ == b@),
{
    let v = to_chars(a);
    proof {
        assert(v@.subrange(0, v@.len() as int) =~= a@);
    }
    range_eq(&v, 0, v.len(), b)
}

/// `a.strip_prefix(p)`: the rest of `a` when it starts with `p`.
pub fn strip_prefix(a: &str, p: &str) -> (r: Option<String>)
    ensures
        match r {
            Some(rest) => p@.len() <= a@.len() && a@.take(p@.len() as int) == p@ && rest@ == a@.skip(
                p@.len() as int,
            ),
            None => !(p@.len() <= a@.len() && a@.take(p@.len() as int) == p@),
        },
{
    let v = to_chars(a);
    let pv = to_chars(p);
    if pv.len() > v.len() {
        return None;
    }
    if range_eq(&v, 0, pv.len(), p) {
        proof {
            assert(v@.subrange(0, pv@.len() as int) =~= a@.take(p@.len() as int));
            assert(v@.subrange(pv@.len() as int, v@.len() as int) =~= a@.skip(p@.len() as int));
        }
        Some(string_of(&v, pv.len(), v.len()))
    } else {
        proof {
            assert(v@.subrange(0, pv@.len() as int) =~= a@.take(p@.len() as int));
        }
        None
    }
}

/// `t` occurs in `s` as a contiguous piece.
pub open spec fn contains_seq(s: Seq<char>, t: Seq<char>) -> bool {
    exists|i: int| 0 <= i && i + t.len() <= s.len() && #[trigger] s.subrange(i, i + t.len()) == t
}

/// `s.contains(t)` on strings.
pub fn str_contains(s: &str, t: &str) -> (b: bool)
    ensures
        b == contains_seq(s@, t@),
{
    let sv = to_chars(s);
    let tv = to_chars(t);
    if tv.len() > sv.len() {
        return false;
    }
    let mut i: usize = 0;
    while i <= sv.len() - tv.len()
        invariant
            sv@ == s@,
            tv@ == t@,
            tv@.len() <= sv@.len(),
            i <= sv@.len() - tv@.len() + 1,
            forall|k: int|
                0 <= k < i ==> #[trigger] sv@.subrange(k, k + tv@.len()) != tv@,
        decreases sv@.len() - i,
    {
        let mut j: usize = 0;
        let mut same = true;
        while j < tv.len()
            invariant
                j <= tv@.len(),
                i + tv@.len() <= sv@.len(),
                sv@.len() == sv.len(),
                tv@.len() == tv.len(),
                same == (forall|k: int| 0 <= k < j ==> sv@[i + k] == tv@[k]),
            decreases tv@.len() - j,
        {
            if sv[i + j] != tv[j] {
                same = false;
            }
            j = j + 1;
        }
        if same {
            proof {
                assert(sv@.subrange(i as int, i + tv@.len()) =~= tv@);
            }
            return true;
        }
        proof {
            let k = choose|k: int| 0 <= k < tv@.len() && sv@[i + k] != tv@[k];
            assert(sv@.subrange(i as int, i + tv@.len())[k] != tv@[k]);
        }
        i = i + 1;
    }
    proof {
        assert forall|k: int| 0 <= k && k + t@.len() <= s@.len() implies #[trigger] s@.subrange(
            k,
            k + t@.len(),
        ) != t@ by {
            assert(k < i);
        }
    }
    false
}

/// Unicode lower-case mapping of a string (`str::to_lowercase`).
pub uninterp spec fn lowercase(s: Seq<char>) -> Seq<char>;

#[verifier::external_body]
/// Calls `str::to_lowercase`; its result is `lowercase` of the characters, which
/// depends on the characters alone (the mapping is fixed by Unicode, not the locale).
pub fn to_lowercase(s: &str) -> (r: String)
    ensures
        r@ == lowercase(s@),
{
    s.to_lowercase()
}

/// The `Debug` rendering of a string: quoted, with special characters escaped.
pub uninterp spec fn debug_quoted(s: Seq<char>) -> Seq<char>;

#[verifier::external_body]
/// Calls `<str as Debug>::fmt` through `format!("{:?}")`; its result is
/// `debug_quoted` of the characters, which depends on them alone.
pub fn debug_str(s: &str) -> (r: String)
    ensures
        r@ == debug_quoted(s@),
{
    format!("{:?}", s)
}

} // verus!
