//! Character-level text handling: whitespace trimming, field splitting and
//! decimal integers, as `str::trim`, `str::split` and `i64::from_str` /
//! `u64::from_str` define them.
use vstd::prelude::*;

verus! {

broadcast use vstd::string::group_string_axioms;

/// Whether `c` has the Unicode `White_Space` property, the set that
/// `char::is_whitespace` (and therefore `str::trim`) uses.
pub open spec fn spec_is_ws(c: char) -> bool {
    ||| ('\u{9}' <= c && c <= '\u{d}')
    ||| c == ' '
    ||| c == '\u{85}'
    ||| c == '\u{a0}'
    ||| c == '\u{1680}'
    ||| ('\u{2000}' <= c && c <= '\u{200a}')
    ||| c == '\u{2028}'
    ||| c == '\u{2029}'
    ||| c == '\u{202f}'
    ||| c == '\u{205f}'
    ||| c == '\u{3000}'
}

/// Executable test for the whitespace set of `spec_is_ws`.
pub fn is_ws(c: char) -> (r: bool)
    ensures
        r == spec_is_ws(c),
{
    ('\u{9}' <= c && c <= '\u{d}') || c == ' ' || c == '\u{85}' || c == '\u{a0}' || c == '\u{1680}'
        || ('\u{2000}' <= c && c <= '\u{200a}') || c == '\u{2028}' || c == '\u{2029}'
        || c == '\u{202f}' || c == '\u{205f}' || c == '\u{3000}'
}

/// The characters of `s`, in order.
pub fn chars_of(s: &str) -> (r: Vec<char>)
    ensures
        r@ == s@,
{
    let mut r: Vec<char> = Vec::new();
    for c in it: s.chars()
        invariant
            it.seq() == s@,
            r@ == it.seq().take(it.index() as int),
    {
        r.push(c);
    }
    r
}

/// Whether two character sequences are equal.
pub fn chars_eq(a: &Vec<char>, b: &Vec<char>) -> (r: bool)
    ensures
        r == (a@ == b@),
{
    if a.len() != b.len() {
        return false;
    }
    let mut i: usize = 0;
    while i < a.len()
        invariant
            a.len() == b.len(),
            i <= a.len(),
            forall|j: int| 0 <= j < i ==> a@[j] == b@[j],
        decreases a.len() - i,
    {
        if a[i] != b[i] {
            return false;
        }
        i = i + 1;
    }
    assert(a@ =~= b@);
    true
}

/// Whether the characters of `s` in `lo..hi` equal `t`.
pub fn range_eq(s: &Vec<char>, lo: usize, hi: usize, t: &Vec<char>) -> (r: bool)
    requires
        lo <= hi <= s.len(),
    ensures
        r == (s@.subrange(lo as int, hi as int) == t@),
{
    if hi - lo != t.len() {
        return false;
    }
    let mut i: usize = 0;
    while i < t.len()
        invariant
            hi - lo == t.len(),
            lo <= hi <= s.len(),
            i <= t.len(),
            forall|j: int| 0 <= j < i ==> s@[lo + j] == t@[j],
        decreases t.len() - i,
    {
        if s[lo + i] != t[i] {
            return false;
        }
        i = i + 1;
    }
    assert(s@.subrange(lo as int, hi as int) =~= t@);
    true
}

// ---------------------------------------------------------------------------
// Trimming
// ---------------------------------------------------------------------------

/// Number of whitespace characters at the start of `s`.
pub open spec fn lead_ws(s: Seq<char>) -> nat
    decreases s.len(),
{
    if s.len() > 0 && spec_is_ws(s[0]) {
        1 + lead_ws(s.drop_first())
    } else {
        0
    }
}

/// Number of whitespace characters at the end of `s`.
pub open spec fn trail_ws(s: Seq<char>) -> nat
    decreases s.len(),
{
    if s.len() > 0 && spec_is_ws(s.last()) {
        1 + trail_ws(s.drop_last())
    } else {
        0
    }
}

/// `s` without its leading and trailing whitespace (`str::trim`).
pub open spec fn spec_trim(s: Seq<char>) -> Seq<char> {
    let t = s.skip(lead_ws(s) as int);
    t.take(t.len() - trail_ws(t))
}

pub proof fn lemma_lead_ws(s: Seq<char>, a: int)
    requires
        0 <= a <= s.len(),
        forall|i: int| 0 <= i < a ==> spec_is_ws(#[trigger] s[i]),
        a == s.len() || !spec_is_ws(s[a]),
    ensures
        lead_ws(s) == a,
    decreases a,
{
    if a > 0 {
        assert(spec_is_ws(s[0]));
        let t = s.drop_first();
        assert forall|i: int| 0 <= i < a - 1 implies spec_is_ws(#[trigger] t[i]) by {
            assert(t[i] == s[i + 1]);
        }
        if a < s.len() {
            assert(t[a - 1] == s[a]);
        }
        lemma_lead_ws(t, a - 1);
    }
}

pub proof fn lemma_trail_ws(s: Seq<char>, b: int)
    requires
        0 <= b <= s.len(),
        forall|i: int| b <= i < s.len() ==> spec_is_ws(#[trigger] s[i]),
        b == 0 || !spec_is_ws(s[b - 1]),
    ensures
        trail_ws(s) == s.len() - b,
    decreases s.len() - b,
{
    if b < s.len() {
        assert(spec_is_ws(s[s.len() - 1]));
        let t = s.drop_last();
        assert forall|i: int| b <= i < t.len() implies spec_is_ws(#[trigger] t[i]) by {
            assert(t[i] == s[i]);
        }
        if b > 0 {
            assert(t[b - 1] == s[b - 1]);
        }
        lemma_trail_ws(t, b);
    }
}

/// Bounds `(a, b)` such that `s[a..b]` is the trimmed form of `s[lo..hi]`.
pub fn trim_range(s: &Vec<char>, lo: usize, hi: usize) -> (r: (usize, usize))
    requires
        lo <= hi <= s.len(),
    ensures
        lo <= r.0 <= r.1 <= hi,
        s@.subrange(r.0 as int, r.1 as int) == spec_trim(s@.subrange(lo as int, hi as int)),
{
    let ghost sub = s@.subrange(lo as int, hi as int);
    let mut a: usize = lo;
    while a < hi && is_ws(s[a])
        invariant
            lo <= a <= hi <= s.len(),
            sub == s@.subrange(lo as int, hi as int),
            forall|i: int| lo <= i < a ==> spec_is_ws(#[trigger] s@[i]),
        decreases hi - a,
    {
        a = a + 1;
    }
    proof {
        assert forall|i: int| 0 <= i < a - lo implies spec_is_ws(#[trigger] sub[i]) by {
            assert(sub[i] == s@[lo + i]);
        }
        if a < hi {
            assert(sub[a - lo] == s@[a as int]);
        }
        lemma_lead_ws(sub, a - lo);
    }
    let mut b: usize = hi;
    while b > a && is_ws(s[b - 1])
        invariant
            lo <= a <= b <= hi <= s.len(),
            forall|i: int| b <= i < hi ==> spec_is_ws(#[trigger] s@[i]),
        decreases b - a,
    {
        b = b - 1;
    }
    proof {
        let t = sub.skip(a - lo);
        assert(t =~= s@.subrange(a as int, hi as int));
        assert forall|i: int| b - a <= i < t.len() implies spec_is_ws(#[trigger] t[i]) by {
            assert(t[i] == s@[a + i]);
        }
        if b > a {
            assert(t[b - a - 1] == s@[b - 1]);
        }
        lemma_trail_ws(t, b - a);
        assert(t.take(t.len() - trail_ws(t)) =~= s@.subrange(a as int, b as int));
    }
    (a, b)
}

// ---------------------------------------------------------------------------
// Fields
// ---------------------------------------------------------------------------

/// Position of the first `d` in `s`, or `s.len()` when `s` holds none.
pub open spec fn field_end(s: Seq<char>, d: char) -> nat
    decreases s.len(),
{
    if s.len() == 0 {
        0
    } else if s[0] == d {
        0
    } else {
        1 + field_end(s.drop_first(), d)
    }
}

pub proof fn lemma_field_end_at(s: Seq<char>, d: char, e: int)
    requires
        0 <= e <= s.len(),
        forall|i: int| 0 <= i < e ==> s[i] != d,
        e == s.len() || s[e] == d,
    ensures
        field_end(s, d) == e,
    decreases e,
{
    if e > 0 {
        let t = s.drop_first();
        assert forall|i: int| 0 <= i < e - 1 implies t[i] != d by {
            assert(t[i] == s[i + 1]);
        }
        if e < s.len() {
            assert(t[e - 1] == s[e]);
        }
        lemma_field_end_at(t, d, e - 1);
    }
}

/// In `line + [d] + rest`, where `line` holds no `d`, the first field is
/// `line` and what follows the separator is `rest`.
pub proof fn lemma_split_line(line: Seq<char>, rest: Seq<char>, d: char)
    requires
        forall|i: int| 0 <= i < line.len() ==> line[i] != d,
    ensures
        field_end(line + seq![d] + rest, d) == line.len(),
        (line + seq![d] + rest).take(line.len() as int) == line,
        (line + seq![d] + rest).skip(line.len() + 1int) == rest,
{
    let s = line + seq![d] + rest;
    assert forall|i: int| 0 <= i < line.len() implies s[i] != d by {
        assert(s[i] == line[i]);
    }
    assert(s[line.len() as int] == d);
    lemma_field_end_at(s, d, line.len() as int);
    assert(s.take(line.len() as int) =~= line);
    assert(s.skip(line.len() + 1int) =~= rest);
}

/// A text that neither starts nor ends with whitespace is its own trimmed
/// form.
pub proof fn lemma_trim_unchanged(s: Seq<char>)
    requires
        s.len() > 0 ==> !spec_is_ws(s[0]) && !spec_is_ws(s.last()),
    ensures
        spec_trim(s) == s,
{
    assert(lead_ws(s) == 0);
    assert(s.skip(0) =~= s);
    assert(trail_ws(s) == 0);
    assert(s.take(s.len() as int) =~= s);
}

/// The first position `e` in `lo..hi` with `s[e] == d`, or `hi`.
pub fn find_char(s: &Vec<char>, lo: usize, hi: usize, d: char) -> (e: usize)
    requires
        lo <= hi <= s.len(),
    ensures
        lo <= e <= hi,
        e - lo == field_end(s@.subrange(lo as int, hi as int), d),
{
    let mut e: usize = lo;
    while e < hi && s[e] != d
        invariant
            lo <= e <= hi <= s.len(),
            forall|i: int| lo <= i < e ==> s@[i] != d,
        decreases hi - e,
    {
        e = e + 1;
    }
    proof {
        let sub = s@.subrange(lo as int, hi as int);
        assert forall|i: int| 0 <= i < e - lo implies sub[i] != d by {
            assert(sub[i] == s@[lo + i]);
        }
        if e < hi {
            assert(sub[e - lo] == s@[e as int]);
        }
        lemma_field_end_at(sub, d, e - lo);
    }
    e
}

// ---------------------------------------------------------------------------
// Decimal integers
// ---------------------------------------------------------------------------

/// An ASCII decimal digit.
pub open spec fn is_digit(c: char) -> bool {
    '0' <= c && c <= '9'
}

/// Whether every character of `s` is an ASCII decimal digit.
pub open spec fn all_digits(s: Seq<char>) -> bool {
    forall|i: int| 0 <= i < s.len() ==> is_digit(#[trigger] s[i])
}

/// The number that the decimal digits `s` denote.
pub open spec fn digits_value(s: Seq<char>) -> int
    decreases s.len(),
{
    if s.len() == 0 {
        0
    } else {
        digits_value(s.drop_last()) * 10 + (s.last() as int - '0' as int)
    }
}

/// The value of a nonempty run of decimal digits, or `None`.
pub open spec fn spec_digits(s: Seq<char>) -> Option<int> {
    if s.len() > 0 && all_digits(s) {
        Some(digits_value(s))
    } else {
        None
    }
}

/// The mathematical value of a signed decimal integer: an optional `+` or
/// `-`, then one or more digits.
pub open spec fn spec_signed_value(s: Seq<char>) -> Option<int> {
    if s.len() > 0 && s[0] == '+' {
        spec_digits(s.drop_first())
    } else if s.len() > 0 && s[0] == '-' {
        match spec_digits(s.drop_first()) {
            Some(m) => Some(-m),
            None => None,
        }
    } else {
        spec_digits(s)
    }
}

/// The mathematical value of an unsigned decimal integer: an optional `+`,
/// then one or more digits.
pub open spec fn spec_unsigned_value(s: Seq<char>) -> Option<int> {
    if s.len() > 0 && s[0] == '+' {
        spec_digits(s.drop_first())
    } else {
        spec_digits(s)
    }
}

/// What `s.parse::<i64>()` gives: the value when `s` is a signed decimal
/// integer within the range of `i64`, else `None`.
pub open spec fn spec_parse_i64(s: Seq<char>) -> Option<i64> {
    match spec_signed_value(s) {
        Some(v) => if i64::MIN <= v <= i64::MAX {
            Some(v as i64)
        } else {
            None
        },
        None => None,
    }
}

/// What `s.parse::<u64>()` gives: the value when `s` is an unsigned decimal
/// integer within the range of `u64`, else `None`.
pub open spec fn spec_parse_u64(s: Seq<char>) -> Option<u64> {
    match spec_unsigned_value(s) {
        Some(v) => if 0 <= v <= u64::MAX {
            Some(v as u64)
        } else {
            None
        },
        None => None,
    }
}

proof fn lemma_digits_value_grows(s: Seq<char>, k: int)
    requires
        all_digits(s),
        0 <= k <= s.len(),
    ensures
        0 <= digits_value(s.take(k)) <= digits_value(s),
    decreases s.len(),
{
    if s.len() > 0 {
        let t = s.drop_last();
        assert(all_digits(t)) by {
            assert forall|i: int| 0 <= i < t.len() implies is_digit(#[trigger] t[i]) by {
                assert(t[i] == s[i]);
            }
        }
        assert(is_digit(s[s.len() - 1]));
        if k == s.len() {
            assert(s.take(k) =~= s);
            lemma_digits_value_grows(t, t.len() as int);
            assert(t.take(t.len() as int) =~= t);
        } else {
            lemma_digits_value_grows(t, k);
            assert(t.take(k) =~= s.take(k));
            lemma_digits_value_grows(t, t.len() as int);
            assert(t.take(t.len() as int) =~= t);
        }
    } else {
        assert(s.take(k) =~= s);
    }
}

/// The value of a run of digits is never negative.
pub proof fn lemma_digits_nonneg(s: Seq<char>)
    requires
        all_digits(s),
    ensures
        digits_value(s) >= 0,
{
    lemma_digits_value_grows(s, 0);
}

/// The value of the digits `s[lo..hi]` when they are a nonempty run of
/// digits whose value fits in `u64`, else `None`.
pub fn parse_digits(s: &Vec<char>, lo: usize, hi: usize) -> (r: Option<u64>)
    requires
        lo <= hi <= s.len(),
    ensures
        spec_digits(s@.subrange(lo as int, hi as int)) matches Some(v) ==> v >= 0,
        r == (match spec_digits(s@.subrange(lo as int, hi as int)) {
            Some(v) => if v <= u64::MAX {
                Some(v as u64)
            } else {
                None
            },
            None => None,
        }),
{
    let ghost sub = s@.subrange(lo as int, hi as int);
    proof {
        if all_digits(sub) {
            lemma_digits_nonneg(sub);
        }
    }
    if lo == hi {
        return None;
    }
    let mut acc: u64 = 0;
    let mut i: usize = lo;
    while i < hi
        invariant
            lo <= i <= hi <= s.len(),
            lo < hi,
            sub == s@.subrange(lo as int, hi as int),
            all_digits(s@.subrange(lo as int, i as int)),
            acc as int == digits_value(s@.subrange(lo as int, i as int)),
        decreases hi - i,
    {
        let c = s[i];
        if !('0' <= c && c <= '9') {
            proof {
                assert(sub[i - lo] == c);
                assert(!all_digits(sub));
            }
            return None;
        }
        let d: u64 = ((c as u32) - ('0' as u32)) as u64;
        let ghost pre = s@.subrange(lo as int, i as int);
        let ghost next = s@.subrange(lo as int, i + 1);
        proof {
            assert(next.drop_last() =~= pre);
            assert(next.last() == c);
            assert(all_digits(next)) by {
                assert forall|j: int| 0 <= j < next.len() implies is_digit(#[trigger] next[j]) by {
                    if j < pre.len() {
                        assert(next[j] == pre[j]);
                    }
                }
            }
        }
        let m = acc.checked_mul(10);
        let nv = match m {
            Some(m) => m.checked_add(d),
            None => None,
        };
        match nv {
            Some(v) => {
                acc = v;
            },
            None => {
                proof {
                    assert(digits_value(next) > u64::MAX);
                    if all_digits(sub) {
                        lemma_digits_value_grows(sub, i + 1 - lo);
                        assert(sub.take(i + 1 - lo) =~= next);
                    }
                }
                return None;
            },
        }
        i = i + 1;
    }
    proof {
        assert(s@.subrange(lo as int, i as int) =~= sub);
    }
    Some(acc)
}

/// `s[lo..hi].parse::<i64>()`.
pub fn parse_i64_range(s: &Vec<char>, lo: usize, hi: usize) -> (r: Option<i64>)
    requires
        lo <= hi <= s.len(),
    ensures
        r == spec_parse_i64(s@.subrange(lo as int, hi as int)),
{
    let ghost sub = s@.subrange(lo as int, hi as int);
    if lo < hi && (s[lo] == '+' || s[lo] == '-') {
        let neg = s[lo] == '-';
        proof {
            assert(sub[0] == s@[lo as int]);
            assert(sub.drop_first() =~= s@.subrange(lo + 1, hi as int));
        }
        match parse_digits(s, lo + 1, hi) {
            Some(m) => {
                if neg {
                    if m <= 9223372036854775807u64 {
                        Some(-(m as i64))
                    } else if m == 9223372036854775808u64 {
                        Some(i64::MIN)
                    } else {
                        None
                    }
                } else if m <= 9223372036854775807u64 {
                    Some(m as i64)
                } else {
                    None
                }
            },
            None => None,
        }
    } else {
        proof {
            if lo < hi {
                assert(sub[0] == s@[lo as int]);
            }
        }
        match parse_digits(s, lo, hi) {
            Some(m) => if m <= 9223372036854775807u64 {
                Some(m as i64)
            } else {
                None
            },
            None => None,
        }
    }
}

/// `s[lo..hi].parse::<u64>()`.
pub fn parse_u64_range(s: &Vec<char>, lo: usize, hi: usize) -> (r: Option<u64>)
    requires
        lo <= hi <= s.len(),
    ensures
        r == spec_parse_u64(s@.subrange(lo as int, hi as int)),
{
    let ghost sub = s@.subrange(lo as int, hi as int);
    if lo < hi && s[lo] == '+' {
        proof {
            assert(sub[0] == s@[lo as int]);
            assert(sub.drop_first() =~= s@.subrange(lo + 1, hi as int));
        }
        parse_digits(s, lo + 1, hi)
    } else {
        proof {
            if lo < hi {
                assert(sub[0] == s@[lo as int]);
            }
        }
        parse_digits(s, lo, hi)
    }
}

/// `s.parse::<i64>()`: an optional sign and decimal digits, within range.
pub fn parse_i64(s: &str) -> (r: Option<i64>)
    ensures
        r == spec_parse_i64(s@),
{
    let v = chars_of(s);
    proof {
        assert(v@.subrange(0, v@.len() as int) =~= v@);
    }
    parse_i64_range(&v, 0, v.len())
}

/// `s.parse::<u64>()`: an optional `+` and decimal digits, within range.
pub fn parse_u64(s: &str) -> (r: Option<u64>)
    ensures
        r == spec_parse_u64(s@),
{
    let v = chars_of(s);
    proof {
        assert(v@.subrange(0, v@.len() as int) =~= v@);
    }
    parse_u64_range(&v, 0, v.len())
}

} // verus!
