//! The saved smoothing state: what the state file holds, and whether it is
//! recent enough to resume from.
use vstd::prelude::*;

use crate::monitor::opt_view;
use crate::text::{
    all_digits, chars_of, digits_value, field_end, find_char, is_digit, lemma_split_line,
    lemma_trim_unchanged, parse_u64_range, range_eq, spec_is_ws, spec_parse_u64, spec_trim,
    trim_range,
};

verus! {

broadcast use vstd::string::group_string_axioms;

/// A state file older than this (seconds) is not resumed from.
pub const STATE_MAX_AGE_SECS: u64 = 1800;

/// `smooth=`
pub open spec fn smooth_key() -> Seq<char> {
    seq!['s', 'm', 'o', 'o', 't', 'h', '=']
}

/// `ts=`
pub open spec fn ts_key() -> Seq<char> {
    seq!['t', 's', '=']
}

/// `line` starts with `key`.
pub open spec fn has_prefix(line: Seq<char>, key: Seq<char>) -> bool {
    line.len() >= key.len() && line.take(key.len() as int) == key
}

/// What the state file says: the text of the last `smooth=` line, trimmed,
/// and the time of the last `ts=` line (0 when that line is malformed).
pub open spec fn scan_state(s: Seq<char>, smooth: Option<Seq<char>>, ts: u64) -> (Option<Seq<char>>, u64)
    decreases s.len(),
{
    let e = field_end(s, '\n');
    let line = s.take(e as int);
    let smooth2 = if has_prefix(line, smooth_key()) {
        Some(spec_trim(line.skip(7)))
    } else {
        smooth
    };
    let ts2 = if has_prefix(line, ts_key()) {
        match spec_parse_u64(spec_trim(line.skip(3))) {
            Some(v) => v,
            None => 0,
        }
    } else {
        ts
    };
    if e < s.len() {
        scan_state(s.skip(e + 1int), smooth2, ts2)
    } else {
        (smooth2, ts2)
    }
}

/// The contents of the state file.
pub struct SavedState {
    /// The text of the saved level, if a `smooth=` line was found.
    pub smooth: Option<String>,
    /// When it was saved (Unix seconds; 0 when unknown).
    pub ts: u64,
}

/// Reads the state file text: `smooth=<level>` and `ts=<seconds>` lines,
/// where a later line overrides an earlier one.
pub fn parse_state(text: &str) -> (r: SavedState)
    ensures
        (opt_view(r.smooth), r.ts) == scan_state(text@, None, 0),
{
    let s = chars_of(text);
    let sk = vec!['s', 'm', 'o', 'o', 't', 'h', '='];
    let tk = vec!['t', 's', '='];
    assert(sk@ =~= smooth_key());
    assert(tk@ =~= ts_key());
    let mut smooth: Option<(usize, usize)> = None;
    let mut ts: u64 = 0;
    let mut start: usize = 0;
    assert(s@.skip(0) =~= s@);
    let ghost mut sm: Option<Seq<char>> = None;
    loop
        invariant_except_break
            scan_state(s@, None, 0) == scan_state(s@.skip(start as int), sm, ts),
        invariant
            start <= s.len(),
            s@ == text@,
            sk@ == smooth_key(),
            tk@ == ts_key(),
            match smooth {
                Some((a, b)) => a <= b <= s.len() && sm == Some(s@.subrange(a as int, b as int)),
                None => sm is None,
            },
        ensures
            scan_state(s@, None, 0) == (sm, ts),
        decreases s.len() - start,
    {
        let e = find_char(&s, start, s.len(), '\n');
        let ghost t = s@.skip(start as int);
        let ghost line = s@.subrange(start as int, e as int);
        proof {
            assert(t =~= s@.subrange(start as int, s.len() as int));
            assert(t.take(e - start) =~= line);
            if e < s.len() {
                assert(t.skip(e - start + 1) =~= s@.skip(e + 1));
            }
        }
        if e - start >= 7 && range_eq(&s, start, start + 7, &sk) {
            let (a, b) = trim_range(&s, start + 7, e);
            proof {
                assert(line.take(7) =~= s@.subrange(start as int, start + 7));
                assert(line.skip(7) =~= s@.subrange(start + 7, e as int));
                sm = Some(s@.subrange(a as int, b as int));
            }
            smooth = Some((a, b));
        } else {
            proof {
                if line.len() >= 7 {
                    assert(line.take(7) =~= s@.subrange(start as int, start + 7));
                }
            }
        }
        if e - start >= 3 && range_eq(&s, start, start + 3, &tk) {
            let (a, b) = trim_range(&s, start + 3, e);
            proof {
                assert(line.take(3) =~= s@.subrange(start as int, start + 3));
                assert(line.skip(3) =~= s@.subrange(start + 3, e as int));
            }
            ts = match parse_u64_range(&s, a, b) {
                Some(v) => v,
                None => 0,
            };
        } else {
            proof {
                if line.len() >= 3 {
                    assert(line.take(3) =~= s@.subrange(start as int, start + 3));
                }
            }
        }
        if e < s.len() {
            start = e + 1;
        } else {
            break;
        }
    }
    let smooth_text = match smooth {
        Some((a, b)) => Some(String::from_str(text.substring_char(a, b))),
        None => None,
    };
    SavedState { smooth: smooth_text, ts }
}

/// `status=`
pub open spec fn status_key() -> Seq<char> {
    seq!['s', 't', 'a', 't', 'u', 's', '=']
}

/// The decimal digit for `d < 10`.
pub open spec fn digit_char(d: int) -> char {
    if d == 0 {
        '0'
    } else if d == 1 {
        '1'
    } else if d == 2 {
        '2'
    } else if d == 3 {
        '3'
    } else if d == 4 {
        '4'
    } else if d == 5 {
        '5'
    } else if d == 6 {
        '6'
    } else if d == 7 {
        '7'
    } else if d == 8 {
        '8'
    } else {
        '9'
    }
}

/// The decimal form of `n`, without leading zeros (as `u64::to_string`).
pub open spec fn spec_decimal(n: nat) -> Seq<char>
    decreases n,
{
    if n < 10 {
        seq![digit_char(n as int)]
    } else {
        spec_decimal(n / 10).push(digit_char((n % 10) as int))
    }
}

/// The text of the state file: the level text, the time of saving and the
/// status, one `key=value` line each.
pub open spec fn spec_state_text(smooth: Seq<char>, ts: u64, status: Seq<char>) -> Seq<char> {
    smooth_key() + smooth + seq!['\n'] + ts_key() + spec_decimal(ts as nat) + seq!['\n']
        + status_key() + status + seq!['\n']
}

fn digit_str(d: u64) -> (r: &'static str)
    requires
        d < 10,
    ensures
        r@ == seq![digit_char(d as int)],
{
    if d == 0 {
        proof {
            reveal_strlit("0");
        }
        "0"
    } else if d == 1 {
        proof {
            reveal_strlit("1");
        }
        "1"
    } else if d == 2 {
        proof {
            reveal_strlit("2");
        }
        "2"
    } else if d == 3 {
        proof {
            reveal_strlit("3");
        }
        "3"
    } else if d == 4 {
        proof {
            reveal_strlit("4");
        }
        "4"
    } else if d == 5 {
        proof {
            reveal_strlit("5");
        }
        "5"
    } else if d == 6 {
        proof {
            reveal_strlit("6");
        }
        "6"
    } else if d == 7 {
        proof {
            reveal_strlit("7");
        }
        "7"
    } else if d == 8 {
        proof {
            reveal_strlit("8");
        }
        "8"
    } else {
        proof {
            reveal_strlit("9");
        }
        "9"
    }
}

/// Appends the decimal form of `n` to `out`.
fn push_decimal(out: &mut String, n: u64)
    ensures
        final(out)@ == old(out)@ + spec_decimal(n as nat),
    decreases n,
{
    if n >= 10 {
        push_decimal(out, n / 10);
    }
    out.append(digit_str(n % 10));
    proof {
        if n >= 10 {
            assert(old(out)@ + spec_decimal(n as nat) =~= old(out)@ + spec_decimal((n / 10) as nat)
                + seq![digit_char((n % 10) as int)]);
        } else {
            assert(old(out)@ + spec_decimal(n as nat) =~= old(out)@ + seq![digit_char((n % 10) as int)]);
        }
    }
}

/// Writes the state file text for the level text `smooth`, saved at `ts`,
/// with the charge `status`.
pub fn state_text(smooth: &str, ts: u64, status: &str) -> (r: String)
    ensures
        r@ == spec_state_text(smooth@, ts, status@),
{
    proof {
        reveal_strlit("smooth=");
        reveal_strlit("\nts=");
        reveal_strlit("\nstatus=");
        reveal_strlit("\n");
    }
    let mut out = String::from_str("smooth=");
    out.append(smooth);
    out.append("\nts=");
    push_decimal(&mut out, ts);
    out.append("\nstatus=");
    out.append(status);
    out.append("\n");
    proof {
        assert(out@ =~= spec_state_text(smooth@, ts, status@));
    }
    out
}

proof fn lemma_digit_char(d: int)
    requires
        0 <= d < 10,
    ensures
        is_digit(digit_char(d)),
        digit_char(d) as int - '0' as int == d,
{
}

proof fn lemma_decimal(n: nat)
    ensures
        spec_decimal(n).len() > 0,
        all_digits(spec_decimal(n)),
        digits_value(spec_decimal(n)) == n,
    decreases n,
{
    lemma_digit_char((n % 10) as int);
    if n >= 10 {
        lemma_decimal(n / 10);
        let p = spec_decimal(n / 10);
        let q = spec_decimal(n);
        assert(q.drop_last() =~= p);
        assert(q.last() == digit_char((n % 10) as int));
        assert forall|i: int| 0 <= i < q.len() implies is_digit(#[trigger] q[i]) by {
            if i < p.len() {
                assert(q[i] == p[i]);
            }
        }
        assert(digits_value(q) == digits_value(p) * 10 + (n % 10));
        assert((n / 10) * 10 + n % 10 == n);
    } else {
        let q = spec_decimal(n);
        assert(q.drop_last() =~= Seq::<char>::empty());
        assert(digits_value(Seq::<char>::empty()) == 0);
        assert(q.last() == digit_char(n as int));
        assert(n % 10 == n);
        assert(digits_value(q) == n);
    }
}

/// The decimal form of a `u64` reads back as that number.
pub proof fn lemma_decimal_reads_back(n: u64)
    ensures
        spec_parse_u64(spec_trim(spec_decimal(n as nat))) == Some(n),
{
    let d = spec_decimal(n as nat);
    lemma_decimal(n as nat);
    assert(is_digit(d[0]) && is_digit(d.last()));
    lemma_trim_unchanged(d);
}

/// One line of the state file, and the rest after it.
proof fn lemma_scan_line(line: Seq<char>, rest: Seq<char>, smooth: Option<Seq<char>>, ts: u64)
    requires
        forall|i: int| 0 <= i < line.len() ==> line[i] != '\n',
    ensures
        scan_state(line + seq!['\n'] + rest, smooth, ts) == scan_state(
            rest,
            if has_prefix(line, smooth_key()) {
                Some(spec_trim(line.skip(7)))
            } else {
                smooth
            },
            if has_prefix(line, ts_key()) {
                match spec_parse_u64(spec_trim(line.skip(3))) {
                    Some(v) => v,
                    None => 0,
                }
            } else {
                ts
            },
        ),
{
    lemma_split_line(line, rest, '\n');
}

proof fn lemma_no_newline_in_decimal(n: nat)
    ensures
        forall|i: int| 0 <= i < spec_decimal(n).len() ==> spec_decimal(n)[i] != '\n',
{
    lemma_decimal(n);
    assert forall|i: int| 0 <= i < spec_decimal(n).len() implies spec_decimal(n)[i] != '\n' by {
        assert(is_digit(spec_decimal(n)[i]));
    }
}

/// The state file written for a level text, a time and a status reads back
/// as the trimmed level text and that time.
pub proof fn lemma_state_roundtrip(smooth: Seq<char>, ts: u64, status: Seq<char>)
    requires
        forall|i: int| 0 <= i < smooth.len() ==> smooth[i] != '\n',
        forall|i: int| 0 <= i < status.len() ==> status[i] != '\n',
    ensures
        scan_state(spec_state_text(smooth, ts, status), None, 0) == (Some(spec_trim(smooth)), ts),
{
    let dec = spec_decimal(ts as nat);
    lemma_no_newline_in_decimal(ts as nat);
    lemma_decimal_reads_back(ts);
    let l1 = smooth_key() + smooth;
    let l2 = ts_key() + dec;
    let l3 = status_key() + status;
    let e = Seq::<char>::empty();
    let r2 = l3 + seq!['\n'] + e;
    let r1 = l2 + seq!['\n'] + r2;
    assert(l1 + seq!['\n'] + r1 =~= spec_state_text(smooth, ts, status));
    assert forall|i: int| 0 <= i < l1.len() implies l1[i] != '\n' by {
        if i >= 7 {
            assert(l1[i] == smooth[i - 7]);
        }
    }
    assert forall|i: int| 0 <= i < l2.len() implies l2[i] != '\n' by {
        if i >= 3 {
            assert(l2[i] == dec[i - 3]);
        }
    }
    assert forall|i: int| 0 <= i < l3.len() implies l3[i] != '\n' by {
        if i >= 7 {
            assert(l3[i] == status[i - 7]);
        }
    }
    let sm = Some(spec_trim(smooth));
    // The level line.
    assert(l1.take(7) =~= smooth_key());
    assert(l1.skip(7) =~= smooth);
    assert(!has_prefix(l1, ts_key())) by {
        assert(l1.take(3)[0] == 's');
    }
    lemma_scan_line(l1, r1, None, 0);
    // The time line.
    assert(l2.take(3) =~= ts_key());
    assert(l2.skip(3) =~= dec);
    assert(!has_prefix(l2, smooth_key())) by {
        if l2.len() >= 7 {
            assert(l2.take(7)[0] == 't');
        }
    }
    lemma_scan_line(l2, r2, sm, 0);
    // The status line.
    assert(!has_prefix(l3, smooth_key())) by {
        assert(l3.take(7)[1] == 't');
    }
    assert(!has_prefix(l3, ts_key())) by {
        assert(l3.take(3)[0] == 's');
    }
    lemma_scan_line(l3, e, sm, ts);
    // The empty last line.
    assert(field_end(e, '\n') == 0);
    assert(e.take(0) =~= e);
}

/// Whether a state saved at `ts` may be resumed at `now`: it is at most
/// `STATE_MAX_AGE_SECS` old (a time in the future counts as fresh).
pub fn state_is_fresh(now: u64, ts: u64) -> (r: bool)
    ensures
        r == (now - ts <= STATE_MAX_AGE_SECS),
{
    now.saturating_sub(ts) <= STATE_MAX_AGE_SECS
}

} // verus!
