//! `KEY=value` configuration text: lookup of a key and the integer and
//! boolean settings of the daemon.
use vstd::prelude::*;

use crate::text::{
    chars_of, field_end, find_char, lemma_field_end_at, lemma_split_line, lemma_trim_unchanged,
    spec_is_ws, parse_i64_range, parse_u64_range,
    range_eq, spec_parse_i64, spec_parse_u64, spec_trim, trim_range,
};

verus! {

broadcast use vstd::string::group_string_axioms;

/// The `(key, value)` entry on one line: the line trimmed, not empty, not
/// starting with `#`, split at its first `=`, both sides trimmed.
pub open spec fn line_entry(line: Seq<char>) -> Option<(Seq<char>, Seq<char>)> {
    let t = spec_trim(line);
    if t.len() == 0 || t[0] == '#' {
        None
    } else {
        let p = field_end(t, '=');
        if p < t.len() {
            Some((spec_trim(t.take(p as int)), spec_trim(t.skip(p + 1int))))
        } else {
            None
        }
    }
}

/// The value of the first line of `s` whose entry has the key `key`.
pub open spec fn spec_get_val(s: Seq<char>, key: Seq<char>) -> Option<Seq<char>>
    decreases s.len(),
{
    let e = field_end(s, '\n');
    let rest = if e < s.len() {
        spec_get_val(s.skip(e + 1int), key)
    } else {
        None
    };
    match line_entry(s.take(e as int)) {
        Some(kv) => if kv.0 == key {
            Some(kv.1)
        } else {
            rest
        },
        None => rest,
    }
}

/// `v` equals `lower` letter by letter, each letter in either case.
pub open spec fn case_fold_eq(v: Seq<char>, lower: Seq<char>, upper: Seq<char>) -> bool {
    &&& v.len() == lower.len()
    &&& v.len() == upper.len()
    &&& forall|i: int| 0 <= i < v.len() ==> v[i] == lower[i] || v[i] == upper[i]
}

/// A value read as `true`: `true`, `1` or `yes`, in any letter case.
pub open spec fn is_true_word(v: Seq<char>) -> bool {
    ||| v == seq!['1']
    ||| case_fold_eq(v, seq!['t', 'r', 'u', 'e'], seq!['T', 'R', 'U', 'E'])
    ||| case_fold_eq(v, seq!['y', 'e', 's'], seq!['Y', 'E', 'S'])
}

/// The boolean setting `key` of `s`, or `default` when absent.
pub open spec fn spec_get_bool(s: Seq<char>, key: Seq<char>, default: bool) -> bool {
    match spec_get_val(s, key) {
        Some(v) => is_true_word(v),
        None => default,
    }
}

/// The `i64` setting `key` of `s`, or `default` when absent or malformed.
pub open spec fn spec_get_i64(s: Seq<char>, key: Seq<char>, default: i64) -> i64 {
    match spec_get_val(s, key) {
        Some(v) => match spec_parse_i64(v) {
            Some(x) => x,
            None => default,
        },
        None => default,
    }
}

/// The `u64` setting `key` of `s`, or `default` when absent or malformed.
pub open spec fn spec_get_u64(s: Seq<char>, key: Seq<char>, default: u64) -> u64 {
    match spec_get_val(s, key) {
        Some(v) => match spec_parse_u64(v) {
            Some(x) => x,
            None => default,
        },
        None => default,
    }
}

/// The entry on the line `s[lo..hi]`: the bounds of its trimmed key and of
/// its trimmed value.
fn entry_range(s: &Vec<char>, lo: usize, hi: usize) -> (r: Option<(usize, usize, usize, usize)>)
    requires
        lo <= hi <= s.len(),
    ensures
        match r {
            Some((ka, kb, va, vb)) => {
                &&& ka <= kb <= s.len()
                &&& va <= vb <= s.len()
                &&& line_entry(s@.subrange(lo as int, hi as int)) == Some(
                    (s@.subrange(ka as int, kb as int), s@.subrange(va as int, vb as int)),
                )
            },
            None => line_entry(s@.subrange(lo as int, hi as int)) is None,
        },
{
    let (ta, tb) = trim_range(s, lo, hi);
    let ghost t = s@.subrange(ta as int, tb as int);
    if ta == tb {
        return None;
    }
    if s[ta] == '#' {
        assert(t[0] == s@[ta as int]);
        return None;
    }
    let p = find_char(s, ta, tb, '=');
    if p == tb {
        return None;
    }
    let (ka, kb) = trim_range(s, ta, p);
    let (va, vb) = trim_range(s, p + 1, tb);
    proof {
        assert(t[0] == s@[ta as int]);
        assert(t.take(p - ta) =~= s@.subrange(ta as int, p as int));
        assert(t.skip(p - ta + 1) =~= s@.subrange(p + 1, tb as int));
    }
    Some((ka, kb, va, vb))
}

/// Bounds of the value of the first entry for `key` in `s`.
fn find_value(s: &Vec<char>, key: &Vec<char>) -> (r: Option<(usize, usize)>)
    ensures
        match r {
            Some((a, b)) => a <= b <= s.len() && spec_get_val(s@, key@) == Some(
                s@.subrange(a as int, b as int),
            ),
            None => spec_get_val(s@, key@) is None,
        },
{
    let mut start: usize = 0;
    assert(s@.skip(0) =~= s@);
    loop
        invariant
            start <= s.len(),
            spec_get_val(s@, key@) == spec_get_val(s@.skip(start as int), key@),
        decreases s.len() - start,
    {
        let e = find_char(s, start, s.len(), '\n');
        let ghost t = s@.skip(start as int);
        proof {
            assert(t =~= s@.subrange(start as int, s.len() as int));
            assert(t.take(e - start) =~= s@.subrange(start as int, e as int));
            if e < s.len() {
                assert(t.skip(e - start + 1) =~= s@.skip(e + 1));
            }
        }
        match entry_range(s, start, e) {
            Some((ka, kb, va, vb)) => {
                if range_eq(s, ka, kb, key) {
                    return Some((va, vb));
                }
            },
            None => {},
        }
        if e < s.len() {
            start = e + 1;
        } else {
            return None;
        }
    }
}

/// The trimmed value of the first `key = value` line of `content` whose key
/// is `key`; blank lines and lines starting with `#` are skipped.
pub fn get_val(content: &str, key: &str) -> (r: Option<String>)
    ensures
        match r {
            Some(v) => spec_get_val(content@, key@) == Some(v@),
            None => spec_get_val(content@, key@) is None,
        },
{
    let s = chars_of(content);
    let k = chars_of(key);
    match find_value(&s, &k) {
        Some((a, b)) => Some(String::from_str(content.substring_char(a, b))),
        None => None,
    }
}

/// Whether `s[a..b]` equals `lower` letter by letter, in either case.
fn range_case_fold_eq(s: &Vec<char>, a: usize, b: usize, lower: &Vec<char>, upper: &Vec<char>) -> (r:
    bool)
    requires
        a <= b <= s.len(),
    ensures
        r == case_fold_eq(s@.subrange(a as int, b as int), lower@, upper@),
{
    let ghost v = s@.subrange(a as int, b as int);
    if b - a != lower.len() || b - a != upper.len() {
        return false;
    }
    let mut i: usize = 0;
    while i < lower.len()
        invariant
            a <= b <= s.len(),
            b - a == lower.len(),
            b - a == upper.len(),
            v == s@.subrange(a as int, b as int),
            i <= lower.len(),
            forall|j: int| 0 <= j < i ==> v[j] == lower@[j] || v[j] == upper@[j],
        decreases lower.len() - i,
    {
        let c = s[a + i];
        assert(v[i as int] == c);
        if c != lower[i] && c != upper[i] {
            return false;
        }
        i = i + 1;
    }
    true
}

/// The boolean setting `key`: `true`, `1` or `yes` in any letter case read
/// as `true`, any other value as `false`; `default` when the key is absent.
pub fn get_bool(content: &str, key: &str, default: bool) -> (r: bool)
    ensures
        r == spec_get_bool(content@, key@, default),
{
    let s = chars_of(content);
    let k = chars_of(key);
    match find_value(&s, &k) {
        Some((a, b)) => {
            let one = vec!['1'];
            let t_lo = vec!['t', 'r', 'u', 'e'];
            let t_up = vec!['T', 'R', 'U', 'E'];
            let y_lo = vec!['y', 'e', 's'];
            let y_up = vec!['Y', 'E', 'S'];
            assert(one@ =~= seq!['1']);
            assert(t_lo@ =~= seq!['t', 'r', 'u', 'e']);
            assert(t_up@ =~= seq!['T', 'R', 'U', 'E']);
            assert(y_lo@ =~= seq!['y', 'e', 's']);
            assert(y_up@ =~= seq!['Y', 'E', 'S']);
            range_eq(&s, a, b, &one) || range_case_fold_eq(&s, a, b, &t_lo, &t_up)
                || range_case_fold_eq(&s, a, b, &y_lo, &y_up)
        },
        None => default,
    }
}

/// The `i64` setting `key`, or `default` when it is absent or is not a
/// decimal integer in range.
pub fn get_i64(content: &str, key: &str, default: i64) -> (r: i64)
    ensures
        r == spec_get_i64(content@, key@, default),
{
    let s = chars_of(content);
    let k = chars_of(key);
    match find_value(&s, &k) {
        Some((a, b)) => match parse_i64_range(&s, a, b) {
            Some(x) => x,
            None => default,
        },
        None => default,
    }
}

/// The `u64` setting `key`, or `default` when it is absent or is not an
/// unsigned decimal integer in range.
pub fn get_u64(content: &str, key: &str, default: u64) -> (r: u64)
    ensures
        r == spec_get_u64(content@, key@, default),
{
    let s = chars_of(content);
    let k = chars_of(key);
    match find_value(&s, &k) {
        Some((a, b)) => match parse_u64_range(&s, a, b) {
            Some(x) => x,
            None => default,
        },
        None => default,
    }
}

/// The first line that holds an entry for `key` decides its value, whatever
/// follows.
pub proof fn lemma_first_entry_wins(line: Seq<char>, rest: Seq<char>, key: Seq<char>)
    requires
        forall|i: int| 0 <= i < line.len() ==> line[i] != '\n',
        line_entry(line) matches Some(kv) && kv.0 == key,
    ensures
        spec_get_val(line + seq!['\n'] + rest, key) == Some((line_entry(line)->0).1),
{
    lemma_split_line(line, rest, '\n');
}

/// A line without an entry for `key` (blank, a comment, without `=`, or
/// with another key) leaves the value of `key` to the lines after it.
pub proof fn lemma_other_line_skipped(line: Seq<char>, rest: Seq<char>, key: Seq<char>)
    requires
        forall|i: int| 0 <= i < line.len() ==> line[i] != '\n',
        !(line_entry(line) matches Some(kv) && kv.0 == key),
    ensures
        spec_get_val(line + seq!['\n'] + rest, key) == spec_get_val(rest, key),
{
    lemma_split_line(line, rest, '\n');
}

/// A line `key=value`, with a key that has no `=`, does not start with `#`
/// and has no whitespace at either end, and a value without surrounding
/// whitespace, gives the key the whole value, whatever its length.
pub proof fn lemma_entry_value_whole(key: Seq<char>, v: Seq<char>, rest: Seq<char>)
    requires
        key.len() > 0,
        key[0] != '#',
        !spec_is_ws(key[0]),
        !spec_is_ws(key.last()),
        forall|i: int| 0 <= i < key.len() ==> key[i] != '=' && key[i] != '\n',
        v.len() > 0 ==> !spec_is_ws(v[0]) && !spec_is_ws(v.last()),
        forall|i: int| 0 <= i < v.len() ==> v[i] != '\n',
    ensures
        spec_get_val(key + seq!['='] + v + seq!['\n'] + rest, key) == Some(v),
{
    let line = key + seq!['='] + v;
    assert(line[0] == key[0]);
    if v.len() > 0 {
        assert(line.last() == v.last());
    } else {
        assert(line.last() == '=');
    }
    lemma_trim_unchanged(line);
    assert forall|i: int| 0 <= i < key.len() implies line[i] != '=' by {
        assert(line[i] == key[i]);
    }
    assert(line[key.len() as int] == '=');
    lemma_field_end_at(line, '=', key.len() as int);
    assert(line.take(key.len() as int) =~= key);
    assert(line.skip(key.len() + 1int) =~= v);
    lemma_trim_unchanged(key);
    lemma_trim_unchanged(v);
    assert(line_entry(line) == Some((key, v)));
    assert forall|i: int| 0 <= i < line.len() implies line[i] != '\n' by {
        if i < key.len() {
            assert(line[i] == key[i]);
        } else if i > key.len() {
            assert(line[i] == v[i - key.len() - 1]);
        }
    }
    lemma_first_entry_wins(line, rest, key);
}

/// A line whose first visible character is `#` holds no entry.
pub proof fn lemma_comment_line_has_no_entry(line: Seq<char>)
    requires
        spec_trim(line).len() > 0,
        spec_trim(line)[0] == '#',
    ensures
        line_entry(line) is None,
{
}

/// A key that no line names takes its default.
pub proof fn lemma_absent_key_default(s: Seq<char>, key: Seq<char>, dflt_b: bool, dflt_i: i64, dflt_u: u64)
    requires
        spec_get_val(s, key) is None,
    ensures
        spec_get_bool(s, key, dflt_b) == dflt_b,
        spec_get_i64(s, key, dflt_i) == dflt_i,
        spec_get_u64(s, key, dflt_u) == dflt_u,
{
}

/// `v` limited to `lo..=hi`, as `Ord::clamp` does.
pub open spec fn clamp(v: int, lo: int, hi: int) -> int {
    if v < lo {
        lo
    } else if v > hi {
        hi
    } else {
        v
    }
}

/// `v` raised to at least `lo`, as `Ord::max` does.
pub open spec fn at_least(v: int, lo: int) -> int {
    if v < lo {
        lo
    } else {
        v
    }
}

/// The integer and boolean settings of the daemon, as the configuration
/// file gives them, with the limits the daemon puts on them.
pub struct Settings {
    pub enable_monitor: bool,
    pub enable_temp_comp: bool,
    /// Seconds between two reads of the battery nodes.
    pub poll_secs: u64,
    /// Lowest level ever shown.
    pub min_percent: i64,
    /// Length of the window after unplugging in which the kernel's level leads.
    pub relax_secs: u64,
    /// Seconds without movement after which the kernel's level is stuck.
    pub stuck_timeout_secs: u64,
    /// Seconds per 1% for each direction of the smoothing.
    pub rate_dis_down: u64,
    pub rate_dis_up: u64,
    pub rate_charge: u64,
    pub rate_charge_stuck: u64,
    pub rate_valve: u64,
    /// Terminal voltage (mV) under which the low-battery valve arms.
    pub valve_mv: i64,
    /// Compensated voltage (mV) under which the target is capped.
    pub valve_comp_mv: i64,
    /// Sign of the current: 0 = detect, 1 = positive is charging,
    /// -1 = positive is discharging.
    pub current_sign: i32,
    pub calib_log: bool,
}

impl Settings {
    /// The limits every parsed `Settings` keeps.
    pub open spec fn valid(&self) -> bool {
        &&& 2 <= self.poll_secs <= 30
        &&& 0 <= self.min_percent <= 10
        &&& self.rate_dis_down >= 3
        &&& self.rate_dis_up >= 3
        &&& self.rate_charge >= 3
        &&& self.rate_charge_stuck >= 3
        &&& self.rate_valve >= 1
        &&& -1 <= self.current_sign <= 1
    }

    /// The settings that `content` gives; each absent or malformed key takes
    /// its default, and each value is held to its limits.
    pub fn parse(content: &str) -> (r: Settings)
        ensures
            r.valid(),
            r.enable_monitor == spec_get_bool(content@, "ENABLE_MONITOR"@, true),
            r.enable_temp_comp == spec_get_bool(content@, "ENABLE_TEMP_COMP"@, true),
            r.poll_secs == clamp(spec_get_u64(content@, "POLL_SECS"@, 10) as int, 2, 30),
            r.min_percent == clamp(spec_get_i64(content@, "MIN_PERCENT"@, 1) as int, 0, 10),
            r.relax_secs == spec_get_u64(content@, "RELAX_AFTER_UNPLUG_SECS"@, 300),
            r.stuck_timeout_secs == spec_get_u64(content@, "KERNEL_STUCK_TIMEOUT_SECS"@, 900),
            r.rate_dis_down == at_least(
                spec_get_u64(content@, "RATE_DISCHARGE_DOWN_SECS"@, 60) as int,
                3,
            ),
            r.rate_dis_up == at_least(
                spec_get_u64(content@, "RATE_DISCHARGE_UP_SECS"@, 180) as int,
                3,
            ),
            r.rate_charge == at_least(spec_get_u64(content@, "RATE_CHARGE_UP_SECS"@, 45) as int, 3),
            r.rate_charge_stuck == at_least(
                spec_get_u64(content@, "RATE_CHARGE_STUCK_SECS"@, 300) as int,
                3,
            ),
            r.rate_valve == at_least(spec_get_u64(content@, "RATE_VALVE_SECS"@, 10) as int, 1),
            r.valve_mv == spec_get_i64(content@, "SHUTDOWN_VALVE_MV"@, 3130),
            r.valve_comp_mv == spec_get_i64(content@, "VALVE_COMP_MV"@, 3250),
            r.current_sign == clamp(spec_get_i64(content@, "CURRENT_SIGN"@, 0) as int, -1, 1),
            r.calib_log == spec_get_bool(content@, "CALIB_LOG"@, false),
    {
        let poll = get_u64(content, "POLL_SECS", 10);
        let poll_secs = if poll < 2 {
            2
        } else if poll > 30 {
            30
        } else {
            poll
        };
        let min = get_i64(content, "MIN_PERCENT", 1);
        let min_percent = if min < 0 {
            0
        } else if min > 10 {
            10
        } else {
            min
        };
        let sign = get_i64(content, "CURRENT_SIGN", 0);
        let current_sign: i32 = if sign < -1 {
            -1
        } else if sign > 1 {
            1
        } else {
            sign as i32
        };
        Settings {
            enable_monitor: get_bool(content, "ENABLE_MONITOR", true),
            enable_temp_comp: get_bool(content, "ENABLE_TEMP_COMP", true),
            poll_secs,
            min_percent,
            relax_secs: get_u64(content, "RELAX_AFTER_UNPLUG_SECS", 300),
            stuck_timeout_secs: get_u64(content, "KERNEL_STUCK_TIMEOUT_SECS", 900),
            rate_dis_down: at_least_u64(get_u64(content, "RATE_DISCHARGE_DOWN_SECS", 60), 3),
            rate_dis_up: at_least_u64(get_u64(content, "RATE_DISCHARGE_UP_SECS", 180), 3),
            rate_charge: at_least_u64(get_u64(content, "RATE_CHARGE_UP_SECS", 45), 3),
            rate_charge_stuck: at_least_u64(get_u64(content, "RATE_CHARGE_STUCK_SECS", 300), 3),
            rate_valve: at_least_u64(get_u64(content, "RATE_VALVE_SECS", 10), 1),
            valve_mv: get_i64(content, "SHUTDOWN_VALVE_MV", 3130),
            valve_comp_mv: get_i64(content, "VALVE_COMP_MV", 3250),
            current_sign,
            calib_log: get_bool(content, "CALIB_LOG", false),
        }
    }
}

/// `v.max(lo)`.
fn at_least_u64(v: u64, lo: u64) -> (r: u64)
    ensures
        r == at_least(v as int, lo as int),
{
    if v < lo {
        lo
    } else {
        v
    }
}

} // verus!
