//! Clock reading, sysfs values, and the periodic housekeeping decisions.
use vstd::prelude::*;

use std::time::{Duration, SystemTime, SystemTimeError, UNIX_EPOCH};

use crate::text::{
    chars_of, parse_i64_range, parse_u64_range, range_eq, spec_parse_i64, spec_parse_u64, spec_trim,
    trim_range,
};

verus! {

broadcast use vstd::string::group_string_axioms;

/// The log is emptied when its last cleaning is at least this old (seconds).
pub const LOG_CLEAN_INTERVAL_SECS: u64 = 259200;

/// Battery statistics are reset on every reboot whose count is a multiple of
/// this.
pub const STATS_RESET_EVERY: i64 = 60;

#[verifier::external_type_specification]
#[verifier::external_body]
pub struct ExSystemTime(SystemTime);

#[verifier::external_type_specification]
#[verifier::external_body]
pub struct ExSystemTimeError(SystemTimeError);

/// `SystemTime::now()`: the wall clock, of which nothing is assumed.
#[verifier::external_body]
fn system_now() -> SystemTime {
    SystemTime::now()
}

/// `t.duration_since(UNIX_EPOCH)`: an error when `t` lies before the epoch.
/// Nothing is assumed of the duration.
#[verifier::external_body]
fn since_epoch(t: &SystemTime) -> Result<Duration, SystemTimeError> {
    t.duration_since(UNIX_EPOCH)
}

/// `Duration::as_secs`: the whole seconds of `d`, of which nothing is
/// assumed.
#[verifier::external_body]
fn whole_secs(d: &Duration) -> u64 {
    d.as_secs()
}

/// The current Unix time in seconds; 0 when the clock reads before the
/// epoch. The clock is outside the proof: no value is promised.
pub fn get_current_unix_ts() -> u64 {
    let now = system_now();
    match since_epoch(&now) {
        Ok(d) => whole_secs(&d),
        Err(_) => 0,
    }
}

/// The `i64` that a sysfs node's text holds: its trimmed text read as a
/// decimal integer, or 0.
pub fn parse_sys_i64(content: &str) -> (r: i64)
    ensures
        r == (match spec_parse_i64(spec_trim(content@)) {
            Some(v) => v,
            None => 0,
        }),
{
    let s = chars_of(content);
    let (a, b) = trim_range(&s, 0, s.len());
    assert(s@.subrange(0, s@.len() as int) =~= s@);
    match parse_i64_range(&s, a, b) {
        Some(v) => v,
        None => 0,
    }
}

/// The `u64` that a file's text holds: its trimmed text read as an unsigned
/// decimal integer, or 0.
pub fn parse_sys_u64(content: &str) -> (r: u64)
    ensures
        r == (match spec_parse_u64(spec_trim(content@)) {
            Some(v) => v,
            None => 0,
        }),
{
    let s = chars_of(content);
    let (a, b) = trim_range(&s, 0, s.len());
    assert(s@.subrange(0, s@.len() as int) =~= s@);
    match parse_u64_range(&s, a, b) {
        Some(v) => v,
        None => 0,
    }
}

/// Whether the log is due for cleaning at `now`, its last cleaning having
/// been at `last_clean` (a time in the future counts as recent).
pub fn log_clean_due(last_clean: u64, now: u64) -> (r: bool)
    ensures
        r == (now - last_clean >= LOG_CLEAN_INTERVAL_SECS),
{
    now.saturating_sub(last_clean) >= LOG_CLEAN_INTERVAL_SECS
}

/// Whether the battery statistics are reset on the reboot numbered
/// `reboot_count`.
pub fn stats_reset_due(reboot_count: i64) -> (r: bool)
    ensures
        r == (reboot_count % STATS_RESET_EVERY == 0),
{
    reboot_count % STATS_RESET_EVERY == 0
}

/// How many times a setup command is tried.
pub const LOG_EXEC_TRIES: u32 = 3;

/// The power-save service whose countdown to shutdown is disabled.
pub const POWER_SAVE_SERVICE: &'static str =
    "com.miui.securitycenter/com.miui.powercenter.provider.PowerSaveService";

/// The reboot count after one more reboot.
pub fn next_reboot_count(prev: i64) -> (r: i64)
    requires
        prev < i64::MAX,
    ensures
        r == prev + 1,
{
    prev + 1
}

/// How long the wait for the battery statistics service lasts (seconds).
pub const BATTERYSTATS_WAIT_SECS: u64 = 60;

/// One second of the wait for the battery statistics service, `elapsed`
/// seconds after its start and `since_last_log` seconds after the last
/// progress line: the minutes waited and left, when a progress line is due,
/// and whether the wait is over.
pub fn batterystats_wait_step(elapsed: u64, since_last_log: u64) -> (r: (Option<(u64, u64)>, bool))
    ensures
        r.0 == (if since_last_log >= 60 {
            Some(
                (
                    elapsed / 60,
                    (if elapsed >= 60 {
                        0
                    } else {
                        60 - elapsed
                    }) as u64 / 60,
                ),
            )
        } else {
            None
        }),
        r.1 == (elapsed >= BATTERYSTATS_WAIT_SECS),
{
    let progress = if since_last_log >= 60 {
        let remaining: u64 = if elapsed >= 60 {
            0
        } else {
            60 - elapsed
        };
        Some((elapsed / 60, remaining / 60))
    } else {
        None
    };
    (progress, elapsed >= BATTERYSTATS_WAIT_SECS)
}

/// `s` holds `t` as a run of consecutive characters.
pub open spec fn contains_text(s: Seq<char>, t: Seq<char>) -> bool {
    exists|i: int| 0 <= i && i + t.len() <= s.len() && #[trigger] s.subrange(i, i + t.len()) == t
}

/// Whether the package list still names the power-save service, that is,
/// whether disabling it has not taken.
pub fn service_still_listed(pkg_list: &str) -> (r: bool)
    ensures
        r == contains_text(pkg_list@, POWER_SAVE_SERVICE@),
{
    let s = chars_of(pkg_list);
    let t = chars_of(POWER_SAVE_SERVICE);
    if t.len() > s.len() {
        return false;
    }
    if t.len() == 0 {
        assert(s@.subrange(0, 0int + t@.len()) =~= t@);
        return true;
    }
    let last = s.len() - t.len();
    let mut i: usize = 0;
    while i <= last
        invariant
            s@ == pkg_list@,
            t@ == POWER_SAVE_SERVICE@,
            last == s.len() - t.len(),
            t.len() > 0,
            i <= last + 1,
            forall|j: int| 0 <= j < i ==> #[trigger] s@.subrange(j, j + t@.len()) != t@,
        decreases last + 1 - i,
    {
        if range_eq(&s, i, i + t.len(), &t) {
            return true;
        }
        i = i + 1;
    }
    false
}

} // verus!
