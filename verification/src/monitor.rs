//! The decisions of the monitoring loop that do not involve levels: the
//! debounced charge mode, the low-voltage safety valve, the publishing
//! period, the kernel watchdog, and the level that `dumpsys battery` shows.
use vstd::prelude::*;

use crate::text::{
    all_digits, chars_eq, chars_of, digits_value, field_end, find_char, is_digit, lemma_digits_nonneg, lemma_lead_ws,
    lemma_split_line, lemma_trim_unchanged, parse_i64_range, range_eq, spec_is_ws, spec_parse_i64,
    spec_trim, trim_range,
};

verus! {

broadcast use vstd::string::group_string_axioms;

/// Period of publishing the level (seconds).
pub const PUBLISH_SECS: u64 = 30;

/// How long a new charge status must persist before it is adopted (seconds).
pub const DEBOUNCE_SECS: u64 = 9;

/// How long the terminal voltage must stay low before the valve opens
/// (seconds).
pub const VALVE_CONFIRM_SECS: u64 = 30;

/// Hysteresis of the valve (mV): it closes only above the threshold plus this.
pub const VALVE_HYST_MV: i64 = 150;

/// The charge mode of the battery.
#[derive(Clone, Copy, Debug, PartialEq, Eq, Structural)]
pub enum Mode {
    Unknown,
    Discharging,
    Charging,
    Other,
}

/// The mode that a `status` node text names.
pub open spec fn spec_from_status(s: Seq<char>) -> Mode {
    if s == "Discharging"@ {
        Mode::Discharging
    } else if s == "Charging"@ {
        Mode::Charging
    } else {
        Mode::Other
    }
}

impl Mode {
    /// `Discharging` and `Charging` name their modes; any other text is
    /// `Other`.
    pub fn from_status(s: &str) -> (r: Mode)
        ensures
            r == spec_from_status(s@),
    {
        let v = chars_of(s);
        let dis = chars_of("Discharging");
        let chg = chars_of("Charging");
        if chars_eq(&v, &dis) {
            Mode::Discharging
        } else if chars_eq(&v, &chg) {
            Mode::Charging
        } else {
            Mode::Other
        }
    }

    /// The name of the mode in the log.
    pub fn name(self) -> (r: &'static str)
        ensures
            self == Mode::Unknown ==> r@ == "Unknown"@,
            self == Mode::Discharging ==> r@ == "放电"@,
            self == Mode::Charging ==> r@ == "充电"@,
            self == Mode::Other ==> r@ == "其他"@,
    {
        match self {
            Mode::Unknown => "Unknown",
            Mode::Discharging => "放电",
            Mode::Charging => "充电",
            Mode::Other => "其他",
        }
    }
}

// ---------------------------------------------------------------------------
// Periods in ticks
// ---------------------------------------------------------------------------

/// `ceil(secs / poll)`, at least `min`.
pub open spec fn ticks_for(secs: int, poll: int, min: int) -> int {
    let t = (secs + poll - 1) / poll;
    if t < min {
        min
    } else {
        t
    }
}

/// The number of consecutive ticks a new status needs before it is
/// adopted: `DEBOUNCE_SECS` in ticks of `poll` seconds, at least 2.
pub fn debounce_ticks(poll: u64) -> (r: u32)
    requires
        poll >= 1,
    ensures
        r == ticks_for(DEBOUNCE_SECS as int, poll as int, 2),
{
    let t = if poll >= DEBOUNCE_SECS {
        1
    } else {
        (DEBOUNCE_SECS + poll - 1) / poll
    };
    proof {
        if poll >= DEBOUNCE_SECS {
            assert((DEBOUNCE_SECS + poll - 1) / (poll as int) == 1) by (nonlinear_arith)
                requires
                    poll >= 9,
            ;
        }
    }
    if t < 2 {
        2
    } else {
        t as u32
    }
}

/// The number of consecutive low readings that open the valve:
/// `VALVE_CONFIRM_SECS` in ticks of `poll` seconds, at least 1.
pub fn valve_confirm_ticks(poll: u64) -> (r: u32)
    requires
        poll >= 1,
    ensures
        r == ticks_for(VALVE_CONFIRM_SECS as int, poll as int, 1),
{
    let t = if poll >= VALVE_CONFIRM_SECS {
        1
    } else {
        (VALVE_CONFIRM_SECS + poll - 1) / poll
    };
    proof {
        if poll >= VALVE_CONFIRM_SECS {
            assert((VALVE_CONFIRM_SECS + poll - 1) / (poll as int) == 1) by (nonlinear_arith)
                requires
                    poll >= 30,
            ;
        }
    }
    if t < 1 {
        1
    } else {
        t as u32
    }
}

/// A period in ticks lasts at least the seconds it stands for, and, when it
/// is above its floor, one tick less would not: the loop behaves the same
/// whatever the polling interval.
pub proof fn lemma_ticks_cover_period(secs: int, poll: int, min: int)
    requires
        secs >= 0,
        poll >= 1,
        min >= 1,
    ensures
        ticks_for(secs, poll, min) * poll >= secs,
        ticks_for(secs, poll, min) > min ==> (ticks_for(secs, poll, min) - 1) * poll < secs,
{
    let t = (secs + poll - 1) / poll;
    assert(t * poll >= secs) by (nonlinear_arith)
        requires
            t == (secs + poll - 1) / poll,
            poll >= 1,
            secs >= 0,
    ;
    assert((t - 1) * poll < secs) by (nonlinear_arith)
        requires
            t == (secs + poll - 1) / poll,
            poll >= 1,
            secs >= 0,
    ;
    if t < min {
        assert(min * poll >= t * poll) by (nonlinear_arith)
            requires
                min > t,
                poll >= 1,
        ;
    }
}

// ---------------------------------------------------------------------------
// Debounced charge mode
// ---------------------------------------------------------------------------

/// The abstract state of a `ModeDebouncer`.
pub struct DebounceState {
    /// The adopted mode.
    pub mode: Mode,
    /// The adopted status text.
    pub status: Seq<char>,
    /// A differing status seen on the last ticks, if any.
    pub pending: Option<Seq<char>>,
    /// On how many consecutive ticks `pending` was seen.
    pub count: nat,
    /// How many consecutive ticks a new status needs.
    pub ticks: nat,
}

impl DebounceState {
    /// The counter never reaches the number of ticks without a switch.
    pub open spec fn wf(self) -> bool {
        &&& self.ticks <= u32::MAX
        &&& (self.count == 0 || self.count < self.ticks)
        &&& (self.pending is None ==> self.count == 0)
    }
}

/// One tick of the debouncer on the status text `s`. The current status
/// clears any pending one. A differing status is adopted at once while the
/// mode is still unknown, and otherwise once it has been seen on `ticks`
/// consecutive ticks.
pub open spec fn debounce_step(st: DebounceState, s: Seq<char>) -> DebounceState {
    if s == st.status {
        DebounceState { mode: st.mode, status: st.status, pending: None, count: 0, ticks: st.ticks }
    } else {
        let count: nat = if st.pending == Some(s) {
            st.count + 1
        } else {
            1
        };
        if st.mode == Mode::Unknown || count >= st.ticks {
            DebounceState {
                mode: spec_from_status(s),
                status: s,
                pending: None,
                count: 0,
                ticks: st.ticks,
            }
        } else {
            DebounceState {
                mode: st.mode,
                status: st.status,
                pending: Some(s),
                count: count,
                ticks: st.ticks,
            }
        }
    }
}

/// Whether the tick on `s` switches the adopted status.
pub open spec fn debounce_switches(st: DebounceState, s: Seq<char>) -> bool {
    debounce_step(st, s).status != st.status
}

/// `n` ticks of the debouncer, all on the status text `s`.
pub open spec fn debounce_repeat(st: DebounceState, s: Seq<char>, n: nat) -> DebounceState
    decreases n,
{
    if n == 0 {
        st
    } else {
        debounce_step(debounce_repeat(st, s, (n - 1) as nat), s)
    }
}

/// Adopts the battery's charge status only once it is stable, so that a
/// plug bouncing in its socket does not flip the mode.
pub struct ModeDebouncer {
    mode: Mode,
    status: String,
    pending: Option<String>,
    pending_count: u32,
    ticks: u32,
}

/// The text of an optional status.
pub open spec fn opt_view(o: Option<String>) -> Option<Seq<char>> {
    match o {
        Some(s) => Some(s@),
        None => None,
    }
}

impl View for ModeDebouncer {
    type V = DebounceState;

    closed spec fn view(&self) -> DebounceState {
        DebounceState {
            mode: self.mode,
            status: self.status@,
            pending: opt_view(self.pending),
            count: self.pending_count as nat,
            ticks: self.ticks as nat,
        }
    }
}

impl ModeDebouncer {
    /// A debouncer with no adopted status yet, needing `ticks` consecutive
    /// ticks for a change of status.
    pub fn new(ticks: u32) -> (r: ModeDebouncer)
        ensures
            r@.wf(),
            r@.mode == Mode::Unknown,
            r@.status == Seq::<char>::empty(),
            r@.pending is None,
            r@.count == 0,
            r@.ticks == ticks,
    {
        ModeDebouncer {
            mode: Mode::Unknown,
            status: String::new(),
            pending: None,
            pending_count: 0,
            ticks,
        }
    }

    /// The adopted mode.
    pub fn mode(&self) -> (r: Mode)
        ensures
            r == self@.mode,
    {
        self.mode
    }

    /// The adopted status text.
    pub fn status(&self) -> (r: &String)
        ensures
            r@ == self@.status,
    {
        &self.status
    }

    /// Feeds the status read on this tick; returns whether the adopted status
    /// changed (and with it, possibly, the mode).
    pub fn observe(&mut self, status: &str) -> (switched: bool)
        requires
            old(self)@.wf(),
        ensures
            final(self)@.wf(),
            final(self)@ == debounce_step(old(self)@, status@),
            switched == debounce_switches(old(self)@, status@),
    {
        let s = chars_of(status);
        let cur = chars_of(self.status.as_str());
        if chars_eq(&s, &cur) {
            self.pending = None;
            self.pending_count = 0;
            return false;
        }
        let same_pending = match &self.pending {
            Some(p) => {
                let pv = chars_of(p.as_str());
                chars_eq(&pv, &s)
            },
            None => false,
        };
        let count: u32 = if same_pending {
            self.pending_count + 1
        } else {
            1
        };
        if self.mode == Mode::Unknown || count >= self.ticks {
            self.mode = Mode::from_status(status);
            self.status = String::from_str(status);
            self.pending = None;
            self.pending_count = 0;
            true
        } else {
            self.pending = Some(String::from_str(status));
            self.pending_count = count;
            false
        }
    }
}

/// While the mode is still unknown, the first status that differs from the
/// (empty) adopted one is taken at once.
pub proof fn lemma_first_status_adopted(st: DebounceState, s: Seq<char>)
    requires
        st.wf(),
        st.mode == Mode::Unknown,
        s != st.status,
    ensures
        debounce_step(st, s).status == s,
        debounce_step(st, s).mode == spec_from_status(s),
{
}

/// Seeing the adopted status again keeps the mode and drops any pending
/// change, so an interrupted change starts counting from zero.
pub proof fn lemma_same_status_resets_pending(st: DebounceState)
    requires
        st.wf(),
    ensures
        debounce_step(st, st.status).mode == st.mode,
        debounce_step(st, st.status).status == st.status,
        debounce_step(st, st.status).pending is None,
        debounce_step(st, st.status).count == 0,
{
}

proof fn lemma_debounce_counts(st: DebounceState, s: Seq<char>, k: nat)
    requires
        st.wf(),
        st.mode != Mode::Unknown,
        s != st.status,
        st.pending != Some(s),
        1 <= k < st.ticks,
    ensures
        debounce_repeat(st, s, k).mode == st.mode,
        debounce_repeat(st, s, k).status == st.status,
        debounce_repeat(st, s, k).pending == Some(s),
        debounce_repeat(st, s, k).count == k,
        debounce_repeat(st, s, k).ticks == st.ticks,
    decreases k,
{
    if k > 1 {
        lemma_debounce_counts(st, s, (k - 1) as nat);
    } else {
        assert(debounce_repeat(st, s, 0) == st);
    }
}

/// Once a mode is known, a different status is adopted exactly on the
/// `ticks`-th consecutive tick that shows it, and not before.
pub proof fn lemma_switch_after_ticks(st: DebounceState, s: Seq<char>, k: nat)
    requires
        st.wf(),
        st.mode != Mode::Unknown,
        s != st.status,
        st.pending != Some(s),
        st.ticks >= 1,
        1 <= k <= st.ticks,
    ensures
        k < st.ticks ==> debounce_repeat(st, s, k).status == st.status && debounce_repeat(
            st,
            s,
            k,
        ).mode == st.mode,
        k == st.ticks ==> debounce_repeat(st, s, k).status == s && debounce_repeat(st, s, k).mode
            == spec_from_status(s),
{
    if k < st.ticks {
        lemma_debounce_counts(st, s, k);
    } else if k > 1 {
        lemma_debounce_counts(st, s, (k - 1) as nat);
    } else {
        assert(debounce_repeat(st, s, 0) == st);
    }
}

/// How many times the shown level is asked of `dumpsys battery` before giving
/// up.
pub const DISPLAYED_LEVEL_TRIES: u32 = 10;

/// What the loop does when the adopted mode changes.
#[derive(Clone, Copy, Debug, PartialEq, Eq, Structural)]
pub struct SwitchActions {
    /// Take the level over: restart it from the level the system shows,
    /// open the relaxation window and publish at once.
    pub take_over: bool,
    /// Hand the level back to the system (`dumpsys battery reset`).
    pub hand_back: bool,
    /// Close the valve and reset its count.
    pub reset_valve: bool,
}

/// The actions on switching to `mode`: discharging is taken over; charging
/// is handed back to the system; leaving discharge resets the valve.
pub fn switch_actions(mode: Mode) -> (r: SwitchActions)
    ensures
        r.take_over == (mode == Mode::Discharging),
        r.hand_back == (mode == Mode::Charging),
        r.reset_valve == (mode != Mode::Discharging),
{
    let dis = mode == Mode::Discharging;
    SwitchActions { take_over: dis, hand_back: mode == Mode::Charging, reset_valve: !dis }
}

// ---------------------------------------------------------------------------
// Low-voltage safety valve
// ---------------------------------------------------------------------------

/// The abstract state of a `SafetyValve`.
pub struct ValveState {
    /// Low readings counted since the last reset.
    pub count: nat,
    /// Whether the valve is open (the level is driven down fast).
    pub active: bool,
    /// How many low readings open the valve.
    pub needed: nat,
}

impl ValveState {
    pub open spec fn wf(self) -> bool {
        self.count <= u32::MAX && self.needed <= u32::MAX
    }
}

/// What a valve update did, for the log.
#[derive(Clone, Copy, Debug, PartialEq, Eq, Structural)]
pub enum ValveEvent {
    Unchanged,
    Triggered,
    Released,
}

/// One reading of the terminal voltage `v_mv` (mV, 0 or less when it could
/// not be read). While discharging, a reading under `valve_mv` counts, and
/// the valve opens once `needed` readings in a row have counted; any other
/// reading ends the run and resets the count. Only a reading above
/// `valve_mv + VALVE_HYST_MV` closes an open valve; readings in between
/// leave it as it is. Outside discharging, or without a reading, the valve is
/// reset.
pub open spec fn valve_step(st: ValveState, discharging: bool, v_mv: i64, valve_mv: i64) -> ValveState {
    if discharging && v_mv > 0 {
        if v_mv < valve_mv {
            let c: nat = if st.count < u32::MAX {
                st.count + 1
            } else {
                st.count
            };
            ValveState { count: c, active: st.active || c >= st.needed, needed: st.needed }
        } else if v_mv > valve_mv + VALVE_HYST_MV {
            ValveState { count: 0, active: false, needed: st.needed }
        } else {
            ValveState { count: 0, active: st.active, needed: st.needed }
        }
    } else {
        ValveState { count: 0, active: false, needed: st.needed }
    }
}

/// The event that a step from `st` to `next` reports.
pub open spec fn valve_event(st: ValveState, next: ValveState, discharging: bool, v_mv: i64) -> ValveEvent {
    if !st.active && next.active {
        ValveEvent::Triggered
    } else if st.active && !next.active && discharging && v_mv > 0 {
        ValveEvent::Released
    } else {
        ValveEvent::Unchanged
    }
}

/// The readings `rs`, taken one after the other while discharging.
pub open spec fn valve_run(st: ValveState, rs: Seq<i64>, valve_mv: i64) -> ValveState
    decreases rs.len(),
{
    if rs.len() == 0 {
        st
    } else {
        valve_step(valve_run(st, rs.drop_last(), valve_mv), true, rs.last(), valve_mv)
    }
}

/// A reading under the threshold.
pub open spec fn is_low(v_mv: i64, valve_mv: i64) -> bool {
    0 < v_mv < valve_mv
}

/// The number of low readings that end `rs`, in a row.
pub open spec fn low_streak(rs: Seq<i64>, valve_mv: i64) -> nat
    decreases rs.len(),
{
    if rs.len() > 0 && is_low(rs.last(), valve_mv) {
        1 + low_streak(rs.drop_last(), valve_mv)
    } else {
        0
    }
}

/// Drives the level down fast when the terminal voltage stays under the
/// shutdown threshold, so that the phone does not die at a shown level
/// above zero.
pub struct SafetyValve {
    count: u32,
    active: bool,
    needed: u32,
}

impl View for SafetyValve {
    type V = ValveState;

    closed spec fn view(&self) -> ValveState {
        ValveState { count: self.count as nat, active: self.active, needed: self.needed as nat }
    }
}

impl SafetyValve {
    /// A closed valve that opens after `needed` low readings.
    pub fn new(needed: u32) -> (r: SafetyValve)
        ensures
            r@.wf(),
            r@ == (ValveState { count: 0, active: false, needed: needed as nat }),
    {
        SafetyValve { count: 0, active: false, needed }
    }

    /// Whether the valve is open.
    pub fn is_active(&self) -> (r: bool)
        ensures
            r == self@.active,
    {
        self.active
    }

    /// Feeds one reading; see `valve_step`.
    pub fn update(&mut self, discharging: bool, v_mv: i64, valve_mv: i64) -> (e: ValveEvent)
        requires
            old(self)@.wf(),
        ensures
            final(self)@.wf(),
            final(self)@ == valve_step(old(self)@, discharging, v_mv, valve_mv),
            e == valve_event(old(self)@, final(self)@, discharging, v_mv),
            final(self)@.active ==> discharging && v_mv > 0,
            !old(self)@.active && final(self)@.active ==> final(self)@.count >= final(self)@.needed
                && v_mv < valve_mv,
            old(self)@.active && !final(self)@.active ==> !discharging || v_mv <= 0 || v_mv
                > valve_mv + VALVE_HYST_MV,
            discharging && v_mv > 0 && v_mv > valve_mv + VALVE_HYST_MV ==> !final(self)@.active
                && final(self)@.count == 0 && (old(self)@.active ==> e == ValveEvent::Released),
    {
        if discharging && v_mv > 0 {
            if v_mv < valve_mv {
                self.count = self.count.saturating_add(1);
                if self.count >= self.needed && !self.active {
                    self.active = true;
                    return ValveEvent::Triggered;
                }
                ValveEvent::Unchanged
            } else if v_mv - VALVE_HYST_MV > valve_mv {
                self.count = 0;
                if self.active {
                    self.active = false;
                    return ValveEvent::Released;
                }
                ValveEvent::Unchanged
            } else {
                self.count = 0;
                ValveEvent::Unchanged
            }
        } else {
            self.count = 0;
            self.active = false;
            ValveEvent::Unchanged
        }
    }
}

/// From a closed, reset valve, over any readings taken while discharging:
/// the count is the run of low readings at the end (up to `u32::MAX`); the
/// valve is open only if at some point `needed` readings in a row were low;
/// and it is open whenever the last `needed` readings were low.
pub proof fn lemma_valve_confirmation(st: ValveState, rs: Seq<i64>, valve_mv: i64)
    requires
        st.wf(),
        st.count == 0,
        !st.active,
        st.needed >= 1,
    ensures
        valve_run(st, rs, valve_mv).count == if low_streak(rs, valve_mv) < u32::MAX {
            low_streak(rs, valve_mv)
        } else {
            u32::MAX as nat
        },
        valve_run(st, rs, valve_mv).needed == st.needed,
        valve_run(st, rs, valve_mv).active ==> exists|k: int|
            0 <= k <= rs.len() && #[trigger] low_streak(rs.take(k), valve_mv) >= st.needed,
        low_streak(rs, valve_mv) >= st.needed ==> valve_run(st, rs, valve_mv).active,
    decreases rs.len(),
{
    if rs.len() > 0 {
        let p = rs.drop_last();
        lemma_valve_confirmation(st, p, valve_mv);
        let prev = valve_run(st, p, valve_mv);
        let cur = valve_run(st, rs, valve_mv);
        if cur.active {
            if prev.active {
                let k = choose|k: int| 0 <= k <= p.len() && #[trigger] low_streak(p.take(k), valve_mv) >= st.needed;
                assert(rs.take(k) =~= p.take(k));
                assert(low_streak(rs.take(k), valve_mv) >= st.needed);
            } else {
                assert(rs.take(rs.len() as int) =~= rs);
                assert(low_streak(rs.take(rs.len() as int), valve_mv) >= st.needed);
            }
        }
    } else {
        assert(valve_run(st, rs, valve_mv) == st);
        if st.active {
            assert(false);
        }
    }
}

/// Readings between the threshold and the threshold plus the hysteresis
/// leave the valve open or closed as it was, and end the run of low
/// readings.
pub proof fn lemma_valve_hysteresis(st: ValveState, v_mv: i64, valve_mv: i64)
    requires
        st.wf(),
        v_mv > 0,
        valve_mv <= v_mv <= valve_mv + VALVE_HYST_MV,
    ensures
        valve_step(st, true, v_mv, valve_mv).active == st.active,
        valve_step(st, true, v_mv, valve_mv).count == 0,
{
}

/// While discharging, a reading above the threshold plus the hysteresis
/// closes the valve, whatever its state, and reports the release when it was
/// open.
pub proof fn lemma_valve_releases_above_band(st: ValveState, v_mv: i64, valve_mv: i64)
    requires
        st.wf(),
        v_mv > 0,
        v_mv > valve_mv + VALVE_HYST_MV,
    ensures
        !valve_step(st, true, v_mv, valve_mv).active,
        valve_step(st, true, v_mv, valve_mv).count == 0,
        st.active ==> valve_event(st, valve_step(st, true, v_mv, valve_mv), true, v_mv)
            == ValveEvent::Released,
{
}

/// The valve is never open outside discharging.
pub proof fn lemma_valve_closed_unless_discharging(st: ValveState, v_mv: i64, valve_mv: i64)
    requires
        st.wf(),
    ensures
        !valve_step(st, false, v_mv, valve_mv).active,
        valve_step(st, false, v_mv, valve_mv).count == 0,
{
}

// ---------------------------------------------------------------------------
// Publishing period, relaxation window, kernel watchdog
// ---------------------------------------------------------------------------

/// The abstract state of a `Publisher`.
pub struct PublishState {
    /// When the level was last published (0: never).
    pub last: u64,
    /// A publication is owed at once.
    pub forced: bool,
}

/// Whether a level is due: only while discharging, every `PUBLISH_SECS`,
/// or at once when forced.
pub open spec fn publish_due(st: PublishState, discharging: bool, now: u64) -> bool {
    discharging && (now - st.last >= PUBLISH_SECS || st.forced)
}

/// Paces the publishing of the level: a fixed period, and at once on
/// entering discharge.
pub struct Publisher {
    last: u64,
    forced: bool,
}

impl View for Publisher {
    type V = PublishState;

    closed spec fn view(&self) -> PublishState {
        PublishState { last: self.last, forced: self.forced }
    }
}

impl Publisher {
    /// Nothing published yet, nothing forced.
    pub fn new() -> (r: Publisher)
        ensures
            r@ == (PublishState { last: 0, forced: false }),
    {
        Publisher { last: 0, forced: false }
    }

    /// Asks for a publication on the next discharging tick.
    pub fn force(&mut self)
        ensures
            final(self)@ == (PublishState { last: old(self)@.last, forced: true }),
    {
        self.forced = true;
    }

    /// Whether a level is due at `now`.
    pub fn is_due(&self, discharging: bool, now: u64) -> (r: bool)
        ensures
            r == publish_due(self@, discharging, now),
    {
        discharging && (now.saturating_sub(self.last) >= PUBLISH_SECS || self.forced)
    }

    /// Records a publication at `now`.
    pub fn published(&mut self, now: u64)
        ensures
            final(self)@ == (PublishState { last: now, forced: false }),
    {
        self.last = now;
        self.forced = false;
    }
}

/// After a publication at `t`, the next one is not due before `t +
/// PUBLISH_SECS` unless forced, and is due from then on while discharging.
pub proof fn lemma_publish_period(t: u64, now: u64, discharging: bool)
    ensures
        now < t + PUBLISH_SECS ==> !publish_due(PublishState { last: t, forced: false }, discharging, now),
        now >= t + PUBLISH_SECS && discharging ==> publish_due(PublishState { last: t, forced: false }, discharging, now),
{
}

/// A forced publication is due on the next discharging tick, whatever the
/// time; nothing is ever published outside discharge.
pub proof fn lemma_forced_publish(st: PublishState, now: u64)
    ensures
        publish_due(PublishState { last: st.last, forced: true }, true, now),
        !publish_due(st, false, now),
{
}

/// Whether the kernel's level counts as stuck: it has not moved for more
/// than `timeout` seconds.
pub fn kernel_stuck(now: u64, last_move: u64, timeout: u64) -> (r: bool)
    ensures
        r == (now - last_move > timeout),
{
    now.saturating_sub(last_move) > timeout
}

/// Whether the tick falls in the window after unplugging, during which the
/// terminal voltage reads high and the kernel's level leads.
pub fn in_relax(mode: Mode, now: u64, relax_until: u64) -> (r: bool)
    ensures
        r == (mode == Mode::Discharging && now < relax_until),
{
    mode == Mode::Discharging && now < relax_until
}

// ---------------------------------------------------------------------------
// Shown level
// ---------------------------------------------------------------------------

/// `level:`
pub open spec fn level_prefix() -> Seq<char> {
    seq!['l', 'e', 'v', 'e', 'l', ':']
}

/// The level on one line of `dumpsys battery`: the trimmed line starts with
/// `level:` and the trimmed rest is a decimal integer.
pub open spec fn level_line(line: Seq<char>) -> Option<i64> {
    let t = spec_trim(line);
    if t.len() >= 6 && t.take(6) == level_prefix() {
        spec_parse_i64(spec_trim(t.skip(6)))
    } else {
        None
    }
}

/// The level of the first line of `s` that gives one.
pub open spec fn spec_displayed_level(s: Seq<char>) -> Option<i64>
    decreases s.len(),
{
    let e = field_end(s, '\n');
    match level_line(s.take(e as int)) {
        Some(v) => Some(v),
        None => if e < s.len() {
            spec_displayed_level(s.skip(e + 1int))
        } else {
            None
        },
    }
}

/// A line `level: <digits>`, indented by spaces, shows the level those
/// digits denote, whatever its value, and the first such line decides.
pub proof fn lemma_level_line_reads_digits(indent: nat, d: Seq<char>, rest: Seq<char>)
    requires
        d.len() > 0,
        all_digits(d),
        digits_value(d) <= i64::MAX,
    ensures
        spec_displayed_level(
            Seq::new(indent, |i: int| ' ') + level_prefix() + seq![' '] + d + seq!['\n'] + rest,
        ) == Some(digits_value(d) as i64),
{
    let w = Seq::new(indent, |i: int| ' ');
    let core = level_prefix() + seq![' '] + d;
    let line = w + core;
    assert(Seq::new(indent, |i: int| ' ') + level_prefix() + seq![' '] + d =~= line);
    assert(is_digit(d[0]) && is_digit(d.last()));
    // Trimming the line drops the indentation only.
    assert forall|i: int| 0 <= i < indent implies spec_is_ws(#[trigger] line[i]) by {
        assert(line[i] == ' ');
    }
    assert(line[indent as int] == 'l');
    lemma_lead_ws(line, indent as int);
    let t = line.skip(indent as int);
    assert(t =~= core);
    assert(core.last() == d.last());
    lemma_trim_unchanged(core);
    assert(spec_trim(line) == core) by {
        assert(core.skip(0) =~= core);
    }
    // After `level:` come one space and the digits.
    assert(core.take(6) =~= level_prefix());
    let after = core.skip(6);
    assert(after =~= seq![' '] + d);
    lemma_lead_ws(after, 1);
    assert(after.skip(1) =~= d);
    lemma_trim_unchanged(d);
    assert(spec_trim(after) == d);
    assert(spec_parse_i64(d) == Some(digits_value(d) as i64)) by {
        lemma_digits_nonneg(d);
    }
    assert(level_line(line) == Some(digits_value(d) as i64));
    assert forall|i: int| 0 <= i < line.len() implies line[i] != '\n' by {
        if i < indent {
            assert(line[i] == ' ');
        } else if i < indent + 7 {
            assert(line[i] == core[i - indent]);
        } else {
            assert(line[i] == d[i - indent - 7]);
            assert(is_digit(d[i - indent - 7]));
        }
    }
    lemma_split_line(line, rest, '\n');
}

/// The level that the output of `dumpsys battery` shows.
pub fn parse_displayed_level(out: &str) -> (r: Option<i64>)
    ensures
        r == spec_displayed_level(out@),
{
    let s = chars_of(out);
    let prefix = vec!['l', 'e', 'v', 'e', 'l', ':'];
    assert(prefix@ =~= level_prefix());
    let mut start: usize = 0;
    assert(s@.skip(0) =~= s@);
    loop
        invariant
            start <= s.len(),
            s@ == out@,
            prefix@ == level_prefix(),
            spec_displayed_level(s@) == spec_displayed_level(s@.skip(start as int)),
        decreases s.len() - start,
    {
        let e = find_char(&s, start, s.len(), '\n');
        let ghost t = s@.skip(start as int);
        proof {
            assert(t =~= s@.subrange(start as int, s.len() as int));
            assert(t.take(e - start) =~= s@.subrange(start as int, e as int));
            if e < s.len() {
                assert(t.skip(e - start + 1) =~= s@.skip(e + 1));
            }
        }
        let (a, b) = trim_range(&s, start, e);
        if b - a >= 6 && range_eq(&s, a, a + 6, &prefix) {
            let (va, vb) = trim_range(&s, a + 6, b);
            proof {
                let tl = s@.subrange(a as int, b as int);
                assert(tl.take(6) =~= s@.subrange(a as int, a + 6));
                assert(tl.skip(6) =~= s@.subrange(a + 6, b as int));
            }
            match parse_i64_range(&s, va, vb) {
                Some(v) => {
                    return Some(v);
                },
                None => {},
            }
        } else {
            proof {
                let tl = s@.subrange(a as int, b as int);
                if tl.len() >= 6 {
                    assert(tl.take(6) =~= s@.subrange(a as int, a + 6));
                }
            }
        }
        if e < s.len() {
            start = e + 1;
        } else {
            return None;
        }
    }
}

} // verus!
