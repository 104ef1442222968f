//! Which battery nodes to read, and the sign of the current they report.
use vstd::prelude::*;

use crate::monitor::{opt_view, Mode};

verus! {

broadcast use vstd::string::group_string_axioms;

/// The battery's power-supply directory.
pub const BATTERY_PATH: &'static str = "/sys/class/power_supply/battery";

/// Voltage node of the battery, and of the fuel gauge.
pub const BATTERY_VOLTAGE_NOW: &'static str = "/sys/class/power_supply/battery/voltage_now";

pub const BMS_VOLTAGE_NOW: &'static str = "/sys/class/power_supply/bms/voltage_now";

/// Current nodes.
pub const BATTERY_CURRENT_NOW: &'static str = "/sys/class/power_supply/battery/current_now";

pub const BMS_CURRENT_NOW: &'static str = "/sys/class/power_supply/bms/current_now";

/// Remaining-charge nodes.
pub const BATTERY_CHARGE_COUNTER: &'static str = "/sys/class/power_supply/battery/charge_counter";

pub const BATTERY_CHARGE_NOW: &'static str = "/sys/class/power_supply/battery/charge_now";

pub const BMS_CHARGE_COUNTER: &'static str = "/sys/class/power_supply/bms/charge_counter";

pub const BMS_CHARGE_NOW: &'static str = "/sys/class/power_supply/bms/charge_now";

/// Full-charge nodes.
pub const BATTERY_CHARGE_FULL: &'static str = "/sys/class/power_supply/battery/charge_full";

pub const BMS_CHARGE_FULL: &'static str = "/sys/class/power_supply/bms/charge_full";

/// A saved full-charge peak, used when no full-charge node reads.
pub const MAX_CHARGE_COUNTER_FILE: &'static str = "/data/adb/battery_max_charge_counter";

/// The charge status node.
pub const BATTERY_STATUS: &'static str = "/sys/class/power_supply/battery/status";

/// The nodes chosen for reading the battery.
pub struct Sources {
    pub v_path: String,
    pub i_path: Option<String>,
    pub rm_path: Option<String>,
    pub fcc_path: Option<String>,
    /// Factor that makes the current positive while charging.
    pub sign: i32,
}

/// What each candidate node read when probed (0 when absent or unreadable).
pub struct NodeValues {
    pub battery_voltage_now: i64,
    pub bms_voltage_now: i64,
    pub battery_current_now: i64,
    pub bms_current_now: i64,
    pub battery_charge_counter: i64,
    pub battery_charge_now: i64,
    pub bms_charge_counter: i64,
    pub bms_charge_now: i64,
    pub battery_charge_full: i64,
    pub bms_charge_full: i64,
    pub saved_charge_full: i64,
}

/// The first path whose value is not zero.
pub open spec fn first_live(vals: Seq<i64>, paths: Seq<Seq<char>>) -> Option<Seq<char>>
    decreases vals.len(),
{
    if vals.len() == 0 || paths.len() == 0 {
        None
    } else if vals[0] != 0 {
        Some(paths[0])
    } else {
        first_live(vals.drop_first(), paths.drop_first())
    }
}

/// The texts of a list of paths.
pub open spec fn path_views(paths: Seq<&str>) -> Seq<Seq<char>> {
    paths.map_values(|p: &str| p@)
}

/// The first of `paths` whose value in `values` is not zero.
pub fn first_nonzero(values: &Vec<i64>, paths: &Vec<&str>) -> (r: Option<String>)
    ensures
        opt_view(r) == first_live(values@, path_views(paths@)),
{
    let ghost ps = path_views(paths@);
    let mut i: usize = 0;
    assert(values@.skip(0) =~= values@);
    assert(ps.skip(0) =~= ps);
    while i < values.len() && i < paths.len()
        invariant
            i <= values.len(),
            i <= paths.len(),
            ps == path_views(paths@),
            ps.len() == paths@.len(),
            first_live(values@, ps) == first_live(values@.skip(i as int), ps.skip(i as int)),
        decreases values.len() - i,
    {
        let ghost vs = values@.skip(i as int);
        let ghost pt = ps.skip(i as int);
        if values[i] != 0 {
            assert(vs[0] == values@[i as int]);
            assert(pt[0] == paths@[i as int]@);
            return Some(String::from_str(paths[i]));
        }
        proof {
            assert(vs[0] == values@[i as int]);
            assert(vs.drop_first() =~= values@.skip(i + 1));
            assert(pt.drop_first() =~= ps.skip(i + 1));
        }
        i = i + 1;
    }
    assert(values@.skip(i as int).len() == 0 || ps.skip(i as int).len() == 0);
    None
}

/// The voltage node: the first that reads, else the battery's.
pub open spec fn spec_v_path(n: NodeValues) -> Seq<char> {
    match first_live(
        seq![n.battery_voltage_now, n.bms_voltage_now],
        seq![BATTERY_VOLTAGE_NOW@, BMS_VOLTAGE_NOW@],
    ) {
        Some(p) => p,
        None => BATTERY_VOLTAGE_NOW@,
    }
}

/// The current node, if one reads.
pub open spec fn spec_i_path(n: NodeValues) -> Option<Seq<char>> {
    first_live(
        seq![n.battery_current_now, n.bms_current_now],
        seq![BATTERY_CURRENT_NOW@, BMS_CURRENT_NOW@],
    )
}

/// The remaining-charge node, if one reads.
pub open spec fn spec_rm_path(n: NodeValues) -> Option<Seq<char>> {
    first_live(
        seq![n.battery_charge_counter, n.battery_charge_now, n.bms_charge_counter, n.bms_charge_now],
        seq![
            BATTERY_CHARGE_COUNTER@,
            BATTERY_CHARGE_NOW@,
            BMS_CHARGE_COUNTER@,
            BMS_CHARGE_NOW@,
        ],
    )
}

/// The full-charge node, if one reads; else the saved peak when positive.
pub open spec fn spec_fcc_path(n: NodeValues) -> Option<Seq<char>> {
    match first_live(
        seq![n.battery_charge_full, n.bms_charge_full],
        seq![BATTERY_CHARGE_FULL@, BMS_CHARGE_FULL@],
    ) {
        Some(p) => Some(p),
        None => if n.saved_charge_full > 0 {
            Some(MAX_CHARGE_COUNTER_FILE@)
        } else {
            None
        },
    }
}

/// One sample taken to find the sign of the current: the charge mode and
/// the raw current read at the same time.
#[derive(Clone, Copy)]
pub struct SignSample {
    pub mode: Mode,
    pub raw: i64,
}

/// Sum of the raw currents of the samples taken in mode `m`.
pub open spec fn mode_sum(ss: Seq<SignSample>, m: Mode) -> int
    decreases ss.len(),
{
    if ss.len() == 0 {
        0
    } else {
        mode_sum(ss.drop_last(), m) + if ss.last().mode == m {
            ss.last().raw as int
        } else {
            0
        }
    }
}

/// Number of samples taken in mode `m`.
pub open spec fn mode_count(ss: Seq<SignSample>, m: Mode) -> nat
    decreases ss.len(),
{
    if ss.len() == 0 {
        0
    } else {
        mode_count(ss.drop_last(), m) + if ss.last().mode == m {
            1nat
        } else {
            0nat
        }
    }
}

/// The sign that makes the current positive while charging: the current
/// must be negative while discharging; when no discharging sample decides,
/// a negative sum while charging says the node counts the other way;
/// otherwise the Qualcomm convention (positive is charging).
pub open spec fn spec_detect_sign(ss: Seq<SignSample>) -> i32 {
    if mode_count(ss, Mode::Discharging) > 0 {
        if mode_sum(ss, Mode::Discharging) > 0 {
            -1i32
        } else {
            1i32
        }
    } else if mode_count(ss, Mode::Charging) > 0 && mode_sum(ss, Mode::Charging) < 0 {
        -1i32
    } else {
        1i32
    }
}

/// The sign of the current that the samples show; see `spec_detect_sign`.
pub fn detect_sign(samples: &Vec<SignSample>) -> (r: i32)
    ensures
        r == spec_detect_sign(samples@),
{
    let mut dis_sum: i128 = 0;
    let mut dis_n: usize = 0;
    let mut chg_sum: i128 = 0;
    let mut chg_n: usize = 0;
    let mut i: usize = 0;
    while i < samples.len()
        invariant
            i <= samples.len(),
            dis_sum == mode_sum(samples@.take(i as int), Mode::Discharging),
            chg_sum == mode_sum(samples@.take(i as int), Mode::Charging),
            dis_n == mode_count(samples@.take(i as int), Mode::Discharging),
            chg_n == mode_count(samples@.take(i as int), Mode::Charging),
            dis_n <= i,
            chg_n <= i,
            -(i as int) * 9223372036854775808 <= dis_sum <= (i as int) * 9223372036854775808,
            -(i as int) * 9223372036854775808 <= chg_sum <= (i as int) * 9223372036854775808,
        decreases samples.len() - i,
    {
        let s = samples[i];
        proof {
            assert(samples@.take(i + 1).drop_last() =~= samples@.take(i as int));
            assert(samples@.take(i + 1).last() == s);
            assert((i as int) + 1 <= usize::MAX);
            assert(((i as int) + 1) * 9223372036854775808 <= 170141183460469231731687303715884105727);
        }
        if s.mode == Mode::Discharging {
            dis_sum = dis_sum + s.raw as i128;
            dis_n = dis_n + 1;
        } else if s.mode == Mode::Charging {
            chg_sum = chg_sum + s.raw as i128;
            chg_n = chg_n + 1;
        }
        i = i + 1;
    }
    assert(samples@.take(i as int) =~= samples@);
    if dis_n > 0 {
        if dis_sum > 0 {
            -1
        } else {
            1
        }
    } else if chg_n > 0 && chg_sum < 0 {
        -1
    } else {
        1
    }
}

/// The sign to use: the configured one when it is set, 1 when no current
/// node reads, else the one the samples show.
pub open spec fn spec_sign(current_sign_cfg: i32, has_current: bool, ss: Seq<SignSample>) -> i32 {
    if current_sign_cfg != 0 {
        current_sign_cfg
    } else if !has_current {
        1
    } else {
        spec_detect_sign(ss)
    }
}

/// Each node of the battery itself is preferred when it reads; the fuel
/// gauge's node is taken only when the battery's reads 0; the saved peak only
/// when no full-charge node reads.
pub proof fn lemma_battery_nodes_preferred(n: NodeValues)
    ensures
        n.battery_voltage_now != 0 ==> spec_v_path(n) == BATTERY_VOLTAGE_NOW@,
        n.battery_voltage_now == 0 && n.bms_voltage_now != 0 ==> spec_v_path(n) == BMS_VOLTAGE_NOW@,
        n.battery_voltage_now == 0 && n.bms_voltage_now == 0 ==> spec_v_path(n)
            == BATTERY_VOLTAGE_NOW@,
        n.battery_current_now != 0 ==> spec_i_path(n) == Some(BATTERY_CURRENT_NOW@),
        n.battery_current_now == 0 && n.bms_current_now != 0 ==> spec_i_path(n) == Some(
            BMS_CURRENT_NOW@,
        ),
        n.battery_current_now == 0 && n.bms_current_now == 0 ==> spec_i_path(n) is None,
        n.battery_charge_counter != 0 ==> spec_rm_path(n) == Some(BATTERY_CHARGE_COUNTER@),
        n.battery_charge_counter == 0 && n.battery_charge_now != 0 ==> spec_rm_path(n) == Some(
            BATTERY_CHARGE_NOW@,
        ),
        n.battery_charge_counter == 0 && n.battery_charge_now == 0 && n.bms_charge_counter != 0
            ==> spec_rm_path(n) == Some(BMS_CHARGE_COUNTER@),
        n.battery_charge_counter == 0 && n.battery_charge_now == 0 && n.bms_charge_counter == 0
            && n.bms_charge_now != 0 ==> spec_rm_path(n) == Some(BMS_CHARGE_NOW@),
        n.battery_charge_counter == 0 && n.battery_charge_now == 0 && n.bms_charge_counter == 0
            && n.bms_charge_now == 0 ==> spec_rm_path(n) is None,
        n.battery_charge_full != 0 ==> spec_fcc_path(n) == Some(BATTERY_CHARGE_FULL@),
        n.battery_charge_full == 0 && n.bms_charge_full != 0 ==> spec_fcc_path(n) == Some(
            BMS_CHARGE_FULL@,
        ),
        n.battery_charge_full == 0 && n.bms_charge_full == 0 && n.saved_charge_full > 0
            ==> spec_fcc_path(n) == Some(MAX_CHARGE_COUNTER_FILE@),
        n.battery_charge_full == 0 && n.bms_charge_full == 0 && n.saved_charge_full <= 0
            ==> spec_fcc_path(n) is None,
{
    reveal_with_fuel(first_live, 5);
}

/// A sample taken neither discharging nor charging (status `Full`, `Not
/// charging`, ...) does not change the detected sign.
pub proof fn lemma_other_samples_ignored(ss: Seq<SignSample>, x: SignSample)
    requires
        x.mode != Mode::Discharging,
        x.mode != Mode::Charging,
    ensures
        spec_detect_sign(ss.push(x)) == spec_detect_sign(ss),
{
    assert(ss.push(x).drop_last() =~= ss);
}

/// Samples that are all taken neither discharging nor charging decide
/// nothing: the sign stays 1 (positive is charging).
pub proof fn lemma_undecided_sign_is_positive(ss: Seq<SignSample>)
    requires
        forall|i: int| 0 <= i < ss.len() ==> #[trigger] ss[i].mode != Mode::Discharging
            && ss[i].mode != Mode::Charging,
    ensures
        spec_detect_sign(ss) == 1,
        mode_count(ss, Mode::Discharging) == 0,
        mode_count(ss, Mode::Charging) == 0,
    decreases ss.len(),
{
    if ss.len() > 0 {
        let p = ss.drop_last();
        assert forall|i: int| 0 <= i < p.len() implies #[trigger] p[i].mode != Mode::Discharging
            && p[i].mode != Mode::Charging by {
            assert(p[i] == ss[i]);
        }
        lemma_undecided_sign_is_positive(p);
        assert(ss.last() == ss[ss.len() - 1]);
    }
}

/// The current node, if one reads: where the sign samples are taken.
pub fn current_path(n: &NodeValues) -> (r: Option<String>)
    ensures
        opt_view(r) == spec_i_path(*n),
{
    let vals = vec![n.battery_current_now, n.bms_current_now];
    let paths = vec![BATTERY_CURRENT_NOW, BMS_CURRENT_NOW];
    assert(vals@ =~= seq![n.battery_current_now, n.bms_current_now]);
    assert(path_views(paths@) =~= seq![BATTERY_CURRENT_NOW@, BMS_CURRENT_NOW@]);
    first_nonzero(&vals, &paths)
}

/// Chooses the nodes to read from what each candidate read, and the sign of
/// the current: `current_sign_cfg` when it is not 0, else the sign that the
/// `samples` (taken from the chosen current node) show.
pub fn probe(current_sign_cfg: i32, n: &NodeValues, samples: &Vec<SignSample>) -> (r: Sources)
    ensures
        r.v_path@ == spec_v_path(*n),
        opt_view(r.i_path) == spec_i_path(*n),
        opt_view(r.rm_path) == spec_rm_path(*n),
        opt_view(r.fcc_path) == spec_fcc_path(*n),
        r.sign == spec_sign(current_sign_cfg, spec_i_path(*n) is Some, samples@),
        n.battery_voltage_now != 0 ==> r.v_path@ == BATTERY_VOLTAGE_NOW@,
        n.battery_voltage_now == 0 && n.bms_voltage_now != 0 ==> r.v_path@ == BMS_VOLTAGE_NOW@,
{
    proof {
        lemma_battery_nodes_preferred(*n);
    }
    let vv = vec![n.battery_voltage_now, n.bms_voltage_now];
    let vp = vec![BATTERY_VOLTAGE_NOW, BMS_VOLTAGE_NOW];
    assert(vv@ =~= seq![n.battery_voltage_now, n.bms_voltage_now]);
    assert(path_views(vp@) =~= seq![BATTERY_VOLTAGE_NOW@, BMS_VOLTAGE_NOW@]);
    let v_path = match first_nonzero(&vv, &vp) {
        Some(p) => p,
        None => String::from_str(BATTERY_VOLTAGE_NOW),
    };
    let i_path = current_path(n);
    let rv = vec![
        n.battery_charge_counter,
        n.battery_charge_now,
        n.bms_charge_counter,
        n.bms_charge_now,
    ];
    let rp = vec![BATTERY_CHARGE_COUNTER, BATTERY_CHARGE_NOW, BMS_CHARGE_COUNTER, BMS_CHARGE_NOW];
    assert(rv@ =~= seq![
        n.battery_charge_counter,
        n.battery_charge_now,
        n.bms_charge_counter,
        n.bms_charge_now,
    ]);
    assert(path_views(rp@) =~= seq![
        BATTERY_CHARGE_COUNTER@,
        BATTERY_CHARGE_NOW@,
        BMS_CHARGE_COUNTER@,
        BMS_CHARGE_NOW@,
    ]);
    let rm_path = first_nonzero(&rv, &rp);
    let fv = vec![n.battery_charge_full, n.bms_charge_full];
    let fp = vec![BATTERY_CHARGE_FULL, BMS_CHARGE_FULL];
    assert(fv@ =~= seq![n.battery_charge_full, n.bms_charge_full]);
    assert(path_views(fp@) =~= seq![BATTERY_CHARGE_FULL@, BMS_CHARGE_FULL@]);
    let fcc_path = match first_nonzero(&fv, &fp) {
        Some(p) => Some(p),
        None => if n.saved_charge_full > 0 {
            Some(String::from_str(MAX_CHARGE_COUNTER_FILE))
        } else {
            None
        },
    };
    let sign = if current_sign_cfg != 0 {
        current_sign_cfg
    } else if i_path.is_none() {
        1
    } else {
        detect_sign(samples)
    };
    Sources { v_path, i_path, rm_path, fcc_path, sign }
}

} // verus!
