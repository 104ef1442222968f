use battery_modify::monitor::Mode;
use battery_modify::source::{
    current_path, detect_sign, first_nonzero, probe, NodeValues, SignSample,
    BATTERY_CHARGE_COUNTER, BATTERY_CURRENT_NOW, BATTERY_VOLTAGE_NOW, BMS_CHARGE_FULL,
    BMS_CHARGE_NOW, BMS_VOLTAGE_NOW, MAX_CHARGE_COUNTER_FILE,
};

fn zero_nodes() -> NodeValues {
    NodeValues {
        battery_voltage_now: 0,
        bms_voltage_now: 0,
        battery_current_now: 0,
        bms_current_now: 0,
        battery_charge_counter: 0,
        battery_charge_now: 0,
        bms_charge_counter: 0,
        bms_charge_now: 0,
        battery_charge_full: 0,
        bms_charge_full: 0,
        saved_charge_full: 0,
    }
}

#[test]
fn first_nonzero_picks_in_order() {
    let paths = vec!["a", "b", "c"];
    assert_eq!(first_nonzero(&vec![0, 5, 7], &paths).as_deref(), Some("b"));
    assert_eq!(first_nonzero(&vec![-1, 5, 7], &paths).as_deref(), Some("a"));
    assert_eq!(first_nonzero(&vec![0, 0, 0], &paths), None);
}

#[test]
fn probe_without_nodes() {
    let s = probe(0, &zero_nodes(), &vec![]);
    assert_eq!(s.v_path, BATTERY_VOLTAGE_NOW);
    assert_eq!(s.i_path, None);
    assert_eq!(s.rm_path, None);
    assert_eq!(s.fcc_path, None);
    assert_eq!(s.sign, 1);
}

#[test]
fn probe_prefers_first_live_node() {
    let mut n = zero_nodes();
    n.bms_voltage_now = 3900000;
    n.battery_current_now = -300000;
    n.battery_charge_counter = 2500000;
    n.bms_charge_now = 2400000;
    n.bms_charge_full = 5000000;
    n.saved_charge_full = 4900000;
    let s = probe(-1, &n, &vec![]);
    assert_eq!(s.v_path, BMS_VOLTAGE_NOW);
    assert_eq!(s.i_path.as_deref(), Some(BATTERY_CURRENT_NOW));
    assert_eq!(s.rm_path.as_deref(), Some(BATTERY_CHARGE_COUNTER));
    assert_eq!(s.fcc_path.as_deref(), Some(BMS_CHARGE_FULL));
    assert_eq!(s.sign, -1);
    n.battery_charge_counter = 0;
    assert_eq!(probe(1, &n, &vec![]).rm_path.as_deref(), Some(BMS_CHARGE_NOW));
}

#[test]
fn probe_falls_back_to_saved_full_charge() {
    let mut n = zero_nodes();
    n.saved_charge_full = 4900000;
    assert_eq!(probe(1, &n, &vec![]).fcc_path.as_deref(), Some(MAX_CHARGE_COUNTER_FILE));
}

#[test]
fn probe_detects_sign_from_samples() {
    let mut n = zero_nodes();
    n.bms_current_now = 120;
    assert_eq!(current_path(&n).as_deref(), Some("/sys/class/power_supply/bms/current_now"));
    let dis = vec![
        SignSample { mode: Mode::Discharging, raw: 400000 },
        SignSample { mode: Mode::Discharging, raw: 380000 },
    ];
    assert_eq!(probe(0, &n, &dis).sign, -1);
    assert_eq!(probe(1, &n, &dis).sign, 1);
}

#[test]
fn sign_detection_rules() {
    let s = |mode, raw| SignSample { mode, raw };
    assert_eq!(detect_sign(&vec![]), 1);
    assert_eq!(detect_sign(&vec![s(Mode::Discharging, -5)]), 1);
    assert_eq!(detect_sign(&vec![s(Mode::Discharging, 5)]), -1);
    assert_eq!(detect_sign(&vec![s(Mode::Discharging, 0)]), 1);
    assert_eq!(detect_sign(&vec![s(Mode::Charging, -5)]), -1);
    assert_eq!(detect_sign(&vec![s(Mode::Charging, 5)]), 1);
    assert_eq!(detect_sign(&vec![s(Mode::Charging, -5), s(Mode::Discharging, -1)]), 1);
    assert_eq!(detect_sign(&vec![s(Mode::Other, 5), s(Mode::Other, -5)]), 1);
    assert_eq!(detect_sign(&vec![s(Mode::Discharging, i64::MAX), s(Mode::Discharging, i64::MAX)]), -1);
    assert_eq!(detect_sign(&vec![s(Mode::Discharging, 10), s(Mode::Discharging, -11)]), 1);
}
