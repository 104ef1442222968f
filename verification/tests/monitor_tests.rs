use battery_modify::monitor::{
    debounce_ticks, switch_actions, in_relax, kernel_stuck, parse_displayed_level, valve_confirm_ticks, Mode,
    ModeDebouncer, Publisher, SafetyValve, ValveEvent,
};

#[test]
fn modes_from_status() {
    assert_eq!(Mode::from_status("Discharging"), Mode::Discharging);
    assert_eq!(Mode::from_status("Charging"), Mode::Charging);
    assert_eq!(Mode::from_status("Full"), Mode::Other);
    assert_eq!(Mode::from_status("Not charging"), Mode::Other);
    assert_eq!(Mode::from_status("discharging"), Mode::Other);
    assert_eq!(Mode::from_status(""), Mode::Other);
    assert_eq!(Mode::Discharging.name(), "放电");
    assert_eq!(Mode::Charging.name(), "充电");
    assert_eq!(Mode::Other.name(), "其他");
    assert_eq!(Mode::Unknown.name(), "Unknown");
}

#[test]
fn tick_counts() {
    for poll in 2u64..=30 {
        let d = ((9 + poll - 1) / poll).max(2) as u32;
        let v = ((30 + poll - 1) / poll).max(1) as u32;
        assert_eq!(debounce_ticks(poll), d);
        assert_eq!(valve_confirm_ticks(poll), v);
        assert!(d as u64 * poll >= 9);
        assert!(v as u64 * poll >= 30);
    }
    assert_eq!(debounce_ticks(10), 2);
    assert_eq!(debounce_ticks(2), 5);
    assert_eq!(valve_confirm_ticks(10), 3);
    assert_eq!(valve_confirm_ticks(1), 30);
}

#[test]
fn debouncer_adopts_first_status_at_once() {
    let mut d = ModeDebouncer::new(3);
    assert_eq!(d.mode(), Mode::Unknown);
    assert!(d.observe("Discharging"));
    assert_eq!(d.mode(), Mode::Discharging);
    assert_eq!(d.status(), "Discharging");
}

#[test]
fn debouncer_empty_first_status_keeps_unknown() {
    let mut d = ModeDebouncer::new(3);
    assert!(!d.observe(""));
    assert_eq!(d.mode(), Mode::Unknown);
}

#[test]
fn debouncer_needs_consecutive_ticks() {
    let mut d = ModeDebouncer::new(3);
    d.observe("Discharging");
    assert!(!d.observe("Charging"));
    assert!(!d.observe("Charging"));
    assert_eq!(d.mode(), Mode::Discharging);
    assert!(d.observe("Charging"));
    assert_eq!(d.mode(), Mode::Charging);
}

#[test]
fn debouncer_interruption_restarts_count() {
    let mut d = ModeDebouncer::new(2);
    d.observe("Discharging");
    assert!(!d.observe("Charging"));
    assert!(!d.observe("Discharging"));
    assert!(!d.observe("Charging"));
    assert!(!d.observe("Full"));
    assert!(!d.observe("Charging"));
    assert!(d.observe("Charging"));
    assert_eq!(d.mode(), Mode::Charging);
    assert!(!d.observe("Full"));
    assert!(d.observe("Full"));
    assert_eq!(d.mode(), Mode::Other);
    assert_eq!(d.status(), "Full");
}

#[test]
fn valve_opens_after_confirmation_and_closes_with_hysteresis() {
    let mut v = SafetyValve::new(3);
    assert_eq!(v.update(true, 3100, 3150), ValveEvent::Unchanged);
    assert_eq!(v.update(true, 3100, 3150), ValveEvent::Unchanged);
    assert!(!v.is_active());
    assert_eq!(v.update(true, 3100, 3150), ValveEvent::Triggered);
    assert!(v.is_active());
    assert_eq!(v.update(true, 3100, 3150), ValveEvent::Unchanged);
    assert_eq!(v.update(true, 3250, 3150), ValveEvent::Unchanged);
    assert_eq!(v.update(true, 3300, 3150), ValveEvent::Unchanged);
    assert!(v.is_active());
    assert_eq!(v.update(true, 3301, 3150), ValveEvent::Released);
    assert!(!v.is_active());
}

#[test]
fn valve_needs_consecutive_low_readings() {
    let mut v = SafetyValve::new(3);
    assert_eq!(v.update(true, 3100, 3150), ValveEvent::Unchanged);
    assert_eq!(v.update(true, 3200, 3150), ValveEvent::Unchanged);
    assert_eq!(v.update(true, 3100, 3150), ValveEvent::Unchanged);
    assert_eq!(v.update(true, 3100, 3150), ValveEvent::Unchanged);
    assert!(!v.is_active());
    assert_eq!(v.update(true, 3100, 3150), ValveEvent::Triggered);
    assert!(v.is_active());
}

#[test]
fn valve_resets_outside_discharge_and_without_reading() {
    let mut v = SafetyValve::new(2);
    v.update(true, 3100, 3150);
    assert_eq!(v.update(true, 3100, 3150), ValveEvent::Triggered);
    assert_eq!(v.update(false, 3100, 3150), ValveEvent::Unchanged);
    assert!(!v.is_active());
    v.update(true, 3100, 3150);
    assert!(!v.is_active());
    v.update(true, 0, 3150);
    v.update(true, 3100, 3150);
    assert!(!v.is_active());
    v.update(true, 3150, 3150);
    v.update(true, 3100, 3150);
    assert!(!v.is_active());
    assert_eq!(v.update(true, 3100, 3150), ValveEvent::Triggered);
}

#[test]
fn publisher_period_and_force() {
    let mut p = Publisher::new();
    assert!(p.is_due(true, 1_700_000_000));
    assert!(!p.is_due(false, 1_700_000_000));
    p.published(1_700_000_000);
    assert!(!p.is_due(true, 1_700_000_029));
    assert!(p.is_due(true, 1_700_000_030));
    p.force();
    assert!(p.is_due(true, 1_700_000_001));
    assert!(!p.is_due(false, 1_700_000_001));
    p.published(1_700_000_001);
    assert!(!p.is_due(true, 1_700_000_010));
    assert!(!p.is_due(true, 5));
}

#[test]
fn kernel_watchdog_and_relax_window() {
    assert!(!kernel_stuck(1000, 100, 900));
    assert!(kernel_stuck(1001, 100, 900));
    assert!(!kernel_stuck(50, 100, 0));
    assert!(in_relax(Mode::Discharging, 99, 100));
    assert!(!in_relax(Mode::Discharging, 100, 100));
    assert!(!in_relax(Mode::Charging, 99, 100));
}

#[test]
fn displayed_level_from_dumpsys() {
    let out = "Current Battery Service state:\n  AC powered: false\n  status: 3\n  level: 57\n  scale: 100\n";
    assert_eq!(parse_displayed_level(out), Some(57));
    assert_eq!(parse_displayed_level("level: x\n  level:  12 \r\n"), Some(12));
    assert_eq!(parse_displayed_level("max level: 3\n"), None);
    assert_eq!(parse_displayed_level(""), None);
    assert_eq!(parse_displayed_level("level:-1"), Some(-1));
}

#[test]
fn actions_on_mode_switch() {
    let d = switch_actions(Mode::Discharging);
    assert!(d.take_over && !d.hand_back && !d.reset_valve);
    let c = switch_actions(Mode::Charging);
    assert!(!c.take_over && c.hand_back && c.reset_valve);
    let o = switch_actions(Mode::Other);
    assert!(!o.take_over && !o.hand_back && o.reset_valve);
}
