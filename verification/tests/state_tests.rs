use battery_modify::smoother::{parse_state, state_is_fresh, state_text};
use battery_modify::util::{
    batterystats_wait_step, get_current_unix_ts, log_clean_due, next_reboot_count,
    service_still_listed, stats_reset_due, POWER_SAVE_SERVICE,
};

#[test]
fn state_file_fields() {
    let st = parse_state("smooth=57.25\nts=1700000000\nstatus=Discharging\n");
    assert_eq!(st.smooth.as_deref(), Some("57.25"));
    assert_eq!(st.ts, 1700000000);
}

#[test]
fn state_file_later_lines_override() {
    let st = parse_state("smooth=10\nts=5\nsmooth= 20 \r\nts=bad\n");
    assert_eq!(st.smooth.as_deref(), Some("20"));
    assert_eq!(st.ts, 0);
    let st = parse_state(" smooth=3\nTS=4");
    assert_eq!(st.smooth, None);
    assert_eq!(st.ts, 0);
    let st = parse_state("");
    assert_eq!(st.smooth, None);
    assert_eq!(st.ts, 0);
}

#[test]
fn state_freshness() {
    assert!(state_is_fresh(1000 + 1800, 1000));
    assert!(!state_is_fresh(1000 + 1801, 1000));
    assert!(state_is_fresh(10, 1000));
}

#[test]
fn housekeeping_decisions() {
    assert!(log_clean_due(0, 259200));
    assert!(!log_clean_due(1, 259200));
    assert!(!log_clean_due(500, 100));
    assert!(stats_reset_due(60));
    assert!(stats_reset_due(120));
    assert!(!stats_reset_due(61));
    assert!(stats_reset_due(0));
}

#[test]
fn clock_reads_after_2020() {
    assert!(get_current_unix_ts() > 1_577_836_800);
}

#[test]
fn state_text_layout() {
    assert_eq!(
        state_text("57.25", 1700000000, "Discharging"),
        "smooth=57.25\nts=1700000000\nstatus=Discharging\n"
    );
    assert_eq!(state_text("1.00", 0, ""), "smooth=1.00\nts=0\nstatus=\n");
    assert_eq!(
        state_text("x", u64::MAX, "Full"),
        format!("smooth=x\nts={}\nstatus=Full\n", u64::MAX)
    );
}

#[test]
fn state_text_reads_back() {
    for (sm, ts, st) in [("57.25", 1700000000u64, "Discharging"), (" 3.5 ", 7, "Not charging"), ("", 0, "")] {
        let back = parse_state(&state_text(sm, ts, st));
        assert_eq!(back.smooth.as_deref(), Some(sm.trim()));
        assert_eq!(back.ts, ts);
    }
}

#[test]
fn setup_decisions() {
    assert_eq!(next_reboot_count(59), 60);
    assert_eq!(next_reboot_count(-1), 0);
    assert_eq!(batterystats_wait_step(0, 0), (None, false));
    assert_eq!(batterystats_wait_step(59, 59), (None, false));
    assert_eq!(batterystats_wait_step(60, 60), (Some((1, 0)), true));
    assert_eq!(batterystats_wait_step(30, 60), (Some((0, 0)), false));
    assert_eq!(batterystats_wait_step(125, 65), (Some((2, 0)), true));
    let listed = format!("package:com.android.x\npackage:{}\n", POWER_SAVE_SERVICE);
    assert!(service_still_listed(&listed));
    assert!(!service_still_listed("package:com.miui.securitycenter\n"));
    assert!(!service_still_listed(""));
    for s in [listed.as_str(), "x", "com.miui.securitycenter/com.miui.powercenter.provider.PowerSaveServic"] {
        assert_eq!(service_still_listed(s), s.contains(POWER_SAVE_SERVICE));
    }
}
