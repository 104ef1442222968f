use battery_modify::config::{get_bool, get_i64, get_u64, get_val, Settings};

#[test]
fn get_val_finds_first_entry() {
    let c = "# comment\nA=1\n  B = two words  \nA=2\n";
    assert_eq!(get_val(c, "A").as_deref(), Some("1"));
    assert_eq!(get_val(c, "B").as_deref(), Some("two words"));
    assert_eq!(get_val(c, "C"), None);
}

#[test]
fn get_val_skips_comments_and_lines_without_equals() {
    let c = "#A=9\n   # A = 8\nA\n\n\r\nA = = 3\r\n";
    assert_eq!(get_val(c, "A").as_deref(), Some("= 3"));
    assert_eq!(get_val("", "A"), None);
    assert_eq!(get_val("A=", "A").as_deref(), Some(""));
    assert_eq!(get_val(" A B =x", "A B").as_deref(), Some("x"));
}

#[test]
fn get_bool_words() {
    for (v, want) in [
        ("true", true), ("TRUE", true), ("True", true), ("1", true), ("yes", true),
        ("YeS", true), ("false", false), ("0", false), ("no", false), ("", false), ("yes!", false),
        ("on", false),
    ] {
        let c = format!("K={}\n", v);
        assert_eq!(get_bool(&c, "K", !want), want, "value {:?}", v);
        assert_eq!(get_bool(&c, "K", want), want, "value {:?}", v);
    }
    assert!(get_bool("", "K", true));
    assert!(!get_bool("", "K", false));
}

#[test]
fn get_numbers_fall_back_to_default() {
    let c = "N=-12\nU=34\nBAD=x\nNEG=-1\n";
    assert_eq!(get_i64(c, "N", 5), -12);
    assert_eq!(get_i64(c, "BAD", 5), 5);
    assert_eq!(get_i64(c, "MISSING", 5), 5);
    assert_eq!(get_u64(c, "U", 7), 34);
    assert_eq!(get_u64(c, "NEG", 7), 7);
    assert_eq!(get_u64(c, "BAD", 7), 7);
}

#[test]
fn settings_defaults() {
    let s = Settings::parse("");
    assert!(s.enable_monitor);
    assert!(s.enable_temp_comp);
    assert_eq!(s.poll_secs, 10);
    assert_eq!(s.min_percent, 1);
    assert_eq!(s.relax_secs, 300);
    assert_eq!(s.stuck_timeout_secs, 900);
    assert_eq!(s.rate_dis_down, 60);
    assert_eq!(s.rate_dis_up, 180);
    assert_eq!(s.rate_charge, 45);
    assert_eq!(s.rate_charge_stuck, 300);
    assert_eq!(s.rate_valve, 10);
    assert_eq!(s.valve_mv, 3130);
    assert_eq!(s.valve_comp_mv, 3250);
    assert_eq!(s.current_sign, 0);
    assert!(!s.calib_log);
}

#[test]
fn settings_limits() {
    let c = "POLL_SECS=1\nMIN_PERCENT=50\nRATE_DISCHARGE_DOWN_SECS=0\nRATE_VALVE_SECS=0\nCURRENT_SIGN=-7\n";
    let s = Settings::parse(c);
    assert_eq!(s.poll_secs, 2);
    assert_eq!(s.min_percent, 10);
    assert_eq!(s.rate_dis_down, 3);
    assert_eq!(s.rate_valve, 1);
    assert_eq!(s.current_sign, -1);
    let s = Settings::parse("POLL_SECS=99\nMIN_PERCENT=-3\nCURRENT_SIGN=5\n");
    assert_eq!(s.poll_secs, 30);
    assert_eq!(s.min_percent, 0);
    assert_eq!(s.current_sign, 1);
}

#[test]
fn settings_from_file() {
    let c = "ENABLE_MONITOR=false\nENABLE_TEMP_COMP=no\nPOLL_SECS=5\nSHUTDOWN_VALVE_MV=3140\nCALIB_LOG=TRUE\n# RELAX_AFTER_UNPLUG_SECS=1\nRELAX_AFTER_UNPLUG_SECS = 120\n";
    let s = Settings::parse(c);
    assert!(!s.enable_monitor);
    assert!(!s.enable_temp_comp);
    assert_eq!(s.poll_secs, 5);
    assert_eq!(s.valve_mv, 3140);
    assert!(s.calib_log);
    assert_eq!(s.relax_secs, 120);
}
