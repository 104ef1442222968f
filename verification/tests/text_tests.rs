use battery_modify::text::{is_ws, parse_i64, parse_u64};
use battery_modify::util::{parse_sys_i64, parse_sys_u64};

#[test]
fn whitespace_set_matches_std() {
    for u in 0u32..0x11_0000 {
        if let Some(c) = char::from_u32(u) {
            assert_eq!(is_ws(c), c.is_whitespace(), "char U+{:04X}", u);
        }
    }
}

fn samples() -> Vec<&'static str> {
    vec![
        "", "0", "-0", "+0", "+", "-", "42", "-42", "+42", " 42", "42 ", "4 2", "007",
        "9223372036854775807", "9223372036854775808", "-9223372036854775808",
        "-9223372036854775809", "18446744073709551615", "18446744073709551616",
        "99999999999999999999999", "-99999999999999999999999", "+-1", "-+1", "1e3", "0x10",
        "12a", "a12", "３", "١٢", "--5", "++5", "+18446744073709551615",
    ]
}

#[test]
fn parse_i64_matches_std() {
    for s in samples() {
        assert_eq!(parse_i64(s), s.parse::<i64>().ok(), "input {:?}", s);
    }
}

#[test]
fn parse_u64_matches_std() {
    for s in samples() {
        assert_eq!(parse_u64(s), s.parse::<u64>().ok(), "input {:?}", s);
    }
}

#[test]
fn parse_i64_limits() {
    assert_eq!(parse_i64("-9223372036854775808"), Some(i64::MIN));
    assert_eq!(parse_i64("9223372036854775807"), Some(i64::MAX));
    assert_eq!(parse_i64("9223372036854775808"), None);
    assert_eq!(parse_u64("18446744073709551615"), Some(u64::MAX));
    assert_eq!(parse_u64("-1"), None);
}

#[test]
fn sys_values_are_trimmed_and_default_to_zero() {
    for s in ["4123000\n", "  -350 \n", "", "abc", "\u{3000}17\u{a0}", "12 34"] {
        assert_eq!(parse_sys_i64(s), s.trim().parse::<i64>().unwrap_or(0), "input {:?}", s);
        assert_eq!(parse_sys_u64(s), s.trim().parse::<u64>().unwrap_or(0), "input {:?}", s);
    }
    assert_eq!(parse_sys_i64("3987000\n"), 3987000);
    assert_eq!(parse_sys_u64("1700000000\n"), 1700000000);
}
