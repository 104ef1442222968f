//! The library's text handling agrees with the same rules written with std's
//! string methods.
use battery_modify::config::{get_bool, get_i64, get_u64, get_val};
use battery_modify::monitor::parse_displayed_level;
use battery_modify::smoother::parse_state;
use battery_modify::vcurve::CurveTable;

fn std_get_val(content: &str, key: &str) -> Option<String> {
    for line in content.lines() {
        let line = line.trim();
        if line.is_empty() || line.starts_with('#') {
            continue;
        }
        if let Some((k, v)) = line.split_once('=') {
            if k.trim() == key {
                return Some(v.trim().to_string());
            }
        }
    }
    None
}

fn std_get_bool(content: &str, key: &str, default: bool) -> bool {
    match std_get_val(content, key) {
        Some(v) => {
            let v = v.to_lowercase();
            v == "true" || v == "1" || v == "yes"
        }
        None => default,
    }
}

fn contents() -> Vec<String> {
    let mut out = vec![
        String::new(),
        "K=1".to_string(),
        "K = 2\nK=3".to_string(),
        "# K=1\nK=4\n".to_string(),
        "\r\n  K\t=\u{3000}5 \r\nK=6".to_string(),
        "K\nK=\n".to_string(),
        "KK=1\nK K=2\n K=7".to_string(),
        "X=1\n\n\n#\n=\nK==8".to_string(),
        "K=a=b\nK=9".to_string(),
        "\u{85}K=10\u{a0}".to_string(),
        "K=-9223372036854775808\n".to_string(),
        "K=+18446744073709551615\n".to_string(),
        "K=18446744073709551616\n".to_string(),
    ];
    for v in [
        "true", "TRUE", "True", "tRuE", "1", "yes", "YES", "Yes", "no", "0", "false", "ＴＲＵＥ",
        "İ", "\u{212A}", "yes ", " 1", "11", "y", "truee", "ye s",
    ] {
        out.push(format!("K={}\n", v));
    }
    out
}

#[test]
fn get_val_agrees_with_std() {
    for c in contents() {
        for key in ["K", "X", "K K", "", "KK"] {
            assert_eq!(get_val(&c, key), std_get_val(&c, key), "content {:?} key {:?}", c, key);
        }
    }
}

#[test]
fn get_bool_agrees_with_lowercase_rule() {
    for c in contents() {
        for d in [true, false] {
            assert_eq!(get_bool(&c, "K", d), std_get_bool(&c, "K", d), "content {:?}", c);
        }
    }
}

#[test]
fn get_numbers_agree_with_std() {
    for c in contents() {
        let i = std_get_val(&c, "K").and_then(|v| v.parse::<i64>().ok()).unwrap_or(-3);
        let u = std_get_val(&c, "K").and_then(|v| v.parse::<u64>().ok()).unwrap_or(3);
        assert_eq!(get_i64(&c, "K", -3), i, "content {:?}", c);
        assert_eq!(get_u64(&c, "K", 3), u, "content {:?}", c);
    }
}

fn std_curve(s: &str) -> Option<Vec<(i64, String)>> {
    let mut points: Vec<(i64, String)> = Vec::new();
    for part in s.split(',') {
        let part = part.trim();
        if part.is_empty() {
            continue;
        }
        let (mv, pct) = part.split_once(':')?;
        let mv: i64 = mv.trim().parse().ok()?;
        points.push((mv, pct.trim().to_string()));
    }
    if points.len() < 2 {
        return None;
    }
    points.sort_by(|a, b| a.0.cmp(&b.0));
    for w in points.windows(2) {
        if w[0].0 >= w[1].0 {
            return None;
        }
    }
    Some(points)
}

#[test]
fn curve_table_agrees_with_std() {
    for s in [
        battery_modify::vcurve::DEFAULT_CURVE,
        "",
        ",",
        "1:a,2:b",
        "2:b,1:a",
        " 5 : x , 3:y,4:z,, ",
        "1:a",
        "1:a,1:b",
        "1:a,2",
        "1:a,:2",
        "1:a,x:2",
        "3:,1:q:r,2: s t ",
        "-5:a,5:b,0:c",
        "9223372036854775807:a,-9223372036854775808:b",
    ] {
        let got = CurveTable::parse(s)
            .map(|t| t.mvs.into_iter().zip(t.pct_texts).collect::<Vec<_>>());
        assert_eq!(got, std_curve(s), "table {:?}", s);
    }
}

fn std_displayed(s: &str) -> Option<i64> {
    for line in s.lines() {
        let t = line.trim();
        if let Some(rest) = t.strip_prefix("level:") {
            if let Ok(v) = rest.trim().parse::<i64>() {
                return Some(v);
            }
        }
    }
    None
}

fn std_state(s: &str) -> (Option<String>, u64) {
    let mut smooth: Option<String> = None;
    let mut ts: u64 = 0;
    for line in s.lines() {
        if let Some(v) = line.strip_prefix("smooth=") {
            smooth = Some(v.trim().to_string());
        }
        if let Some(v) = line.strip_prefix("ts=") {
            ts = v.trim().parse().unwrap_or(0);
        }
    }
    (smooth, ts)
}

#[test]
fn line_formats_agree_with_std() {
    for s in [
        "",
        "level: 5",
        "  level:7\n level: 8",
        "level:\nlevel: x\n\tlevel: 9\r\n",
        "Level: 3\nlevel 4\n",
        "smooth=1\nts=2\n",
        "smooth=1\r\nts=2\r\nsmooth=\n",
        " smooth=1\nts= 3 \nts=x",
        "ts=1\nts=2\nstatus=3",
        "smooth=a\nsmooth=b\n\n",
    ] {
        assert_eq!(parse_displayed_level(s), std_displayed(s), "text {:?}", s);
        let st = parse_state(s);
        assert_eq!((st.smooth, st.ts), std_state(s), "text {:?}", s);
    }
}
