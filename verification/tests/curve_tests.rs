use battery_modify::vcurve::{segment, CurveTable, Segment, DEFAULT_CURVE};

#[test]
fn default_curve_parses() {
    let t = CurveTable::parse(DEFAULT_CURVE).expect("default table");
    assert_eq!(t.mvs.len(), 45);
    assert_eq!(t.pct_texts.len(), 45);
    assert_eq!(t.mvs[0], 3050);
    assert_eq!(t.pct_texts[0], "0");
    assert_eq!(t.mvs[44], 4465);
    assert_eq!(t.pct_texts[44], "100");
    assert!(t.mvs.windows(2).all(|w| w[0] < w[1]));
}

#[test]
fn rows_are_sorted_and_trimmed() {
    let t = CurveTable::parse(" 4000 : 80 , ,3500:10,3000:0,").expect("table");
    assert_eq!(t.mvs, vec![3000, 3500, 4000]);
    assert_eq!(t.pct_texts, vec!["0".to_string(), "10".to_string(), "80".to_string()]);
}

#[test]
fn malformed_tables_are_refused() {
    assert!(CurveTable::parse("").is_none());
    assert!(CurveTable::parse("3000:0").is_none());
    assert!(CurveTable::parse("3000:0,3000:5").is_none());
    assert!(CurveTable::parse("3000:0,3500").is_none());
    assert!(CurveTable::parse("3000:0,35x0:5").is_none());
    assert!(CurveTable::parse("3000:0,4000:5,3000:7").is_none());
}

#[test]
fn segments() {
    let mvs = vec![3000, 3500, 4000];
    assert_eq!(segment(&mvs, 2900), Segment::Below);
    assert_eq!(segment(&mvs, 3000), Segment::Below);
    assert_eq!(segment(&mvs, 3001), Segment::Within(0));
    assert_eq!(segment(&mvs, 3500), Segment::Within(0));
    assert_eq!(segment(&mvs, 3501), Segment::Within(1));
    assert_eq!(segment(&mvs, 3999), Segment::Within(1));
    assert_eq!(segment(&mvs, 4000), Segment::Above);
    assert_eq!(segment(&mvs, 9000), Segment::Above);
    assert_eq!(segment(&vec![3000], 3000), Segment::Below);
    assert_eq!(segment(&vec![3000], 3001), Segment::Above);
}

#[test]
fn inner_voltages_always_have_a_segment() {
    let t = CurveTable::parse(DEFAULT_CURVE).unwrap();
    for mv in 3051..4465 {
        match segment(&t.mvs, mv) {
            Segment::Within(i) => assert!(t.mvs[i] <= mv && mv <= t.mvs[i + 1]),
            other => panic!("{} fell in {:?}", mv, other),
        }
    }
}
