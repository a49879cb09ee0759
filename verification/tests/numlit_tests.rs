use tablegrid::numlit::parses_as_float;

#[test]
fn agrees_with_float_parsing() {
    let cases = [
        "30", "-1.5", "+.5", "3.", ".", "", "5", "007", "1e5", "1E-5", "1e+5", "1e", "e5",
        "1.2.3", "1..2", "inf", "Infinity", "INFINITY", "NaN", "nan", "INF", "infinit",
        "infinityy", "-inf", "+nan", "1_0", " 1", "1 ", "0x10", "1e5.5", "--1", "+-1", "+",
        "-", "1e5e5", ".e5", "12.e2", ".5e1", "1.5e", "2.5E10", "~", "abc", "1e+", "1E",
        "++1", "nAn", "iNfInItY", "0.", ".0", "-.e1", "3.2e00", "1e999", "-0",
    ];
    for s in cases {
        assert_eq!(
            parses_as_float(s),
            s.parse::<f32>().is_ok(),
            "disagreement on {:?}",
            s
        );
    }
}

#[test]
fn non_ascii_payloads_rejected() {
    for s in ["٣", "１", "∞", "é1"] {
        assert_eq!(parses_as_float(s), s.parse::<f32>().is_ok(), "disagreement on {:?}", s);
        assert!(!parses_as_float(s));
    }
}
