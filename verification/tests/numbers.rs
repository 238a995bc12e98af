use lexml::numbers::{br_number, number_candidates};

fn fmt_br(n: f64) -> String {
    br_number(n < 0.0, &format!("{:.2}", n.abs()))
}

#[test]
fn brazilian_notation() {
    assert_eq!(fmt_br(1234567.891), "1.234.567,89");
    assert_eq!(fmt_br(-14.75), "-14,75");
    assert_eq!(fmt_br(0.0), "0,00");
    assert_eq!(fmt_br(999.999), "1.000,00");
    assert_eq!(fmt_br(100000.0), "100.000,00");
    assert_eq!(br_number(false, "12"), "12,00");
}

#[test]
fn candidates_for_reading_numbers() {
    assert_eq!(number_candidates("  1.234,56 "), vec!["1.234,56", "1234.56"]);
    assert_eq!(number_candidates("10.50"), vec!["10.50", "1050"]);
    assert!(number_candidates("   ").is_empty());
    assert!(number_candidates("").is_empty());
}

#[test]
fn shown_sums_read_back() {
    for n in [1234567.5, -0.25, 42.0, 999999.99] {
        let shown = fmt_br(n);
        let plain = &number_candidates(&shown)[1];
        let back: f64 = plain.parse().unwrap();
        assert!((back - n).abs() < 0.001, "{shown} -> {plain}");
    }
}
