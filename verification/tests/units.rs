use sondamente::hash::{hash_text, is_well_formed};
use sondamente::number::{eq, is_finite, is_nan, le, lt};
use sondamente::spec::{Expectation, Interval};
use sondamente::text::decimal_text;
use sondamente::validate::{is_iso_date, is_valid_id};
use sondamente::{spec_hash, Code, Diagnostic, Number, Severity};

fn num(x: f64) -> Number {
    Number { bits: x.to_bits(), text: format!("{x}") }
}

fn disjoint(a: Expectation, b: Expectation) -> bool {
    a.interval().is_disjoint_from(&b.interval())
}

#[test]
fn strict_bounds_meeting_a_closed_bound_are_disjoint() {
    assert!(disjoint(
        Expectation::Below(num(-0.1)),
        Expectation::Within([num(-0.1), num(0.0)])
    ));
    assert!(disjoint(
        Expectation::Above(num(1.0)),
        Expectation::Within([num(0.0), num(1.0)])
    ));
}

#[test]
fn closed_intervals_sharing_an_endpoint_overlap() {
    assert!(!disjoint(
        Expectation::Within([num(-0.1), num(0.0)]),
        Expectation::Within([num(0.0), num(0.1)])
    ));
}

#[test]
fn below_and_above_the_same_point_are_disjoint() {
    assert!(disjoint(Expectation::Below(num(0.5)), Expectation::Above(num(0.5))));
    assert!(!disjoint(Expectation::Below(num(0.6)), Expectation::Above(num(0.5))));
}

#[test]
fn identifiers() {
    for ok in ["baseline", "pt_br", "novel-rules-001", "h2"] {
        assert!(is_valid_id(ok), "{ok}");
    }
    for bad in ["", "Baseline", "pt-BR", "a--b", "-a", "a_", "a b"] {
        assert!(!is_valid_id(bad), "{bad}");
    }
}

#[test]
fn dates() {
    assert!(is_iso_date("2026-10-01"));
    for bad in ["2026-13-01", "2026-1-01", "26-10-01", "2026/10/01", "2026-10-00"] {
        assert!(!is_iso_date(bad), "{bad}");
    }
}

#[test]
fn more_dates_at_the_edges() {
    assert!(is_iso_date("2026-12-31"));
    assert!(is_iso_date("0000-01-01"));
    assert!(!is_iso_date("2026-12-32"));
    assert!(!is_iso_date("2026-00-10"));
    assert!(!is_iso_date("2026-10-01-"));
    assert!(!is_iso_date("２０２６-10-01"));
}

#[test]
fn more_identifiers_at_the_edges() {
    assert!(is_valid_id("a"));
    assert!(is_valid_id("0"));
    assert!(is_valid_id("a-b_c-9"));
    assert!(!is_valid_id("a__b"));
    assert!(!is_valid_id("a-_b"));
    assert!(!is_valid_id("é"));
    assert!(!is_valid_id("_"));
}

#[test]
fn binary64_comparison_matches_the_hardware() {
    let values = [
        f64::NEG_INFINITY,
        -1.5,
        -0.1,
        -0.0,
        0.0,
        f64::MIN_POSITIVE,
        0.1,
        0.5,
        1.0,
        f64::MAX,
        f64::INFINITY,
        f64::NAN,
        -f64::NAN,
    ];
    for a in values {
        assert_eq!(is_finite(a.to_bits()), a.is_finite(), "{a}");
        assert_eq!(is_nan(a.to_bits()), a.is_nan(), "{a}");
        for b in values {
            assert_eq!(lt(a.to_bits(), b.to_bits()), a < b, "{a} < {b}");
            assert_eq!(eq(a.to_bits(), b.to_bits()), a == b, "{a} == {b}");
            assert_eq!(le(a.to_bits(), b.to_bits()), a <= b, "{a} <= {b}");
        }
    }
}

#[test]
fn intervals_of_each_expectation() {
    let b = Expectation::Below(num(0.25)).interval();
    assert_eq!(
        b,
        Interval {
            lo: f64::NEG_INFINITY.to_bits(),
            lo_open: true,
            hi: 0.25f64.to_bits(),
            hi_open: true
        }
    );
    let a = Expectation::Above(num(0.25)).interval();
    assert_eq!(
        a,
        Interval { lo: 0.25f64.to_bits(), lo_open: true, hi: f64::INFINITY.to_bits(), hi_open: true }
    );
    let w = Expectation::Within([num(-1.0), num(2.0)]).interval();
    assert_eq!(
        w,
        Interval { lo: (-1.0f64).to_bits(), lo_open: false, hi: 2.0f64.to_bits(), hi_open: false }
    );
    assert_eq!(Expectation::Within([num(-1.0), num(2.0)]).bounds(), vec![
        (-1.0f64).to_bits(),
        2.0f64.to_bits()
    ]);
    assert_eq!(Expectation::Above(num(3.0)).bounds(), vec![3.0f64.to_bits()]);
}

#[test]
fn disjointness_is_symmetric_on_examples() {
    let xs = [
        Expectation::Below(num(-0.1)),
        Expectation::Above(num(0.5)),
        Expectation::Within([num(-0.1), num(0.0)]),
        Expectation::Within([num(0.0), num(0.1)]),
        Expectation::Within([num(0.6), num(0.7)]),
    ];
    for a in &xs {
        for b in &xs {
            let (ia, ib) = (a.interval(), b.interval());
            assert_eq!(ia.is_disjoint_from(&ib), ib.is_disjoint_from(&ia));
        }
    }
    assert!(disjoint(
        Expectation::Within([num(0.6), num(0.7)]),
        Expectation::Below(num(0.5))
    ));
}

#[test]
fn an_empty_interval_is_disjoint_from_everything() {
    // [1, 0] holds no value, so no value lies in it and in [-5, 5].
    assert!(disjoint(
        Expectation::Within([num(1.0), num(0.0)]),
        Expectation::Within([num(-5.0), num(5.0)])
    ));
    assert!(disjoint(
        Expectation::Within([num(-5.0), num(5.0)]),
        Expectation::Within([num(1.0), num(0.0)])
    ));
    // (1, 1) holds no value either; [1, 1] holds one.
    let open_point = Interval { lo: 1.0f64.to_bits(), lo_open: true, hi: 1.0f64.to_bits(), hi_open: true };
    let closed_point = Interval { lo_open: false, hi_open: false, ..open_point };
    let around = Expectation::Within([num(0.0), num(2.0)]).interval();
    assert!(open_point.is_empty());
    assert!(open_point.is_disjoint_from(&around));
    assert!(!closed_point.is_empty());
    assert!(!closed_point.is_disjoint_from(&around));
}

#[test]
fn a_nan_bound_admits_no_value() {
    let nan = Expectation::Below(num(f64::NAN)).interval();
    assert!(nan.is_empty());
    assert!(disjoint(Expectation::Below(num(f64::NAN)), Expectation::Above(num(0.5))));
}

#[test]
fn numbers_and_intervals_compare_by_value() {
    assert_eq!(num(0.0), num(-0.0));
    assert_ne!(num(f64::NAN), num(f64::NAN));
    assert_ne!(num(0.1), num(0.2));
    let a = Expectation::Within([num(-0.0), num(1.0)]).interval();
    let b = Expectation::Within([num(0.0), num(1.0)]).interval();
    assert_eq!(a, b);
    let n = Expectation::Below(num(f64::NAN)).interval();
    assert_ne!(n, n);
    assert_eq!(Expectation::Below(num(0.0)), Expectation::Below(num(-0.0)));
}

#[test]
fn expectation_parts_round_trip() {
    for e in [
        Expectation::Below(num(-0.1)),
        Expectation::Above(num(0.2)),
        Expectation::Within([num(-0.05), num(0.05)]),
    ] {
        let (b, a, w) = e.clone().into_parts();
        assert_eq!(Expectation::from_parts(b, a, w), Ok(e));
    }
    let none = Expectation::from_parts(None, None, None).unwrap_err();
    assert_eq!(none, "`expect` must have exactly one of `below`, `above`, `within`");
    let three = Expectation::from_parts(
        Some(num(1.0)),
        Some(num(2.0)),
        Some([num(0.0), num(1.0)]),
    );
    assert!(three.is_err());
}

#[test]
fn hash_of_empty_content_is_the_sha256_of_nothing() {
    assert_eq!(
        spec_hash(&[]),
        "sha256:e3b0c44298fc1c149afbf4c8996fb92427ae41e4649b934ca495991b7852b855"
    );
    assert_eq!(
        spec_hash(b"abc"),
        "sha256:ba7816bf8f01cfea414140de5dae2223b00361a396177a9cb410ff61f20015ad"
    );
}

#[test]
fn a_hash_is_the_prefix_and_64_lowercase_hex_digits() {
    let h = spec_hash(b"any content at all");
    assert_eq!(h.len(), 71);
    assert!(h.starts_with("sha256:"));
    assert!(h[7..].bytes().all(|b| b.is_ascii_digit() || (b'a'..=b'f').contains(&b)));
    assert!(is_well_formed(&h));
}

#[test]
fn hash_text_renders_lowercase_hex() {
    assert_eq!(hash_text(&[0x00, 0x0f, 0xa0, 0xff]), "sha256:000fa0ff");
    assert_eq!(hash_text(&[]), "sha256:");
}

#[test]
fn well_formed_hashes() {
    assert!(is_well_formed(&spec_hash(b"anything")));
    let upper = format!("sha256:{}", "AB".repeat(32));
    assert!(is_well_formed(&upper));
    assert!(!is_well_formed("sha256:abc"));
    assert!(!is_well_formed(&format!("SHA256:{}", "ab".repeat(32))));
    assert!(!is_well_formed(&format!("sha256:{}", "g".repeat(64))));
    assert!(!is_well_formed(&format!("sha256:{}0", "ab".repeat(32))));
    assert!(!is_well_formed(""));
}

#[test]
fn diagnostics_render_with_level_and_code() {
    let d = Diagnostic {
        severity: Severity::Error,
        code: Code::EmptyTitle,
        message: "title is empty".to_string(),
    };
    assert_eq!(d.render(), "error[empty-title]: title is empty");
    let w = Diagnostic {
        severity: Severity::Warning,
        code: Code::UnusedMetric,
        message: "m".to_string(),
    };
    assert_eq!(w.render(), "warning[unused-metric]: m");
    assert_eq!(Code::SpecChangedAfterPreregistration.as_str(), "spec-changed-after-preregistration");
}

#[test]
fn decimal_numerals() {
    assert_eq!(decimal_text(0), "0");
    assert_eq!(decimal_text(7), "7");
    assert_eq!(decimal_text(10), "10");
    assert_eq!(decimal_text(1203), "1203");
    assert_eq!(decimal_text(usize::MAX), usize::MAX.to_string());
}
