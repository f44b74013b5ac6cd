use paramp::version::{parse, version_less};

fn ordinal(text: &str) -> (u64, u64, u64, String) {
    let v = parse(text);
    (v.major, v.minor, v.patch, v.prerelease)
}

#[test]
fn strict_three_component_parses_literally() {
    assert_eq!(ordinal("1.2.3"), (1, 2, 3, String::new()));
    assert_eq!(ordinal("10.20.30"), (10, 20, 30, String::new()));
    assert_eq!(ordinal("1.2.3-SNAPSHOT"), (1, 2, 3, String::from("SNAPSHOT")));
    assert_eq!(parse("1.2.3").original, "1.2.3");
}

#[test]
fn strict_order_follows_components() {
    let cases = [
        ("1.2.3", "1.2.4"),
        ("1.2.3", "1.3.0"),
        ("1.2.3", "2.0.0"),
        ("2.9.9", "10.0.0"),
        ("1.2.3", "1.2.3-x"),
    ];
    for (lo, hi) in cases {
        assert!(version_less(&parse(lo), &parse(hi)), "{} < {}", lo, hi);
        assert!(!version_less(&parse(hi), &parse(lo)), "not {} < {}", hi, lo);
    }
    assert!(!version_less(&parse("1.2.3"), &parse("1.2.3")));
}

#[test]
fn four_component_folds_mini_into_prerelease() {
    assert_eq!(ordinal("1.2.3.4"), (1, 2, 3, String::from("4")));
    assert_eq!(parse("1.2.3.4").original, "1.2.3.4");
}

#[test]
fn four_component_sorts_between_patch_and_next_patch() {
    let three = parse("1.2.3");
    let four = parse("1.2.3.4");
    let next = parse("1.2.4");
    assert!(version_less(&three, &four));
    assert!(version_less(&four, &next));
}

#[test]
fn two_component_prerelease_is_rewritten() {
    assert_eq!(ordinal("1.2-rc1"), (1, 2, 0, String::from("rc1")));
    assert_eq!(ordinal("5.0-Community"), (5, 0, 0, String::from("Community")));
}

#[test]
fn two_component_is_rewritten() {
    assert_eq!(ordinal("1.2"), (1, 2, 0, String::new()));
    assert_eq!(ordinal("42.7"), (42, 7, 0, String::new()));
}

#[test]
fn malformed_strings_fall_back_to_zero() {
    for bad in ["", "garbage", "1", "a.b.c", "1..2", ".", "1.2.x", "-1.2.3"] {
        let v = parse(bad);
        assert_eq!((v.major, v.minor, v.patch), (0, 0, 0), "input {:?}", bad);
        assert_eq!(v.prerelease, "", "input {:?}", bad);
        assert_eq!(v.original, bad);
    }
}

#[test]
fn oversized_component_falls_back_to_zero() {
    let v = parse("99999999999999999999.1.2");
    assert_eq!((v.major, v.minor, v.patch), (0, 0, 0));
    assert_eq!(v.original, "99999999999999999999.1.2");
}

#[test]
fn prerelease_order_is_lexicographic() {
    assert!(version_less(&parse("1.2.3-alpha"), &parse("1.2.3-beta")));
    assert!(version_less(&parse("1.2.3"), &parse("1.2.3-alpha")));
    assert!(version_less(&parse("1.2.3.4"), &parse("1.2.3.5")));
    // folded fourth components compare as text, not numerically
    assert!(version_less(&parse("1.2.3.10"), &parse("1.2.3.9")));
}
