use cardinal::text::{str_equal, str_less};

#[test]
fn code_point_order() {
    assert!(str_less("Befaco", "Fundamental"));
    assert!(!str_less("Fundamental", "Befaco"));
    assert!(str_less("VCF", "VCO"));
    assert!(str_less("ab", "abc"));
    assert!(!str_less("abc", "abc"));
    assert!(str_less("Z", "a"));
    assert!(str_less("é", "ê"));
    assert!(!str_less("", ""));
    assert!(str_less("", "a"));
    assert_eq!(str_less("zeta", "zebra"), "zeta" < "zebra");
}

#[test]
fn equality_by_characters() {
    assert!(str_equal("VCO", "VCO"));
    assert!(!str_equal("VCO", "VCF"));
    assert!(!str_equal("VC", "VCO"));
    assert!(str_equal("", ""));
}
