use nrps_rs::decimal::parse_decimal;
use nrps_rs::parse_domain;
use nrps_rs::parse_domain_lines;
use nrps_rs::predictors::predictions::ADomain;
use nrps_rs::textparse::{parse_usize, split_char, split_spaces, trim};

fn dec_as_f64(d: &nrps_rs::decimal::Decimal) -> f64 {
    d.mantissa_val() as f64 / 10f64.powi(d.exp_val() as i32)
}

#[test]
fn test_parse_domains() {
    let two_parts = vec!["LDASFDASLFEMYLLTGGDRNMYGPTEATMCATW\tbpsA_A1".to_string()];
    let three_parts = vec!["LEPAFDISLFEVHLLTGGDRHLYGPTEATLCATW\tHpg\tCAC48361.1.A1".to_string()];
    let too_short = vec!["LDASFDASLFEMYLLTGGDRNMYGPTEATMCATW".to_string()];

    let expected_two = Vec::from([ADomain::new(
        "bpsA_A1".to_string(),
        "LDASFDASLFEMYLLTGGDRNMYGPTEATMCATW".to_string(),
    )]);

    let expected_three = Vec::from([ADomain::new(
        "CAC48361.1.A1_Hpg".to_string(),
        "LEPAFDISLFEVHLLTGGDRHLYGPTEATLCATW".to_string(),
    )]);

    let got_two = parse_domain_lines(&two_parts).unwrap();
    assert_eq!(expected_two, got_two);

    let got_three = parse_domain_lines(&three_parts).unwrap();
    assert_eq!(expected_three, got_three);

    let got_error = parse_domain_lines(&too_short);
    assert!(got_error.is_err());
}

#[test]
fn test_parse_domain_skips_blank_lines() {
    let lines = vec![
        "".to_string(),
        "  ".to_string(),
        "LDASFDASLFEMYLLTGGDRNMYGPTEATMCATW\tbpsA_A1".to_string(),
    ];
    let got = parse_domain_lines(&lines).unwrap();
    assert_eq!(got.len(), 1);
    assert_eq!(got[0].name, "bpsA_A1");
}

#[test]
fn test_parse_domain_wrong_length() {
    let got = parse_domain("SHORT\tname".to_string());
    assert!(got.is_err());
}

#[test]
fn test_parse_usize_values() {
    assert_eq!(parse_usize("0"), Ok(0));
    assert_eq!(parse_usize("102"), Ok(102));
    assert!(parse_usize("").is_err());
    assert!(parse_usize("12a").is_err());
    assert!(parse_usize("99999999999999999999999999").is_err());
}

#[test]
fn test_parse_decimal_values() {
    let d = parse_decimal("-1.6023999").unwrap();
    assert_eq!(dec_as_f64(&d), -1.6023999);
    let d = parse_decimal("10").unwrap();
    assert_eq!(dec_as_f64(&d), 10.0);
    let d = parse_decimal("1.5e2").unwrap();
    assert_eq!(dec_as_f64(&d), 150.0);
    let d = parse_decimal("2E-3").unwrap();
    assert_eq!(d.mantissa_val(), 2);
    assert_eq!(d.exp_val(), 3);
    let d = parse_decimal(".5").unwrap();
    assert_eq!(dec_as_f64(&d), 0.5);
    let d = parse_decimal("+3.").unwrap();
    assert_eq!(dec_as_f64(&d), 3.0);
    assert!(parse_decimal("").is_err());
    assert!(parse_decimal(".").is_err());
    assert!(parse_decimal("1.2.3").is_err());
    assert!(parse_decimal("1e").is_err());
    assert!(parse_decimal("NaN").is_err());
}

#[test]
fn test_split_and_trim() {
    let fields = split_char("a\tb\t\tc", '\t');
    assert_eq!(fields, vec!["a", "b", "", "c"]);
    let pieces = split_spaces("10 1:-1.6");
    assert_eq!(pieces, vec!["10", "1:-1.6"]);
    assert_eq!(trim("  spaced\t"), "spaced");
    assert_eq!(trim(""), "");
    assert_eq!(trim(" \t "), "");
}
