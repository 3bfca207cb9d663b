use nrps_rs::predictors::predictions::{PredictionCategory, StachPredictionList};
use nrps_rs::predictors::stachelhaus::{
    calculate_score, extract_aa10, hamming_dist, parse_sigs, predict, similarity,
    StachelhausSignature,
};
use nrps_rs::predictors::predictions::ADomain;

fn score_as_f64(s: &nrps_rs::predictors::predictions::Score) -> f64 {
    s.num_val() as f64 / s.den_val() as f64
}

#[test]
fn test_extract_aa10() {
    let expected = "DMVICGCAAK".to_string();
    let got = extract_aa10(&"HAKSFDMSVVQCIACMGGETNCYGPTEITAAATF".to_string());
    assert!(got.is_ok());
    assert_eq!(expected, got.unwrap());
}

#[test]
fn test_extract_aa10_error() {
    let got = extract_aa10(&"THISISWAYTOOSHORT".to_string());
    assert!(got.is_err());
}

#[test]
fn test_hamming_dist() {
    let a = String::from("ABCDE");
    let b = String::from("ABCDF");
    let c = String::from("EDCBA");
    assert_eq!(hamming_dist(&a, &a), 0);
    assert_eq!(hamming_dist(&a, &b), 1);
    assert_eq!(hamming_dist(&a, &c), 4);
}

#[test]
fn test_calculate_score() {
    let test_cases: &[((usize, usize, usize, usize), f64)] = &[
        ((10, 10, 10, 10), 1.0),
        ((10, 10, 9, 10), 0.99),
        ((10, 10, 5, 10), 0.95),
    ];
    for case in test_cases.iter() {
        let values = case.0;
        let expected = case.1;
        let got = calculate_score(values.0, values.1, values.2, values.3);
        assert!((score_as_f64(&got) - expected).abs() < 1e-6);
    }
}

#[test]
fn test_similarity_fraction() {
    let s = similarity(7, 10);
    assert_eq!(s.num_val(), 7);
    assert_eq!(s.den_val(), 10);
}

#[test]
fn test_hamming_unequal_lengths_use_shorter() {
    let a = String::from("ABC");
    let b = String::from("ABCDEF");
    assert_eq!(hamming_dist(&a, &b), 0);
    assert_eq!(hamming_dist(&b, &a), 0);
}

#[test]
fn test_parse_sigs_row() {
    let lines = vec![
        "DMVICGCAAK\tHAKSFDMSVVQCIACMGGETNCYGPTEITAAATF\tall\tser\tids".to_string(),
    ];
    let sigs = parse_sigs(&lines).unwrap();
    assert_eq!(sigs.len(), 1);
    assert_eq!(sigs[0].aa10, "DMVICGCAAK");
    assert_eq!(sigs[0].aa34, "HAKSFDMSVVQCIACMGGETNCYGPTEITAAATF");
    assert_eq!(sigs[0].winner, "ser");
}

#[test]
fn test_parse_sigs_bad_field_count() {
    let lines = vec!["a\tb\tc".to_string()];
    let got = parse_sigs(&lines);
    assert!(got.is_err());
    match got {
        Err(nrps_rs::NrpsError::SignatureError(m)) => assert_eq!(m, "abc"),
        _ => panic!("expected a signature error"),
    }
}

#[test]
fn test_predict_perfect_match() {
    let aa34 = "HAKSFDMSVVQCIACMGGETNCYGPTEITAAATF".to_string();
    let mut domains = vec![ADomain::new("query".to_string(), aa34.clone())];
    let signatures = vec![StachelhausSignature {
        aa10: "DMVICGCAAK".to_string(),
        aa34: aa34.clone(),
        winner: "ser".to_string(),
    }];
    predict(&mut domains, signatures).unwrap();
    let best = domains[0].get_best_n(&PredictionCategory::Stachelhaus, 1);
    assert_eq!(best.len(), 1);
    assert_eq!(best[0].name, "ser");
    assert!((score_as_f64(&best[0].score) - 1.0).abs() < 1e-9);
    let details = domains[0].stach_predictions();
    assert_eq!(details.len(), 1);
}

#[test]
fn test_predict_below_threshold_records_nothing() {
    // six or fewer matching positions in the sub-window are not
    // significant
    let aa34 = "HAKSFDMSVVQCIACMGGETNCYGPTEITAAATF".to_string();
    let mut domains = vec![ADomain::new("query".to_string(), aa34)];
    let signatures = vec![StachelhausSignature {
        aa10: "WWWWWWWWWW".to_string(),
        aa34: "WWWWWWWWWWWWWWWWWWWWWWWWWWWWWWWWWW".to_string(),
        winner: "trp".to_string(),
    }];
    predict(&mut domains, signatures).unwrap();
    let best = domains[0].get_best_n(&PredictionCategory::Stachelhaus, 1);
    assert_eq!(best.len(), 0);
    assert_eq!(domains[0].stach_predictions().len(), 0);
}

#[test]
fn test_predict_secondary_tiebreak_records_both() {
    let aa34 = "HAKSFDMSVVQCIACMGGETNCYGPTEITAAATF".to_string();
    // same primary window as the query, but four full-window mismatches
    let weaker_aa34 = "HAKSFDMSVVQCIACMGGETNCYGPTEIWAAWWW".to_string();
    let mut domains = vec![ADomain::new("query".to_string(), aa34.clone())];
    let signatures = vec![
        StachelhausSignature {
            aa10: "DMVICGCAAK".to_string(),
            aa34: weaker_aa34,
            winner: "first".to_string(),
        },
        StachelhausSignature {
            aa10: "DMVICGCAAK".to_string(),
            aa34: aa34.clone(),
            winner: "second".to_string(),
        },
    ];
    predict(&mut domains, signatures).unwrap();
    // both candidates improve in turn, so both are recorded as details
    let details = domains[0].stach_predictions();
    assert_eq!(details.len(), 2);
    let ranked = details.get_best_n(2);
    assert_eq!(ranked[0].name, "second");
    assert_eq!(ranked[1].name, "first");
    // only the best combined score is surfaced under the category
    let best = domains[0].get_best_n(&PredictionCategory::Stachelhaus, 1);
    assert_eq!(best.len(), 1);
    assert_eq!(best[0].name, "second");
}

#[test]
fn test_predict_bad_signature_aborts() {
    let mut domains = vec![ADomain::new("query".to_string(), "TOOSHORT".to_string())];
    let got = predict(&mut domains, Vec::new());
    assert!(got.is_err());
}

#[test]
fn test_to_table_formats_scores() {
    let aa34 = "HAKSFDMSVVQCIACMGGETNCYGPTEITAAATF".to_string();
    let mut domains = vec![ADomain::new("query".to_string(), aa34.clone())];
    let signatures = vec![StachelhausSignature {
        aa10: "DMVICGCAAK".to_string(),
        aa34: aa34.clone(),
        winner: "ser".to_string(),
    }];
    predict(&mut domains, signatures).unwrap();
    let table = domains[0].stach_predictions().to_table();
    assert_eq!(table, "ser\t1.00\t1.00");
}

#[test]
fn test_to_table_empty() {
    let list = StachPredictionList::new();
    assert_eq!(list.to_table(), "\t\t");
}
