use nrps_rs::encodings::FeatureEncoding;
use nrps_rs::predictors::extract_name;
use nrps_rs::predictors::predictions::PredictionCategory;
use nrps_rs::svm::models::{parse_decimal_line, parse_int, KernelType, SVMlightModel};
use nrps_rs::svm::vectors::{check_dimensions, SupportVector};
use nrps_rs::NrpsError;

fn dec_as_f64(d: &nrps_rs::decimal::Decimal) -> f64 {
    d.mantissa_val() as f64 / 10f64.powi(d.exp_val() as i32)
}

#[test]
fn test_from_line() {
    let line = String::from("10 1:-1.6023999 3:-0.55470002 5:-0.63520002 # some junk");
    let v1 = SupportVector::from_line(line, 5).unwrap();
    assert_eq!(dec_as_f64(&v1.yalpha), 10.0);
    let got: Vec<f64> = v1.values().iter().map(dec_as_f64).collect();
    assert_eq!(got, [-1.6023999, 0., -0.55470002, 0., -0.63520002]);
}

#[test]
fn test_from_line_rejects_out_of_range_index() {
    let line = String::from("1 6:2.0");
    assert!(SupportVector::from_line(line, 5).is_err());
    let line = String::from("1 0:2.0");
    assert!(SupportVector::from_line(line, 5).is_err());
}

#[test]
fn test_from_line_rejects_bad_numbers() {
    assert!(matches!(
        SupportVector::from_line("x 1:2.0".to_string(), 5),
        Err(NrpsError::FloatParserError(_))
    ));
    assert!(matches!(
        SupportVector::from_line("1 a:2.0".to_string(), 5),
        Err(NrpsError::IntParserError(_))
    ));
    assert!(matches!(
        SupportVector::from_line("1".to_string(), 5),
        Err(NrpsError::InvalidFeatureLine(_))
    ));
}

#[test]
fn test_parse_int_line() {
    assert_eq!(parse_int("12 # comment").unwrap(), 12);
    assert_eq!(parse_int("  7  ").unwrap(), 7);
    assert!(parse_int("x").is_err());
}

#[test]
fn test_parse_decimal_line_value() {
    let d = parse_decimal_line("0.5 # gamma").unwrap();
    assert_eq!(dec_as_f64(&d), 0.5);
}

fn model_lines(kernel_code: &str, vectors: &[&str]) -> Vec<String> {
    model_lines_declaring(kernel_code, vectors.len(), vectors)
}

fn model_lines_declaring(kernel_code: &str, declared: usize, vectors: &[&str]) -> Vec<String> {
    let mut lines = vec![
        "SVM-light header".to_string(),
        kernel_code.to_string(),
        "3 # kernel parameter -d".to_string(),
        "0.5 # kernel parameter -g".to_string(),
        "1 # kernel parameter -s".to_string(),
        "1 # kernel parameter -r".to_string(),
        "empty# kernel parameter -u".to_string(),
        "5 # highest feature index".to_string(),
        "2 # number of training documents".to_string(),
    ];
    lines.push(format!("{declared} # number of support vectors"));
    lines.push("0.25 # threshold b".to_string());
    for v in vectors {
        lines.push(v.to_string());
    }
    lines
}

#[test]
fn test_from_lines_linear_model() {
    let lines = model_lines("0 # kernel type", &["1 1:2.0 3:0.5", "-0.5 2:1.0"]);
    let model = SVMlightModel::from_lines(
        &lines,
        "ser".to_string(),
        PredictionCategory::ThreeClusterV3,
        FeatureEncoding::Wold,
    )
    .unwrap();
    assert_eq!(model.name, "ser");
    assert!(matches!(model.kernel_type(), KernelType::Linear));
    assert_eq!(dec_as_f64(&model.bias()), 0.25);
    assert_eq!(dec_as_f64(&model.gamma()), 0.5);
    assert_eq!(model.vectors().len(), 2);
    assert_eq!(model.vectors()[0].values().len(), 5);
    assert_eq!(dec_as_f64(&model.vectors()[0].values()[0]), 2.0);
    assert_eq!(dec_as_f64(&model.vectors()[1].yalpha), -0.5);
}

#[test]
fn test_from_lines_unsupported_kernel() {
    // a kernel-type code outside the supported set fails to load
    let lines = model_lines("1 # kernel type", &["1 1:2.0"]);
    let got = SVMlightModel::from_lines(
        &lines,
        "m".to_string(),
        PredictionCategory::SingleV2,
        FeatureEncoding::Rausch,
    );
    assert!(matches!(got, Err(NrpsError::UnsupportedKernel(1))));
}

#[test]
fn test_from_lines_wrong_vector_count() {
    // the header declares two support vectors but only one follows
    let lines = model_lines_declaring("2 # kernel type", 2, &["1 1:2.0"]);
    let got = SVMlightModel::from_lines(
        &lines,
        "m".to_string(),
        PredictionCategory::SingleV2,
        FeatureEncoding::Rausch,
    );
    assert!(got.is_err());
}

#[test]
fn test_from_lines_truncated_file() {
    let lines = vec!["header".to_string(), "0".to_string()];
    let got = SVMlightModel::from_lines(
        &lines,
        "m".to_string(),
        PredictionCategory::SingleV2,
        FeatureEncoding::Rausch,
    );
    assert!(matches!(got, Err(NrpsError::InvalidFeatureLine(_))));
}

#[test]
fn test_check_dimensions() {
    assert!(check_dimensions(3, 3).is_ok());
    assert!(matches!(
        check_dimensions(3, 2),
        Err(NrpsError::DimensionMismatch { first: 3, second: 2 })
    ));
}

#[test]
fn test_extract_name_trims_brackets() {
    assert_eq!(extract_name("[ser].mdl"), "ser");
    assert_eq!(extract_name("plain.mdl"), "plain");
    assert_eq!(extract_name("noext"), "noext");
    assert_eq!(extract_name("two.dots.mdl"), "two.dots");
}
