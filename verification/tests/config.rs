use nrps_rs::config::{set_stach_from_model_dir, Cli, Config, ParsedConfig};
use nrps_rs::predictors::predictions::PredictionCategory;

fn args() -> Cli {
    Cli {
        signatures: "foo.sig".to_string(),
        count: None,
        fungal: false,
        config: None,
        stachelhaus_signatures: None,
        model_dir: None,
        skip_v3: false,
        skip_v2: false,
        skip_v1: false,
        skip_stachelhaus: false,
        skip_new_stachelhaus_output: false,
    }
}

fn parsed() -> ParsedConfig {
    ParsedConfig {
        model_dir: None,
        stachelhaus_signatures: None,
        count: None,
        skip_v3: None,
        skip_v2: None,
        skip_v1: None,
        skip_stachelhaus: None,
        skip_new_stachelhaus_output: None,
    }
}

#[test]
fn test_default_config() {
    let config = Config::new();
    assert_eq!(config.model_dir(), "data/models");
    assert_eq!(config.stachelhaus_signatures(), "data/models/signatures.tsv");
    assert_eq!(config.count, 1);
    assert!(!config.skip_stachelhaus);
}

#[test]
fn test_model_dir_set() {
    let mut parsed = parsed();
    parsed.model_dir = Some("/foo".to_string());
    let got = Config::from_parsed(parsed);
    assert_eq!(got.model_dir(), "/foo");
    assert_eq!(got.stachelhaus_signatures(), "/foo/signatures.tsv");
}

#[test]
fn test_stach_extra() {
    let mut parsed = parsed();
    parsed.stachelhaus_signatures = Some("/foo/signatures.tsv".to_string());
    let got = Config::from_parsed(parsed);
    assert_eq!(got.model_dir(), "data/models");
    assert_eq!(got.stachelhaus_signatures(), "/foo/signatures.tsv");
}

#[test]
fn test_set_model_dir_rederives_while_derived() {
    let mut config = Config::new();
    config.set_model_dir("/models".to_string());
    assert_eq!(config.stachelhaus_signatures(), "/models/signatures.tsv");
    config.set_stachelhaus_signatures("/pinned.tsv".to_string());
    config.set_model_dir("/other".to_string());
    assert_eq!(config.stachelhaus_signatures(), "/pinned.tsv");
}

#[test]
fn test_override_model_dir() {
    let mut args = args();
    args.model_dir = Some("/foo".to_string());
    let mut got = Config::from_parsed(parsed());
    got.apply_cli_overrides(&args);
    assert_eq!(got.model_dir(), "/foo");
    assert_eq!(got.stachelhaus_signatures(), "/foo/signatures.tsv");
}

#[test]
fn test_override_both() {
    let mut args = args();
    args.model_dir = Some("/foo".to_string());
    args.stachelhaus_signatures = Some("/bar/signatures.tsv".to_string());
    let mut parsed = parsed();
    parsed.stachelhaus_signatures = Some("/baz/signatures.tsv".to_string());
    let mut got = Config::from_parsed(parsed);
    got.apply_cli_overrides(&args);
    assert_eq!(got.model_dir(), "/foo");
    assert_eq!(got.stachelhaus_signatures(), "/bar/signatures.tsv");
}

#[test]
fn test_count_raised_to_one() {
    let mut args = args();
    args.count = Some(0);
    let mut got = Config::from_parsed(parsed());
    got.apply_cli_overrides(&args);
    assert_eq!(got.count, 1);
}

#[test]
fn test_skip_flags() {
    let mut args = args();
    args.skip_v3 = true;
    args.skip_v1 = true;
    let mut got = Config::from_parsed(parsed());
    got.apply_cli_overrides(&args);
    assert!(got.skip_v3);
    assert!(!got.skip_v2);
    assert!(got.skip_v1);
}

#[test]
fn test_categories_default() {
    let config = Config::new();
    let cats = config.categories();
    assert_eq!(
        cats,
        vec![
            PredictionCategory::ThreeClusterV3,
            PredictionCategory::LargeClusterV3,
            PredictionCategory::SmallClusterV3,
            PredictionCategory::SingleV3,
            PredictionCategory::Stachelhaus,
            PredictionCategory::ThreeClusterV2,
            PredictionCategory::LargeClusterV2,
            PredictionCategory::SmallClusterV2,
            PredictionCategory::SingleV2,
            PredictionCategory::LargeClusterV1,
            PredictionCategory::SmallClusterV1,
        ]
    );
}

#[test]
fn test_categories_fungal_and_skips() {
    let mut config = Config::new();
    config.fungal = true;
    config.skip_v3 = true;
    config.skip_v1 = true;
    config.skip_stachelhaus = true;
    let cats = config.categories();
    assert_eq!(
        cats,
        vec![
            PredictionCategory::ThreeClusterV2,
            PredictionCategory::LargeClusterV2,
            PredictionCategory::SmallClusterV2,
            PredictionCategory::SingleV2,
            PredictionCategory::ThreeClusterFungalV2,
        ]
    );
}

#[test]
fn test_set_stach_from_model_dir() {
    assert_eq!(set_stach_from_model_dir("/a/b"), "/a/b/signatures.tsv");
}
