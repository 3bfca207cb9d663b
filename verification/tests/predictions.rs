use nrps_rs::predictors::predictions::{
    Prediction, PredictionCategory, PredictionList, Score, StachPrediction, StachPredictionList,
};

fn data() -> [Prediction; 4] {
    [
        Prediction { name: "Ala".to_string(), score: Score::new(23, 1) },
        Prediction { name: "Leu".to_string(), score: Score::new(42, 1) },
        Prediction { name: "D-Ala".to_string(), score: Score::new(17, 1) },
        Prediction { name: "Ile".to_string(), score: Score::new(42, 1) },
    ]
}

#[test]
fn test_add() {
    let data = data();
    let mut pred_list = PredictionList::new();
    pred_list.add(data[0].clone());
    assert_eq!(pred_list.len(), 1);

    pred_list.add(data[1].clone());
    assert_eq!(pred_list.len(), 2);
    assert_eq!(pred_list.get_best_n(4)[0], data[1]);

    pred_list.add(data[2].clone());
    assert_eq!(pred_list.len(), 3);
    assert_eq!(pred_list.get_best_n(4)[2], data[2]);

    pred_list.add(data[3].clone());
    assert_eq!(pred_list.len(), 4);
    assert_eq!(pred_list.get_best_n(4)[1], data[3]);
}

#[test]
fn test_get_best() {
    let data = data();
    let mut pred_list = PredictionList::new();
    pred_list.add(data[0].clone());
    pred_list.add(data[1].clone());
    pred_list.add(data[2].clone());
    pred_list.add(data[3].clone());

    let expected = Vec::from([data[1].clone(), data[3].clone()]);
    assert_eq!(pred_list.get_best(), expected);
}

#[test]
fn test_tie_inclusive_top_one() {
    // scores 42, 42, 23, 17: the best-1 query returns both 42-scored
    // entries
    let data = data();
    let mut pred_list = PredictionList::new();
    for p in data.iter() {
        pred_list.add(p.clone());
    }
    let best = pred_list.get_best_n(1);
    assert_eq!(best.len(), 2);
    assert_eq!(best[0].score.num_val(), 42);
    assert_eq!(best[1].score.num_val(), 42);
}

#[test]
fn test_get_best_n_zero_is_empty() {
    let data = data();
    let mut pred_list = PredictionList::new();
    for p in data.iter() {
        pred_list.add(p.clone());
    }
    assert_eq!(pred_list.get_best_n(0).len(), 0);
    assert_eq!(PredictionList::new().get_best_n(3).len(), 0);
}

#[test]
fn test_get_best_n_beyond_length() {
    let data = data();
    let mut pred_list = PredictionList::new();
    pred_list.add(data[0].clone());
    pred_list.add(data[2].clone());
    assert_eq!(pred_list.get_best_n(10).len(), 2);
}

#[test]
fn test_rational_scores_compare_by_value() {
    let mut pred_list = PredictionList::new();
    // one half, stored as 2/4, and one third
    pred_list.add(Prediction { name: "half".to_string(), score: Score::new(2, 4) });
    pred_list.add(Prediction { name: "third".to_string(), score: Score::new(1, 3) });
    let best = pred_list.get_best();
    assert_eq!(best.len(), 1);
    assert_eq!(best[0].name, "half");
}

#[test]
fn test_stach_list_orders_by_both_scores() {
    let mut list = StachPredictionList::new();
    let mk = |name: &str, a10: i64, a34: i64| StachPrediction {
        name: name.to_string(),
        aa10_score: Score::new(a10, 10),
        aa10_sig: "AAAAAAAAAA".to_string(),
        aa34_score: Score::new(a34, 34),
        aa34_sig: "A".repeat(34),
    };
    list.add(mk("low", 7, 20));
    list.add(mk("high", 9, 10));
    list.add(mk("mid", 7, 30));
    let best = list.get_best_n(3);
    assert_eq!(best[0].name, "high");
    assert_eq!(best[1].name, "mid");
    assert_eq!(best[2].name, "low");
}

#[test]
fn test_stach_tie_cutoff_uses_primary_score() {
    let mut list = StachPredictionList::new();
    let mk = |name: &str, a10: i64, a34: i64| StachPrediction {
        name: name.to_string(),
        aa10_score: Score::new(a10, 10),
        aa10_sig: "AAAAAAAAAA".to_string(),
        aa34_score: Score::new(a34, 34),
        aa34_sig: "A".repeat(34),
    };
    list.add(mk("first", 9, 30));
    list.add(mk("second", 9, 20));
    list.add(mk("third", 8, 34));
    // both entries with the top primary score are returned, despite
    // differing secondary scores
    let best = list.get_best_n(1);
    assert_eq!(best.len(), 2);
    assert_eq!(best[0].name, "first");
    assert_eq!(best[1].name, "second");
}

#[test]
fn test_domain_categories_are_independent() {
    let mut domain = nrps_rs::predictors::predictions::ADomain::new(
        "d".to_string(),
        "A".repeat(34),
    );
    domain.add(
        PredictionCategory::ThreeClusterV3,
        Prediction { name: "ala".to_string(), score: Score::new(1, 2) },
    );
    domain.add(
        PredictionCategory::SingleV2,
        Prediction { name: "gly".to_string(), score: Score::new(3, 4) },
    );
    domain.add(
        PredictionCategory::ThreeClusterV3,
        Prediction { name: "ser".to_string(), score: Score::new(9, 10) },
    );
    let v3 = domain.get_best_n(&PredictionCategory::ThreeClusterV3, 5);
    assert_eq!(v3.len(), 2);
    assert_eq!(v3[0].name, "ser");
    assert_eq!(v3[1].name, "ala");
    let single = domain.get_all(&PredictionCategory::SingleV2);
    assert_eq!(single.len(), 1);
    assert_eq!(single[0].name, "gly");
    assert_eq!(domain.get_best_n(&PredictionCategory::Stachelhaus, 1).len(), 0);
}
