use cache_layer_optimizer::clock::now_nanos;
use cache_layer_optimizer::predictive::{elapsed_since, PREDICTIONS_PER_MODEL};
use cache_layer_optimizer::{
    AccessPattern, Error, FrequencyPredictor, MlPredictor, PredictionModel, Predictor, Ratio,
    RecencyPredictor, ScoredKey,
};

const SECOND: u128 = 1_000_000_000;

/// Order-preserving integer form of a non-NaN float.
fn order_key(x: f64) -> u64 {
    let x = if x == 0.0 { 0.0 } else { x };
    let bits = x.to_bits();
    if bits >> 63 == 1 {
        !bits
    } else {
        bits | (1u64 << 63)
    }
}

/// The priority of a key with the given statistics, ranked as floats.
fn scored(key: &str, frequency: f64, recency_secs: f64, regularity: f64) -> ScoredKey {
    let recency_score = 1.0 / (1.0 + recency_secs);
    let score = frequency * 0.5 + recency_score * 0.3 + regularity * 0.2;
    ScoredKey { key: key.to_string(), priority: order_key(score) }
}

fn pattern_with_frequency(key: &str, frequency: u64) -> AccessPattern {
    let mut p = AccessPattern::new(key.to_string());
    p.frequency = Ratio::whole(frequency);
    p
}

#[test]
fn test_frequency_predictor() {
    let predictor = FrequencyPredictor::new(Ratio::whole(1), 100);
    assert_eq!(predictor.metrics.training_runs, 0);
}

#[test]
fn test_access_pattern_creation() {
    let pattern = AccessPattern::new("test_key".to_string());

    assert_eq!(pattern.key, "test_key");
    assert_eq!(pattern.frequency.numerator(), 0);
    assert_eq!(pattern.regularity.numerator(), 0);
    assert!(pattern.predicted_next_access.is_none());
}

#[test]
fn test_access_pattern_last_access_is_now() {
    let before = now_nanos();
    let pattern = AccessPattern::new("k".to_string());
    let after = now_nanos();
    assert!(before <= pattern.last_access && pattern.last_access <= after);
    assert_eq!(pattern.recency, 0);
}

#[test]
fn test_frequency_predictor_creation() {
    let predictor = FrequencyPredictor::new(Ratio::whole(1), 100);

    assert_eq!(predictor.min_frequency.numerator(), 1);
    assert_eq!(predictor.min_frequency.denominator(), 1);
    assert_eq!(predictor.window_size, 100);
    assert_eq!(predictor.metrics().training_runs, 0);
}

#[test]
fn test_frequency_predictor_high_frequency_keys() {
    let predictor = FrequencyPredictor::new(Ratio::whole(5), 100);

    let patterns = vec![pattern_with_frequency("high_freq", 10), pattern_with_frequency("low_freq", 1)];

    let high_freq_keys = predictor.get_high_frequency_keys(&patterns);

    assert_eq!(high_freq_keys.len(), 1);
    assert_eq!(high_freq_keys[0], "high_freq");
}

#[test]
fn test_frequency_threshold_is_inclusive_and_exact() {
    let predictor = FrequencyPredictor::new(Ratio::new(5, 2), 10);
    let mut equal = AccessPattern::new("equal".to_string());
    equal.frequency = Ratio::new(10, 4);
    let mut below = AccessPattern::new("below".to_string());
    below.frequency = Ratio::new(249, 100);
    let mut above = AccessPattern::new("above".to_string());
    above.frequency = Ratio::new(3, 1);
    let keys = predictor.get_high_frequency_keys(&[above, below, equal]);
    assert_eq!(keys, vec!["above".to_string(), "equal".to_string()]);
}

#[test]
fn test_frequency_predictor_train() {
    let mut predictor = FrequencyPredictor::new(Ratio::whole(1), 100);

    let patterns = vec![AccessPattern::new("test".to_string())];
    let result = predictor.train(&patterns);

    assert!(result.is_ok());
    assert_eq!(predictor.metrics().training_runs, 1);
    assert_eq!(predictor.metrics().training_samples, 1);
}

#[test]
fn test_recency_predictor_creation() {
    let predictor = RecencyPredictor::new(300 * SECOND);

    assert_eq!(predictor.recency_threshold / SECOND, 300);
    assert_eq!(predictor.metrics().training_runs, 0);
}

#[test]
fn test_recency_predictor_train() {
    let mut predictor = RecencyPredictor::new(300 * SECOND);

    let patterns = vec![AccessPattern::new("test".to_string())];
    let result = predictor.train(&patterns);

    assert!(result.is_ok());
    assert_eq!(predictor.metrics().training_runs, 1);
}

#[test]
fn test_recency_predictor_recent_keys() {
    let predictor = RecencyPredictor::new(300 * SECOND);

    let now = now_nanos();
    let patterns = vec![
        {
            let mut p = AccessPattern::new("recent".to_string());
            p.last_access = now - 100 * SECOND as i128;
            p
        },
        {
            let mut p = AccessPattern::new("old".to_string());
            p.last_access = now - 400 * SECOND as i128;
            p
        },
    ];

    let recent_keys = predictor.get_recent_keys(&patterns);

    assert_eq!(recent_keys.len(), 1);
    assert_eq!(recent_keys[0], "recent");
}

#[test]
fn test_recent_keys_at_fixed_time() {
    let predictor = RecencyPredictor::new(10);
    let mut future = AccessPattern::new("future".to_string());
    future.last_access = 1_000;
    let mut edge = AccessPattern::new("edge".to_string());
    edge.last_access = 490;
    let mut inside = AccessPattern::new("inside".to_string());
    inside.last_access = 491;
    let keys = predictor.recent_keys_at(&[future, edge, inside], 500);
    assert_eq!(keys, vec!["future".to_string(), "inside".to_string()]);

    let never = RecencyPredictor::new(0);
    let mut p = AccessPattern::new("p".to_string());
    p.last_access = 500;
    assert!(never.recent_keys_at(&[p], 500).is_empty());
}

#[test]
fn test_elapsed_since_extremes() {
    assert_eq!(elapsed_since(5, 10), 0);
    assert_eq!(elapsed_since(10, 5), 5);
    assert_eq!(elapsed_since(-5, -10), 5);
    assert_eq!(elapsed_since(i128::MAX, i128::MIN), u128::MAX);
    assert_eq!(elapsed_since(3, -4), 7);
}

#[test]
fn test_predictor_creation() {
    let predictor = Predictor::new();

    assert!(predictor.enabled);
    assert_eq!(predictor.metrics().prediction_requests, 0);
}

#[test]
fn predictive_test_predictor_disabled() {
    let mut predictor = Predictor::new();
    predictor.set_enabled(false);

    let patterns = vec![scored("test", 0.0, 0.0, 0.0)];
    let predictions = predictor.get_predictions(&patterns).unwrap();

    assert!(predictions.is_empty());
}

#[test]
fn predictive_tests_test_predictor_disabled() {
    let mut predictor = Predictor::new();
    predictor.set_enabled(false);

    let patterns = vec![scored("test", 0.0, 0.0, 0.0)];
    let predictions = predictor.get_predictions(&patterns).unwrap();

    assert!(predictions.is_empty());
    assert_eq!(predictor.metrics().prediction_requests, 1);
}

#[test]
fn test_predictor_get_predictions() {
    let patterns = vec![scored("high_priority", 10.0, 10.0, 0.9)];
    let mut predictor = Predictor::new();

    let predictions = predictor.get_predictions(&patterns).unwrap();

    assert!(!predictions.is_empty());
}

#[test]
fn test_predictor_with_multiple_models() {
    let mut predictor = Predictor::new()
        .add_model(Box::new(FrequencyPredictor::new(Ratio::whole(1), 100)))
        .add_model(Box::new(RecencyPredictor::new(300 * SECOND)));

    let patterns = vec![scored("test", 10.0, 0.0, 0.8)];
    let predictions = predictor.get_predictions(&patterns).unwrap();

    assert!(!predictions.is_empty());
    assert_eq!(predictions, vec!["test".to_string(), "test".to_string()]);
    assert_eq!(predictor.models.len(), 2);
}

#[test]
fn test_predictor_metrics_tracking() {
    let mut predictor = Predictor::new();

    let patterns = vec![scored("test1", 5.0, 0.0, 0.0), scored("test2", 3.0, 0.0, 0.0)];

    let _ = predictor.get_predictions(&patterns).unwrap();

    assert_eq!(predictor.metrics().prediction_requests, 1);
    assert!(predictor.metrics().predictions_made > 0);
}

#[test]
fn test_predictor_large_dataset() {
    let mut predictor = Predictor::new();

    let patterns: Vec<ScoredKey> =
        (0..10000).map(|i| scored(&format!("key_{}", i), (i % 100) as f64, 0.0, 0.0)).collect();

    let start = std::time::Instant::now();
    let predictions = predictor.get_predictions(&patterns).unwrap();
    let duration = start.elapsed();

    assert!(duration.as_millis() < 100);
    assert!(!predictions.is_empty());
}

#[test]
fn test_predictor_empty_patterns() {
    let mut predictor = Predictor::new();
    let patterns = vec![];

    let predictions = predictor.get_predictions(&patterns).unwrap();

    assert!(predictions.is_empty());
}

#[test]
fn test_predictor_single_pattern() {
    let mut predictor = Predictor::new();

    let predictions = predictor.get_predictions(&[scored("single", 1.0, 0.0, 0.0)]).unwrap();

    assert!(!predictions.is_empty());
}

#[test]
fn test_predictor_keeps_top_hundred_in_order() {
    let mut predictor = Predictor::new();
    let patterns: Vec<ScoredKey> =
        (0..250u64).map(|i| ScoredKey { key: format!("k{}", i), priority: i % 7 }).collect();
    let predictions = predictor.get_predictions(&patterns).unwrap();
    assert_eq!(predictions.len(), PREDICTIONS_PER_MODEL);
    assert_eq!(predictions[0], "k6");
    assert_eq!(predictions[1], "k13");
    assert_eq!(predictor.metrics().predictions_made, 100);
}

#[test]
fn test_frequency_predictor_zero_frequency() {
    let mut predictor = FrequencyPredictor::new(Ratio::zero(), 100);

    let patterns = vec![AccessPattern::new("zero_freq".to_string())];
    let result = predictor.train(&patterns);

    assert!(result.is_ok());
}

#[test]
fn test_ml_predictor_insufficient_data() {
    let mut predictor = MlPredictor::new(100);

    let patterns = vec![AccessPattern::new("test".to_string())];
    let result = predictor.train(&patterns);

    assert!(result.is_err());
}

#[test]
fn test_ml_predictor_error_details_and_success() {
    let mut predictor = MlPredictor::new(2);
    let one = vec![AccessPattern::new("a".to_string())];
    match predictor.train(&one) {
        Err(Error::InsufficientData { required, actual }) => {
            assert_eq!(required, 2);
            assert_eq!(actual, 1);
        }
        other => panic!("unexpected {:?}", other),
    }
    assert_eq!(predictor.metrics().training_runs, 0);
    let two = vec![AccessPattern::new("a".to_string()), AccessPattern::new("b".to_string())];
    predictor.train(&two).unwrap();
    assert_eq!(predictor.metrics().training_runs, 1);
    assert_eq!(predictor.metrics().training_samples, 2);
}

#[test]
fn test_models_predict_nothing() {
    let f = FrequencyPredictor::new(Ratio::whole(1), 1);
    let r = RecencyPredictor::new(1);
    let m = MlPredictor::new(1);
    let keys = vec!["a".to_string()];
    assert_eq!(f.predict("a").unwrap(), None);
    assert_eq!(r.predict("a").unwrap(), None);
    assert_eq!(m.predict("a").unwrap(), None);
    assert!(f.predict_batch(&keys).unwrap().is_empty());
    assert!(r.predict_batch(&keys).unwrap().is_empty());
    assert!(m.predict_batch(&keys).unwrap().is_empty());
}
