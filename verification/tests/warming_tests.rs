use cache_layer_optimizer::{
    OnDemandWarmer, Predictor, ProactiveWarmer, ScheduledWarmer, ScoredKey, Warmer,
    WarmingConfig, WarmingSchedule, WarmingStrategy, WarmingStrategyType,
};

const SECOND: u128 = 1_000_000_000;

fn order_key(x: f64) -> u64 {
    let x = if x == 0.0 { 0.0 } else { x };
    let bits = x.to_bits();
    if bits >> 63 == 1 {
        !bits
    } else {
        bits | (1u64 << 63)
    }
}

fn scored(key: &str, frequency: f64, regularity: f64) -> ScoredKey {
    let score = frequency * 0.5 + 1.0 * 0.3 + regularity * 0.2;
    ScoredKey { key: key.to_string(), priority: order_key(score) }
}

#[test]
fn test_on_demand_warmer() {
    let warmer = OnDemandWarmer::new(10);
    assert_eq!(warmer.metrics.warming_cycles, 0);
}

#[test]
fn test_on_demand_warmer_creation() {
    let warmer = OnDemandWarmer::new(100);

    assert_eq!(warmer.max_keys, 100);
    assert_eq!(warmer.metrics().warming_cycles, 0);
}

#[test]
fn test_on_demand_warmer_select_keys() {
    let mut warmer = OnDemandWarmer::new(2);

    let patterns = vec![
        scored("high_priority", 10.0, 0.9),
        scored("medium_priority", 5.0, 0.5),
        scored("low_priority", 1.0, 0.1),
    ];

    let keys = warmer.select_keys(&patterns).unwrap();

    assert_eq!(keys.len(), 2);
    assert_eq!(keys[0], "high_priority");
    assert_eq!(keys[1], "medium_priority");
}

#[test]
fn test_on_demand_warmer_limited_capacity() {
    let mut warmer = OnDemandWarmer::new(1);

    let patterns = vec![scored("key1", 10.0, 0.0), scored("key2", 5.0, 0.0)];

    let keys = warmer.select_keys(&patterns).unwrap();

    assert_eq!(keys.len(), 1);
    assert_eq!(keys[0], "key1");
}

#[test]
fn test_on_demand_warmer_empty_patterns() {
    let mut warmer = OnDemandWarmer::new(100);

    let patterns = vec![];
    let keys = warmer.select_keys(&patterns).unwrap();

    assert!(keys.is_empty());
}

#[test]
fn test_on_demand_ties_keep_input_order() {
    let mut warmer = OnDemandWarmer::new(3);
    let patterns = vec![
        ScoredKey { key: "a".to_string(), priority: 1 },
        ScoredKey { key: "b".to_string(), priority: 5 },
        ScoredKey { key: "c".to_string(), priority: 1 },
        ScoredKey { key: "d".to_string(), priority: 5 },
    ];
    let keys = warmer.select_keys(&patterns).unwrap();
    assert_eq!(keys, vec!["b".to_string(), "d".to_string(), "a".to_string()]);
}

#[test]
fn test_proactive_warmer_creation() {
    let predictor = Predictor::new();
    let warmer = ProactiveWarmer::new(predictor, 60 * SECOND);

    assert_eq!(warmer.interval / SECOND, 60);
}

#[test]
fn test_proactive_warmer_select_keys() {
    let predictor = Predictor::new();
    let mut warmer = ProactiveWarmer::new(predictor, 60 * SECOND);

    let patterns = vec![scored("test", 0.0, 0.0)];
    let keys = warmer.select_keys(&patterns).unwrap();

    assert!(keys.len() <= 100);
}

#[test]
fn test_scheduled_warmer_creation() {
    let schedule = vec![WarmingSchedule {
        time: "00:00".to_string(),
        keys: vec!["key1".to_string(), "key2".to_string()],
    }];

    let warmer = ScheduledWarmer::new(schedule);

    assert_eq!(warmer.schedule.len(), 1);
    assert_eq!(warmer.schedule[0].keys.len(), 2);
}

#[test]
fn test_scheduled_warmer_select_keys() {
    let schedule = vec![WarmingSchedule { time: "00:00".to_string(), keys: vec!["key1".to_string()] }];

    let mut warmer = ScheduledWarmer::new(schedule);
    let keys = warmer.select_keys(&[]).unwrap();

    assert!(keys.is_empty());
}

#[test]
fn test_warmer_integration() {
    let on_demand = Box::new(OnDemandWarmer::new(10));
    let mut warmer = Warmer::new(on_demand);

    let patterns = vec![scored("key1", 10.0, 0.0), scored("key2", 5.0, 0.0)];

    let warmed_keys = warmer.warm(&patterns).unwrap();

    assert_eq!(warmed_keys.len(), 2);
    assert_eq!(warmer.metrics().warming_cycles, 1);
    assert_eq!(warmer.metrics().keys_warmed, 2);
}

#[test]
fn test_warmer_multiple_cycles() {
    let on_demand = Box::new(OnDemandWarmer::new(10));
    let mut warmer = Warmer::new(on_demand);

    let patterns = vec![scored("key1", 10.0, 0.0)];

    for _ in 0..5 {
        let _ = warmer.warm(&patterns).unwrap();
    }

    assert_eq!(warmer.metrics().warming_cycles, 5);
    assert_eq!(warmer.metrics().keys_warmed, 5);
}

#[test]
fn test_warmer_with_predictor() {
    let predictor = Predictor::new();
    let proactive = Box::new(ProactiveWarmer::new(predictor, 60 * SECOND));
    let mut warmer = Warmer::new(proactive);

    let patterns: Vec<ScoredKey> =
        (0..100).map(|i| scored(&format!("key_{}", i), (i % 10) as f64, 0.0)).collect();

    let warmed_keys = warmer.warm(&patterns).unwrap();

    assert!(!warmed_keys.is_empty());
    assert!(warmed_keys.len() <= 100);
}

#[test]
fn test_warming_zero_frequency_patterns() {
    let on_demand = Box::new(OnDemandWarmer::new(10));
    let mut warmer = Warmer::new(on_demand);

    let patterns = vec![scored("zero1", 0.0, 0.0), scored("zero2", 0.0, 0.0)];

    let warmed_keys = warmer.warm(&patterns).unwrap();

    assert!(!warmed_keys.is_empty());
}

#[test]
fn test_warming_single_pattern() {
    let on_demand = Box::new(OnDemandWarmer::new(10));
    let mut warmer = Warmer::new(on_demand);

    let patterns = vec![scored("single", 10.0, 0.0)];

    let warmed_keys = warmer.warm(&patterns).unwrap();

    assert_eq!(warmed_keys.len(), 1);
    assert_eq!(warmed_keys[0], "single");
}

#[test]
fn test_warming_max_keys_zero() {
    let mut warmer = OnDemandWarmer::new(0);

    let patterns = vec![scored("test", 10.0, 0.0)];

    let keys = warmer.select_keys(&patterns).unwrap();

    assert!(keys.is_empty());
}

#[test]
fn test_on_demand_respects_limit_and_uniqueness() {
    for max_keys in [1usize, 7, 50, 200] {
        let mut warmer = OnDemandWarmer::new(max_keys);
        let patterns: Vec<ScoredKey> = (0..120)
            .map(|i| scored(&format!("key_{}", i), (i % 10) as f64, (i % 10) as f64 / 10.0))
            .collect();
        let keys = warmer.select_keys(&patterns).unwrap();
        assert_eq!(keys.len(), max_keys.min(120));
        let unique: std::collections::HashSet<_> = keys.iter().collect();
        assert_eq!(unique.len(), keys.len());
    }
}

#[test]
fn test_warming_config_fields() {
    let config = WarmingConfig { max_keys: 5, interval: 2 * SECOND, strategy: WarmingStrategyType::Scheduled };
    let copy = config;
    assert_eq!(copy.max_keys, 5);
    assert_eq!(copy.strategy, WarmingStrategyType::Scheduled);
}

#[test]
fn test_warming_large_dataset() {
    let on_demand = Box::new(OnDemandWarmer::new(1000));
    let mut warmer = Warmer::new(on_demand);

    let patterns: Vec<ScoredKey> =
        (0..100000).map(|i| scored(&format!("key_{}", i), (i % 1000) as f64, 0.0)).collect();

    let start = std::time::Instant::now();
    let warmed_keys = warmer.warm(&patterns).unwrap();
    let duration = start.elapsed();

    assert!(duration.as_millis() < 200);
    assert_eq!(warmed_keys.len(), 1000);
}

#[test]
fn test_try_warm_refuses_on_overflow() {
    let mut warmer = Warmer::new(OnDemandWarmer::new(5));
    let patterns = vec![scored("a", 1.0, 0.0), scored("b", 2.0, 0.0)];
    warmer.metrics.warming_cycles = usize::MAX;
    assert!(warmer.try_warm(&patterns).is_none());
    assert_eq!(warmer.metrics.keys_warmed, 0);

    warmer.metrics.warming_cycles = 0;
    let keys = warmer.try_warm(&patterns).unwrap().unwrap();
    assert_eq!(keys, vec!["b".to_string(), "a".to_string()]);
    assert_eq!(warmer.metrics.warming_cycles, 1);
    assert_eq!(warmer.metrics.keys_warmed, 2);
}

#[test]
fn test_warming_counts_over_mixed_cycles() {
    let mut warmer = Warmer::new(OnDemandWarmer::new(2));
    let three = vec![scored("a", 1.0, 0.0), scored("b", 2.0, 0.0), scored("c", 3.0, 0.0)];
    let one = vec![scored("d", 1.0, 0.0)];
    let none: Vec<ScoredKey> = Vec::new();
    warmer.warm(&three).unwrap();
    warmer.warm(&one).unwrap();
    warmer.warm(&none).unwrap();
    assert_eq!(warmer.metrics.warming_cycles, 3);
    assert_eq!(warmer.metrics.keys_warmed, 3);
}
