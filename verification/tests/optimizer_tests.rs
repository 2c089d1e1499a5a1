use cache_layer_optimizer::{
    default_optimizer, AdaptiveTiering, CacheOptimizer, FixedTiering, OnDemandWarmer,
    OptimizationConfig, Optimizer, ScoredKey, TierConfig, TierManager, Warmer, WriteBack,
};

fn keys(n: u64) -> Vec<ScoredKey> {
    (0..n).map(|i| ScoredKey { key: format!("key_{}", i), priority: i }).collect()
}

#[test]
fn test_optimization_config() {
    let config = OptimizationConfig::default();
    assert!(config.enable_prediction);
    assert!(config.enable_warming);
}

#[test]
fn test_optimization_config_defaults() {
    let config = OptimizationConfig::default();
    assert!(config.enable_tiering);
    assert!(config.enable_coherence);
    assert_eq!(config.optimization_interval_secs, 60);
}

#[test]
fn test_optimizer() {
    let mut optimizer = Optimizer::with_defaults().unwrap();
    let patterns = keys(1);

    let result = optimizer.optimize(&patterns).unwrap();
    assert_eq!(result.keys_optimized, 0);
}

#[test]
fn test_default_optimizer() {
    let optimizer = default_optimizer().unwrap();
    assert!(optimizer.inner.coherence.is_some());
    assert_eq!(optimizer.metrics().prediction.prediction_requests, 0);
}

#[test]
fn test_cache_optimizer_full_cycle() {
    let config = OptimizationConfig::default();
    let tiers = vec![TierConfig::new("l1".to_string(), 1024)];
    let mut optimizer = CacheOptimizer::new(config)
        .with_warming(Warmer::new(Box::new(OnDemandWarmer::new(3))))
        .with_tiering(TierManager::new(Box::new(AdaptiveTiering::new(tiers, 1))))
        .with_coherence(Box::new(WriteBack::new()));

    let result = optimizer.optimize(&keys(10)).unwrap();
    assert_eq!(result.keys_optimized, 3);
    assert_eq!(result.latency_reduction.numerator(), 0);
    assert_eq!(optimizer.predictor.metrics.prediction_requests, 1);
    assert_eq!(optimizer.predictor.metrics.predictions_made, 10);
    let warmer = optimizer.warmer.as_ref().unwrap();
    assert_eq!(warmer.metrics.warming_cycles, 1);
    assert_eq!(warmer.metrics.keys_warmed, 3);
    assert_eq!(optimizer.tier_manager.as_ref().unwrap().metrics.sizing_adjustments, 1);
    assert_eq!(optimizer.metrics().warming.warming_cycles, 0);
}

#[test]
fn test_cache_optimizer_prediction_disabled() {
    let config = OptimizationConfig {
        enable_prediction: false,
        enable_warming: true,
        enable_tiering: false,
        enable_coherence: false,
        optimization_interval_secs: 60,
    };
    let mut optimizer = CacheOptimizer::new(config)
        .with_tiering(TierManager::new(Box::new(FixedTiering::new(vec![]))));
    let result = optimizer.optimize(&keys(5)).unwrap();
    assert_eq!(result.keys_optimized, 0);
    assert_eq!(optimizer.predictor.metrics.prediction_requests, 0);
}

#[test]
fn test_optimizer_uses_given_warmer() {
    let mut optimizer = CacheOptimizer::new(OptimizationConfig::default())
        .with_warming(Warmer::new(OnDemandWarmer::new(1)));
    let patterns = vec![
        ScoredKey { key: "key1".to_string(), priority: 10 },
        ScoredKey { key: "key2".to_string(), priority: 5 },
    ];
    let result = optimizer.optimize(&patterns).unwrap();
    assert_eq!(result.keys_optimized, 1);
    assert_eq!(optimizer.warmer.as_ref().unwrap().strategy.max_keys, 1);
}

#[test]
fn test_with_coherence_keeps_other_components() {
    let optimizer = CacheOptimizer::new(OptimizationConfig::default())
        .with_warming(Warmer::new(OnDemandWarmer::new(4)))
        .with_coherence(WriteBack::new());
    assert_eq!(optimizer.warmer.as_ref().unwrap().strategy.max_keys, 4);
    assert!(optimizer.tier_manager.is_none());
    assert!(optimizer.coherence.is_some());
}

#[test]
fn test_optimizer_with_coherence_only_warms_nothing() {
    let mut optimizer =
        CacheOptimizer::new(OptimizationConfig::default()).with_coherence(WriteBack::new());
    let result = optimizer.optimize(&keys(7)).unwrap();
    assert_eq!(result.keys_optimized, 0);
    assert_eq!(optimizer.predictor.metrics.prediction_requests, 1);
}

#[test]
fn test_try_optimize_refuses_on_overflow() {
    let mut optimizer = CacheOptimizer::new(OptimizationConfig::default())
        .with_warming(Warmer::new(OnDemandWarmer::new(2)));
    optimizer.predictor.metrics.prediction_requests = usize::MAX;
    assert!(optimizer.try_optimize(&keys(3)).is_none());
    assert_eq!(optimizer.warmer.as_ref().unwrap().metrics.warming_cycles, 0);

    optimizer.predictor.metrics.prediction_requests = 0;
    let result = optimizer.try_optimize(&keys(3)).unwrap().unwrap();
    assert_eq!(result.keys_optimized, 2);
}

#[test]
fn test_optimizer_try_optimize() {
    let mut optimizer = Optimizer::with_defaults().unwrap();
    let result = optimizer.try_optimize(&keys(2)).unwrap().unwrap();
    assert_eq!(result.keys_optimized, 0);
    assert_eq!(optimizer.inner.predictor.metrics.prediction_requests, 1);
    assert_eq!(optimizer.inner.predictor.metrics.predictions_made, 2);
}

#[test]
fn test_default_optimizer_has_fresh_write_through() {
    let optimizer = default_optimizer().unwrap();
    let protocol = optimizer.inner.coherence.as_ref().unwrap();
    assert_eq!(protocol.metrics.invalidations, 0);
    assert_eq!(protocol.metrics.coherent_writes, 0);
}
