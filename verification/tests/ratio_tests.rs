use cache_layer_optimizer::metrics::{
    CoherenceMetrics, OptimizerMetrics, PredictionMetrics, TieringMetrics, WarmingMetrics,
};
use cache_layer_optimizer::Ratio;

#[test]
fn test_ratio_scale_rounds_down() {
    let r = Ratio::new(3, 4);
    assert_eq!(r.scale(10), 7);
    assert_eq!(r.scale(0), 0);
    assert_eq!(Ratio::new(3, 2).scale(511), 766);
}

#[test]
fn test_ratio_scale_saturates() {
    assert_eq!(Ratio::new(2, 1).scale(u64::MAX), u64::MAX);
    assert_eq!(Ratio::new(u64::MAX, u64::MAX).scale(u64::MAX), u64::MAX);
}

#[test]
fn test_ratio_comparison() {
    assert!(Ratio::new(1, 2).at_least(&Ratio::new(2, 4)));
    assert!(Ratio::new(2, 4).at_least(&Ratio::new(1, 2)));
    assert!(!Ratio::new(1, 3).at_least(&Ratio::new(1, 2)));
    assert!(Ratio::whole(u64::MAX).at_least(&Ratio::new(u64::MAX, 1)));
    assert!(Ratio::zero().at_least(&Ratio::zero()));
}

#[test]
fn test_metrics_start_at_zero() {
    let m = OptimizerMetrics::default();
    assert_eq!(m.prediction.training_runs, 0);
    assert_eq!(m.warming.keys_warmed, 0);
    assert_eq!(m.tiering.sizing_adjustments, 0);
    assert_eq!(m.coherence.invalidations, 0);
    assert_eq!(m.coherence.coherence_overhead.numerator(), 0);
    assert_eq!(PredictionMetrics::default().predictions_made, 0);
    assert_eq!(WarmingMetrics::default().avg_warming_time, 0);
    assert_eq!(TieringMetrics::default().total_bytes_moved, 0);
    assert_eq!(CoherenceMetrics::default().incoherent_reads, 0);
}
