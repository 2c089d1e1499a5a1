//! Counters kept by the optimizer's components.
//!
//! Times are in nanoseconds. Rates are exact ratios.
use vstd::prelude::*;
use crate::ratio::Ratio;

verus! {

/// `r` is the ratio zero, written `0 / 1`.
pub open spec fn is_zero_ratio(r: Ratio) -> bool {
    r.numer() == 0 && r.denom() == 1
}

/// Counters of the prediction models.
#[derive(Debug, Clone, Copy)]
pub struct PredictionMetrics {
    pub training_runs: usize,
    pub training_samples: usize,
    pub prediction_requests: usize,
    pub predictions_made: usize,
    pub prediction_accuracy: Ratio,
}

impl PredictionMetrics {
    /// All counters are zero.
    pub open spec fn is_fresh(self) -> bool {
        &&& self.training_runs == 0
        &&& self.training_samples == 0
        &&& self.prediction_requests == 0
        &&& self.predictions_made == 0
        &&& is_zero_ratio(self.prediction_accuracy)
    }

    /// Metrics with every counter at zero.
    pub fn new() -> (m: Self)
        ensures
            m.is_fresh(),
    {
        PredictionMetrics {
            training_runs: 0,
            training_samples: 0,
            prediction_requests: 0,
            predictions_made: 0,
            prediction_accuracy: Ratio::zero(),
        }
    }
}

impl Default for PredictionMetrics {
    fn default() -> (m: Self)
        ensures
            m.is_fresh(),
    {
        Self::new()
    }
}

/// Counters of cache warming.
#[derive(Debug, Clone, Copy)]
pub struct WarmingMetrics {
    pub warming_cycles: usize,
    pub keys_warmed: usize,
    pub warming_success_rate: Ratio,
    /// Duration of the last warming cycle, in nanoseconds.
    pub avg_warming_time: u128,
    pub warming_hit_rate: Ratio,
}

impl WarmingMetrics {
    /// All counters are zero.
    pub open spec fn is_fresh(self) -> bool {
        &&& self.warming_cycles == 0
        &&& self.keys_warmed == 0
        &&& is_zero_ratio(self.warming_success_rate)
        &&& self.avg_warming_time == 0
        &&& is_zero_ratio(self.warming_hit_rate)
    }

    /// Metrics with every counter at zero.
    pub fn new() -> (m: Self)
        ensures
            m.is_fresh(),
    {
        WarmingMetrics {
            warming_cycles: 0,
            keys_warmed: 0,
            warming_success_rate: Ratio::zero(),
            avg_warming_time: 0,
            warming_hit_rate: Ratio::zero(),
        }
    }
}

impl Default for WarmingMetrics {
    fn default() -> (m: Self)
        ensures
            m.is_fresh(),
    {
        Self::new()
    }
}

/// Counters of tier sizing.
#[derive(Debug, Clone, Copy)]
pub struct TieringMetrics {
    pub sizing_adjustments: usize,
    pub total_bytes_moved: u64,
    /// Duration of the last adjustment, in nanoseconds.
    pub avg_adjustment_time: u128,
    pub hit_rate_improvement: Ratio,
    pub memory_efficiency: Ratio,
}

impl TieringMetrics {
    /// All counters are zero.
    pub open spec fn is_fresh(self) -> bool {
        &&& self.sizing_adjustments == 0
        &&& self.total_bytes_moved == 0
        &&& self.avg_adjustment_time == 0
        &&& is_zero_ratio(self.hit_rate_improvement)
        &&& is_zero_ratio(self.memory_efficiency)
    }

    /// Metrics with every counter at zero.
    pub fn new() -> (m: Self)
        ensures
            m.is_fresh(),
    {
        TieringMetrics {
            sizing_adjustments: 0,
            total_bytes_moved: 0,
            avg_adjustment_time: 0,
            hit_rate_improvement: Ratio::zero(),
            memory_efficiency: Ratio::zero(),
        }
    }
}

impl Default for TieringMetrics {
    fn default() -> (m: Self)
        ensures
            m.is_fresh(),
    {
        Self::new()
    }
}

/// Counters of a coherence protocol.
#[derive(Debug, Clone, Copy)]
pub struct CoherenceMetrics {
    pub invalidations: usize,
    pub coherent_writes: usize,
    pub incoherent_reads: usize,
    /// Duration of the last invalidation, in nanoseconds.
    pub avg_invalidation_time: u128,
    pub coherence_overhead: Ratio,
}

impl CoherenceMetrics {
    /// All counters are zero.
    pub open spec fn is_fresh(self) -> bool {
        &&& self.invalidations == 0
        &&& self.coherent_writes == 0
        &&& self.incoherent_reads == 0
        &&& self.avg_invalidation_time == 0
        &&& is_zero_ratio(self.coherence_overhead)
    }

    /// Metrics with every counter at zero.
    pub fn new() -> (m: Self)
        ensures
            m.is_fresh(),
    {
        CoherenceMetrics {
            invalidations: 0,
            coherent_writes: 0,
            incoherent_reads: 0,
            avg_invalidation_time: 0,
            coherence_overhead: Ratio::zero(),
        }
    }
}

impl Default for CoherenceMetrics {
    fn default() -> (m: Self)
        ensures
            m.is_fresh(),
    {
        Self::new()
    }
}

/// The counters of all components together.
#[derive(Debug, Clone, Copy)]
pub struct OptimizerMetrics {
    pub prediction: PredictionMetrics,
    pub warming: WarmingMetrics,
    pub tiering: TieringMetrics,
    pub coherence: CoherenceMetrics,
}

impl OptimizerMetrics {
    /// All counters of all components are zero.
    pub open spec fn is_fresh(self) -> bool {
        &&& self.prediction.is_fresh()
        &&& self.warming.is_fresh()
        &&& self.tiering.is_fresh()
        &&& self.coherence.is_fresh()
    }

    /// Metrics with every counter at zero.
    pub fn new() -> (m: Self)
        ensures
            m.is_fresh(),
    {
        OptimizerMetrics {
            prediction: PredictionMetrics::new(),
            warming: WarmingMetrics::new(),
            tiering: TieringMetrics::new(),
            coherence: CoherenceMetrics::new(),
        }
    }
}

impl Default for OptimizerMetrics {
    fn default() -> (m: Self)
        ensures
            m.is_fresh(),
    {
        Self::new()
    }
}

/// The sum of `counts`.
pub open spec fn sum_of(counts: Seq<nat>) -> nat
    decreases counts.len(),
{
    if counts.len() == 0 {
        0
    } else {
        sum_of(counts.drop_last()) + counts.last()
    }
}

/// How many of `flags` are true.
pub open spec fn count_true(flags: Seq<bool>) -> nat
    decreases flags.len(),
{
    if flags.len() == 0 {
        0
    } else {
        count_true(flags.drop_last()) + if flags.last() {
            1nat
        } else {
            0nat
        }
    }
}

} // verus!
