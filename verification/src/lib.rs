//! Cache optimisation strategies: prediction of hot keys, cache warming,
//! dynamic tier sizing and coherence protocols.
//!
//! Sizes and counters are integers; scale factors and rates are exact ratios
//! ([`Ratio`]); times are nanoseconds. Keys are ranked by integer priorities
//! ([`ScoredKey`]): a larger priority ranks first, and equal priorities keep
//! their input order.
use vstd::prelude::*;

pub mod clock;
pub mod coherence;
pub mod error;
pub mod metrics;
pub mod optimizer;
pub mod predictive;
pub mod ranking;
pub mod ratio;
pub mod tiering;
pub mod warming;

pub use coherence::{CoherenceProtocol, InvalidationStrategy, WriteAround, WriteBack, WriteThrough};
pub use error::{Error, Result};
pub use metrics::{
    CoherenceMetrics, OptimizerMetrics, PredictionMetrics, TieringMetrics, WarmingMetrics,
};
pub use optimizer::{CacheOptimizer, OptimizationConfig, OptimizationResult, Optimizer};
pub use predictive::{
    AccessPattern, FrequencyPredictor, MlPredictor, PredictionModel, Predictor, RecencyPredictor,
};
pub use ranking::{rank_keys, ScoredKey};
pub use ratio::Ratio;
pub use tiering::{AdaptiveTiering, DynamicTiering, FixedTiering, TierConfig, TierManager, TierSizing};
pub use warming::{
    OnDemandWarmer, ProactiveWarmer, ScheduledWarmer, Warmer, WarmingConfig, WarmingSchedule,
    WarmingStrategy, WarmingStrategyType,
};

verus! {

/// An optimizer with the recommended defaults.
pub fn default_optimizer() -> (r: Result<Optimizer>)
    ensures
        r matches Ok(o) && {
            &&& o.inner.config.is_default()
            &&& o.inner.warmer is None
            &&& o.inner.tier_manager is None
            &&& o.inner.coherence matches Some(p) && p.metrics.is_fresh()
            &&& o.inner.metrics.is_fresh()
        },
{
    Optimizer::with_defaults()
}

} // verus!
