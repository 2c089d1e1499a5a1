//! The optimizer, which runs prediction, warming and tier sizing in one cycle.
use vstd::prelude::*;
use crate::clock::{elapsed_nanos, start_timer};
use crate::coherence::{CoherenceProtocol, WriteThrough};
use crate::error::{Error, Result};
use crate::metrics::OptimizerMetrics;
use crate::predictive::{predicted_once, Predictor};
use crate::ranking::ScoredKey;
use crate::ratio::Ratio;
use crate::tiering::{adjusted_once, TierManager, TierSizing};
use crate::warming::{warmed_once, Warmer, WarmingStrategy};

verus! {

/// Which parts of the optimizer run.
#[derive(Debug, Clone, Copy)]
pub struct OptimizationConfig {
    pub enable_prediction: bool,
    pub enable_warming: bool,
    pub enable_tiering: bool,
    pub enable_coherence: bool,
    pub optimization_interval_secs: u64,
}

impl OptimizationConfig {
    /// Everything is enabled, and the interval is sixty seconds.
    pub open spec fn is_default(self) -> bool {
        &&& self.enable_prediction
        &&& self.enable_warming
        &&& self.enable_tiering
        &&& self.enable_coherence
        &&& self.optimization_interval_secs == 60
    }
}

impl Default for OptimizationConfig {
    fn default() -> (c: Self)
        ensures
            c.is_default(),
    {
        OptimizationConfig {
            enable_prediction: true,
            enable_warming: true,
            enable_tiering: true,
            enable_coherence: true,
            optimization_interval_secs: 60,
        }
    }
}

/// The outcome of one optimization cycle.
#[derive(Debug, Clone, Copy)]
pub struct OptimizationResult {
    pub hit_rate_improvement: Ratio,
    pub latency_reduction: Ratio,
    pub memory_efficiency: Ratio,
    /// Number of keys warmed in the cycle.
    pub keys_optimized: usize,
    /// Duration of the cycle, in whole milliseconds.
    pub duration_ms: u64,
}

/// Prediction, warming, tier sizing and coherence, run together. The
/// components' types are parameters, so that a caller who installs a known
/// strategy keeps what that strategy's contracts say.
pub struct CacheOptimizer<
    W: WarmingStrategy = Box<dyn WarmingStrategy>,
    T: TierSizing = Box<dyn TierSizing>,
    C: CoherenceProtocol = Box<dyn CoherenceProtocol>,
> {
    pub config: OptimizationConfig,
    pub predictor: Predictor,
    pub warmer: Option<Warmer<W>>,
    pub tier_manager: Option<TierManager<T>>,
    pub coherence: Option<C>,
    pub metrics: OptimizerMetrics,
}

impl<W: WarmingStrategy, T: TierSizing, C: CoherenceProtocol> CacheOptimizer<W, T, C> {
    /// One cycle on `scored` can run without a counter overflowing.
    pub open spec fn can_optimize(&self, scored: Seq<ScoredKey>) -> bool {
        &&& self.config.enable_prediction ==> self.predictor.can_predict(scored)
        &&& self.warmer matches Some(w) ==> w.can_warm(scored)
        &&& self.tier_manager matches Some(t) ==> t.can_optimize()
    }

    /// A warmer is present and its selection from `scored` fails.
    pub open spec fn warming_fails(&self, scored: Seq<ScoredKey>) -> bool {
        self.warmer matches Some(w) && !w.strategy.select_succeeds(scored)
    }

    /// One cycle on `scored` succeeds: the warmer's selection and the tier
    /// manager's optimization succeed, where these are present.
    pub open spec fn optimize_succeeds(&self, scored: Seq<ScoredKey>) -> bool {
        &&& !self.warming_fails(scored)
        &&& self.tier_manager matches Some(t) ==> t.optimize_succeeds()
    }

    /// The error a failing cycle on `scored` returns: the warmer's error when
    /// warming fails, else the tier manager's.
    pub open spec fn optimize_error(&self, scored: Seq<ScoredKey>) -> Error {
        if self.warming_fails(scored) {
            self.warmer->Some_0.strategy.select_error(scored)
        } else {
            self.tier_manager->Some_0.optimize_error()
        }
    }

    /// The number of keys that one cycle on `scored` warms.
    pub open spec fn keys_to_warm(&self, scored: Seq<ScoredKey>) -> nat {
        match self.warmer {
            Some(w) => w.strategy.selection(scored).len(),
            None => 0,
        }
    }

    /// `after` is this optimizer after one cycle on `scored` that returned
    /// `r`. The predictor answers one request when prediction is enabled;
    /// the warmer, when present, runs one cycle; the tier manager, when
    /// present, runs one optimization unless warming failed, in which case
    /// it is left as it was. The error is the failing component's, and a
    /// success reports the keys warmed and the tiering ratios.
    pub open spec fn ran_cycle(
        self,
        after: Self,
        scored: Seq<ScoredKey>,
        r: Result<OptimizationResult>,
    ) -> bool {
        &&& (r is Ok <==> self.optimize_succeeds(scored))
        &&& (r matches Err(e) ==> e == self.optimize_error(scored))
        &&& (r matches Ok(res) ==> {
            &&& res.keys_optimized == self.keys_to_warm(scored)
            &&& res.hit_rate_improvement == self.metrics.tiering.hit_rate_improvement
            &&& res.memory_efficiency == self.metrics.tiering.memory_efficiency
            &&& res.latency_reduction.numer() == 0
        })
        &&& (self.config.enable_prediction ==> predicted_once(self.predictor, after.predictor, scored))
        &&& (!self.config.enable_prediction ==> after.predictor == self.predictor)
        &&& (self.warmer is None ==> after.warmer is None)
        &&& (self.warmer matches Some(w) ==> after.warmer matches Some(fw) && {
            &&& warmed_once(
                w.metrics,
                fw.metrics,
                if w.strategy.select_succeeds(scored) {
                    w.strategy.selection(scored).len()
                } else {
                    0
                },
            )
            &&& fw.strategy.strategy_metrics() == w.strategy.strategy_metrics()
        })
        &&& (self.tier_manager is None ==> after.tier_manager is None)
        &&& (self.tier_manager matches Some(t) ==> after.tier_manager matches Some(ft) && {
            if self.warming_fails(scored) {
                ft == t
            } else {
                &&& ft.strategy.planned_configs() == t.strategy.planned_configs()
                &&& !t.strategy.calculate_succeeds() ==> ft == t
                &&& t.optimize_succeeds() ==> {
                    &&& adjusted_once(t.metrics, ft.metrics)
                    &&& ft.strategy.sizing_view() == t.strategy.after_adjusting(
                        t.strategy.planned_configs(),
                    )
                }
                &&& !t.optimize_succeeds() ==> {
                    &&& ft.metrics == t.metrics
                    &&& ft.strategy.sizing_view() == t.strategy.sizing_view()
                }
            }
        })
        &&& after.coherence == self.coherence
        &&& after.config == self.config
        &&& after.metrics == self.metrics
    }

    /// An optimizer with the given configuration, a fresh predictor, and no
    /// components.
    fn empty(config: OptimizationConfig) -> (o: Self)
        ensures
            o.config == config,
            o.predictor.models.len() == 0,
            o.predictor.metrics.is_fresh(),
            o.predictor.enabled,
            o.warmer is None,
            o.tier_manager is None,
            o.coherence is None,
            o.metrics.is_fresh(),
    {
        CacheOptimizer {
            config,
            predictor: Predictor::new(),
            warmer: None,
            tier_manager: None,
            coherence: None,
            metrics: OptimizerMetrics::new(),
        }
    }

    /// The optimizer with `warmer` as its warmer; everything else is kept.
    pub fn with_warming<W2: WarmingStrategy>(self, warmer: Warmer<W2>) -> (o: CacheOptimizer<
        W2,
        T,
        C,
    >)
        ensures
            o.warmer == Some(warmer),
            o.tier_manager == self.tier_manager,
            o.coherence == self.coherence,
            o.config == self.config,
            o.predictor == self.predictor,
            o.metrics == self.metrics,
    {
        let CacheOptimizer { config, predictor, warmer: _, tier_manager, coherence, metrics } =
            self;
        CacheOptimizer { config, predictor, warmer: Some(warmer), tier_manager, coherence, metrics }
    }

    /// The optimizer with `tier_manager` as its tier manager; everything else
    /// is kept.
    pub fn with_tiering<T2: TierSizing>(self, tier_manager: TierManager<T2>) -> (o: CacheOptimizer<
        W,
        T2,
        C,
    >)
        ensures
            o.tier_manager == Some(tier_manager),
            o.warmer == self.warmer,
            o.coherence == self.coherence,
            o.config == self.config,
            o.predictor == self.predictor,
            o.metrics == self.metrics,
    {
        let CacheOptimizer { config, predictor, warmer, tier_manager: _, coherence, metrics } =
            self;
        CacheOptimizer { config, predictor, warmer, tier_manager: Some(tier_manager), coherence, metrics }
    }

    /// The optimizer with `protocol` as its coherence protocol; everything
    /// else is kept.
    pub fn with_coherence<C2: CoherenceProtocol>(self, protocol: C2) -> (o: CacheOptimizer<
        W,
        T,
        C2,
    >)
        ensures
            o.coherence == Some(protocol),
            o.warmer == self.warmer,
            o.tier_manager == self.tier_manager,
            o.config == self.config,
            o.predictor == self.predictor,
            o.metrics == self.metrics,
    {
        let CacheOptimizer { config, predictor, warmer, tier_manager, coherence: _, metrics } =
            self;
        CacheOptimizer { config, predictor, warmer, tier_manager, coherence: Some(protocol), metrics }
    }

    /// Runs one cycle: prediction when enabled, then the warmer and the tier
    /// manager when present. The result counts the keys warmed.
    pub fn optimize(&mut self, scored: &[ScoredKey]) -> (r: Result<OptimizationResult>)
        requires
            old(self).can_optimize(scored@),
        ensures
            old(self).ran_cycle(*final(self), scored@, r),
    {
        let start = start_timer();
        if self.config.enable_prediction {
            match self.predictor.get_predictions(scored) {
                Ok(_) => {},
                Err(e) => return Err(e),
            }
        }
        let mut keys_warmed: usize = 0;
        match &mut self.warmer {
            Some(warmer) => {
                match warmer.warm(scored) {
                    Ok(keys) => {
                        keys_warmed = keys.len();
                    },
                    Err(e) => return Err(e),
                }
            },
            None => {},
        }
        match &mut self.tier_manager {
            Some(tier_manager) => {
                match tier_manager.optimize_tiers() {
                    Ok(_) => {},
                    Err(e) => return Err(e),
                }
            },
            None => {},
        }
        let millis: u128 = elapsed_nanos(&start) / 1_000_000;
        Ok(OptimizationResult {
            hit_rate_improvement: self.metrics.tiering.hit_rate_improvement,
            latency_reduction: Ratio::zero(),
            memory_efficiency: self.metrics.tiering.memory_efficiency,
            keys_optimized: keys_warmed,
            duration_ms: #[verifier::truncate] (millis as u64),
        })
    }

    /// Whether one cycle on `scored` can run without a counter overflowing.
    pub fn can_optimize_now(&self, scored: &[ScoredKey]) -> (b: bool)
        ensures
            b == self.can_optimize(scored@),
    {
        if self.config.enable_prediction && !self.predictor.can_predict_now(scored) {
            return false;
        }
        match &self.warmer {
            Some(w) => {
                if !w.can_warm_now(scored) {
                    return false;
                }
            },
            None => {},
        }
        match &self.tier_manager {
            Some(t) => t.can_optimize_now(),
            None => true,
        }
    }

    /// Runs one cycle when its counters cannot overflow; otherwise returns
    /// `None` and changes nothing.
    pub fn try_optimize(&mut self, scored: &[ScoredKey]) -> (r: Option<Result<OptimizationResult>>)
        ensures
            !old(self).can_optimize(scored@) ==> r is None && *final(self) == *old(self),
            old(self).can_optimize(scored@) ==> (r matches Some(res) && old(self).ran_cycle(
                *final(self),
                scored@,
                res,
            )),
    {
        if self.can_optimize_now(scored) {
            Some(self.optimize(scored))
        } else {
            None
        }
    }

    /// The optimizer's counters.
    pub fn metrics(&self) -> (m: &OptimizerMetrics)
        ensures
            *m == self.metrics,
    {
        &self.metrics
    }
}

impl CacheOptimizer {
    /// An optimizer with the given configuration, a fresh predictor, and no
    /// warmer, tier manager or coherence protocol.
    pub fn new(config: OptimizationConfig) -> (o: Self)
        ensures
            o.config == config,
            o.predictor.models.len() == 0,
            o.predictor.metrics.is_fresh(),
            o.predictor.enabled,
            o.warmer is None,
            o.tier_manager is None,
            o.coherence is None,
            o.metrics.is_fresh(),
    {
        CacheOptimizer::empty(config)
    }
}

/// The optimizer behind a smaller interface, with a write-through protocol
/// as its coherence protocol when it has one.
pub struct Optimizer {
    pub inner: CacheOptimizer<Box<dyn WarmingStrategy>, Box<dyn TierSizing>, WriteThrough>,
}

impl Optimizer {
    /// An optimizer with the given configuration and no components.
    pub fn new(config: OptimizationConfig) -> (o: Self)
        ensures
            o.inner.config == config,
            o.inner.predictor.models.len() == 0,
            o.inner.predictor.metrics.is_fresh(),
            o.inner.predictor.enabled,
            o.inner.warmer is None,
            o.inner.tier_manager is None,
            o.inner.coherence is None,
            o.inner.metrics.is_fresh(),
    {
        Optimizer { inner: CacheOptimizer::empty(config) }
    }

    /// An optimizer with the default configuration and a fresh write-through
    /// coherence protocol.
    pub fn with_defaults() -> (r: Result<Self>)
        ensures
            r matches Ok(o) && {
                &&& o.inner.config.is_default()
                &&& o.inner.warmer is None
                &&& o.inner.tier_manager is None
                &&& o.inner.coherence matches Some(p) && p.metrics.is_fresh()
                &&& o.inner.predictor.enabled
                &&& o.inner.predictor.models.len() == 0
                &&& o.inner.predictor.metrics.is_fresh()
                &&& o.inner.metrics.is_fresh()
            },
    {
        let config = OptimizationConfig::default();
        let optimizer = CacheOptimizer::new(config).with_coherence(WriteThrough::new());
        Ok(Optimizer { inner: optimizer })
    }

    /// Runs one optimization cycle; see [`CacheOptimizer::optimize`].
    pub fn optimize(&mut self, scored: &[ScoredKey]) -> (r: Result<OptimizationResult>)
        requires
            old(self).inner.can_optimize(scored@),
        ensures
            old(self).inner.ran_cycle(final(self).inner, scored@, r),
    {
        self.inner.optimize(scored)
    }

    /// Runs one cycle when its counters cannot overflow; otherwise returns
    /// `None` and changes nothing.
    pub fn try_optimize(&mut self, scored: &[ScoredKey]) -> (r: Option<Result<OptimizationResult>>)
        ensures
            !old(self).inner.can_optimize(scored@) ==> r is None && final(self).inner == old(
                self,
            ).inner,
            old(self).inner.can_optimize(scored@) ==> (r matches Some(res) && old(
                self,
            ).inner.ran_cycle(final(self).inner, scored@, res)),
    {
        self.inner.try_optimize(scored)
    }

    /// The optimizer's counters.
    pub fn metrics(&self) -> (m: &OptimizerMetrics)
        ensures
            *m == self.inner.metrics,
    {
        self.inner.metrics()
    }
}

} // verus!
