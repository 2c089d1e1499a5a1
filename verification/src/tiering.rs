//! Dynamic sizing of cache tiers.
use vstd::prelude::*;
use crate::clock::{elapsed_nanos, start_timer};
use crate::error::{Error, Result};
use crate::metrics::{count_true, TieringMetrics};
use crate::ratio::{scaled, Ratio};

verus! {

/// A tier never shrinks below this fraction of its maximum size: `max_size / MIN_SIZE_DIVISOR`.
pub const MIN_SIZE_DIVISOR: u64 = 10;

/// Size settings of one cache tier.
#[derive(Debug)]
pub struct TierConfig {
    pub tier_name: String,
    pub max_size: u64,
    pub current_size: u64,
    pub target_size: u64,
    /// Factor by which the tier grows.
    pub growth_factor: Ratio,
    /// Factor by which the tier shrinks.
    pub shrink_factor: Ratio,
}

impl Clone for TierConfig {
    fn clone(&self) -> (c: Self)
        ensures
            c == *self,
    {
        TierConfig {
            tier_name: self.tier_name.clone(),
            max_size: self.max_size,
            current_size: self.current_size,
            target_size: self.target_size,
            growth_factor: self.growth_factor,
            shrink_factor: self.shrink_factor,
        }
    }
}

/// `c` with both its current and its target size set to `size`.
pub open spec fn resized(c: TierConfig, size: nat) -> TierConfig {
    TierConfig {
        tier_name: c.tier_name,
        max_size: c.max_size,
        current_size: size as u64,
        target_size: size as u64,
        growth_factor: c.growth_factor,
        shrink_factor: c.shrink_factor,
    }
}

/// The size that growing `c` gives: the current size scaled by the growth
/// factor (rounded down), capped at the maximum size.
pub open spec fn grown_size(c: TierConfig) -> nat {
    let s = scaled(c.current_size as nat, c.growth_factor);
    if s <= c.max_size {
        s
    } else {
        c.max_size as nat
    }
}

/// The smallest size that shrinking leaves a tier at.
pub open spec fn min_size(c: TierConfig) -> nat {
    (c.max_size / MIN_SIZE_DIVISOR) as nat
}

/// The size that shrinking `c` gives: the current size scaled by the shrink
/// factor (rounded down), but never below `min_size(c)`.
pub open spec fn shrunk_size(c: TierConfig) -> nat {
    let s = scaled(c.current_size as nat, c.shrink_factor);
    if s >= min_size(c) {
        s
    } else {
        min_size(c)
    }
}

/// `r` is the error that an out-of-range tier index gives.
pub open spec fn is_invalid_tier_error(r: Result<()>) -> bool {
    r matches Err(Error::TierSizing(msg)) && msg@ == "Invalid tier index"@
}

impl TierConfig {
    /// A tier of at most `max_size`, starting at half of it, growing by 3/2 and
    /// shrinking by 3/4.
    pub fn new(name: String, max_size: u64) -> (c: Self)
        ensures
            c.tier_name == name,
            c.max_size == max_size,
            c.current_size == max_size / 2,
            c.target_size == max_size / 2,
            c.growth_factor.numer() == 3 && c.growth_factor.denom() == 2,
            c.shrink_factor.numer() == 3 && c.shrink_factor.denom() == 4,
    {
        TierConfig {
            tier_name: name,
            max_size,
            current_size: max_size / 2,
            target_size: max_size / 2,
            growth_factor: Ratio::new(3, 2),
            shrink_factor: Ratio::new(3, 4),
        }
    }
}

/// A copy of every configuration in `configs`, in order.
pub fn copy_configs(configs: &[TierConfig]) -> (r: Vec<TierConfig>)
    ensures
        r@ == configs@,
{
    let mut r: Vec<TierConfig> = Vec::new();
    for i in 0..configs.len()
        invariant
            r@ == configs@.take(i as int),
    {
        r.push(configs[i].clone());
        assert(r@ =~= configs@.take(i + 1));
    }
    assert(configs@.take(configs@.len() as int) =~= configs@);
    r
}

fn invalid_tier_error() -> (r: Result<()>)
    ensures
        is_invalid_tier_error(r),
{
    let msg = "Invalid tier index".to_string();
    Err(Error::TierSizing(msg))
}

/// Everything a sizing strategy holds, as plain values: the configurations,
/// and the counters and settings of the strategies that keep them.
pub struct SizingView {
    pub configs: Seq<TierConfig>,
    pub metrics: Option<TieringMetrics>,
    pub adjustment_interval: Option<u128>,
    pub hit_rate_threshold: Option<Ratio>,
}

/// A strategy that plans tier sizes and applies plans.
pub trait TierSizing {
    /// The strategy's whole state.
    spec fn sizing_view(&self) -> SizingView;

    /// The strategy's whole state after it has applied `configs` once.
    spec fn after_adjusting(&self, configs: Seq<TierConfig>) -> SizingView;

    /// The tier configurations that the strategy plans at present.
    spec fn planned_configs(&self) -> Seq<TierConfig>;

    /// The strategy can record one more adjustment without its counter overflowing.
    spec fn can_adjust(&self) -> bool;

    /// Computing the plan succeeds in the present state.
    spec fn calculate_succeeds(&self) -> bool;

    /// Applying `configs` succeeds in the present state.
    spec fn adjust_succeeds(&self, configs: Seq<TierConfig>) -> bool;

    /// The error that computing the plan fails with in the present state.
    spec fn calculate_error(&self) -> Error;

    /// The error that applying `configs` fails with in the present state.
    spec fn adjust_error(&self, configs: Seq<TierConfig>) -> Error;

    /// Whether one more adjustment can be recorded without its counter overflowing.
    fn can_adjust_now(&self) -> (b: bool)
        ensures
            b == self.can_adjust(),
    ;

    /// The configurations that the strategy plans.
    fn calculate_sizes(&self, metrics: &TieringMetrics) -> (r: Result<Vec<TierConfig>>)
        ensures
            r is Ok <==> self.calculate_succeeds(),
            r matches Err(e) ==> e == self.calculate_error(),
            r matches Ok(c) ==> c@ == self.planned_configs(),
    ;

    /// Applies `configs`. The strategy then plans either `configs` or what it
    /// planned before.
    fn adjust_sizes(&mut self, configs: &[TierConfig]) -> (r: Result<()>)
        requires
            old(self).can_adjust(),
        ensures
            r is Ok <==> old(self).adjust_succeeds(configs@),
            r matches Err(e) ==> e == old(self).adjust_error(configs@),
            r is Ok ==> final(self).planned_configs() == configs@ || final(self).planned_configs()
                == old(self).planned_configs(),
            r is Err ==> final(self).planned_configs() == old(self).planned_configs(),
            r is Ok ==> final(self).sizing_view() == old(self).after_adjusting(configs@),
            r is Err ==> final(self).sizing_view() == old(self).sizing_view(),
    ;
}

/// Tier sizing that never changes the sizes it was given.
#[derive(Debug)]
pub struct FixedTiering {
    pub configs: Vec<TierConfig>,
}

impl Clone for FixedTiering {
    fn clone(&self) -> (t: Self)
        ensures
            t.configs@ == self.configs@,
    {
        FixedTiering { configs: self.configs.clone() }
    }
}

impl FixedTiering {
    /// Fixed sizing of `configs`.
    pub fn new(configs: Vec<TierConfig>) -> (t: Self)
        ensures
            t.configs@ == configs@,
    {
        FixedTiering { configs }
    }
}

impl FixedTiering {
    fn can_adjust_count(&self) -> (b: bool)
        ensures
            b,
    {
        true
    }
}

impl TierSizing for FixedTiering {
    open spec fn sizing_view(&self) -> SizingView {
        SizingView {
            configs: self.configs@,
            metrics: None,
            adjustment_interval: None,
            hit_rate_threshold: None,
        }
    }

    open spec fn after_adjusting(&self, configs: Seq<TierConfig>) -> SizingView {
        self.sizing_view()
    }

    open spec fn planned_configs(&self) -> Seq<TierConfig> {
        self.configs@
    }

    open spec fn can_adjust(&self) -> bool {
        true
    }

    open spec fn calculate_succeeds(&self) -> bool {
        true
    }

    open spec fn adjust_succeeds(&self, configs: Seq<TierConfig>) -> bool {
        true
    }

    open spec fn calculate_error(&self) -> Error {
        arbitrary()
    }

    open spec fn adjust_error(&self, configs: Seq<TierConfig>) -> Error {
        arbitrary()
    }

    fn can_adjust_now(&self) -> (b: bool) {
        self.can_adjust_count()
    }

    fn calculate_sizes(&self, metrics: &TieringMetrics) -> (r: Result<Vec<TierConfig>>)
        ensures
            r matches Ok(c) && c@ == self.configs@,
    {
        Ok(self.configs.clone())
    }

    fn adjust_sizes(&mut self, configs: &[TierConfig]) -> (r: Result<()>)
        ensures
            r is Ok,
            *final(self) == *old(self),
    {
        Ok(())
    }
}

/// Tier sizing that follows demand: a tier is grown or shrunk on request.
#[derive(Debug)]
pub struct AdaptiveTiering {
    pub configs: Vec<TierConfig>,
    pub metrics: TieringMetrics,
    /// Time between adjustments, in nanoseconds.
    pub adjustment_interval: u128,
    pub hit_rate_threshold: Ratio,
}

impl AdaptiveTiering {
    /// Adaptive sizing of `configs`, with a hit-rate threshold of 4/5.
    pub fn new(configs: Vec<TierConfig>, adjustment_interval: u128) -> (t: Self)
        ensures
            t.configs@ == configs@,
            t.metrics.is_fresh(),
            t.adjustment_interval == adjustment_interval,
            t.hit_rate_threshold.numer() == 4 && t.hit_rate_threshold.denom() == 5,
    {
        AdaptiveTiering {
            configs,
            metrics: TieringMetrics::new(),
            adjustment_interval,
            hit_rate_threshold: Ratio::new(4, 5),
        }
    }

    /// Grows the tier at `tier_idx` by its growth factor, capped at its maximum size.
    pub fn grow_tier(&mut self, tier_idx: usize) -> (r: Result<()>)
        ensures
            tier_idx >= old(self).configs.len() ==> is_invalid_tier_error(r) && *final(self) == *old(self),
            tier_idx < old(self).configs.len() ==> {
                &&& r is Ok
                &&& final(self).configs@ == old(self).configs@.update(
                    tier_idx as int,
                    resized(old(self).configs@[tier_idx as int], grown_size(old(self).configs@[tier_idx as int])),
                )
                &&& final(self).metrics == old(self).metrics
                &&& final(self).adjustment_interval == old(self).adjustment_interval
                &&& final(self).hit_rate_threshold == old(self).hit_rate_threshold
            },
    {
        if tier_idx >= self.configs.len() {
            return invalid_tier_error();
        }
        let current = self.configs[tier_idx].current_size;
        let max_size = self.configs[tier_idx].max_size;
        let new_size = self.configs[tier_idx].growth_factor.scale(current);
        let size = if new_size <= max_size { new_size } else { max_size };
        self.configs[tier_idx].current_size = size;
        self.configs[tier_idx].target_size = size;
        assert(self.configs@ =~= old(self).configs@.update(
            tier_idx as int,
            resized(old(self).configs@[tier_idx as int], grown_size(old(self).configs@[tier_idx as int])),
        ));
        Ok(())
    }

    /// Shrinks the tier at `tier_idx` by its shrink factor, but not below a
    /// tenth of its maximum size.
    pub fn shrink_tier(&mut self, tier_idx: usize) -> (r: Result<()>)
        ensures
            tier_idx >= old(self).configs.len() ==> is_invalid_tier_error(r) && *final(self) == *old(self),
            tier_idx < old(self).configs.len() ==> {
                &&& r is Ok
                &&& final(self).configs@ == old(self).configs@.update(
                    tier_idx as int,
                    resized(old(self).configs@[tier_idx as int], shrunk_size(old(self).configs@[tier_idx as int])),
                )
                &&& final(self).metrics == old(self).metrics
                &&& final(self).adjustment_interval == old(self).adjustment_interval
                &&& final(self).hit_rate_threshold == old(self).hit_rate_threshold
            },
    {
        if tier_idx >= self.configs.len() {
            return invalid_tier_error();
        }
        let current = self.configs[tier_idx].current_size;
        let floor = self.configs[tier_idx].max_size / MIN_SIZE_DIVISOR;
        let new_size = self.configs[tier_idx].shrink_factor.scale(current);
        let size = if new_size >= floor { new_size } else { floor };
        self.configs[tier_idx].current_size = size;
        self.configs[tier_idx].target_size = size;
        assert(self.configs@ =~= old(self).configs@.update(
            tier_idx as int,
            resized(old(self).configs@[tier_idx as int], shrunk_size(old(self).configs@[tier_idx as int])),
        ));
        Ok(())
    }
}


impl AdaptiveTiering {
    fn can_adjust_count(&self) -> (b: bool)
        ensures
            b == (self.metrics.sizing_adjustments < usize::MAX),
    {
        self.metrics.sizing_adjustments < usize::MAX
    }
}

impl TierSizing for AdaptiveTiering {
    open spec fn sizing_view(&self) -> SizingView {
        SizingView {
            configs: self.configs@,
            metrics: Some(self.metrics),
            adjustment_interval: Some(self.adjustment_interval),
            hit_rate_threshold: Some(self.hit_rate_threshold),
        }
    }

    /// The plan becomes the configurations, and the adjustment is counted.
    open spec fn after_adjusting(&self, configs: Seq<TierConfig>) -> SizingView {
        SizingView {
            configs,
            metrics: Some(
                TieringMetrics {
                    sizing_adjustments: (self.metrics.sizing_adjustments + 1) as usize,
                    ..self.metrics
                },
            ),
            adjustment_interval: Some(self.adjustment_interval),
            hit_rate_threshold: Some(self.hit_rate_threshold),
        }
    }

    open spec fn planned_configs(&self) -> Seq<TierConfig> {
        self.configs@
    }

    open spec fn can_adjust(&self) -> bool {
        self.metrics.sizing_adjustments < usize::MAX
    }

    open spec fn calculate_succeeds(&self) -> bool {
        true
    }

    open spec fn adjust_succeeds(&self, configs: Seq<TierConfig>) -> bool {
        true
    }

    open spec fn calculate_error(&self) -> Error {
        arbitrary()
    }

    open spec fn adjust_error(&self, configs: Seq<TierConfig>) -> Error {
        arbitrary()
    }

    fn can_adjust_now(&self) -> (b: bool) {
        self.can_adjust_count()
    }

    fn calculate_sizes(&self, metrics: &TieringMetrics) -> (r: Result<Vec<TierConfig>>)
        ensures
            r matches Ok(c) && c@ == self.configs@,
    {
        Ok(self.configs.clone())
    }

    fn adjust_sizes(&mut self, configs: &[TierConfig]) -> (r: Result<()>)
        ensures
            r is Ok,
            final(self).configs@ == configs@,
            final(self).metrics.sizing_adjustments == old(self).metrics.sizing_adjustments + 1,
            final(self).metrics.total_bytes_moved == old(self).metrics.total_bytes_moved,
            final(self).metrics.avg_adjustment_time == old(self).metrics.avg_adjustment_time,
            final(self).adjustment_interval == old(self).adjustment_interval,
    {
        self.metrics.sizing_adjustments = self.metrics.sizing_adjustments + 1;
        self.configs = copy_configs(configs);
        Ok(())
    }
}

/// Tier sizing driven by a learned model of the workload.
#[derive(Debug)]
pub struct DynamicTiering {
    pub configs: Vec<TierConfig>,
    pub metrics: TieringMetrics,
}

impl DynamicTiering {
    /// Dynamic sizing of `configs`.
    pub fn new(configs: Vec<TierConfig>) -> (t: Self)
        ensures
            t.configs@ == configs@,
            t.metrics.is_fresh(),
    {
        DynamicTiering { configs, metrics: TieringMetrics::new() }
    }
}

impl DynamicTiering {
    fn can_adjust_count(&self) -> (b: bool)
        ensures
            b == (self.metrics.sizing_adjustments < usize::MAX),
    {
        self.metrics.sizing_adjustments < usize::MAX
    }
}

impl TierSizing for DynamicTiering {
    open spec fn sizing_view(&self) -> SizingView {
        SizingView {
            configs: self.configs@,
            metrics: Some(self.metrics),
            adjustment_interval: None,
            hit_rate_threshold: None,
        }
    }

    /// The plan becomes the configurations, and the adjustment is counted.
    open spec fn after_adjusting(&self, configs: Seq<TierConfig>) -> SizingView {
        SizingView {
            configs,
            metrics: Some(
                TieringMetrics {
                    sizing_adjustments: (self.metrics.sizing_adjustments + 1) as usize,
                    ..self.metrics
                },
            ),
            adjustment_interval: None,
            hit_rate_threshold: None,
        }
    }

    open spec fn planned_configs(&self) -> Seq<TierConfig> {
        self.configs@
    }

    open spec fn can_adjust(&self) -> bool {
        self.metrics.sizing_adjustments < usize::MAX
    }

    open spec fn calculate_succeeds(&self) -> bool {
        true
    }

    open spec fn adjust_succeeds(&self, configs: Seq<TierConfig>) -> bool {
        true
    }

    open spec fn calculate_error(&self) -> Error {
        arbitrary()
    }

    open spec fn adjust_error(&self, configs: Seq<TierConfig>) -> Error {
        arbitrary()
    }

    fn can_adjust_now(&self) -> (b: bool) {
        self.can_adjust_count()
    }

    fn calculate_sizes(&self, metrics: &TieringMetrics) -> (r: Result<Vec<TierConfig>>)
        ensures
            r matches Ok(c) && c@ == self.configs@,
    {
        Ok(self.configs.clone())
    }

    fn adjust_sizes(&mut self, configs: &[TierConfig]) -> (r: Result<()>)
        ensures
            r is Ok,
            final(self).configs@ == configs@,
            final(self).metrics.sizing_adjustments == old(self).metrics.sizing_adjustments + 1,
            final(self).metrics.total_bytes_moved == old(self).metrics.total_bytes_moved,
            final(self).metrics.avg_adjustment_time == old(self).metrics.avg_adjustment_time,
    {
        self.metrics.sizing_adjustments = self.metrics.sizing_adjustments + 1;
        self.configs = copy_configs(configs);
        Ok(())
    }
}

/// A boxed strategy plans what the strategy in the box plans.
impl<S: TierSizing + ?Sized> TierSizing for Box<S> {
    open spec fn sizing_view(&self) -> SizingView {
        (**self).sizing_view()
    }

    open spec fn after_adjusting(&self, configs: Seq<TierConfig>) -> SizingView {
        (**self).after_adjusting(configs)
    }

    open spec fn planned_configs(&self) -> Seq<TierConfig> {
        (**self).planned_configs()
    }

    open spec fn can_adjust(&self) -> bool {
        (**self).can_adjust()
    }

    open spec fn calculate_succeeds(&self) -> bool {
        (**self).calculate_succeeds()
    }

    open spec fn adjust_succeeds(&self, configs: Seq<TierConfig>) -> bool {
        (**self).adjust_succeeds(configs)
    }

    open spec fn calculate_error(&self) -> Error {
        (**self).calculate_error()
    }

    open spec fn adjust_error(&self, configs: Seq<TierConfig>) -> Error {
        (**self).adjust_error(configs)
    }

    fn can_adjust_now(&self) -> (b: bool) {
        (**self).can_adjust_now()
    }

    fn calculate_sizes(&self, metrics: &TieringMetrics) -> (r: Result<Vec<TierConfig>>) {
        (**self).calculate_sizes(metrics)
    }

    fn adjust_sizes(&mut self, configs: &[TierConfig]) -> (r: Result<()>) {
        (**self).adjust_sizes(configs)
    }
}

/// `after` is `before` with one more adjustment counted.
pub open spec fn adjusted_once(before: TieringMetrics, after: TieringMetrics) -> bool {
    &&& after.sizing_adjustments == before.sizing_adjustments + 1
    &&& after.total_bytes_moved == before.total_bytes_moved
    &&& after.hit_rate_improvement == before.hit_rate_improvement
    &&& after.memory_efficiency == before.memory_efficiency
}

/// Runs a sizing strategy and keeps count of the adjustments it makes.
pub struct TierManager<S: TierSizing = Box<dyn TierSizing>> {
    pub strategy: S,
    pub metrics: TieringMetrics,
}

impl<S: TierSizing> TierManager<S> {
    /// One optimization can run without a counter overflowing.
    pub open spec fn can_optimize(&self) -> bool {
        &&& self.strategy.can_adjust()
        &&& self.metrics.sizing_adjustments < usize::MAX
    }

    /// The optimization succeeds: the strategy computes its plan and applies it.
    pub open spec fn optimize_succeeds(&self) -> bool {
        &&& self.strategy.calculate_succeeds()
        &&& self.strategy.adjust_succeeds(self.strategy.planned_configs())
    }

    /// The error a failing optimization returns: the planning error, or else
    /// the error of applying the plan.
    pub open spec fn optimize_error(&self) -> Error {
        if !self.strategy.calculate_succeeds() {
            self.strategy.calculate_error()
        } else {
            self.strategy.adjust_error(self.strategy.planned_configs())
        }
    }

    /// `after` is this manager after one optimization that returned `r`.
    /// When planning fails, nothing changes and the planning error is
    /// returned. Otherwise the plan is applied once: on success the plan is
    /// returned, the strategy holds what applying the plan once gives, and
    /// one adjustment is counted; when applying fails, its error is returned
    /// and neither the strategy nor the counters change.
    pub open spec fn ran_optimization(self, after: Self, r: Result<Vec<TierConfig>>) -> bool {
        &&& (r is Ok <==> self.optimize_succeeds())
        &&& after.strategy.planned_configs() == self.strategy.planned_configs()
        &&& (!self.strategy.calculate_succeeds() ==> after == self)
        &&& (r matches Ok(c) ==> {
            &&& c@ == self.strategy.planned_configs()
            &&& after.strategy.sizing_view() == self.strategy.after_adjusting(c@)
            &&& adjusted_once(self.metrics, after.metrics)
        })
        &&& (r matches Err(e) ==> {
            &&& e == self.optimize_error()
            &&& after.strategy.sizing_view() == self.strategy.sizing_view()
            &&& after.metrics == self.metrics
        })
    }

    /// A manager of `strategy`, with fresh counters.
    pub fn new(strategy: S) -> (m: Self)
        ensures
            m.strategy == strategy,
            m.metrics.is_fresh(),
    {
        TierManager { strategy, metrics: TieringMetrics::new() }
    }

    /// Computes the strategy's plan, applies it once, and counts the
    /// adjustment; see [`TierManager::ran_optimization`].
    pub fn optimize_tiers(&mut self) -> (r: Result<Vec<TierConfig>>)
        requires
            old(self).can_optimize(),
        ensures
            old(self).ran_optimization(*final(self), r),
    {
        let start = start_timer();
        let configs = match self.strategy.calculate_sizes(&self.metrics) {
            Ok(c) => c,
            Err(e) => return Err(e),
        };
        match self.strategy.adjust_sizes(configs.as_slice()) {
            Ok(()) => {},
            Err(e) => return Err(e),
        }
        self.metrics.sizing_adjustments = self.metrics.sizing_adjustments + 1;
        self.metrics.avg_adjustment_time = elapsed_nanos(&start);
        Ok(configs)
    }

    /// Whether one optimization can run without a counter overflowing.
    pub fn can_optimize_now(&self) -> (b: bool)
        ensures
            b == self.can_optimize(),
    {
        self.strategy.can_adjust_now() && self.metrics.sizing_adjustments < usize::MAX
    }

    /// Runs one optimization when its counters cannot overflow; otherwise
    /// returns `None` and changes nothing.
    pub fn try_optimize_tiers(&mut self) -> (r: Option<Result<Vec<TierConfig>>>)
        ensures
            !old(self).can_optimize() ==> r is None && *final(self) == *old(self),
            old(self).can_optimize() ==> (r matches Some(res) && old(self).ran_optimization(
                *final(self),
                res,
            )),
    {
        if self.can_optimize_now() {
            Some(self.optimize_tiers())
        } else {
            None
        }
    }

    /// The manager's counters.
    pub fn metrics(&self) -> (m: &TieringMetrics)
        ensures
            *m == self.metrics,
    {
        &self.metrics
    }
}

/// The tier's size lies between its minimum and its maximum.
pub open spec fn within_bounds(c: TierConfig) -> bool {
    min_size(c) <= c.current_size <= c.max_size
}

/// `value` scaled by a ratio of at least one is at least `value`.
proof fn lemma_scaled_at_least(value: nat, r: Ratio)
    requires
        r.is_valid(),
        r.numer() >= r.denom(),
        value <= u64::MAX,
    ensures
        scaled(value, r) >= value,
{
    let n = r.numer();
    let d = r.denom();
    assert(value * n / d >= value) by (nonlinear_arith)
        requires
            n >= d,
            d > 0,
    ;
}

/// `value` scaled by a ratio of at most one is at most `value`.
proof fn lemma_scaled_at_most(value: nat, r: Ratio)
    requires
        r.is_valid(),
        r.numer() <= r.denom(),
    ensures
        scaled(value, r) <= value,
{
    let n = r.numer();
    let d = r.denom();
    assert(value * n / d <= value) by (nonlinear_arith)
        requires
            n <= d,
            d > 0,
    ;
}

/// `value` scaled by a ratio below one is below `value`, when `value` is positive.
proof fn lemma_scaled_below(value: nat, r: Ratio)
    requires
        r.is_valid(),
        r.numer() < r.denom(),
        value > 0,
    ensures
        scaled(value, r) < value,
{
    let n = r.numer();
    let d = r.denom();
    assert(value * n / d < value) by (nonlinear_arith)
        requires
            n < d,
            d > 0,
            value > 0,
    ;
}

/// Growing a tier never takes it past its maximum size.
pub proof fn lemma_grow_stays_within_max(c: TierConfig)
    ensures
        grown_size(c) <= c.max_size,
{
}

/// Growing by a factor of at least one never makes a tier smaller, as long as
/// the tier was within its maximum size.
pub proof fn lemma_grow_never_shrinks(c: TierConfig)
    requires
        c.growth_factor.is_valid(),
        c.growth_factor.numer() >= c.growth_factor.denom(),
        c.current_size <= c.max_size,
    ensures
        c.current_size <= grown_size(c) <= c.max_size,
{
    lemma_scaled_at_least(c.current_size as nat, c.growth_factor);
}

/// A tier at its maximum size stays there when grown by a factor of at least one.
pub proof fn lemma_grow_at_max_is_stable(c: TierConfig)
    requires
        c.growth_factor.is_valid(),
        c.growth_factor.numer() >= c.growth_factor.denom(),
        c.current_size == c.max_size,
    ensures
        grown_size(c) == c.max_size,
{
    lemma_grow_never_shrinks(c);
}

/// Shrinking never takes a tier below a tenth of its maximum size.
pub proof fn lemma_shrink_stays_above_min(c: TierConfig)
    ensures
        shrunk_size(c) >= min_size(c),
{
}

/// Shrinking by a factor of at most one never makes a tier larger, as long as
/// the tier was at or above its minimum size.
pub proof fn lemma_shrink_never_grows(c: TierConfig)
    requires
        c.shrink_factor.is_valid(),
        c.shrink_factor.numer() <= c.shrink_factor.denom(),
        c.current_size >= min_size(c),
    ensures
        min_size(c) <= shrunk_size(c) <= c.current_size,
{
    lemma_scaled_at_most(c.current_size as nat, c.shrink_factor);
}

/// A tier at its minimum size stays there when shrunk by a factor of at most one.
pub proof fn lemma_shrink_at_min_is_stable(c: TierConfig)
    requires
        c.shrink_factor.is_valid(),
        c.shrink_factor.numer() <= c.shrink_factor.denom(),
        c.current_size == min_size(c),
    ensures
        shrunk_size(c) == min_size(c),
{
    lemma_shrink_never_grows(c);
}

/// Shrinking by a factor below one makes a tier that is above its minimum
/// size strictly smaller.
pub proof fn lemma_shrink_makes_progress(c: TierConfig)
    requires
        c.shrink_factor.is_valid(),
        c.shrink_factor.numer() < c.shrink_factor.denom(),
        c.current_size > min_size(c),
    ensures
        shrunk_size(c) < c.current_size,
{
    lemma_scaled_below(c.current_size as nat, c.shrink_factor);
}

/// Growing by a factor of at least one and shrinking by a factor of at most
/// one both keep a tier between its minimum and its maximum size.
pub proof fn lemma_resizing_keeps_bounds(c: TierConfig)
    requires
        within_bounds(c),
        c.growth_factor.is_valid(),
        c.growth_factor.numer() >= c.growth_factor.denom(),
        c.shrink_factor.is_valid(),
        c.shrink_factor.numer() <= c.shrink_factor.denom(),
    ensures
        within_bounds(resized(c, grown_size(c))),
        within_bounds(resized(c, shrunk_size(c))),
{
    lemma_grow_never_shrinks(c);
    lemma_shrink_never_grows(c);
}

/// Over any run of `TierManager::optimize_tiers` calls, each successful
/// one is counted once and a failed one changes no counter: after the run
/// the adjustment count has grown by the number of calls that returned
/// `Ok`. Call `i` returns `results[i]` and takes `states[i]` to
/// `states[i + 1]`.
pub proof fn lemma_optimize_tiers_run<S: TierSizing>(
    states: Seq<TierManager<S>>,
    results: Seq<Result<Vec<TierConfig>>>,
)
    requires
        states.len() == results.len() + 1,
        forall|i: int| 0 <= i < results.len() ==> states[i].ran_optimization(states[i + 1], results[i]),
    ensures
        states.last().metrics.sizing_adjustments == states[0].metrics.sizing_adjustments
            + count_true(Seq::new(results.len(), |i: int| results[i] is Ok)),
    decreases results.len(),
{
    if results.len() > 0 {
        let n = results.len() as int;
        let shorter = states.drop_last();
        let earlier = results.drop_last();
        assert forall|i: int| 0 <= i < n - 1 implies shorter[i].ran_optimization(
            shorter[i + 1],
            earlier[i],
        ) by {
            assert(shorter[i] == states[i] && shorter[i + 1] == states[i + 1]);
        }
        lemma_optimize_tiers_run(shorter, earlier);
        assert(shorter.last() == states[n - 1]);
        let oks = Seq::new(results.len(), |i: int| results[i] is Ok);
        assert(oks.drop_last() =~= Seq::new(earlier.len(), |i: int| earlier[i] is Ok));
        assert(states[n - 1].ran_optimization(states[n], results[n - 1]));
    }
}

} // verus!
