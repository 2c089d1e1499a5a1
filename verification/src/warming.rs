//! Cache warming: choosing keys to load before they are requested.
use vstd::prelude::*;
use crate::clock::{elapsed_nanos, start_timer};
use crate::error::{Error, Result};
use crate::metrics::{sum_of, WarmingMetrics};
use crate::predictive::Predictor;
use crate::ranking::{is_top_keys, rank_keys, ranked_keys, ScoredKey};

verus! {

/// A way of choosing the keys to warm.
pub trait WarmingStrategy {
    /// The strategy's counters.
    spec fn strategy_metrics(&self) -> WarmingMetrics;

    /// The keys that the strategy selects from `scored` in its present state.
    spec fn selection(&self, scored: Seq<ScoredKey>) -> Seq<String>;

    /// The strategy can select from `scored` without a counter overflowing.
    spec fn can_select(&self, scored: Seq<ScoredKey>) -> bool;

    /// Selecting from `scored` succeeds in the present state.
    spec fn select_succeeds(&self, scored: Seq<ScoredKey>) -> bool;

    /// The error that selecting from `scored` fails with in the present state.
    spec fn select_error(&self, scored: Seq<ScoredKey>) -> Error;

    /// Whether selecting from `scored` can run without a counter overflowing.
    fn can_select_now(&self, scored: &[ScoredKey]) -> (b: bool)
        ensures
            b == self.can_select(scored@),
    ;

    /// The number of keys selected from `scored`, when it fits in a `usize`.
    fn selection_len(&self, scored: &[ScoredKey]) -> (n: Option<usize>)
        ensures
            n matches Some(k) ==> k == self.selection(scored@).len(),
            n is None ==> self.selection(scored@).len() > usize::MAX,
    ;

    /// Selects the keys to warm from the scored keys.
    fn select_keys(&mut self, scored: &[ScoredKey]) -> (r: Result<Vec<String>>)
        requires
            old(self).can_select(scored@),
        ensures
            r is Ok <==> old(self).select_succeeds(scored@),
            r matches Err(e) ==> e == old(self).select_error(scored@),
            r matches Ok(keys) ==> keys@ == old(self).selection(scored@),
            final(self).strategy_metrics() == old(self).strategy_metrics(),
    ;

    /// The strategy's counters.
    fn metrics(&self) -> (m: &WarmingMetrics)
        ensures
            *m == self.strategy_metrics(),
    ;
}

/// Warms the keys of highest priority, up to a limit.
#[derive(Debug, Clone, Copy)]
pub struct OnDemandWarmer {
    pub metrics: WarmingMetrics,
    pub max_keys: usize,
}

impl OnDemandWarmer {
    /// A warmer of at most `max_keys` keys per cycle.
    pub fn new(max_keys: usize) -> (w: Self)
        ensures
            w.metrics.is_fresh(),
            w.max_keys == max_keys,
    {
        OnDemandWarmer { metrics: WarmingMetrics::new(), max_keys }
    }
}

impl WarmingStrategy for OnDemandWarmer {
    open spec fn strategy_metrics(&self) -> WarmingMetrics {
        self.metrics
    }

    open spec fn selection(&self, scored: Seq<ScoredKey>) -> Seq<String> {
        ranked_keys(scored, self.max_keys as nat)
    }

    open spec fn can_select(&self, scored: Seq<ScoredKey>) -> bool {
        true
    }

    open spec fn select_succeeds(&self, scored: Seq<ScoredKey>) -> bool {
        true
    }

    open spec fn select_error(&self, scored: Seq<ScoredKey>) -> Error {
        arbitrary()
    }

    fn can_select_now(&self, scored: &[ScoredKey]) -> (b: bool) {
        true
    }

    fn selection_len(&self, scored: &[ScoredKey]) -> (n: Option<usize>) {
        proof {
            crate::ranking::lemma_ranking_laws(scored@, self.max_keys as nat);
        }
        if self.max_keys < scored.len() {
            Some(self.max_keys)
        } else {
            Some(scored.len())
        }
    }

    fn select_keys(&mut self, scored: &[ScoredKey]) -> (r: Result<Vec<String>>)
        ensures
            r is Ok,
            *final(self) == *old(self),
            r matches Ok(keys) && keys.len() == crate::ranking::ranked_len(
                scored@.len(),
                old(self).max_keys as nat,
            ) && is_top_keys(scored@, keys@),
    {
        proof {
            crate::ranking::lemma_ranked_keys_are_top(scored@, self.max_keys as nat);
        }
        Ok(rank_keys(scored, self.max_keys))
    }

    fn metrics(&self) -> (m: &WarmingMetrics) {
        &self.metrics
    }
}

/// Warms the keys that a predictor predicts.
pub struct ProactiveWarmer {
    pub metrics: WarmingMetrics,
    pub predictor: Predictor,
    /// Time between warming cycles, in nanoseconds.
    pub interval: u128,
}

impl ProactiveWarmer {
    /// A warmer driven by `predictor`, every `interval` nanoseconds.
    pub fn new(predictor: Predictor, interval: u128) -> (w: Self)
        ensures
            w.metrics.is_fresh(),
            w.predictor == predictor,
            w.interval == interval,
    {
        ProactiveWarmer { metrics: WarmingMetrics::new(), predictor, interval }
    }
}

impl WarmingStrategy for ProactiveWarmer {
    open spec fn strategy_metrics(&self) -> WarmingMetrics {
        self.metrics
    }

    open spec fn selection(&self, scored: Seq<ScoredKey>) -> Seq<String> {
        self.predictor.predictions(scored)
    }

    open spec fn can_select(&self, scored: Seq<ScoredKey>) -> bool {
        self.predictor.can_predict(scored)
    }

    open spec fn select_succeeds(&self, scored: Seq<ScoredKey>) -> bool {
        true
    }

    open spec fn select_error(&self, scored: Seq<ScoredKey>) -> Error {
        arbitrary()
    }

    fn can_select_now(&self, scored: &[ScoredKey]) -> (b: bool) {
        self.predictor.can_predict_now(scored)
    }

    fn selection_len(&self, scored: &[ScoredKey]) -> (n: Option<usize>) {
        self.predictor.predictions_len(scored)
    }

    fn select_keys(&mut self, scored: &[ScoredKey]) -> (r: Result<Vec<String>>)
        ensures
            r is Ok,
            final(self).predictor.metrics.prediction_requests == old(
                self,
            ).predictor.metrics.prediction_requests + 1,
            final(self).interval == old(self).interval,
    {
        self.predictor.get_predictions(scored)
    }

    fn metrics(&self) -> (m: &WarmingMetrics) {
        &self.metrics
    }
}

/// Keys to warm at a time of day.
#[derive(Debug)]
pub struct WarmingSchedule {
    /// Time of day, `HH:MM`.
    pub time: String,
    pub keys: Vec<String>,
}

impl Clone for WarmingSchedule {
    fn clone(&self) -> (c: Self)
        ensures
            c.time == self.time,
            c.keys@ == self.keys@,
    {
        let keys = self.keys.clone();
        assert(keys@ =~= self.keys@);
        WarmingSchedule { time: self.time.clone(), keys }
    }
}

/// Warms keys on a schedule; between scheduled times it selects nothing.
#[derive(Debug)]
pub struct ScheduledWarmer {
    pub metrics: WarmingMetrics,
    pub schedule: Vec<WarmingSchedule>,
}

impl Clone for ScheduledWarmer {
    fn clone(&self) -> (c: Self)
        ensures
            c.metrics == self.metrics,
            c.schedule@.len() == self.schedule@.len(),
    {
        ScheduledWarmer { metrics: self.metrics, schedule: self.schedule.clone() }
    }
}

impl ScheduledWarmer {
    /// A warmer that follows `schedule`.
    pub fn new(schedule: Vec<WarmingSchedule>) -> (w: Self)
        ensures
            w.metrics.is_fresh(),
            w.schedule@ == schedule@,
    {
        ScheduledWarmer { metrics: WarmingMetrics::new(), schedule }
    }
}

impl WarmingStrategy for ScheduledWarmer {
    open spec fn strategy_metrics(&self) -> WarmingMetrics {
        self.metrics
    }

    open spec fn selection(&self, scored: Seq<ScoredKey>) -> Seq<String> {
        Seq::empty()
    }

    open spec fn can_select(&self, scored: Seq<ScoredKey>) -> bool {
        true
    }

    open spec fn select_succeeds(&self, scored: Seq<ScoredKey>) -> bool {
        true
    }

    open spec fn select_error(&self, scored: Seq<ScoredKey>) -> Error {
        arbitrary()
    }

    fn can_select_now(&self, scored: &[ScoredKey]) -> (b: bool) {
        true
    }

    fn selection_len(&self, scored: &[ScoredKey]) -> (n: Option<usize>) {
        Some(0)
    }

    fn select_keys(&mut self, scored: &[ScoredKey]) -> (r: Result<Vec<String>>)
        ensures
            r is Ok,
            final(self).schedule@ == old(self).schedule@,
    {
        Ok(Vec::new())
    }

    fn metrics(&self) -> (m: &WarmingMetrics) {
        &self.metrics
    }
}

/// The kinds of warming strategy.
#[derive(Debug, Clone, Copy, PartialEq, Eq)]
pub enum WarmingStrategyType {
    OnDemand,
    Proactive,
    Scheduled,
}

/// Settings of cache warming.
#[derive(Debug, Clone, Copy)]
pub struct WarmingConfig {
    pub max_keys: usize,
    /// Time between warming cycles, in nanoseconds.
    pub interval: u128,
    pub strategy: WarmingStrategyType,
}

/// A boxed strategy selects what the strategy in the box selects.
impl<S: WarmingStrategy + ?Sized> WarmingStrategy for Box<S> {
    open spec fn strategy_metrics(&self) -> WarmingMetrics {
        (**self).strategy_metrics()
    }

    open spec fn selection(&self, scored: Seq<ScoredKey>) -> Seq<String> {
        (**self).selection(scored)
    }

    open spec fn can_select(&self, scored: Seq<ScoredKey>) -> bool {
        (**self).can_select(scored)
    }

    open spec fn select_succeeds(&self, scored: Seq<ScoredKey>) -> bool {
        (**self).select_succeeds(scored)
    }

    open spec fn select_error(&self, scored: Seq<ScoredKey>) -> Error {
        (**self).select_error(scored)
    }

    fn can_select_now(&self, scored: &[ScoredKey]) -> (b: bool) {
        (**self).can_select_now(scored)
    }

    fn selection_len(&self, scored: &[ScoredKey]) -> (n: Option<usize>) {
        (**self).selection_len(scored)
    }

    fn select_keys(&mut self, scored: &[ScoredKey]) -> (r: Result<Vec<String>>) {
        (**self).select_keys(scored)
    }

    fn metrics(&self) -> (m: &WarmingMetrics) {
        (**self).metrics()
    }
}

/// `after` is `before` with one warming cycle counted that warmed `warmed`
/// keys (none when the cycle failed).
pub open spec fn warmed_once(before: WarmingMetrics, after: WarmingMetrics, warmed: nat) -> bool {
    &&& after.warming_cycles == before.warming_cycles + 1
    &&& after.keys_warmed == before.keys_warmed + warmed
    &&& after.warming_success_rate == before.warming_success_rate
    &&& after.warming_hit_rate == before.warming_hit_rate
}

/// The number of keys warmed by a cycle that returned `r`: none when it failed.
pub open spec fn warmed_count(r: Result<Vec<String>>) -> nat {
    match r {
        Ok(keys) => keys.len() as nat,
        Err(_) => 0,
    }
}

/// Runs a warming strategy and keeps count of what it warms.
pub struct Warmer<S: WarmingStrategy = Box<dyn WarmingStrategy>> {
    pub strategy: S,
    pub metrics: WarmingMetrics,
}

impl<S: WarmingStrategy> Warmer<S> {
    /// One cycle on `scored` can run without a counter overflowing.
    pub open spec fn can_warm(&self, scored: Seq<ScoredKey>) -> bool {
        &&& self.strategy.can_select(scored)
        &&& self.metrics.warming_cycles < usize::MAX
        &&& self.metrics.keys_warmed + self.strategy.selection(scored).len() <= usize::MAX
    }

    /// `after` is this warmer after one cycle on `scored` that returned `r`:
    /// the strategy's selection, or its error, is returned unchanged; the
    /// cycle is counted, and so are the keys returned; the strategy's own
    /// counters are kept.
    pub open spec fn ran_warming(
        self,
        after: Self,
        scored: Seq<ScoredKey>,
        r: Result<Vec<String>>,
    ) -> bool {
        &&& (r is Ok <==> self.strategy.select_succeeds(scored))
        &&& (r matches Ok(keys) ==> keys@ == self.strategy.selection(scored))
        &&& (r matches Err(e) ==> e == self.strategy.select_error(scored))
        &&& warmed_once(self.metrics, after.metrics, warmed_count(r))
        &&& after.strategy.strategy_metrics() == self.strategy.strategy_metrics()
    }

    /// A warmer using `strategy`, with fresh counters.
    pub fn new(strategy: S) -> (w: Self)
        ensures
            w.strategy == strategy,
            w.metrics.is_fresh(),
    {
        Warmer { strategy, metrics: WarmingMetrics::new() }
    }

    /// Runs one warming cycle: the strategy's selection is returned, or the
    /// strategy's error; the cycle is counted, and so are the keys warmed.
    pub fn warm(&mut self, scored: &[ScoredKey]) -> (r: Result<Vec<String>>)
        requires
            old(self).can_warm(scored@),
        ensures
            old(self).ran_warming(*final(self), scored@, r),
    {
        let start = start_timer();
        self.metrics.warming_cycles = self.metrics.warming_cycles + 1;
        let keys = match self.strategy.select_keys(scored) {
            Ok(keys) => keys,
            Err(e) => return Err(e),
        };
        self.metrics.keys_warmed = self.metrics.keys_warmed + keys.len();
        self.metrics.avg_warming_time = elapsed_nanos(&start);
        Ok(keys)
    }

    /// Whether one cycle on `scored` can run without a counter overflowing.
    pub fn can_warm_now(&self, scored: &[ScoredKey]) -> (b: bool)
        ensures
            b == self.can_warm(scored@),
    {
        if !self.strategy.can_select_now(scored) || self.metrics.warming_cycles == usize::MAX {
            return false;
        }
        match self.strategy.selection_len(scored) {
            Some(k) => self.metrics.keys_warmed <= usize::MAX - k,
            None => false,
        }
    }

    /// Runs one warming cycle when its counters cannot overflow; otherwise
    /// returns `None` and changes nothing.
    pub fn try_warm(&mut self, scored: &[ScoredKey]) -> (r: Option<Result<Vec<String>>>)
        ensures
            !old(self).can_warm(scored@) ==> r is None && *final(self) == *old(self),
            old(self).can_warm(scored@) ==> (r matches Some(res) && old(self).ran_warming(
                *final(self),
                scored@,
                res,
            )),
    {
        if self.can_warm_now(scored) {
            Some(self.warm(scored))
        } else {
            None
        }
    }

    /// The warmer's counters.
    pub fn metrics(&self) -> (m: &WarmingMetrics)
        ensures
            *m == self.metrics,
    {
        &self.metrics
    }
}

/// An on-demand warmer selects `min(max_keys, scored.len())` keys: those of
/// the best-ranked entries of the whole input, best first, so that no entry
/// left out has a higher priority than a selected one (nor an equal one
/// earlier in the input). When the scored keys are distinct, so are the
/// selected ones.
pub proof fn lemma_on_demand_selection(w: OnDemandWarmer, scored: Seq<ScoredKey>)
    ensures
        w.selection(scored).len() == crate::ranking::ranked_len(scored.len(), w.max_keys as nat),
        w.selection(scored).len() <= w.max_keys,
        is_top_keys(scored, w.selection(scored)),
        (forall|i: int, j: int| 0 <= i < j < scored.len() ==> scored[i].key@ != scored[j].key@)
            ==> (forall|a: int, b: int|
            0 <= a < b < w.selection(scored).len() ==> w.selection(scored)[a]@ != w.selection(
                scored,
            )[b]@),
{
    crate::ranking::lemma_ranking_laws(scored, w.max_keys as nat);
    crate::ranking::lemma_ranked_keys_are_top(scored, w.max_keys as nat);
    if forall|i: int, j: int| 0 <= i < j < scored.len() ==> scored[i].key@ != scored[j].key@ {
        crate::ranking::lemma_ranked_keys_distinct(scored, w.max_keys as nat);
    }
}

/// Over any run of `Warmer::warm` calls, each cycle is counted once and so
/// are the keys it returns: after `n` calls the cycle count has grown by
/// `n`, and the warmed-key count by the total length of the successful
/// results. Call `i` is made on `requests[i]`, returns `results[i]` and takes
/// `states[i]` to `states[i + 1]`.
pub proof fn lemma_warm_run<S: WarmingStrategy>(
    states: Seq<Warmer<S>>,
    requests: Seq<Seq<ScoredKey>>,
    results: Seq<Result<Vec<String>>>,
)
    requires
        states.len() == requests.len() + 1,
        results.len() == requests.len(),
        forall|i: int|
            0 <= i < requests.len() ==> states[i].ran_warming(states[i + 1], requests[i], results[i]),
    ensures
        states.last().metrics.warming_cycles == states[0].metrics.warming_cycles + requests.len(),
        states.last().metrics.keys_warmed == states[0].metrics.keys_warmed + sum_of(
            Seq::new(results.len(), |i: int| warmed_count(results[i])),
        ),
    decreases requests.len(),
{
    if requests.len() > 0 {
        let n = requests.len() as int;
        let shorter = states.drop_last();
        let fewer = requests.drop_last();
        let earlier = results.drop_last();
        assert forall|i: int| 0 <= i < n - 1 implies shorter[i].ran_warming(
            shorter[i + 1],
            fewer[i],
            earlier[i],
        ) by {
            assert(shorter[i] == states[i] && shorter[i + 1] == states[i + 1]);
        }
        lemma_warm_run(shorter, fewer, earlier);
        assert(shorter.last() == states[n - 1]);
        let counts = Seq::new(results.len(), |i: int| warmed_count(results[i]));
        assert(counts.drop_last() =~= Seq::new(earlier.len(), |i: int| warmed_count(earlier[i])));
        assert(states[n - 1].ran_warming(states[n], requests[n - 1], results[n - 1]));
    }
}

} // verus!
