//! Prediction of the keys that are about to be accessed.
use vstd::prelude::*;
use std::collections::HashMap;
use crate::clock::{is_clock_reading, now_nanos};
use crate::error::{Error, Result};
use crate::metrics::{sum_of, PredictionMetrics};
use crate::ranking::{is_top_keys, rank_keys, ranked_keys, ScoredKey};
use crate::ratio::Ratio;

verus! {

/// How many keys one prediction pass keeps at most.
pub const PREDICTIONS_PER_MODEL: usize = 100;

/// The access history of one cache key.
#[derive(Debug)]
pub struct AccessPattern {
    /// The cache key.
    pub key: String,
    /// Accesses per second.
    pub frequency: Ratio,
    /// Time of the last access, in nanoseconds since the Unix epoch.
    pub last_access: i128,
    /// Time since the last access, in nanoseconds.
    pub recency: u128,
    /// Regularity of the accesses, from 0 (random) to 1 (perfectly regular).
    pub regularity: Ratio,
    /// Predicted time of the next access, in nanoseconds since the Unix epoch.
    pub predicted_next_access: Option<i128>,
}

impl Clone for AccessPattern {
    fn clone(&self) -> (c: Self)
        ensures
            c == *self,
    {
        AccessPattern {
            key: self.key.clone(),
            frequency: self.frequency,
            last_access: self.last_access,
            recency: self.recency,
            regularity: self.regularity,
            predicted_next_access: self.predicted_next_access,
        }
    }
}

impl AccessPattern {
    /// A pattern of `key` that has not been accessed yet, last seen now.
    pub fn new(key: String) -> (p: Self)
        ensures
            p.key == key,
            p.frequency.numer() == 0,
            p.recency == 0,
            p.regularity.numer() == 0,
            p.predicted_next_access is None,
            is_clock_reading(p.last_access as int),
    {
        AccessPattern {
            key,
            frequency: Ratio::zero(),
            last_access: now_nanos(),
            recency: 0,
            regularity: Ratio::zero(),
            predicted_next_access: None,
        }
    }
}

/// `after` is `before` with one more training run over `samples` more samples.
pub open spec fn trained_once(before: PredictionMetrics, after: PredictionMetrics, samples: nat) -> bool {
    &&& after.training_runs == before.training_runs + 1
    &&& after.training_samples == before.training_samples + samples
    &&& after.prediction_requests == before.prediction_requests
    &&& after.predictions_made == before.predictions_made
    &&& after.prediction_accuracy == before.prediction_accuracy
}

/// A model of cache accesses that can be trained on access histories.
pub trait PredictionModel {
    /// The model's counters.
    spec fn model_metrics(&self) -> PredictionMetrics;

    /// Trains the model on `history`. A successful run is counted together
    /// with the number of samples; a failed run changes no counter.
    fn train(&mut self, history: &[AccessPattern]) -> (r: Result<()>)
        requires
            old(self).model_metrics().training_runs < usize::MAX,
            old(self).model_metrics().training_samples + history.len() <= usize::MAX,
        ensures
            r is Ok ==> trained_once(old(self).model_metrics(), final(self).model_metrics(), history.len() as nat),
            r is Err ==> final(self).model_metrics() == old(self).model_metrics(),
    ;

    /// The predicted time of the next access to `key`, in nanoseconds since
    /// the Unix epoch, if the model predicts one.
    fn predict(&self, key: &str) -> (r: Result<Option<i128>>);

    /// The predicted times of the next accesses to `keys`.
    fn predict_batch(&self, keys: &[String]) -> (r: Result<HashMap<String, i128>>);

    /// The model's counters.
    fn metrics(&self) -> (m: &PredictionMetrics)
        ensures
            *m == self.model_metrics(),
    ;
}

/// The keys of the patterns in `s` whose frequency is at least `min`, in order.
pub open spec fn high_frequency_keys(s: Seq<AccessPattern>, min: Ratio) -> Seq<String>
    decreases s.len(),
{
    if s.len() == 0 {
        Seq::empty()
    } else {
        let rest = high_frequency_keys(s.drop_last(), min);
        if s.last().frequency.spec_at_least(min) {
            rest.push(s.last().key)
        } else {
            rest
        }
    }
}

/// A model that ranks keys by access frequency.
#[derive(Debug, Clone, Copy)]
pub struct FrequencyPredictor {
    pub metrics: PredictionMetrics,
    /// Keys accessed less often than this, per second, are not predicted.
    pub min_frequency: Ratio,
    pub window_size: usize,
}

impl FrequencyPredictor {
    /// A frequency model with the given threshold and window.
    pub fn new(min_frequency: Ratio, window_size: usize) -> (p: Self)
        ensures
            p.metrics.is_fresh(),
            p.min_frequency == min_frequency,
            p.window_size == window_size,
    {
        FrequencyPredictor { metrics: PredictionMetrics::new(), min_frequency, window_size }
    }

    /// The keys of the patterns whose frequency is at least the threshold, in order.
    pub fn get_high_frequency_keys(&self, patterns: &[AccessPattern]) -> (r: Vec<String>)
        ensures
            r@ == high_frequency_keys(patterns@, self.min_frequency),
    {
        let mut r: Vec<String> = Vec::new();
        for i in 0..patterns.len()
            invariant
                r@ == high_frequency_keys(patterns@.take(i as int), self.min_frequency),
        {
            assert(patterns@.take(i + 1).drop_last() =~= patterns@.take(i as int));
            if patterns[i].frequency.at_least(&self.min_frequency) {
                r.push(patterns[i].key.clone());
            }
        }
        assert(patterns@.take(patterns@.len() as int) =~= patterns@);
        r
    }
}

impl PredictionModel for FrequencyPredictor {
    open spec fn model_metrics(&self) -> PredictionMetrics {
        self.metrics
    }

    fn train(&mut self, history: &[AccessPattern]) -> (r: Result<()>)
        ensures
            r is Ok,
            final(self).min_frequency == old(self).min_frequency,
            final(self).window_size == old(self).window_size,
    {
        self.metrics.training_runs = self.metrics.training_runs + 1;
        self.metrics.training_samples = self.metrics.training_samples + history.len();
        Ok(())
    }

    fn predict(&self, key: &str) -> (r: Result<Option<i128>>)
        ensures
            r == Ok::<Option<i128>, Error>(None),
    {
        Ok(None)
    }

    fn predict_batch(&self, keys: &[String]) -> (r: Result<HashMap<String, i128>>)
        ensures
            r matches Ok(m) && m@ == Map::<String, i128>::empty(),
    {
        Ok(HashMap::new())
    }

    fn metrics(&self) -> (m: &PredictionMetrics) {
        &self.metrics
    }
}

/// The time from `then` to `now`, in nanoseconds; zero when `then` is not before `now`.
pub open spec fn elapsed_between(now: int, then: int) -> nat {
    if now > then {
        (now - then) as nat
    } else {
        0
    }
}

/// The pattern was accessed less than `threshold` nanoseconds before `now`.
pub open spec fn is_recent(p: AccessPattern, now: int, threshold: nat) -> bool {
    elapsed_between(now, p.last_access as int) < threshold
}

/// The keys of the patterns in `s` accessed less than `threshold` nanoseconds
/// before `now`, in order.
pub open spec fn recent_keys(s: Seq<AccessPattern>, now: int, threshold: nat) -> Seq<String>
    decreases s.len(),
{
    if s.len() == 0 {
        Seq::empty()
    } else {
        let rest = recent_keys(s.drop_last(), now, threshold);
        if is_recent(s.last(), now, threshold) {
            rest.push(s.last().key)
        } else {
            rest
        }
    }
}

/// The time from `then` to `now` in nanoseconds, zero when `then` is not before `now`.
pub fn elapsed_since(now: i128, then: i128) -> (d: u128)
    ensures
        d == elapsed_between(now as int, then as int),
{
    if now <= then {
        0
    } else if then >= 0 || now < 0 {
        (now - then) as u128
    } else {
        let below: i128 = -(then + 1);
        (now as u128) + (below as u128) + 1
    }
}

/// A model that ranks keys by how recently they were accessed.
#[derive(Debug, Clone, Copy)]
pub struct RecencyPredictor {
    pub metrics: PredictionMetrics,
    /// Keys accessed longer ago than this, in nanoseconds, are not predicted.
    pub recency_threshold: u128,
}

impl RecencyPredictor {
    /// A recency model with the given threshold, in nanoseconds.
    pub fn new(recency_threshold: u128) -> (p: Self)
        ensures
            p.metrics.is_fresh(),
            p.recency_threshold == recency_threshold,
    {
        RecencyPredictor { metrics: PredictionMetrics::new(), recency_threshold }
    }

    /// The keys of the patterns accessed less than the threshold before `now`
    /// (nanoseconds since the Unix epoch), in order.
    pub fn recent_keys_at(&self, patterns: &[AccessPattern], now: i128) -> (r: Vec<String>)
        ensures
            r@ == recent_keys(patterns@, now as int, self.recency_threshold as nat),
    {
        let mut r: Vec<String> = Vec::new();
        for i in 0..patterns.len()
            invariant
                r@ == recent_keys(patterns@.take(i as int), now as int, self.recency_threshold as nat),
        {
            assert(patterns@.take(i + 1).drop_last() =~= patterns@.take(i as int));
            if elapsed_since(now, patterns[i].last_access) < self.recency_threshold {
                r.push(patterns[i].key.clone());
            }
        }
        assert(patterns@.take(patterns@.len() as int) =~= patterns@);
        r
    }

    /// The keys of the patterns accessed less than the threshold before the
    /// present moment, in order.
    pub fn get_recent_keys(&self, patterns: &[AccessPattern]) -> (r: Vec<String>)
        ensures
            exists|now: i128|
                is_clock_reading(now as int) && r@ == recent_keys(
                    patterns@,
                    now as int,
                    self.recency_threshold as nat,
                ),
    {
        let now = now_nanos();
        self.recent_keys_at(patterns, now)
    }
}

impl PredictionModel for RecencyPredictor {
    open spec fn model_metrics(&self) -> PredictionMetrics {
        self.metrics
    }

    fn train(&mut self, history: &[AccessPattern]) -> (r: Result<()>)
        ensures
            r is Ok,
            final(self).recency_threshold == old(self).recency_threshold,
    {
        self.metrics.training_runs = self.metrics.training_runs + 1;
        self.metrics.training_samples = self.metrics.training_samples + history.len();
        Ok(())
    }

    fn predict(&self, key: &str) -> (r: Result<Option<i128>>)
        ensures
            r == Ok::<Option<i128>, Error>(None),
    {
        Ok(None)
    }

    fn predict_batch(&self, keys: &[String]) -> (r: Result<HashMap<String, i128>>)
        ensures
            r matches Ok(m) && m@ == Map::<String, i128>::empty(),
    {
        Ok(HashMap::new())
    }

    fn metrics(&self) -> (m: &PredictionMetrics) {
        &self.metrics
    }
}

/// A learned model of accesses, which needs a minimum number of samples to train.
#[derive(Debug, Clone, Copy)]
pub struct MlPredictor {
    pub metrics: PredictionMetrics,
    pub min_samples: usize,
}

impl MlPredictor {
    /// A learned model that trains on no fewer than `min_samples` samples.
    pub fn new(min_samples: usize) -> (p: Self)
        ensures
            p.metrics.is_fresh(),
            p.min_samples == min_samples,
    {
        MlPredictor { metrics: PredictionMetrics::new(), min_samples }
    }
}

impl PredictionModel for MlPredictor {
    open spec fn model_metrics(&self) -> PredictionMetrics {
        self.metrics
    }

    fn train(&mut self, history: &[AccessPattern]) -> (r: Result<()>)
        ensures
            history.len() < old(self).min_samples ==> {
                &&& r matches Err(Error::InsufficientData { required, actual })
                &&& required == old(self).min_samples
                &&& actual == history.len()
                &&& *final(self) == *old(self)
            },
            history.len() >= old(self).min_samples ==> r is Ok,
            final(self).min_samples == old(self).min_samples,
    {
        if history.len() < self.min_samples {
            return Err(Error::InsufficientData { required: self.min_samples, actual: history.len() });
        }
        self.metrics.training_runs = self.metrics.training_runs + 1;
        self.metrics.training_samples = self.metrics.training_samples + history.len();
        Ok(())
    }

    fn predict(&self, key: &str) -> (r: Result<Option<i128>>)
        ensures
            r == Ok::<Option<i128>, Error>(None),
    {
        Ok(None)
    }

    fn predict_batch(&self, keys: &[String]) -> (r: Result<HashMap<String, i128>>)
        ensures
            r matches Ok(m) && m@ == Map::<String, i128>::empty(),
    {
        Ok(HashMap::new())
    }

    fn metrics(&self) -> (m: &PredictionMetrics) {
        &self.metrics
    }
}

/// `s` repeated `n` times.
pub open spec fn repeated(s: Seq<String>, n: nat) -> Seq<String>
    decreases n,
{
    if n == 0 {
        Seq::empty()
    } else {
        repeated(s, (n - 1) as nat) + s
    }
}

/// How many prediction passes a predictor with `model_count` models makes:
/// one per model, and one when it has none.
pub open spec fn prediction_passes(model_count: nat) -> nat {
    if model_count == 0 {
        1
    } else {
        model_count
    }
}

/// What a predictor predicts for `scored`: nothing when disabled; otherwise,
/// per pass, the keys of the best-ranked entries, at most
/// `PREDICTIONS_PER_MODEL` of them.
pub open spec fn predicted_keys(enabled: bool, model_count: nat, scored: Seq<ScoredKey>) -> Seq<String> {
    if enabled {
        repeated(ranked_keys(scored, PREDICTIONS_PER_MODEL as nat), prediction_passes(model_count))
    } else {
        Seq::empty()
    }
}

/// Calls `Vec::push` to append `model`. std documents that `push` appends
/// the element at the back of the vector: the length grows by one and the
/// earlier elements stay in place. That the new last element is `model` is
/// not stated.
#[verifier::external_body]
fn push_model(models: &mut Vec<Box<dyn PredictionModel>>, model: Box<dyn PredictionModel>)
    ensures
        final(models)@.len() == old(models)@.len() + 1,
        forall|i: int| 0 <= i < old(models)@.len() ==> final(models)@[i] == old(models)@[i],
{
    models.push(model);
}

/// Combines prediction models to choose keys for warming.
pub struct Predictor {
    pub models: Vec<Box<dyn PredictionModel>>,
    pub metrics: PredictionMetrics,
    pub enabled: bool,
}

/// `after` is `before` after one request on `scored`: the request is
/// counted, and so are the keys that `before` predicts; the models, the
/// switch and the training counters are kept.
pub open spec fn predicted_once(before: Predictor, after: Predictor, scored: Seq<ScoredKey>) -> bool {
    &&& after.metrics.prediction_requests == before.metrics.prediction_requests + 1
    &&& after.metrics.predictions_made == before.metrics.predictions_made + before.predictions(
        scored,
    ).len()
    &&& after.metrics.training_runs == before.metrics.training_runs
    &&& after.metrics.training_samples == before.metrics.training_samples
    &&& after.metrics.prediction_accuracy == before.metrics.prediction_accuracy
    &&& after.enabled == before.enabled
    &&& after.models.len() == before.models.len()
}

/// `after` is `before` after one request on `scored` that answered `keys`:
/// the request is counted as `predicted_once` says, and the answer is what
/// `before` predicts.
pub open spec fn answered(
    before: Predictor,
    after: Predictor,
    scored: Seq<ScoredKey>,
    keys: Seq<String>,
) -> bool {
    &&& predicted_once(before, after, scored)
    &&& keys == before.predictions(scored)
}

impl Predictor {
    /// What the predictor predicts for `scored` in its present state.
    pub open spec fn predictions(&self, scored: Seq<ScoredKey>) -> Seq<String> {
        predicted_keys(self.enabled, self.models.len() as nat, scored)
    }

    /// An enabled predictor without models.
    pub fn new() -> (p: Self)
        ensures
            p.models.len() == 0,
            p.metrics.is_fresh(),
            p.enabled,
    {
        Predictor { models: Vec::new(), metrics: PredictionMetrics::new(), enabled: true }
    }

    /// The predictor with `model` added.
    pub fn add_model(self, model: Box<dyn PredictionModel>) -> (p: Self)
        ensures
            p.models.len() == self.models.len() + 1,
            forall|i: int| 0 <= i < self.models.len() ==> p.models@[i] == self.models@[i],
            p.metrics == self.metrics,
            p.enabled == self.enabled,
    {
        let Predictor { mut models, metrics, enabled } = self;
        push_model(&mut models, model);
        Predictor { models, metrics, enabled }
    }

    /// Turns predictions on or off.
    pub fn set_enabled(&mut self, enabled: bool)
        ensures
            final(self).enabled == enabled,
            final(self).models.len() == old(self).models.len(),
            final(self).metrics == old(self).metrics,
    {
        self.enabled = enabled;
    }

    /// The keys predicted for warming, from the scored keys. Every request is
    /// counted, and so is every predicted key.
    pub fn get_predictions(&mut self, scored: &[ScoredKey]) -> (r: Result<Vec<String>>)
        requires
            old(self).can_predict(scored@),
        ensures
            r matches Ok(keys) && answered(*old(self), *final(self), scored@, keys@),
    {
        self.metrics.prediction_requests = self.metrics.prediction_requests + 1;
        if !self.enabled {
            return Ok(Vec::new());
        }
        let passes: usize = if self.models.len() == 0 { 1 } else { self.models.len() };
        let top = rank_keys(scored, PREDICTIONS_PER_MODEL);
        let mut keys: Vec<String> = Vec::new();
        for i in 0..passes
            invariant
                top@ == ranked_keys(scored@, PREDICTIONS_PER_MODEL as nat),
                keys@ == repeated(top@, i as nat),
        {
            let mut more = top.clone();
            assert(more@ =~= top@);
            keys.append(&mut more);
        }
        self.metrics.predictions_made = self.metrics.predictions_made + keys.len();
        Ok(keys)
    }

    /// One request on `scored` can run without a counter overflowing.
    pub open spec fn can_predict(&self, scored: Seq<ScoredKey>) -> bool {
        &&& self.metrics.prediction_requests < usize::MAX
        &&& self.metrics.predictions_made + self.predictions(scored).len() <= usize::MAX
    }

    /// The number of keys predicted for `scored`, when it fits in a `usize`.
    pub fn predictions_len(&self, scored: &[ScoredKey]) -> (n: Option<usize>)
        ensures
            n matches Some(k) ==> k == self.predictions(scored@).len(),
            n is None ==> self.predictions(scored@).len() > usize::MAX,
    {
        proof {
            lemma_predictions_len(self.enabled, self.models.len() as nat, scored@);
        }
        if !self.enabled {
            return Some(0);
        }
        let passes: usize = if self.models.len() == 0 { 1 } else { self.models.len() };
        let per_pass: usize = if scored.len() < PREDICTIONS_PER_MODEL {
            scored.len()
        } else {
            PREDICTIONS_PER_MODEL
        };
        passes.checked_mul(per_pass)
    }

    /// Whether one request on `scored` can run without a counter overflowing.
    pub fn can_predict_now(&self, scored: &[ScoredKey]) -> (b: bool)
        ensures
            b == self.can_predict(scored@),
    {
        if self.metrics.prediction_requests == usize::MAX {
            return false;
        }
        match self.predictions_len(scored) {
            Some(k) => self.metrics.predictions_made <= usize::MAX - k,
            None => false,
        }
    }

    /// The predictor's counters.
    pub fn metrics(&self) -> (m: &PredictionMetrics)
        ensures
            *m == self.metrics,
    {
        &self.metrics
    }
}

impl Default for Predictor {
    fn default() -> (p: Self)
        ensures
            p.models.len() == 0,
            p.metrics.is_fresh(),
            p.enabled,
    {
        Self::new()
    }
}


/// The frequency of `p` is at least `min` as a number (compared over the
/// common denominator).
pub open spec fn is_frequent(p: AccessPattern, min: Ratio) -> bool {
    p.frequency.numer() * min.denom() >= min.numer() * p.frequency.denom()
}

/// The frequency filter keeps, in input order and with repeats, the key of
/// every pattern whose frequency is at least `min` as a number, and nothing
/// else.
pub proof fn lemma_high_frequency_keys_filter(s: Seq<AccessPattern>, min: Ratio)
    ensures
        high_frequency_keys(s, min) == s.filter(|p: AccessPattern| is_frequent(p, min)).map_values(
            |p: AccessPattern| p.key,
        ),
    decreases s.len(),
{
    reveal(Seq::filter);
    if s.len() == 0 {
        assert(s.filter(|p: AccessPattern| is_frequent(p, min)) =~= Seq::<AccessPattern>::empty());
        assert(s.filter(|p: AccessPattern| is_frequent(p, min)).map_values(|p: AccessPattern| p.key) =~= Seq::<
            String,
        >::empty());
    } else {
        lemma_high_frequency_keys_filter(s.drop_last(), min);
        let kept = s.drop_last().filter(|p: AccessPattern| is_frequent(p, min));
        if is_frequent(s.last(), min) {
            assert(s.filter(|p: AccessPattern| is_frequent(p, min)) == kept.push(s.last()));
            assert(kept.push(s.last()).map_values(|p: AccessPattern| p.key) =~= kept.map_values(
                |p: AccessPattern| p.key,
            ).push(s.last().key));
        } else {
            assert(s.filter(|p: AccessPattern| is_frequent(p, min)) == kept);
        }
    }
}

/// A key is kept by the frequency filter exactly when some pattern with that
/// key has a frequency of at least `min`; kept keys appear in input order.
pub proof fn lemma_high_frequency_keys_exact(s: Seq<AccessPattern>, min: Ratio)
    ensures
        forall|a: int|
            0 <= a < high_frequency_keys(s, min).len() ==> exists|i: int|
                0 <= i < s.len() && s[i].key == #[trigger] high_frequency_keys(s, min)[a]
                    && s[i].frequency.spec_at_least(min),
        forall|i: int|
            0 <= i < s.len() && #[trigger] s[i].frequency.spec_at_least(min) ==> high_frequency_keys(
                s,
                min,
            ).contains(s[i].key),
        high_frequency_keys(s, min).len() <= s.len(),
    decreases s.len(),
{
    if s.len() > 0 {
        let init = s.drop_last();
        lemma_high_frequency_keys_exact(init, min);
        let r = high_frequency_keys(s, min);
        let ri = high_frequency_keys(init, min);
        if s.last().frequency.spec_at_least(min) {
            assert(r == ri.push(s.last().key));
        } else {
            assert(r == ri);
        }
        assert forall|a: int| 0 <= a < r.len() implies exists|i: int|
            0 <= i < s.len() && s[i].key == #[trigger] r[a] && s[i].frequency.spec_at_least(min) by {
            if a < ri.len() {
                assert(r[a] == ri[a]);
                let i = choose|i: int| 0 <= i < init.len() && init[i].key == ri[a] && init[i].frequency.spec_at_least(min);
                assert(s[i] == init[i]);
            } else {
                assert(s.last().frequency.spec_at_least(min));
                assert(r == ri.push(s.last().key));
                assert(s[s.len() - 1].key == r[a]);
            }
        }
        assert forall|i: int| 0 <= i < s.len() && #[trigger] s[i].frequency.spec_at_least(min) implies r.contains(
            s[i].key,
        ) by {
            if i < s.len() - 1 {
                assert(init[i] == s[i]);
                assert(ri.contains(s[i].key));
                let c = choose|c: int| 0 <= c < ri.len() && ri[c] == s[i].key;
                assert(r[c] == ri[c]);
            } else {
                assert(r[r.len() - 1] == s[i].key);
            }
        }
    } else {
        assert(high_frequency_keys(s, min).len() == 0);
    }
}

/// A key is kept by the recency filter exactly when some pattern with that
/// key was accessed less than `threshold` nanoseconds before `now`.
pub proof fn lemma_recent_keys_exact(s: Seq<AccessPattern>, now: int, threshold: nat)
    ensures
        forall|a: int|
            0 <= a < recent_keys(s, now, threshold).len() ==> exists|i: int|
                0 <= i < s.len() && s[i].key == #[trigger] recent_keys(s, now, threshold)[a]
                    && is_recent(s[i], now, threshold),
        forall|i: int|
            0 <= i < s.len() && #[trigger] is_recent(s[i], now, threshold) ==> recent_keys(
                s,
                now,
                threshold,
            ).contains(s[i].key),
        recent_keys(s, now, threshold).len() <= s.len(),
    decreases s.len(),
{
    if s.len() > 0 {
        let init = s.drop_last();
        lemma_recent_keys_exact(init, now, threshold);
        let r = recent_keys(s, now, threshold);
        let ri = recent_keys(init, now, threshold);
        if is_recent(s.last(), now, threshold) {
            assert(r == ri.push(s.last().key));
        } else {
            assert(r == ri);
        }
        assert forall|a: int| 0 <= a < r.len() implies exists|i: int|
            0 <= i < s.len() && s[i].key == #[trigger] r[a] && is_recent(s[i], now, threshold) by {
            if a < ri.len() {
                assert(r[a] == ri[a]);
                let i = choose|i: int| 0 <= i < init.len() && init[i].key == ri[a] && is_recent(init[i], now, threshold);
                assert(s[i] == init[i]);
            } else {
                assert(is_recent(s.last(), now, threshold));
                assert(r == ri.push(s.last().key));
                assert(s[s.len() - 1].key == r[a]);
            }
        }
        assert forall|i: int| 0 <= i < s.len() && #[trigger] is_recent(s[i], now, threshold) implies r.contains(
            s[i].key,
        ) by {
            if i < s.len() - 1 {
                assert(init[i] == s[i]);
                assert(ri.contains(s[i].key));
                let c = choose|c: int| 0 <= c < ri.len() && ri[c] == s[i].key;
                assert(r[c] == ri[c]);
            } else {
                assert(r[r.len() - 1] == s[i].key);
            }
        }
    } else {
        assert(recent_keys(s, now, threshold).len() == 0);
    }
}

/// `s` repeated `n` times has `n * s.len()` entries.
pub proof fn lemma_repeated_len(s: Seq<String>, n: nat)
    ensures
        repeated(s, n).len() == n * s.len(),
    decreases n,
{
    if n > 0 {
        let k = (n - 1) as nat;
        lemma_repeated_len(s, k);
        assert(repeated(s, n).len() == repeated(s, k).len() + s.len());
        assert(k * s.len() + s.len() == n * s.len()) by (nonlinear_arith)
            requires
                k + 1 == n,
        ;
    } else {
        assert(n * s.len() == 0) by (nonlinear_arith)
            requires
                n == 0,
        ;
    }
}

/// Block `k` of `s` repeated `n` times is `s` itself.
proof fn lemma_repeated_block(s: Seq<String>, n: nat, k: int)
    requires
        0 <= k < n,
    ensures
        k * s.len() + s.len() <= repeated(s, n).len(),
        repeated(s, n).subrange(k * s.len(), k * s.len() + s.len()) == s,
    decreases n,
{
    let m = (n - 1) as nat;
    lemma_repeated_len(s, n);
    lemma_repeated_len(s, m);
    let whole = repeated(s, n);
    let first = repeated(s, m);
    assert(whole == first + s);
    assert(k * s.len() + s.len() <= n * s.len()) by (nonlinear_arith)
        requires
            0 <= k < n,
    ;
    if k == m {
        assert(whole.subrange(k * s.len(), k * s.len() + s.len()) =~= s);
    } else {
        lemma_repeated_block(s, m, k);
        assert(k * s.len() + s.len() <= m * s.len()) by (nonlinear_arith)
            requires
                0 <= k < m,
        ;
        assert(whole.subrange(k * s.len(), k * s.len() + s.len()) =~= first.subrange(
            k * s.len(),
            k * s.len() + s.len(),
        ));
    }
}

/// What a request predicts, in terms of the scored keys alone: nothing when
/// the predictor is off; otherwise one block per model (one block when
/// there is none), and each block is the keys of the
/// `min(PREDICTIONS_PER_MODEL, scored.len())` best-ranked entries of the
/// whole input, best first. No entry left out of a block has a higher
/// priority than one in it, nor an equal priority and an earlier place.
pub proof fn lemma_predictions_are_top_ranked(p: Predictor, scored: Seq<ScoredKey>)
    ensures
        !p.enabled ==> p.predictions(scored).len() == 0,
        p.enabled ==> p.predictions(scored).len() == (if p.models.len() == 0 {
            1
        } else {
            p.models.len()
        }) * crate::ranking::ranked_len(scored.len(), PREDICTIONS_PER_MODEL as nat),
        p.enabled ==> forall|k: int|
            0 <= k < (if p.models.len() == 0 {
                1
            } else {
                p.models.len()
            }) ==> is_top_keys(
                    scored,
                    #[trigger] p.predictions(scored).subrange(
                        k * crate::ranking::ranked_len(scored.len(), PREDICTIONS_PER_MODEL as nat),
                        k * crate::ranking::ranked_len(scored.len(), PREDICTIONS_PER_MODEL as nat)
                            + crate::ranking::ranked_len(scored.len(), PREDICTIONS_PER_MODEL as nat),
                    ),
                ),
{
    lemma_predictions_len(p.enabled, p.models.len() as nat, scored);
    if p.enabled {
        let top = ranked_keys(scored, PREDICTIONS_PER_MODEL as nat);
        let passes = prediction_passes(p.models.len() as nat);
        crate::ranking::lemma_ranked_keys_are_top(scored, PREDICTIONS_PER_MODEL as nat);
        let m = crate::ranking::ranked_len(scored.len(), PREDICTIONS_PER_MODEL as nat);
        assert forall|k: int| 0 <= k < passes implies is_top_keys(
            scored,
            #[trigger] p.predictions(scored).subrange(k * m, k * m + m),
        ) by {
            lemma_repeated_block(top, passes, k);
        }
    }
}

/// A disabled predictor predicts nothing. An enabled one predicts, per pass
/// (one per model, one when it has none), the keys of the
/// `min(PREDICTIONS_PER_MODEL, scored.len())` best-ranked entries; so it never
/// predicts more than `PREDICTIONS_PER_MODEL` keys per pass.
pub proof fn lemma_predictions_len(enabled: bool, model_count: nat, scored: Seq<ScoredKey>)
    ensures
        !enabled ==> predicted_keys(enabled, model_count, scored).len() == 0,
        enabled ==> predicted_keys(enabled, model_count, scored).len() == prediction_passes(model_count)
            * crate::ranking::ranked_len(scored.len(), PREDICTIONS_PER_MODEL as nat),
        predicted_keys(enabled, model_count, scored).len() <= prediction_passes(model_count)
            * PREDICTIONS_PER_MODEL,
{
    crate::ranking::lemma_ranking_laws(scored, PREDICTIONS_PER_MODEL as nat);
    let top = ranked_keys(scored, PREDICTIONS_PER_MODEL as nat);
    let p = prediction_passes(model_count);
    lemma_repeated_len(top, p);
    assert(p * top.len() <= p * PREDICTIONS_PER_MODEL) by (nonlinear_arith)
        requires
            top.len() <= PREDICTIONS_PER_MODEL,
    ;
}

/// Over any run of `get_predictions` calls, each call is counted once and so
/// is every key it returns: after `n` calls the request count has grown by
/// `n`, and the prediction count by the total length of the answers. The
/// on/off switch stays as it was, and while it is off every answer is
/// empty. Call `i` is made on `requests[i]`, returns `answers[i]` and takes
/// `states[i]` to `states[i + 1]`.
pub proof fn lemma_get_predictions_run(
    states: Seq<Predictor>,
    requests: Seq<Seq<ScoredKey>>,
    answers: Seq<Seq<String>>,
)
    requires
        states.len() == requests.len() + 1,
        answers.len() == requests.len(),
        forall|i: int|
            0 <= i < requests.len() ==> answered(states[i], states[i + 1], requests[i], answers[i]),
    ensures
        states.last().metrics.prediction_requests == states[0].metrics.prediction_requests
            + requests.len(),
        states.last().metrics.predictions_made == states[0].metrics.predictions_made + sum_of(
            Seq::new(answers.len(), |i: int| answers[i].len()),
        ),
        forall|i: int| 0 <= i < states.len() ==> #[trigger] states[i].enabled == states[0].enabled,
        !states[0].enabled ==> forall|i: int| 0 <= i < answers.len() ==> #[trigger] answers[i].len()
            == 0,
    decreases requests.len(),
{
    if requests.len() > 0 {
        let n = requests.len() as int;
        let shorter = states.drop_last();
        let fewer = requests.drop_last();
        let earlier = answers.drop_last();
        assert forall|i: int| 0 <= i < n - 1 implies answered(
            shorter[i],
            shorter[i + 1],
            fewer[i],
            earlier[i],
        ) by {
            assert(shorter[i] == states[i] && shorter[i + 1] == states[i + 1]);
        }
        lemma_get_predictions_run(shorter, fewer, earlier);
        assert(shorter.last() == states[n - 1]);
        let lens = Seq::new(answers.len(), |i: int| answers[i].len());
        assert(lens.drop_last() =~= Seq::new(earlier.len(), |i: int| earlier[i].len()));
        assert(answered(states[n - 1], states[n], requests[n - 1], answers[n - 1]));
        assert forall|i: int| 0 <= i < states.len() implies #[trigger] states[i].enabled
            == states[0].enabled by {
            if i < n {
                assert(shorter[i] == states[i]);
            }
        }
        if !states[0].enabled {
            assert forall|i: int| 0 <= i < answers.len() implies #[trigger] answers[i].len()
                == 0 by {
                if i < n - 1 {
                    assert(earlier[i] == answers[i]);
                } else {
                    assert(!states[n - 1].enabled);
                }
            }
        }
    }
}

} // verus!
