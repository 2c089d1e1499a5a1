//! Coherence protocols that keep cache tiers consistent.
use vstd::prelude::*;
use crate::clock::{elapsed_nanos, start_timer};
use crate::error::Result;
use crate::metrics::{count_true, CoherenceMetrics};

verus! {

/// `after` is `before` with one more invalidation.
pub open spec fn invalidated_once(before: CoherenceMetrics, after: CoherenceMetrics) -> bool {
    &&& after.invalidations == before.invalidations + 1
    &&& after.coherent_writes == before.coherent_writes
    &&& after.incoherent_reads == before.incoherent_reads
    &&& after.coherence_overhead == before.coherence_overhead
}

/// `after` is `before` with one more coherent write.
pub open spec fn written_once(before: CoherenceMetrics, after: CoherenceMetrics) -> bool {
    &&& after.invalidations == before.invalidations
    &&& after.coherent_writes == before.coherent_writes + 1
    &&& after.incoherent_reads == before.incoherent_reads
    &&& after.avg_invalidation_time == before.avg_invalidation_time
    &&& after.coherence_overhead == before.coherence_overhead
}

/// A protocol that keeps the tiers of a cache consistent.
pub trait CoherenceProtocol {
    /// The protocol's counters.
    spec fn protocol_metrics(&self) -> CoherenceMetrics;

    /// Invalidates `key` across all tiers; a successful invalidation is counted.
    fn invalidate(&mut self, key: &str) -> (r: Result<()>)
        requires
            old(self).protocol_metrics().invalidations < usize::MAX,
        ensures
            r is Ok ==> invalidated_once(old(self).protocol_metrics(), final(self).protocol_metrics()),
            r is Err ==> final(self).protocol_metrics() == old(self).protocol_metrics(),
    ;

    /// Writes `value` under `key` across all tiers; a successful write is counted.
    fn update(&mut self, key: &str, value: Vec<u8>) -> (r: Result<()>)
        requires
            old(self).protocol_metrics().coherent_writes < usize::MAX,
        ensures
            r is Ok ==> written_once(old(self).protocol_metrics(), final(self).protocol_metrics()),
            r is Err ==> final(self).protocol_metrics() == old(self).protocol_metrics(),
    ;

    /// The protocol's counters.
    fn metrics(&self) -> (m: &CoherenceMetrics)
        ensures
            *m == self.protocol_metrics(),
    ;
}

/// A boxed protocol behaves as the protocol in the box.
impl<P: CoherenceProtocol + ?Sized> CoherenceProtocol for Box<P> {
    open spec fn protocol_metrics(&self) -> CoherenceMetrics {
        (**self).protocol_metrics()
    }

    fn invalidate(&mut self, key: &str) -> (r: Result<()>) {
        (**self).invalidate(key)
    }

    fn update(&mut self, key: &str, value: Vec<u8>) -> (r: Result<()>) {
        (**self).update(key, value)
    }

    fn metrics(&self) -> (m: &CoherenceMetrics) {
        (**self).metrics()
    }
}

/// Writes go to every tier at once.
#[derive(Debug, Clone, Copy)]
pub struct WriteThrough {
    pub metrics: CoherenceMetrics,
}

impl WriteThrough {
    /// A write-through protocol with fresh counters.
    pub fn new() -> (p: Self)
        ensures
            p.metrics.is_fresh(),
    {
        WriteThrough { metrics: CoherenceMetrics::new() }
    }
}

impl CoherenceProtocol for WriteThrough {
    open spec fn protocol_metrics(&self) -> CoherenceMetrics {
        self.metrics
    }

    fn invalidate(&mut self, key: &str) -> (r: Result<()>)
        ensures
            r is Ok,
    {
        let start = start_timer();
        self.metrics.invalidations = self.metrics.invalidations + 1;
        self.metrics.avg_invalidation_time = elapsed_nanos(&start);
        Ok(())
    }

    fn update(&mut self, key: &str, value: Vec<u8>) -> (r: Result<()>)
        ensures
            r is Ok,
    {
        self.metrics.coherent_writes = self.metrics.coherent_writes + 1;
        Ok(())
    }

    fn metrics(&self) -> (m: &CoherenceMetrics) {
        &self.metrics
    }
}

/// `after` is the write-back protocol `before` after a write of `key`: the
/// write is counted and `key` is appended to the dirty keys.
pub open spec fn wrote_back(before: WriteBack, after: WriteBack, key: Seq<char>) -> bool {
    &&& written_once(before.metrics, after.metrics)
    &&& after.dirty@.len() == before.dirty@.len() + 1
    &&& after.dirty@.drop_last() == before.dirty@
    &&& after.dirty@.last()@ == key
}

/// The dirty keys of `p`, in order, as character sequences.
pub open spec fn dirty_keys(p: WriteBack) -> Seq<Seq<char>> {
    p.dirty@.map_values(|k: String| k@)
}

/// The keys of the writes in a run of operations, in order: `keys[i]` for
/// each `i` with `is_update[i]`.
pub open spec fn written_keys(keys: Seq<Seq<char>>, is_update: Seq<bool>) -> Seq<Seq<char>>
    decreases is_update.len(),
{
    if is_update.len() == 0 {
        Seq::empty()
    } else {
        let earlier = written_keys(keys.drop_last(), is_update.drop_last());
        if is_update.last() {
            earlier.push(keys.last())
        } else {
            earlier
        }
    }
}

/// Writes go to the first tier and reach the others later; written keys are
/// kept as dirty until then.
#[derive(Debug)]
pub struct WriteBack {
    pub metrics: CoherenceMetrics,
    /// Keys written since the last write-back, in order of writing, repeats included.
    pub dirty: Vec<String>,
}

impl WriteBack {
    /// A write-back protocol with fresh counters and no dirty keys.
    pub fn new() -> (p: Self)
        ensures
            p.metrics.is_fresh(),
            p.dirty@.len() == 0,
    {
        WriteBack { metrics: CoherenceMetrics::new(), dirty: Vec::new() }
    }
}

impl CoherenceProtocol for WriteBack {
    open spec fn protocol_metrics(&self) -> CoherenceMetrics {
        self.metrics
    }

    fn invalidate(&mut self, key: &str) -> (r: Result<()>)
        ensures
            r is Ok,
            final(self).dirty@ == old(self).dirty@,
    {
        let start = start_timer();
        self.metrics.invalidations = self.metrics.invalidations + 1;
        self.metrics.avg_invalidation_time = elapsed_nanos(&start);
        Ok(())
    }

    fn update(&mut self, key: &str, value: Vec<u8>) -> (r: Result<()>)
        ensures
            r is Ok,
            wrote_back(*old(self), *final(self), key@),
    {
        self.metrics.coherent_writes = self.metrics.coherent_writes + 1;
        let k = key.to_string();
        self.dirty.push(k);
        assert(self.dirty@.drop_last() =~= old(self).dirty@);
        Ok(())
    }

    fn metrics(&self) -> (m: &CoherenceMetrics) {
        &self.metrics
    }
}

/// Writes bypass the first tier and go to the others.
#[derive(Debug, Clone, Copy)]
pub struct WriteAround {
    pub metrics: CoherenceMetrics,
}

impl WriteAround {
    /// A write-around protocol with fresh counters.
    pub fn new() -> (p: Self)
        ensures
            p.metrics.is_fresh(),
    {
        WriteAround { metrics: CoherenceMetrics::new() }
    }
}

impl CoherenceProtocol for WriteAround {
    open spec fn protocol_metrics(&self) -> CoherenceMetrics {
        self.metrics
    }

    fn invalidate(&mut self, key: &str) -> (r: Result<()>)
        ensures
            r is Ok,
    {
        let start = start_timer();
        self.metrics.invalidations = self.metrics.invalidations + 1;
        self.metrics.avg_invalidation_time = elapsed_nanos(&start);
        Ok(())
    }

    fn update(&mut self, key: &str, value: Vec<u8>) -> (r: Result<()>)
        ensures
            r is Ok,
    {
        self.metrics.coherent_writes = self.metrics.coherent_writes + 1;
        Ok(())
    }

    fn metrics(&self) -> (m: &CoherenceMetrics) {
        &self.metrics
    }
}

/// When invalidations take place.
#[derive(Debug, Clone, Copy, PartialEq, Eq)]
pub enum InvalidationStrategy {
    Immediate,
    Lazy,
    Periodic,
}

/// The change that one `invalidate` (when `is_invalidation`) or `update`
/// call makes to a protocol's counters, given what it returned: a success
/// counts one invalidation or one write, and a failure changes nothing.
pub open spec fn counted_step(
    before: CoherenceMetrics,
    after: CoherenceMetrics,
    is_invalidation: bool,
    r: Result<()>,
) -> bool {
    if r is Err {
        after == before
    } else if is_invalidation {
        invalidated_once(before, after)
    } else {
        written_once(before, after)
    }
}

/// Over any run of `invalidate` and `update` calls on a protocol, each
/// successful call is counted once and a failed one changes no counter:
/// the invalidation count grows by the number of successful invalidations
/// and the write count by the number of successful writes. Call `i` is an
/// invalidation when `is_invalidation[i]`, returns `results[i]` and takes
/// `states[i]` to `states[i + 1]`.
pub proof fn lemma_coherence_run<P: CoherenceProtocol>(
    states: Seq<P>,
    is_invalidation: Seq<bool>,
    results: Seq<Result<()>>,
)
    requires
        states.len() == is_invalidation.len() + 1,
        results.len() == is_invalidation.len(),
        forall|i: int|
            0 <= i < is_invalidation.len() ==> counted_step(
                states[i].protocol_metrics(),
                states[i + 1].protocol_metrics(),
                is_invalidation[i],
                results[i],
            ),
    ensures
        states.last().protocol_metrics().invalidations == states[0].protocol_metrics().invalidations
            + count_true(
            Seq::new(results.len(), |i: int| is_invalidation[i] && results[i] is Ok),
        ),
        states.last().protocol_metrics().coherent_writes
            == states[0].protocol_metrics().coherent_writes + count_true(
            Seq::new(results.len(), |i: int| !is_invalidation[i] && results[i] is Ok),
        ),
    decreases is_invalidation.len(),
{
    if is_invalidation.len() > 0 {
        let n = is_invalidation.len() as int;
        let shorter = states.drop_last();
        let kinds = is_invalidation.drop_last();
        let earlier = results.drop_last();
        assert forall|i: int| 0 <= i < n - 1 implies counted_step(
            shorter[i].protocol_metrics(),
            shorter[i + 1].protocol_metrics(),
            kinds[i],
            earlier[i],
        ) by {
            assert(shorter[i] == states[i] && shorter[i + 1] == states[i + 1]);
        }
        lemma_coherence_run(shorter, kinds, earlier);
        assert(shorter.last() == states[n - 1]);
        let inv = Seq::new(results.len(), |i: int| is_invalidation[i] && results[i] is Ok);
        let wr = Seq::new(results.len(), |i: int| !is_invalidation[i] && results[i] is Ok);
        assert(inv.drop_last() =~= Seq::new(earlier.len(), |i: int| kinds[i] && earlier[i] is Ok));
        assert(wr.drop_last() =~= Seq::new(earlier.len(), |i: int| !kinds[i] && earlier[i] is Ok));
        assert(counted_step(
            states[n - 1].protocol_metrics(),
            states[n].protocol_metrics(),
            is_invalidation[n - 1],
            results[n - 1],
        ));
    }
}

/// Over any run of `update` and `invalidate` calls on a write-back
/// protocol, each write appends its key to the dirty keys, in call order and
/// repeats included, and is counted; an invalidation leaves the dirty keys
/// as they were. Call `i` is a write of `keys[i]` when `is_update[i]`, and
/// an invalidation otherwise; it takes `states[i]` to `states[i + 1]`.
pub proof fn lemma_write_back_run(states: Seq<WriteBack>, keys: Seq<Seq<char>>, is_update: Seq<bool>)
    requires
        states.len() == is_update.len() + 1,
        keys.len() == is_update.len(),
        forall|i: int|
            0 <= i < is_update.len() ==> if is_update[i] {
                wrote_back(states[i], states[i + 1], keys[i])
            } else {
                states[i + 1].dirty@ == states[i].dirty@
            },
    ensures
        dirty_keys(states.last()) == dirty_keys(states[0]) + written_keys(keys, is_update),
        states.last().dirty@.len() == states[0].dirty@.len() + count_true(is_update),
    decreases is_update.len(),
{
    if is_update.len() > 0 {
        let n = is_update.len() as int;
        let shorter = states.drop_last();
        assert forall|i: int| 0 <= i < n - 1 implies (if is_update.drop_last()[i] {
            wrote_back(shorter[i], shorter[i + 1], keys.drop_last()[i])
        } else {
            shorter[i + 1].dirty@ == shorter[i].dirty@
        }) by {
            assert(shorter[i] == states[i] && shorter[i + 1] == states[i + 1]);
        }
        lemma_write_back_run(shorter, keys.drop_last(), is_update.drop_last());
        assert(shorter.last() == states[n - 1]);
        let before = states[n - 1];
        let after = states[n];
        let earlier = written_keys(keys.drop_last(), is_update.drop_last());
        if is_update[n - 1] {
            assert(wrote_back(before, after, keys[n - 1]));
            assert(after.dirty@ =~= before.dirty@.push(after.dirty@.last()));
            assert(dirty_keys(after) =~= dirty_keys(before).push(keys[n - 1]));
            assert(dirty_keys(after) =~= dirty_keys(states[0]) + earlier.push(keys.last()));
        } else {
            assert(dirty_keys(after) =~= dirty_keys(before));
        }
    }
}

} // verus!
