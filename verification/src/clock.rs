//! Readings of the wall clock and of the monotonic clock.
//!
//! A reading depends on the moment of the call, so nothing is stated of its
//! value beyond the form that the clock's source documents.
use vstd::prelude::*;

verus! {

/// A reading of the monotonic clock.
#[verifier::external_type_specification]
#[verifier::external_body]
pub struct ExInstant(std::time::Instant);

/// A reading of the system clock.
#[verifier::external_type_specification]
#[verifier::external_body]
pub struct ExSystemTime(std::time::SystemTime);

/// Nanoseconds in one second.
pub const NANOS_PER_SECOND: i128 = 1_000_000_000;

/// The nanoseconds since the Unix epoch of a time that lies `seconds` and
/// `subsec_nanos` after the epoch, or as far before it when `after_epoch`
/// is false.
pub open spec fn epoch_nanos(after_epoch: bool, seconds: u64, subsec_nanos: u32) -> int {
    let offset = seconds * 1_000_000_000 + subsec_nanos;
    if after_epoch {
        offset
    } else {
        -offset
    }
}

/// `t` has the form of a wall-clock reading in nanoseconds since the Unix
/// epoch: whole seconds and a fraction below one second, on either side of
/// the epoch.
pub open spec fn is_clock_reading(t: int) -> bool {
    exists|after_epoch: bool, seconds: u64, subsec_nanos: u32|
        subsec_nanos < 1_000_000_000 && t == epoch_nanos(after_epoch, seconds, subsec_nanos)
}

/// Calls `std::time::Instant::now`. Nothing is stated of the reading.
#[verifier::external_body]
pub(crate) fn start_timer() -> std::time::Instant {
    std::time::Instant::now()
}

/// Calls `std::time::Instant::elapsed` on `start` and gives the elapsed time
/// in nanoseconds (`Duration::as_nanos`). The value depends on the moment of
/// the call; nothing is stated of it.
#[verifier::external_body]
pub(crate) fn elapsed_nanos(start: &std::time::Instant) -> u128 {
    start.elapsed().as_nanos()
}

/// Calls `std::time::SystemTime::now`. Nothing is stated of the reading.
#[verifier::external_body]
fn system_now() -> std::time::SystemTime {
    std::time::SystemTime::now()
}

/// Calls `SystemTime::duration_since` with `UNIX_EPOCH` on `t`: `Ok` with the
/// time since the epoch, or, when `t` lies before the epoch, `Err` with how
/// far before (the error's `duration`). Which of the two comes back depends
/// on the reading; nothing is stated of it.
#[verifier::external_body]
fn since_epoch(t: &std::time::SystemTime) -> std::result::Result<
    std::time::Duration,
    std::time::Duration,
> {
    match t.duration_since(std::time::UNIX_EPOCH) {
        Ok(d) => Ok(d),
        Err(e) => Err(e.duration()),
    }
}

/// Calls `Duration::as_secs`: the whole seconds of `d`. Nothing is stated of
/// a duration's value here.
#[verifier::external_body]
fn whole_seconds(d: &std::time::Duration) -> u64 {
    d.as_secs()
}

/// Calls `Duration::subsec_nanos`: the fraction of a second in `d`, in
/// nanoseconds, which std documents to be below one billion.
#[verifier::external_body]
fn subsec_nanos(d: &std::time::Duration) -> (n: u32)
    ensures
        n < 1_000_000_000,
{
    d.subsec_nanos()
}

/// The current wall-clock time in nanoseconds since the Unix epoch; a clock
/// set before the epoch gives a negative time.
pub fn now_nanos() -> (t: i128)
    ensures
        is_clock_reading(t as int),
{
    let now = system_now();
    let (after_epoch, d) = match since_epoch(&now) {
        Ok(d) => (true, d),
        Err(d) => (false, d),
    };
    let seconds = whole_seconds(&d);
    let fraction = subsec_nanos(&d);
    proof {
        assert(seconds * 1_000_000_000 + fraction < 20_000_000_000_000_000_000_000_000_000)
            by (nonlinear_arith)
            requires
                seconds <= u64::MAX,
                fraction < 1_000_000_000,
        ;
    }
    let offset = (seconds as i128) * NANOS_PER_SECOND + (fraction as i128);
    let t = if after_epoch {
        offset
    } else {
        -offset
    };
    assert(t == epoch_nanos(after_epoch, seconds, fraction));
    t
}

} // verus!
