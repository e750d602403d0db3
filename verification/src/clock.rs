//! The wall clock and the monotonic clock of the standard library.
//! Their readings depend on the machine's time, so nothing is stated of
//! the values they return.
use vstd::prelude::*;

verus! {

/// `std::time::SystemTime`, a reading of the wall clock.
#[verifier::external_type_specification]
#[verifier::external_body]
pub struct ExSystemTime(std::time::SystemTime);

/// `std::time::Instant`, a reading of the monotonic clock.
#[verifier::external_type_specification]
#[verifier::external_body]
pub struct ExInstant(std::time::Instant);

/// `Instant::clone`, which the derived `Clone` of the records holding an
/// `Instant` calls: `Instant` is `Copy`, and its `Clone` is derived, so the
/// clone is the same reading.
pub assume_specification[ <std::time::Instant as Clone>::clone ](i: &std::time::Instant) -> (r:
    std::time::Instant)
    ensures
        r == *i,
;

/// `SystemTime::now`: the current wall-clock time.
#[verifier::external_body]
fn system_time_now() -> std::time::SystemTime {
    std::time::SystemTime::now()
}

/// `Instant::now`: the current reading of the monotonic clock.
#[verifier::external_body]
pub(crate) fn instant_now() -> std::time::Instant {
    std::time::Instant::now()
}

/// `SystemTime::duration_since(UNIX_EPOCH)`: time elapsed since the Unix
/// epoch, `None` for a time before it.
#[verifier::external_body]
fn since_unix_epoch(t: &std::time::SystemTime) -> Option<std::time::Duration> {
    t.duration_since(std::time::UNIX_EPOCH).ok()
}

/// `Instant::elapsed`: time passed since the instant was taken.
#[verifier::external_body]
fn instant_elapsed(i: &std::time::Instant) -> std::time::Duration {
    i.elapsed()
}

/// `Duration::as_secs`: whole seconds of a duration. The duration is opaque
/// here, so nothing is stated of the result.
#[verifier::external_body]
fn duration_secs(d: &std::time::Duration) -> u64 {
    d.as_secs()
}

/// Seconds of the wall clock since the Unix epoch; 0 for a clock set before it.
pub fn unix_now_secs() -> u64 {
    let now = system_time_now();
    match since_unix_epoch(&now) {
        Some(d) => duration_secs(&d),
        None => 0,
    }
}

/// Whole seconds passed since `i`.
pub fn secs_since(i: &std::time::Instant) -> u64 {
    let d = instant_elapsed(i);
    duration_secs(&d)
}

/// Whole seconds passed since an instant, by the monotonic clock, kept
/// together with the instant they are counted from. Only `elapsed_since`
/// makes one, so the seconds are always counted from `from()`.
pub struct Elapsed {
    since: std::time::Instant,
    secs: u64,
}

impl Elapsed {
    /// The instant the seconds are counted from.
    pub closed spec fn from(self) -> std::time::Instant {
        self.since
    }

    /// The seconds counted.
    pub closed spec fn seconds(self) -> u64 {
        self.secs
    }

    /// The seconds counted.
    pub fn secs(&self) -> (s: u64)
        ensures
            s == self.seconds(),
    {
        self.secs
    }
}

/// Whole seconds passed since `i`, counted from `i`.
pub fn elapsed_since(i: &std::time::Instant) -> (e: Elapsed)
    ensures
        e.from() == *i,
{
    Elapsed { since: i.clone(), secs: secs_since(i) }
}

} // verus!
