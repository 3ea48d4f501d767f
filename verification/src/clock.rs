//! The time of day.
use std::time::SystemTime;
use vstd::prelude::*;

verus! {

/// `std::time::SystemTime`, carried as it is.
#[verifier::external_type_specification]
#[verifier::external_body]
pub struct ExSystemTime(std::time::SystemTime);

/// A reading of the clock: the whole seconds since the Unix epoch and the nanoseconds beyond them, or nothing where the
/// clock stands before the epoch.
pub type Reading = Option<(u64, u32)>;

/// The nanoseconds of a reading make up less than a second.
pub open spec fn is_reading(reading: Reading) -> bool {
    reading matches Some((_, nanos)) ==> nanos < 1_000_000_000
}

/// The whole milliseconds of a reading, or zero where there is nothing.
pub open spec fn whole_millis(reading: Reading) -> nat {
    match reading {
        None => 0,
        Some((secs, nanos)) => (secs as nat) * 1000 + nanos as nat / 1_000_000,
    }
}

/// The whole seconds of a reading, or zero where there is nothing.
pub open spec fn whole_secs(reading: Reading) -> u64 {
    match reading {
        None => 0,
        Some((secs, _)) => secs,
    }
}

/// `SystemTime::now`. The time is the machine's: nothing is claimed of it.
#[verifier::external_body]
fn system_now() -> SystemTime {
    SystemTime::now()
}

/// `SystemTime::duration_since` from the Unix epoch, the duration handed out by its whole seconds and the nanoseconds
/// beyond them, of which std promises that they make up less than a second. It fails for a time before the epoch; as a
/// time is opaque here, nothing is claimed of which times those are, nor of how much later another time is.
#[verifier::external_body]
fn since_epoch(time: SystemTime) -> (r: Reading)
    ensures
        is_reading(r),
{
    let elapsed = time.duration_since(SystemTime::UNIX_EPOCH).ok()?;
    Some((elapsed.as_secs(), elapsed.subsec_nanos()))
}

/// The whole milliseconds of a reading, or zero where there is nothing.
pub fn millis_of(reading: Reading) -> (r: u128)
    ensures
        r == whole_millis(reading),
{
    match reading {
        None => 0,
        Some((secs, nanos)) => (secs as u128) * 1000 + (nanos / 1_000_000) as u128,
    }
}

/// The whole seconds of a reading, or zero where there is nothing.
pub fn secs_of(reading: Reading) -> (r: u64)
    ensures
        r == whole_secs(reading),
{
    match reading {
        None => 0,
        Some((secs, _)) => secs,
    }
}

/// Milliseconds as far as there is room for them: beyond the largest number they start anew.
pub fn short_millis(millis: u128) -> (r: u64)
    ensures
        r == millis % 0x1_0000_0000_0000_0000,
{
    assert(millis as u64 == millis % 0x1_0000_0000_0000_0000) by (bit_vector);
    #[verifier::truncate]
    (millis as u64)
}

/// Milliseconds since the Unix epoch, or zero where the clock stands before it: those of some reading.
pub(crate) fn unix_millis() -> (r: u128)
    ensures
        exists|reading: Reading| #[trigger] is_reading(reading) && r == whole_millis(reading),
{
    millis_of(since_epoch(system_now()))
}

/// Milliseconds since the Unix epoch, as far as there is room for them. As the clock can stand anywhere, each number
/// can come of it.
pub(crate) fn unix_millis_short() -> u64 {
    short_millis(unix_millis())
}

/// Seconds since the Unix epoch, or zero where the clock stands before it. As the clock can stand anywhere, each number
/// can come of it.
pub(crate) fn unix_seconds() -> u64 {
    secs_of(since_epoch(system_now()))
}

/// The whole milliseconds of a reading are the most that fit into its nanoseconds, and so are the whole seconds. A
/// clock before the epoch reads as zero.
pub proof fn law_readings_are_rounded_down(reading: Reading)
    requires
        is_reading(reading),
    ensures
        match reading {
            None => whole_millis(reading) == 0 && whole_secs(reading) == 0,
            Some((secs, nanos)) => {
                let all = secs * 1_000_000_000 + nanos;
                &&& nanos < 1_000_000_000
                &&& whole_millis(reading) * 1_000_000 <= all < (whole_millis(reading) + 1)
                    * 1_000_000
                &&& whole_secs(reading) * 1_000_000_000 <= all < (whole_secs(reading) + 1)
                    * 1_000_000_000
            },
        },
{
}

} // verus!
