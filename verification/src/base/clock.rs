//! The wall clock, in milliseconds since the Unix epoch.

use vstd::prelude::*;

verus! {

#[verifier::external_type_specification]
#[verifier::external_body]
pub struct ExSystemTime(std::time::SystemTime);

/// `std::time::SystemTime::now()`: the machine's wall clock. Nothing is
/// promised of the value.
#[verifier::external_body]
fn system_now() -> std::time::SystemTime {
    std::time::SystemTime::now()
}

/// `SystemTime::duration_since(UNIX_EPOCH)`, with its error (a clock
/// before the epoch) as `None`. Nothing is promised of the value.
#[verifier::external_body]
fn since_unix_epoch(t: &std::time::SystemTime) -> Option<std::time::Duration> {
    t.duration_since(std::time::UNIX_EPOCH).ok()
}

/// `Duration::as_millis`: the whole milliseconds of `d`.
#[verifier::external_body]
fn duration_millis(d: &std::time::Duration) -> u128 {
    d.as_millis()
}

/// The current time in milliseconds since the Unix epoch: zero for a
/// clock before the epoch, `u64::MAX` past what 64 bits hold.
pub(crate) fn now_millis() -> u64 {
    let now = system_now();
    match since_unix_epoch(&now) {
        Some(d) => {
            let ms = duration_millis(&d);
            if ms > u64::MAX as u128 {
                u64::MAX
            } else {
                ms as u64
            }
        },
        None => 0,
    }
}

/// Milliseconds from `earlier` to `later`, zero where `earlier` is the
/// later of the two.
pub fn millis_between(later: u64, earlier: u64) -> (ms: u64)
    ensures
        ms == if later >= earlier {
            (later - earlier) as u64
        } else {
            0
        },
{
    if later >= earlier {
        later - earlier
    } else {
        0
    }
}

} // verus!
