use vstd::prelude::*;

verus! {

/// Ticks elapsed from `earlier` to `later`; calls `embassy_time::Instant::duration_since`,
/// which panics when `earlier` is after `later` and otherwise returns the difference.
#[verifier::external_body]
pub(crate) fn ticks_between(earlier: u64, later: u64) -> (r: u64)
    requires
        earlier <= later,
    ensures
        r == later - earlier,
{
    embassy_time::Instant::from_ticks(later).duration_since(
        embassy_time::Instant::from_ticks(earlier),
    ).as_ticks()
}

} // verus!
