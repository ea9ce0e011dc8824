use vstd::prelude::*;

verus! {

/// A parsed seed, as far as the input of its code goes: a time-based seed
/// reads the clock, a counter-based one its stored counter.
#[derive(Debug, Clone, Copy, PartialEq, Eq, Structural)]
pub enum SeedKind {
    Totp,
    Hotp { counter: u64 },
}

/// The moment that the code of a seed of kind `kind` is derived from, when the
/// clock reads `now_secs` seconds. Reading a code never advances a counter.
pub fn code_moment(kind: SeedKind, now_secs: u64) -> (r: u64)
    ensures
        kind is Totp ==> r == now_secs,
        kind is Hotp ==> r == kind->counter,
{
    match kind {
        SeedKind::Totp => now_secs,
        SeedKind::Hotp { counter } => counter,
    }
}

/// Whole seconds in a clock reading of `nanos` nanoseconds.
pub fn seconds_of(nanos: u64) -> (r: u64)
    ensures
        r == nanos / 1_000_000_000,
{
    nanos / 1_000_000_000
}

} // verus!
