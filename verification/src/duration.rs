use vstd::prelude::*;
use vstd::std_specs::cmp::PartialEqSpec;

verus! {

/// A span of time in one of three units.
#[derive(Debug)]
pub enum Duration {
    MilliSeconds(u64),
    Seconds(u32),
    Minutes(u16),
}

/// The number of milliseconds that `d` spans.
pub open spec fn millis(d: Duration) -> nat {
    match d {
        Duration::MilliSeconds(t) => t as nat,
        Duration::Seconds(t) => t as nat * 1000,
        Duration::Minutes(t) => t as nat * 1000 * 60,
    }
}

impl Duration {
    /// Returns the number of milliseconds that `self` spans.
    pub fn as_millis(&self) -> (ms: u64)
        ensures
            ms == millis(*self),
    {
        match self {
            Duration::MilliSeconds(t) => *t,
            Duration::Seconds(t) => *t as u64 * 1000,
            Duration::Minutes(t) => *t as u64 * 1000 * 60,
        }
    }
}

impl From<u64> for Duration {
    fn from(num: u64) -> (d: Self) {
        Duration::MilliSeconds(num)
    }
}

impl vstd::std_specs::convert::FromSpecImpl<u64> for Duration {
    open spec fn obeys_from_spec() -> bool {
        true
    }

    open spec fn from_spec(num: u64) -> Self {
        Duration::MilliSeconds(num)
    }
}

impl PartialEq for Duration {
    fn eq(&self, other: &Duration) -> (r: bool) {
        let a: u64 = self.as_millis();
        let b: u64 = other.as_millis();
        a == b
    }
}

impl vstd::std_specs::cmp::PartialEqSpecImpl for Duration {
    open spec fn obeys_eq_spec() -> bool {
        true
    }

    open spec fn eq_spec(&self, other: &Duration) -> bool {
        millis(*self) == millis(*other)
    }
}

/// Two durations are equal exactly when they span the same number of
/// milliseconds, whatever their units; this equality is an equivalence.
pub proof fn lemma_duration_eq_is_equivalence(a: Duration, b: Duration, c: Duration)
    ensures
        a.eq_spec(&a),
        a.eq_spec(&b) == b.eq_spec(&a),
        a.eq_spec(&b) && b.eq_spec(&c) ==> a.eq_spec(&c),
{
}

/// A duration of `n` seconds equals one of `1000 * n` milliseconds, and one
/// of `n` minutes equals one of `60 * n` seconds where that fits.
pub proof fn lemma_duration_unit_conversions(n: u16)
    ensures
        Duration::Seconds(n as u32).eq_spec(&Duration::MilliSeconds((n as u64 * 1000) as u64)),
        Duration::Minutes(n).eq_spec(&Duration::Seconds((n as u32 * 60) as u32)),
{
}

} // verus!
