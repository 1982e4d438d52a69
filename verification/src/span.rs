//! Lengths of time.

use vstd::prelude::*;

verus! {

/// Nanoseconds in a second.
pub const NANOS_PER_SEC: u128 = 1_000_000_000;

/// Nanoseconds in a millisecond.
pub const NANOS_PER_MILLI: u128 = 1_000_000;

/// The longest span, in nanoseconds: `u64::MAX` seconds and the last
/// nanosecond before the next.
pub const MAX_NANOS: u128 = 18_446_744_073_709_551_615_999_999_999;

/// A length of time to the nanosecond, with the range of
/// `std::time::Duration`. Its view is the number of nanoseconds.
#[derive(Debug, Clone, Copy, PartialEq, Eq, PartialOrd, Ord)]
pub struct Span {
    nanos: u128,
}

impl View for Span {
    type V = nat;

    closed spec fn view(&self) -> nat {
        self.nanos as nat
    }
}

impl Span {
    #[verifier::type_invariant]
    spec fn in_range(self) -> bool {
        self.nanos <= MAX_NANOS
    }

    /// So many whole seconds and further nanoseconds.
    pub fn new(secs: u64, nanos: u32) -> (span: Self)
        requires
            nanos < NANOS_PER_SEC,
        ensures
            span@ == secs * NANOS_PER_SEC + nanos,
    {
        Span { nanos: secs as u128 * NANOS_PER_SEC + nanos as u128 }
    }

    /// So many seconds.
    pub fn from_secs(secs: u64) -> (span: Self)
        ensures
            span@ == secs * NANOS_PER_SEC,
    {
        Span { nanos: secs as u128 * NANOS_PER_SEC }
    }

    /// So many milliseconds.
    pub fn from_millis(millis: u64) -> (span: Self)
        ensures
            span@ == millis * NANOS_PER_MILLI,
    {
        Span { nanos: millis as u128 * NANOS_PER_MILLI }
    }

    /// All of it, in nanoseconds.
    pub fn as_nanos(self) -> (nanos: u128)
        ensures
            nanos == self@,
            nanos <= MAX_NANOS,
    {
        proof {
            use_type_invariant(&self);
        }
        self.nanos
    }

    /// Its whole seconds.
    pub fn as_secs(self) -> (secs: u64)
        ensures
            secs == self@ / (NANOS_PER_SEC as nat),
    {
        proof {
            use_type_invariant(&self);
        }
        (self.nanos / NANOS_PER_SEC) as u64
    }

    /// What is left over its whole seconds, in nanoseconds.
    pub fn subsec_nanos(self) -> (nanos: u32)
        ensures
            nanos == self@ % (NANOS_PER_SEC as nat),
    {
        (self.nanos % NANOS_PER_SEC) as u32
    }

    /// What is left of it after `other`: nothing, where that is longer.
    pub fn saturating_sub(self, other: Span) -> (rest: Self)
        ensures
            rest@ == if self@ < other@ {
                0
            } else {
                (self@ - other@) as nat
            },
    {
        proof {
            use_type_invariant(&self);
        }
        if self.nanos < other.nanos {
            Span { nanos: 0 }
        } else {
            Span { nanos: self.nanos - other.nanos }
        }
    }

    /// `times` times as long, if that is not out of range.
    pub fn checked_mul(self, times: u32) -> (product: Option<Self>)
        ensures
            product is Some <==> self@ * times <= MAX_NANOS,
            product matches Some(span) ==> span@ == self@ * times,
    {
        proof {
            use_type_invariant(&self);
            assert(0 <= self.nanos * times <= MAX_NANOS * 0x1_0000_0000) by (nonlinear_arith)
                requires
                    0 <= self.nanos <= MAX_NANOS,
                    0 <= times < 0x1_0000_0000,
            ;
        }
        let nanos = self.nanos * times as u128;
        if nanos <= MAX_NANOS {
            Some(Span { nanos })
        } else {
            None
        }
    }
}

} // verus!
