//! Lengths of time with nanosecond precision. A point in time is the length of
//! time that separates it from an epoch.
use vstd::prelude::*;

verus! {

pub const NANOS_PER_SEC: u32 = 1_000_000_000;

/// A length of time, split into whole seconds and the nanoseconds beyond them.
#[derive(Clone, Copy, Debug, PartialEq, Eq, Structural)]
pub struct Span {
    pub secs: u64,
    pub nanos: u32,
}

impl Span {
    pub open spec fn wf(self) -> bool {
        self.nanos < NANOS_PER_SEC
    }

    /// The length of time as a number of nanoseconds.
    pub open spec fn total(self) -> int {
        self.secs * 1_000_000_000 + self.nanos
    }

    /// Whether the nanoseconds make no whole second.
    pub fn check(&self) -> (r: bool)
        ensures
            r == self.wf(),
    {
        self.nanos < NANOS_PER_SEC
    }

    pub fn zero() -> (r: Span)
        ensures
            r == (Span { secs: 0, nanos: 0 }),
    {
        Span { secs: 0, nanos: 0 }
    }

    pub fn from_secs(secs: u64) -> (r: Span)
        ensures
            r == (Span { secs, nanos: 0 }),
    {
        Span { secs, nanos: 0 }
    }

    pub fn is_zero(&self) -> (r: bool)
        ensures
            r == (self.total() == 0),
    {
        self.secs == 0 && self.nanos == 0
    }

    pub fn is_less(&self, other: &Span) -> (r: bool)
        requires
            self.wf(),
            other.wf(),
        ensures
            r == (self.total() < other.total()),
    {
        self.secs < other.secs || (self.secs == other.secs && self.nanos < other.nanos)
    }

    /// The difference, or nothing where `other` is longer.
    pub fn saturating_sub(&self, other: &Span) -> (r: Span)
        requires
            self.wf(),
            other.wf(),
        ensures
            r.wf(),
            r.total() == if self.total() >= other.total() {
                self.total() - other.total()
            } else {
                0
            },
    {
        if self.is_less(other) {
            return Span::zero();
        }
        if self.nanos >= other.nanos {
            Span { secs: self.secs - other.secs, nanos: self.nanos - other.nanos }
        } else {
            Span {
                secs: self.secs - other.secs - 1,
                nanos: self.nanos + NANOS_PER_SEC - other.nanos,
            }
        }
    }

    /// The sum, or `None` where it cannot be represented.
    pub fn checked_add(&self, other: &Span) -> (r: Option<Span>)
        requires
            self.wf(),
            other.wf(),
        ensures
            match r {
                Some(sum) => sum.wf() && sum.total() == self.total() + other.total(),
                None => self.total() + other.total() > max_total(),
            },
    {
        let nanos: u32 = self.nanos + other.nanos;
        let carry: u64 = if nanos >= NANOS_PER_SEC {
            1
        } else {
            0
        };
        match self.secs.checked_add(other.secs) {
            Some(secs) => match secs.checked_add(carry) {
                Some(secs) => Some(
                    Span {
                        secs,
                        nanos: if nanos >= NANOS_PER_SEC {
                            nanos - NANOS_PER_SEC
                        } else {
                            nanos
                        },
                    },
                ),
                None => None,
            },
            None => None,
        }
    }

    /// A tenth of the length of time, rounded down to a nanosecond.
    pub fn tenth(&self) -> (r: Span)
        requires
            self.wf(),
        ensures
            r.wf(),
            r.total() == self.total() / 10,
    {
        let rest: u64 = self.secs % 10;
        let nanos: u64 = (rest * 1_000_000_000 + self.nanos as u64) / 10;
        Span { secs: self.secs / 10, nanos: nanos as u32 }
    }

    pub fn shorter(self, other: Span) -> (r: Span)
        requires
            self.wf(),
            other.wf(),
        ensures
            r == if other.total() < self.total() {
                other
            } else {
                self
            },
    {
        if other.is_less(&self) {
            other
        } else {
            self
        }
    }
}

/// The longest length of time there is.
pub open spec fn max_total() -> int {
    18_446_744_073_709_551_615int * 1_000_000_000 + 999_999_999
}

} // verus!
