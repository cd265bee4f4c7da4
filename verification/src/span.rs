//! Lengths of time.

use vstd::prelude::*;

verus! {

/// The nanoseconds of a second.
pub const NANOS_PER_SEC: u32 = 1_000_000_000;

/// A length of time, in whole seconds and the nanoseconds beyond them.
#[derive(Clone, Copy, Debug, PartialEq, Eq, Structural)]
pub struct Span {
    secs: u64,
    nanos: u32,
}

/// The text of a length of time that `std::time::Duration`'s `Debug` gives.
pub uninterp spec fn duration_text(secs: u64, nanos: u32) -> Seq<char>;

/// Shows a length of time: the `Debug` text of the `std::time::Duration` with these seconds and
/// nanoseconds.
#[verifier::external_body]
fn format_duration(secs: u64, nanos: u32) -> (text: String)
    requires
        nanos < NANOS_PER_SEC,
    ensures
        text@ == duration_text(secs, nanos),
{
    format!("{:?}", std::time::Duration::new(secs, nanos))
}

impl Span {
    #[verifier::type_invariant]
    spec fn is_normal(self) -> bool {
        self.nanos < NANOS_PER_SEC
    }

    /// The length in nanoseconds.
    pub closed spec fn total(self) -> nat {
        (self.secs * NANOS_PER_SEC + self.nanos) as nat
    }

    /// The whole seconds.
    pub closed spec fn whole(self) -> u64 {
        self.secs
    }

    /// The nanoseconds beyond the whole seconds.
    pub closed spec fn part(self) -> u32 {
        self.nanos
    }

    /// The text in which the length is shown.
    pub open spec fn shown(self) -> Seq<char> {
        duration_text(self.whole(), self.part())
    }

    /// A length of so many seconds and nanoseconds, if the nanoseconds are less than a second.
    pub fn new(secs: u64, nanos: u32) -> (span: Option<Self>)
        ensures
            span is Some <==> nanos < NANOS_PER_SEC,
            span matches Some(span) ==> span.whole() == secs && span.part() == nanos
                && span.total() == secs * NANOS_PER_SEC + nanos,
    {
        if nanos < NANOS_PER_SEC {
            Some(Span { secs, nanos })
        } else {
            None
        }
    }

    /// A length of so many seconds.
    pub fn from_secs(secs: u64) -> (span: Self)
        ensures
            span.whole() == secs,
            span.part() == 0,
            span.total() == secs * NANOS_PER_SEC,
    {
        Span { secs, nanos: 0 }
    }

    /// A length of so many milliseconds.
    pub fn from_millis(millis: u64) -> (span: Self)
        ensures
            span.total() == millis * 1_000_000,
            span.whole() == millis / 1000,
            span.part() == (millis % 1000) * 1_000_000,
    {
        let secs: u64 = millis / 1000;
        let rest: u64 = millis % 1000;
        Span { secs, nanos: (rest as u32) * 1_000_000 }
    }

    /// The whole seconds.
    pub fn as_secs(&self) -> (secs: u64)
        ensures
            secs == self.whole(),
    {
        self.secs
    }

    /// The nanoseconds beyond the whole seconds.
    pub fn subsec_nanos(&self) -> (nanos: u32)
        ensures
            nanos == self.part(),
            nanos < NANOS_PER_SEC,
            self.total() == self.whole() * NANOS_PER_SEC + nanos,
    {
        proof {
            use_type_invariant(self);
        }
        self.nanos
    }

    /// Whether the length is zero.
    pub fn is_zero(&self) -> (answer: bool)
        ensures
            answer == (self.total() == 0),
    {
        self.secs == 0 && self.nanos == 0
    }

    /// Twice the length, or the given length if that is shorter.
    pub fn double_up_to(&self, longest: &Self) -> (span: Self)
        ensures
            span.total() == if 2 * self.total() <= longest.total() {
                2 * self.total()
            } else {
                longest.total()
            },
    {
        proof {
            use_type_invariant(self);
            use_type_invariant(longest);
        }
        if self.secs > u64::MAX / 2 {
            return *longest;
        }
        let nanos: u32 = self.nanos * 2;
        let double = if nanos >= NANOS_PER_SEC {
            Span { secs: self.secs * 2 + 1, nanos: nanos - NANOS_PER_SEC }
        } else {
            Span { secs: self.secs * 2, nanos }
        };
        double.min(longest)
    }

    /// The shorter of two lengths.
    pub fn min(&self, other: &Self) -> (span: Self)
        ensures
            span == if self.total() <= other.total() {
                *self
            } else {
                *other
            },
    {
        proof {
            use_type_invariant(self);
            use_type_invariant(other);
        }
        if self.secs < other.secs || (self.secs == other.secs && self.nanos <= other.nanos) {
            *self
        } else {
            *other
        }
    }

    /// Shows the length as the standard library shows a duration, such as `5s` or `10ms`.
    pub fn to_string(&self) -> (text: String)
        ensures
            text@ == self.shown(),
    {
        proof {
            use_type_invariant(self);
        }
        format_duration(self.secs, self.nanos)
    }
}

} // verus!
