//! Availability and confidence vocabularies.
use vstd::prelude::*;

verus! {

/// Explicit status for information that may be unavailable or unknown.
#[derive(Debug, Clone, PartialEq, Eq)]
pub enum Availability<T> {
    Available(T),
    Unavailable,
    Unknown,
}

impl<T> Availability<T> {
    pub fn available(value: T) -> (r: Self)
        ensures
            r == Availability::Available(value),
    {
        Availability::Available(value)
    }
}

/// Normalized confidence used by the intelligence model; declared from most
/// to least certain, and ordered that way.
#[derive(Debug, Clone, Copy, PartialEq, Eq, PartialOrd, Ord, Structural)]
pub enum IntelligenceConfidence {
    Certain,
    High,
    Medium,
    Low,
    Unknown,
}

impl IntelligenceConfidence {
    pub open spec fn rank(self) -> int {
        match self {
            IntelligenceConfidence::Certain => 0,
            IntelligenceConfidence::High => 1,
            IntelligenceConfidence::Medium => 2,
            IntelligenceConfidence::Low => 3,
            IntelligenceConfidence::Unknown => 4,
        }
    }

    pub open spec fn as_str_spec(self) -> Seq<char> {
        match self {
            IntelligenceConfidence::Certain => "certain"@,
            IntelligenceConfidence::High => "high"@,
            IntelligenceConfidence::Medium => "medium"@,
            IntelligenceConfidence::Low => "low"@,
            IntelligenceConfidence::Unknown => "unknown"@,
        }
    }

    pub fn as_str(self) -> (r: &'static str)
        ensures
            r@ == self.as_str_spec(),
    {
        match self {
            IntelligenceConfidence::Certain => "certain",
            IntelligenceConfidence::High => "high",
            IntelligenceConfidence::Medium => "medium",
            IntelligenceConfidence::Low => "low",
            IntelligenceConfidence::Unknown => "unknown",
        }
    }

    pub fn rank_of(self) -> (r: u8)
        ensures
            r == self.rank(),
    {
        match self {
            IntelligenceConfidence::Certain => 0,
            IntelligenceConfidence::High => 1,
            IntelligenceConfidence::Medium => 2,
            IntelligenceConfidence::Low => 3,
            IntelligenceConfidence::Unknown => 4,
        }
    }

    /// The later of two confidences in declaration order (`Ord::max`).
    pub fn max_of(self, other: Self) -> (r: Self)
        ensures
            r.rank() == if self.rank() >= other.rank() { self.rank() } else { other.rank() },
            r == self || r == other,
    {
        if other.rank_of() >= self.rank_of() {
            other
        } else {
            self
        }
    }
}

/// Projected validity of a historical verification claim.
#[derive(Debug, Clone, Copy, PartialEq, Eq, PartialOrd, Ord, Structural)]
pub enum VerificationValidity {
    Current,
    Stale,
    Invalidated,
    Unknown,
}

impl VerificationValidity {
    pub open spec fn as_str_spec(self) -> Seq<char> {
        match self {
            VerificationValidity::Current => "current"@,
            VerificationValidity::Stale => "stale"@,
            VerificationValidity::Invalidated => "invalidated"@,
            VerificationValidity::Unknown => "unknown"@,
        }
    }

    pub fn as_str(self) -> (r: &'static str)
        ensures
            r@ == self.as_str_spec(),
    {
        match self {
            VerificationValidity::Current => "current",
            VerificationValidity::Stale => "stale",
            VerificationValidity::Invalidated => "invalidated",
            VerificationValidity::Unknown => "unknown",
        }
    }
}

} // verus!
