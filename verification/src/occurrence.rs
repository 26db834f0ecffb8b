//! Multiplicity law: how many values may be bound to a declared field.

use vstd::prelude::*;

verus! {

/// Multiplicity requirement for a schema field: an inclusive range of
/// admissible occurrence counts.
#[derive(Clone, Copy, PartialEq, Eq, Structural, Debug)]
pub enum Occurrence {
    /// Exactly one occurrence: the range `[1, 1]`.
    Once,
    /// At most one occurrence: the range `[0, 1]`.
    ZeroOrOne,
    /// At least one occurrence: the range `[1, ∞)`.
    OnceOrMore,
    /// Any number of occurrences: the range `[0, ∞)`.
    ZeroOrMore,
}

impl Occurrence {
    /// Least admissible number of occurrences.
    pub open spec fn min_count(self) -> nat {
        match self {
            Occurrence::Once | Occurrence::OnceOrMore => 1,
            Occurrence::ZeroOrOne | Occurrence::ZeroOrMore => 0,
        }
    }

    /// Greatest admissible number of occurrences, or `None` where the range
    /// is unbounded above.
    pub open spec fn max_count(self) -> Option<nat> {
        match self {
            Occurrence::Once | Occurrence::ZeroOrOne => Some(1 as nat),
            Occurrence::OnceOrMore | Occurrence::ZeroOrMore => None,
        }
    }

    /// The multiplicity law: a bound count is admissible iff it lies within
    /// the declared inclusive range.
    pub open spec fn admits(self, n: nat) -> bool {
        self.min_count() <= n && (match self.max_count() {
            Some(m) => n <= m,
            None => true,
        })
    }

    /// Checks a bound count of values against this occurrence requirement;
    /// accepts exactly the counts inside the declared range.
    pub fn check(&self, n: u64) -> (ok: bool)
        ensures
            ok <==> self.admits(n as nat),
    {
        match self {
            Occurrence::Once => n == 1,
            Occurrence::ZeroOrOne => n <= 1,
            Occurrence::OnceOrMore => n >= 1,
            Occurrence::ZeroOrMore => true,
        }
    }
}

} // verus!
