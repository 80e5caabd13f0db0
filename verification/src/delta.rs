use vstd::prelude::*;

verus! {

/// Magnitude and direction of a change to an aggregator.
#[derive(Debug, Clone, Copy, PartialEq, Eq, Structural)]
pub enum SignedU128 {
    Positive(u128),
    Negative(u128),
}

/// Why a delta could not be applied to a base value.
#[derive(Debug, Clone, Copy, PartialEq, Eq, Structural)]
pub enum DeltaApplicationError {
    /// The sum would exceed the aggregator's limit.
    Overflow,
    /// The difference would drop below zero.
    Underflow,
}

/// A relative change to an aggregator whose value must stay in
/// `0..=max_value`.
#[derive(Debug, Clone, Copy, PartialEq, Eq, Structural)]
pub struct DeltaOp {
    pub update: SignedU128,
    pub max_value: u128,
}

impl SignedU128 {
    /// The change as a mathematical integer.
    pub open spec fn signed(self) -> int {
        match self {
            SignedU128::Positive(v) => v as int,
            SignedU128::Negative(v) => -(v as int),
        }
    }
}

impl DeltaOp {
    /// The value that results from applying this delta to `base`: the sum,
    /// if it stays within `0..=max_value`.
    pub open spec fn applied(self, base: u128) -> Result<u128, DeltaApplicationError> {
        match self.update {
            SignedU128::Positive(v) => if base + v <= self.max_value {
                Ok((base + v) as u128)
            } else {
                Err(DeltaApplicationError::Overflow)
            },
            SignedU128::Negative(v) => if v <= base {
                Ok((base - v) as u128)
            } else {
                Err(DeltaApplicationError::Underflow)
            },
        }
    }

    pub fn new(update: SignedU128, max_value: u128) -> (delta: DeltaOp)
        ensures
            delta.update == update,
            delta.max_value == max_value,
    {
        DeltaOp { update, max_value }
    }

    /// Applies the delta to `base`, or says which bound is in the way.
    pub fn apply_to(&self, base: u128) -> (result: Result<u128, DeltaApplicationError>)
        ensures
            result == self.applied(base),
    {
        match self.update {
            SignedU128::Positive(v) => {
                if base <= self.max_value && v <= self.max_value - base {
                    Ok(base + v)
                } else {
                    Err(DeltaApplicationError::Overflow)
                }
            },
            SignedU128::Negative(v) => {
                if v <= base {
                    Ok(base - v)
                } else {
                    Err(DeltaApplicationError::Underflow)
                }
            },
        }
    }
}

/// A delta that applies adds its signed change to the base value.
pub proof fn lemma_applied_adds_change(delta: DeltaOp, base: u128)
    ensures
        delta.applied(base) matches Ok(value) ==> value == base + delta.update.signed(),
{
}

/// Two deltas on one aggregator commute: wherever both orders of
/// application succeed, they end in the same value, which is the base plus
/// both changes.
pub proof fn lemma_deltas_commute(base: u128, first: DeltaOp, second: DeltaOp)
    requires
        first.applied(base) is Ok,
        second.applied(first.applied(base)->Ok_0) is Ok,
        second.applied(base) is Ok,
        first.applied(second.applied(base)->Ok_0) is Ok,
    ensures
        second.applied(first.applied(base)->Ok_0) == first.applied(second.applied(base)->Ok_0),
        second.applied(first.applied(base)->Ok_0)->Ok_0 == base + first.update.signed()
            + second.update.signed(),
{
}

} // verus!
