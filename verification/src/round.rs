//! Rounding modes.
use vstd::prelude::*;

verus! {

/// How a number that a format cannot hold is replaced by one that it can.
#[derive(Clone, Copy, Debug, PartialEq, Eq, Structural)]
pub enum RoundingMode {
    /// To the nearest representable number; a tie goes to the one with an
    /// even significand.
    NearestTiesToEven,
    /// To the nearest representable number; a tie goes away from zero.
    NearestTiesToAway,
    /// To the nearest representable number; a tie goes to the one with an
    /// odd significand.
    NearestTiesToOdd,
    /// Toward zero: truncation.
    ToZero,
    /// Away from zero.
    AwayZero,
    /// Toward positive infinity.
    ToPositive,
    /// Toward negative infinity.
    ToNegative,
    /// To the neighbour with an even significand.
    ToEven,
    /// To the neighbour with an odd significand.
    ToOdd,
}

/// A rounding direction that does not depend on the sign of the number.
#[derive(Clone, Copy, Debug, PartialEq, Eq, Structural)]
pub enum RoundingDirection {
    ToZero,
    AwayZero,
    ToEven,
    ToOdd,
}

impl RoundingMode {
    /// Whether the mode rounds to the nearest representable number.
    pub open spec fn is_nearest(self) -> bool {
        self is NearestTiesToEven || self is NearestTiesToAway || self is NearestTiesToOdd
    }

    /// The direction in which a number of the given sign is rounded: the
    /// direction of the ties for a nearest mode, the direction itself
    /// otherwise.
    pub open spec fn direction(self, sign: bool) -> RoundingDirection {
        match self {
            RoundingMode::NearestTiesToEven => RoundingDirection::ToEven,
            RoundingMode::NearestTiesToAway => RoundingDirection::AwayZero,
            RoundingMode::NearestTiesToOdd => RoundingDirection::ToOdd,
            RoundingMode::ToZero => RoundingDirection::ToZero,
            RoundingMode::AwayZero => RoundingDirection::AwayZero,
            RoundingMode::ToPositive => if sign {
                RoundingDirection::ToZero
            } else {
                RoundingDirection::AwayZero
            },
            RoundingMode::ToNegative => if sign {
                RoundingDirection::AwayZero
            } else {
                RoundingDirection::ToZero
            },
            RoundingMode::ToEven => RoundingDirection::ToEven,
            RoundingMode::ToOdd => RoundingDirection::ToOdd,
        }
    }

    /// Resolves the mode for a number of the given sign into whether it
    /// rounds to nearest and a direction.
    pub fn to_direction(self, sign: bool) -> (r: (bool, RoundingDirection))
        ensures
            r.0 == self.is_nearest(),
            r.1 == self.direction(sign),
    {
        match self {
            RoundingMode::NearestTiesToEven => (true, RoundingDirection::ToEven),
            RoundingMode::NearestTiesToAway => (true, RoundingDirection::AwayZero),
            RoundingMode::NearestTiesToOdd => (true, RoundingDirection::ToOdd),
            RoundingMode::ToZero => (false, RoundingDirection::ToZero),
            RoundingMode::AwayZero => (false, RoundingDirection::AwayZero),
            RoundingMode::ToPositive => if sign {
                (false, RoundingDirection::ToZero)
            } else {
                (false, RoundingDirection::AwayZero)
            },
            RoundingMode::ToNegative => if sign {
                (false, RoundingDirection::AwayZero)
            } else {
                (false, RoundingDirection::ToZero)
            },
            RoundingMode::ToEven => (false, RoundingDirection::ToEven),
            RoundingMode::ToOdd => (false, RoundingDirection::ToOdd),
        }
    }
}

} // verus!
