//! The direction a range step walks and the test that a cursor is still
//! inside its range.

use core::cmp::Ordering;

use vstd::prelude::*;

verus! {

/// The direction a step walks; a zero step never advances, so it walks an
/// empty range.
#[derive(Debug, Clone, Copy, PartialEq, Eq, Structural)]
pub enum RangeDirection {
    Ascending,
    Descending,
    Empty,
}

/// The direction of a step whose sign is `sign`.
pub fn step_direction(sign: Ordering) -> (r: RangeDirection)
    ensures
        r == (match sign {
            Ordering::Greater => RangeDirection::Ascending,
            Ordering::Less => RangeDirection::Descending,
            Ordering::Equal => RangeDirection::Empty,
        }),
{
    match sign {
        Ordering::Greater => RangeDirection::Ascending,
        Ordering::Less => RangeDirection::Descending,
        Ordering::Equal => RangeDirection::Empty,
    }
}

/// The sign of a step, as an ordering against zero.
pub fn step_sign(step: i128) -> (r: Ordering)
    ensures
        r == (if step > 0 {
            Ordering::Greater
        } else if step < 0 {
            Ordering::Less
        } else {
            Ordering::Equal
        }),
{
    if step > 0 {
        Ordering::Greater
    } else if step < 0 {
        Ordering::Less
    } else {
        Ordering::Equal
    }
}

/// Whether a cursor at `current` is still inside a range ending at `end`.
pub open spec fn in_range_spec(current: int, end: int, inclusive: bool, direction: RangeDirection) -> bool {
    match direction {
        RangeDirection::Ascending => if inclusive {
            current <= end
        } else {
            current < end
        },
        RangeDirection::Descending => if inclusive {
            current >= end
        } else {
            current > end
        },
        RangeDirection::Empty => false,
    }
}

/// Whether a cursor at `current` is still inside a range ending at `end`,
/// walked in `direction`.
pub fn in_range(current: i128, end: i128, inclusive: bool, direction: RangeDirection) -> (r: bool)
    ensures
        r == in_range_spec(current as int, end as int, inclusive, direction),
{
    match direction {
        RangeDirection::Ascending => if inclusive {
            current <= end
        } else {
            current < end
        },
        RangeDirection::Descending => if inclusive {
            current >= end
        } else {
            current > end
        },
        RangeDirection::Empty => false,
    }
}

/// The direction a step of `step` walks.
pub fn direction_for(step: i128) -> (r: RangeDirection)
    ensures
        r == (if step > 0 {
            RangeDirection::Ascending
        } else if step < 0 {
            RangeDirection::Descending
        } else {
            RangeDirection::Empty
        }),
{
    step_direction(step_sign(step))
}

} // verus!
