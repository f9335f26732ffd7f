//! The velocity range of a synthesizer.

use vstd::prelude::*;

verus! {

/// The bounds of a velocity range, kept usable: the floor at most 126, the
/// ceiling between the floor and 127.
pub open spec fn usable_bounds(velocity_min: u8, velocity_max: u8) -> (u8, u8) {
    let low = if velocity_min < 126 {
        velocity_min
    } else {
        126
    };
    let high = if velocity_max < low {
        low
    } else if velocity_max > 127 {
        127
    } else {
        velocity_max
    };
    (low, high)
}

/// The bounds that the velocity of a pixel is mapped onto, or clamped to. They
/// define the velocity range, not a silence threshold.
pub fn velocity_bounds(velocity_min: u8, velocity_max: u8) -> (bounds: (u8, u8))
    ensures
        bounds == usable_bounds(velocity_min, velocity_max),
        bounds.0 <= bounds.1 <= 127,
{
    let low: u8 = if velocity_min < 126 {
        velocity_min
    } else {
        126
    };
    let high: u8 = if velocity_max < low {
        low
    } else if velocity_max > 127 {
        127
    } else {
        velocity_max
    };
    (low, high)
}

/// A velocity brought into its range, at least one.
pub open spec fn bounded(velocity: int, low: u8, high: u8) -> int {
    if velocity < low || velocity < 1 {
        if low < 1 {
            1
        } else {
            low as int
        }
    } else if velocity > high {
        high as int
    } else {
        velocity
    }
}

/// Brings a velocity into its range. A velocity is at least one: a Note On of
/// velocity zero would be a Note Off.
pub fn bounded_velocity(velocity: i32, low: u8, high: u8) -> (kept: u8)
    requires
        low <= high,
        1 <= high,
    ensures
        kept == self::bounded(velocity as int, low, high),
        1 <= kept <= high,
{
    let floor: u8 = if low < 1 {
        1
    } else {
        low
    };
    if velocity < floor as i32 {
        floor
    } else if velocity > high as i32 {
        high
    } else {
        velocity as u8
    }
}

/// Whatever the mapping of a saturation gives, the velocity that is sent lies
/// in the range and sounds (a Note On of velocity zero would be a Note Off); a
/// stronger one is never made weaker, and the bounds themselves stay.
pub proof fn velocities_stay_usable(velocity_min: u8, velocity_max: u8, weaker: int, stronger: int)
    requires
        velocity_max >= 1,
        weaker <= stronger,
    ensures
        ({
            let (low, high) = usable_bounds(velocity_min, velocity_max);
            let floor = bounded(low as int, low, high);
            &&& 1 <= floor <= bounded(weaker, low, high)
            &&& bounded(weaker, low, high) <= bounded(stronger, low, high) <= high
            &&& bounded(high as int, low, high) == high
            &&& floor == (if low < 1 {
                1
            } else {
                low as int
            })
        }),
{
}

} // verus!
