//! The direction in which the keys that are held down move the viewer.

use vstd::prelude::*;

verus! {

/// The movement keys, each with whether it is held down.
#[derive(Clone, Copy, Debug, PartialEq, Eq, Structural)]
pub struct MoveKeys {
    /// Towards negative `z`.
    pub forward: bool,
    /// Towards negative `x`.
    pub left: bool,
    /// Towards positive `z`.
    pub back: bool,
    /// Towards positive `x`.
    pub right: bool,
    /// Towards positive `y`.
    pub up: bool,
    /// Towards negative `y`.
    pub down: bool,
}

/// A movement in whole steps along the three axes.
#[derive(Clone, Copy, Debug, PartialEq, Eq, Structural)]
pub struct Step {
    pub x: i32,
    pub y: i32,
    pub z: i32,
}

/// One if the key is held down, zero otherwise.
pub open spec fn held(key: bool) -> int {
    if key {
        1
    } else {
        0
    }
}

/// The sum of the unit steps of the keys that are held down: opposite keys
/// cancel.
pub open spec fn step_of(keys: MoveKeys) -> Step {
    Step {
        x: (held(keys.right) - held(keys.left)) as i32,
        y: (held(keys.up) - held(keys.down)) as i32,
        z: (held(keys.back) - held(keys.forward)) as i32,
    }
}

/// The square of the length of a step.
pub open spec fn length_squared(step: Step) -> int {
    step.x * step.x + step.y * step.y + step.z * step.z
}

/// The sum of the unit steps of the keys that are held down.
pub fn move_vector(keys: MoveKeys) -> (step: Step)
    ensures
        step == step_of(keys),
        -1 <= step.x <= 1,
        -1 <= step.y <= 1,
        -1 <= step.z <= 1,
{
    let mut step = Step { x: 0, y: 0, z: 0 };
    if keys.forward {
        step.z = step.z - 1;
    }
    if keys.left {
        step.x = step.x - 1;
    }
    if keys.back {
        step.z = step.z + 1;
    }
    if keys.right {
        step.x = step.x + 1;
    }
    if keys.up {
        step.y = step.y + 1;
    }
    if keys.down {
        step.y = step.y - 1;
    }
    step
}

/// The square of a whole number is zero for zero, one for a unit and at
/// least four otherwise.
proof fn lemma_square(v: int)
    ensures
        v == 0 ==> v * v == 0,
        v == 1 || v == -1 ==> v * v == 1,
        v > 1 || v < -1 ==> v * v >= 4,
{
    assert(v == 0 ==> v * v == 0) by (nonlinear_arith);
    assert(v == 1 || v == -1 ==> v * v == 1) by (nonlinear_arith);
    assert(v > 1 || v < -1 ==> v * v >= 4) by (nonlinear_arith);
}

/// Whether a step is longer than one unit, so that it has to be scaled
/// down to unit length before it is applied: moving along two or three
/// axes at once is no faster than moving along one.
pub fn is_diagonal(step: Step) -> (diagonal: bool)
    ensures
        diagonal == (length_squared(step) > 1),
{
    proof {
        lemma_square(step.x as int);
        lemma_square(step.y as int);
        lemma_square(step.z as int);
    }
    let far = step.x > 1 || step.x < -1 || step.y > 1 || step.y < -1 || step.z > 1 || step.z < -1;
    let moving_x = step.x != 0;
    let moving_y = step.y != 0;
    let moving_z = step.z != 0;
    far || (moving_x && moving_y) || (moving_x && moving_z) || (moving_y && moving_z)
}

} // verus!
