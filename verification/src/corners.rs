//! The eight corners of a box, as signs along its axes. A box's corner `k`
//! lies half the box's extent along each axis from its center, on the side
//! that the sign gives. The order of the corners is fixed.
use vstd::prelude::*;

verus! {

/// An axis of a box's own frame.
#[derive(Clone, Copy, Debug, PartialEq, Eq)]
pub enum Axis {
    X,
    Y,
    Z,
}

/// The signs of the eight corners along an axis, in corner order.
pub open spec fn signs(axis: Axis) -> Seq<int> {
    match axis {
        Axis::X => seq![1, 1, 1, 1, -1, -1, -1, -1],
        Axis::Y => seq![1, -1, -1, 1, 1, -1, -1, 1],
        Axis::Z => seq![1, 1, -1, -1, 1, 1, -1, -1],
    }
}

/// The place, in a size given as width, length and height, of the extent
/// that lies along an axis: the length lies along x, the width along y, the
/// height along z.
pub open spec fn extent_of(axis: Axis) -> int {
    match axis {
        Axis::X => 1,
        Axis::Y => 0,
        Axis::Z => 2,
    }
}

/// The corner with the given signs along x, y and z.
pub open spec fn corner_of(sx: int, sy: int, sz: int) -> int {
    if sx == 1 {
        if sy == 1 {
            if sz == 1 {
                0
            } else {
                3
            }
        } else {
            if sz == 1 {
                1
            } else {
                2
            }
        }
    } else {
        if sy == 1 {
            if sz == 1 {
                4
            } else {
                7
            }
        } else {
            if sz == 1 {
                5
            } else {
                6
            }
        }
    }
}

/// The signs of the eight corners along an axis.
pub fn corner_signs(axis: Axis) -> (out: [i8; 8])
    ensures
        forall|k: int| 0 <= k < 8 ==> #[trigger] out[k] as int == signs(axis)[k],
{
    match axis {
        Axis::X => [1, 1, 1, 1, -1, -1, -1, -1],
        Axis::Y => [1, -1, -1, 1, 1, -1, -1, 1],
        Axis::Z => [1, 1, -1, -1, 1, 1, -1, -1],
    }
}

/// The place of an axis's extent in a size of width, length and height.
pub fn extent(axis: Axis) -> (out: usize)
    ensures
        out == extent_of(axis),
{
    match axis {
        Axis::X => 1,
        Axis::Y => 0,
        Axis::Z => 2,
    }
}

/// The eight corners are the eight combinations of signs, each once: every
/// combination is that of its corner, and every corner is the corner of its
/// combination.
pub proof fn law_corners_cover(sx: int, sy: int, sz: int, k: int)
    requires
        sx == 1 || sx == -1,
        sy == 1 || sy == -1,
        sz == 1 || sz == -1,
        0 <= k < 8,
    ensures
        0 <= corner_of(sx, sy, sz) < 8,
        signs(Axis::X)[corner_of(sx, sy, sz)] == sx,
        signs(Axis::Y)[corner_of(sx, sy, sz)] == sy,
        signs(Axis::Z)[corner_of(sx, sy, sz)] == sz,
        corner_of(signs(Axis::X)[k], signs(Axis::Y)[k], signs(Axis::Z)[k]) == k,
{
}

} // verus!
