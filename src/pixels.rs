//! Placing a particle's outline on the screen's pixel grid.

use vstd::prelude::*;

verus! {

/// A real screen coordinate as the grid sees it: `whole` is its floor, and
/// `fractional` tells whether it lies strictly between two integers.
#[derive(Clone, Copy, Debug, PartialEq, Eq, Structural)]
pub struct Anchor {
    pub whole: i64,
    pub fractional: bool,
}

/// The coordinate `a + d` truncated toward zero, where `None` stands for a
/// coordinate that is not a number and always lands on zero.
pub open spec fn truncated_shift(a: Option<Anchor>, d: int) -> int {
    match a {
        None => 0,
        Some(a) => if a.fractional && a.whole + d < 0 {
            a.whole + d + 1
        } else {
            a.whole + d
        },
    }
}

/// `v` brought into the range of `i32` by saturation.
pub open spec fn saturate_i32(v: int) -> int {
    if v < i32::MIN {
        i32::MIN as int
    } else if v > i32::MAX {
        i32::MAX as int
    } else {
        v
    }
}

/// The pixel of the outline offset `off` for a particle at `(x, y)`.
pub open spec fn placed(off: (i32, i32), x: Option<Anchor>, y: Option<Anchor>) -> (int, int) {
    (saturate_i32(truncated_shift(x, off.0 as int)), saturate_i32(truncated_shift(y, off.1 as int)))
}

fn shift_axis(a: Option<Anchor>, d: i32) -> (v: i32)
    ensures
        v == saturate_i32(truncated_shift(a, d as int)),
{
    match a {
        None => 0,
        Some(a) => {
            let mut s: i128 = a.whole as i128 + d as i128;
            if a.fractional && s < 0 {
                s = s + 1;
            }
            if s < i32::MIN as i128 {
                i32::MIN
            } else if s > i32::MAX as i128 {
                i32::MAX
            } else {
                s as i32
            }
        },
    }
}

/// The outline `offsets`, drawn around a particle at `(x, y)`: each offset
/// added to the position and truncated toward zero onto the grid, as a
/// float-to-integer cast does, saturating at the range of `i32`.
pub fn translate_outline(offsets: &Vec<(i32, i32)>, x: Option<Anchor>, y: Option<Anchor>) -> (pts:
    Vec<(i32, i32)>)
    ensures
        pts@.len() == offsets@.len(),
        forall|i: int|
            0 <= i < pts@.len() ==> (#[trigger] pts@[i]).0 == placed(offsets@[i], x, y).0
                && pts@[i].1 == placed(offsets@[i], x, y).1,
{
    let mut pts: Vec<(i32, i32)> = Vec::with_capacity(offsets.len());
    let mut i: usize = 0;
    while i < offsets.len()
        invariant
            i <= offsets@.len(),
            pts@.len() == i,
            forall|j: int|
                0 <= j < i ==> (#[trigger] pts@[j]).0 == placed(offsets@[j], x, y).0
                    && pts@[j].1 == placed(offsets@[j], x, y).1,
        decreases offsets@.len() - i,
    {
        let off = offsets[i];
        pts.push((shift_axis(x, off.0), shift_axis(y, off.1)));
        i = i + 1;
    }
    pts
}

} // verus!
