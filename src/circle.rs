//! Midpoint circle rasterizer: the outline of a circle as integer points.

use vstd::prelude::*;

verus! {

/// The eight points `(±x, ±y)` and `(±y, ±x)` around the center, in the
/// order in which the rasterizer emits them.
pub open spec fn octet(cx: int, cy: int, x: int, y: int) -> Seq<(int, int)> {
    seq![
        (cx + x, cy - y),
        (cx + x, cy + y),
        (cx - x, cy - y),
        (cx - x, cy + y),
        (cx + y, cy - x),
        (cx + y, cy + x),
        (cx - y, cy - x),
        (cx - y, cy + x),
    ]
}

/// The points emitted from the state `(x, y, e)` on: one octet per step
/// while `x >= y`. The decision value `e` is `x² + y² - r²`; a non-positive
/// value moves `y` up, after which a positive value moves `x` down.
pub open spec fn circle_from(cx: int, cy: int, x: int, y: int, e: int) -> Seq<(int, int)>
    decreases x - y + 2,
{
    if x < y {
        seq![]
    } else {
        let y2 = if e <= 0 { y + 1 } else { y };
        let e2 = if e <= 0 { e + 2 * y + 1 } else { e };
        let x2 = if e2 > 0 { x - 1 } else { x };
        let e3 = if e2 > 0 { e2 - 2 * x + 1 } else { e2 };
        octet(cx, cy, x, y) + circle_from(cx, cy, x2, y2, e3)
    }
}

/// The outline of a circle of radius `r` around `(cx, cy)`.
pub open spec fn circle_points(cx: int, cy: int, r: int) -> Seq<(int, int)> {
    circle_from(cx, cy, r - 1, 0, 1 - 2 * r)
}

/// A sequence of machine points read as mathematical points.
pub open spec fn widen(s: Seq<(i32, i32)>) -> Seq<(int, int)> {
    s.map_values(|p: (i32, i32)| (p.0 as int, p.1 as int))
}

/// A point mirrored across the horizontal line through the center.
pub open spec fn mirror_horizontal(cx: int, cy: int, p: (int, int)) -> (int, int) {
    (p.0, 2 * cy - p.1)
}

/// A point mirrored across the vertical line through the center.
pub open spec fn mirror_vertical(cx: int, cy: int, p: (int, int)) -> (int, int) {
    (2 * cx - p.0, p.1)
}

/// A point mirrored across the diagonal `dx == dy` through the center.
pub open spec fn mirror_diagonal(cx: int, cy: int, p: (int, int)) -> (int, int) {
    (cx + (p.1 - cy), cy + (p.0 - cx))
}

/// A point mirrored across the diagonal `dx == -dy` through the center.
pub open spec fn mirror_antidiagonal(cx: int, cy: int, p: (int, int)) -> (int, int) {
    (cx - (p.1 - cy), cy - (p.0 - cx))
}

/// The point at index `i` of `s` has its four mirror images around
/// `(cx, cy)` in `s`.
pub open spec fn mirrors_present(s: Seq<(int, int)>, cx: int, cy: int, i: int) -> bool {
    let p = s[i];
    &&& s.contains(mirror_horizontal(cx, cy, p))
    &&& s.contains(mirror_vertical(cx, cy, p))
    &&& s.contains(mirror_diagonal(cx, cy, p))
    &&& s.contains(mirror_antidiagonal(cx, cy, p))
}

/// Every point of `s` has its four mirror images around `(cx, cy)` in `s`.
pub open spec fn symmetric_around(s: Seq<(int, int)>, cx: int, cy: int) -> bool {
    forall|i: int| 0 <= i < s.len() ==> #[trigger] mirrors_present(s, cx, cy, i)
}

proof fn lemma_octet_mirror_horizontal(cx: int, cy: int, x: int, y: int, i: int)
    requires
        0 <= i < 8,
    ensures
        octet(cx, cy, x, y).contains(mirror_horizontal(cx, cy, octet(cx, cy, x, y)[i])),
{
    let o = octet(cx, cy, x, y);
    let j: int = if i == 0 {
        1
    } else if i == 1 {
        0
    } else if i == 2 {
        3
    } else if i == 3 {
        2
    } else if i == 4 {
        5
    } else if i == 5 {
        4
    } else if i == 6 {
        7
    } else {
        6
    };
    assert(o[j] == mirror_horizontal(cx, cy, o[i]));
}

proof fn lemma_octet_mirror_vertical(cx: int, cy: int, x: int, y: int, i: int)
    requires
        0 <= i < 8,
    ensures
        octet(cx, cy, x, y).contains(mirror_vertical(cx, cy, octet(cx, cy, x, y)[i])),
{
    let o = octet(cx, cy, x, y);
    let j: int = if i == 0 {
        2
    } else if i == 1 {
        3
    } else if i == 2 {
        0
    } else if i == 3 {
        1
    } else if i == 4 {
        6
    } else if i == 5 {
        7
    } else if i == 6 {
        4
    } else {
        5
    };
    assert(o[j] == mirror_vertical(cx, cy, o[i]));
}

proof fn lemma_octet_mirror_diagonal(cx: int, cy: int, x: int, y: int, i: int)
    requires
        0 <= i < 8,
    ensures
        octet(cx, cy, x, y).contains(mirror_diagonal(cx, cy, octet(cx, cy, x, y)[i])),
{
    let o = octet(cx, cy, x, y);
    let j: int = if i == 0 {
        7
    } else if i == 1 {
        5
    } else if i == 2 {
        6
    } else if i == 3 {
        4
    } else if i == 4 {
        3
    } else if i == 5 {
        1
    } else if i == 6 {
        2
    } else {
        0
    };
    assert(o[j] == mirror_diagonal(cx, cy, o[i]));
}

proof fn lemma_octet_mirror_antidiagonal(cx: int, cy: int, x: int, y: int, i: int)
    requires
        0 <= i < 8,
    ensures
        octet(cx, cy, x, y).contains(mirror_antidiagonal(cx, cy, octet(cx, cy, x, y)[i])),
{
    let o = octet(cx, cy, x, y);
    let j: int = if i == 0 {
        4
    } else if i == 1 {
        6
    } else if i == 2 {
        5
    } else if i == 3 {
        7
    } else if i == 4 {
        0
    } else if i == 5 {
        2
    } else if i == 6 {
        1
    } else {
        3
    };
    assert(o[j] == mirror_antidiagonal(cx, cy, o[i]));
}

proof fn lemma_octet_symmetric(cx: int, cy: int, x: int, y: int)
    ensures
        symmetric_around(octet(cx, cy, x, y), cx, cy),
{
    let o = octet(cx, cy, x, y);
    assert forall|i: int| 0 <= i < o.len() implies #[trigger] mirrors_present(o, cx, cy, i) by {
        lemma_octet_mirror_horizontal(cx, cy, x, y, i);
        lemma_octet_mirror_vertical(cx, cy, x, y, i);
        lemma_octet_mirror_diagonal(cx, cy, x, y, i);
        lemma_octet_mirror_antidiagonal(cx, cy, x, y, i);
    }
}

proof fn lemma_contains_concat(s: Seq<(int, int)>, t: Seq<(int, int)>, q: (int, int))
    requires
        s.contains(q) || t.contains(q),
    ensures
        (s + t).contains(q),
{
    if s.contains(q) {
        let j = choose|j: int| 0 <= j < s.len() && s[j] == q;
        assert((s + t)[j] == q);
    } else {
        let j = choose|j: int| 0 <= j < t.len() && t[j] == q;
        assert((s + t)[j + s.len()] == q);
    }
}

proof fn lemma_concat_symmetric(s: Seq<(int, int)>, t: Seq<(int, int)>, cx: int, cy: int)
    requires
        symmetric_around(s, cx, cy),
        symmetric_around(t, cx, cy),
    ensures
        symmetric_around(s + t, cx, cy),
{
    let u = s + t;
    assert forall|i: int| 0 <= i < u.len() implies #[trigger] mirrors_present(u, cx, cy, i) by {
        let p = u[i];
        if i < s.len() {
            assert(p == s[i]);
            assert(mirrors_present(s, cx, cy, i));
        } else {
            assert(p == t[i - s.len()]);
            assert(mirrors_present(t, cx, cy, i - s.len()));
        }
        lemma_contains_concat(s, t, mirror_horizontal(cx, cy, p));
        lemma_contains_concat(s, t, mirror_vertical(cx, cy, p));
        lemma_contains_concat(s, t, mirror_diagonal(cx, cy, p));
        lemma_contains_concat(s, t, mirror_antidiagonal(cx, cy, p));
    }
}

proof fn lemma_circle_from_symmetric(cx: int, cy: int, x: int, y: int, e: int)
    ensures
        symmetric_around(circle_from(cx, cy, x, y, e), cx, cy),
    decreases x - y + 2,
{
    if x >= y {
        let y2 = if e <= 0 { y + 1 } else { y };
        let e2 = if e <= 0 { e + 2 * y + 1 } else { e };
        let x2 = if e2 > 0 { x - 1 } else { x };
        let e3 = if e2 > 0 { e2 - 2 * x + 1 } else { e2 };
        lemma_circle_from_symmetric(cx, cy, x2, y2, e3);
        lemma_octet_symmetric(cx, cy, x, y);
        lemma_concat_symmetric(octet(cx, cy, x, y), circle_from(cx, cy, x2, y2, e3), cx, cy);
    }
}

/// The outline is symmetric: each point's mirror images across both axes
/// and both diagonals through the center are points of the outline too.
pub proof fn lemma_circle_symmetric(cx: int, cy: int, r: int)
    requires
        r >= 1,
    ensures
        symmetric_around(circle_points(cx, cy, r), cx, cy),
{
    lemma_circle_from_symmetric(cx, cy, r - 1, 0, 1 - 2 * r);
}

/// A circle of positive radius has a non-empty outline; in particular the
/// smallest one, of radius 1, does.
pub proof fn lemma_circle_nonempty(cx: int, cy: int, r: int)
    requires
        r >= 1,
    ensures
        circle_points(cx, cy, r).len() >= 8,
{
    assert(circle_points(cx, cy, r).len() >= 8);
}

/// The squared distance of `p` from `(cx, cy)`.
pub open spec fn dist2(cx: int, cy: int, p: (int, int)) -> int {
    (p.0 - cx) * (p.0 - cx) + (p.1 - cy) * (p.1 - cy)
}

proof fn lemma_octet_ring(cx: int, cy: int, x: int, y: int)
    ensures
        forall|i: int|
            0 <= i < 8 ==> dist2(cx, cy, #[trigger] octet(cx, cy, x, y)[i]) == x * x + y * y,
{
    assert((-x) * (-x) == x * x) by (nonlinear_arith);
    assert((-y) * (-y) == y * y) by (nonlinear_arith);
}

proof fn lemma_circle_from_ring(cx: int, cy: int, r: int, x: int, y: int, e: int)
    requires
        0 <= y,
        x <= r - 1,
        e == x * x + y * y - r * r,
        x >= y ==> -2 * x - 1 <= e <= 0,
    ensures
        forall|i: int|
            0 <= i < circle_from(cx, cy, x, y, e).len() ==> (r - 1) * (r - 1) <= dist2(
                cx,
                cy,
                #[trigger] circle_from(cx, cy, x, y, e)[i],
            ) <= r * r,
    decreases x - y + 2,
{
    if x >= y {
        let y2 = if e <= 0 { y + 1 } else { y };
        let e2 = if e <= 0 { e + 2 * y + 1 } else { e };
        let x2 = if e2 > 0 { x - 1 } else { x };
        let e3 = if e2 > 0 { e2 - 2 * x + 1 } else { e2 };
        assert(e3 == x2 * x2 + y2 * y2 - r * r) by (nonlinear_arith)
            requires
                e == x * x + y * y - r * r,
                e <= 0,
                y2 == y + 1,
                e2 == e + 2 * y + 1,
                x2 == (if e2 > 0 { x - 1 } else { x }),
                e3 == (if e2 > 0 { e2 - 2 * x + 1 } else { e2 }),
        ;
        lemma_circle_from_ring(cx, cy, r, x2, y2, e3);
        lemma_octet_ring(cx, cy, x, y);
        assert((r - 1) * (r - 1) <= x * x + y * y) by (nonlinear_arith)
            requires
                e == x * x + y * y - r * r,
                -2 * x - 1 <= e,
                x <= r - 1,
        ;
        let o = octet(cx, cy, x, y);
        let rest = circle_from(cx, cy, x2, y2, e3);
        assert(circle_from(cx, cy, x, y, e) == o + rest);
        assert forall|i: int| 0 <= i < (o + rest).len() implies (r - 1) * (r - 1) <= dist2(
            cx,
            cy,
            #[trigger] (o + rest)[i],
        ) <= r * r by {
            if i >= 8 {
                assert((o + rest)[i] == rest[i - 8]);
            } else {
                assert((o + rest)[i] == o[i]);
            }
        }
    }
}

/// Every point of the outline lies between the circles of radius `r - 1`
/// and `r` around the center: the outline keeps within one pixel of the
/// true circle.
pub proof fn lemma_circle_within_one_pixel(cx: int, cy: int, r: int)
    requires
        r >= 1,
    ensures
        forall|i: int|
            0 <= i < circle_points(cx, cy, r).len() ==> (r - 1) * (r - 1) <= dist2(
                cx,
                cy,
                #[trigger] circle_points(cx, cy, r)[i],
            ) <= r * r,
{
    assert((r - 1) * (r - 1) - r * r == 1 - 2 * r) by (nonlinear_arith);
    lemma_circle_from_ring(cx, cy, r, r - 1, 0, 1 - 2 * r);
}

/// The outline of a circle of radius `r` around `(center_x, center_y)`,
/// by the midpoint algorithm with eight-way symmetry. Points near the
/// diagonals may repeat.
pub fn get_circle(center_x: i32, center_y: i32, r: i32) -> (points: Vec<(i32, i32)>)
    requires
        r >= 1 ==> i32::MIN + (r - 1) <= center_x <= i32::MAX - (r - 1),
        r >= 1 ==> i32::MIN + (r - 1) <= center_y <= i32::MAX - (r - 1),
    ensures
        widen(points@) == circle_points(center_x as int, center_y as int, r as int),
{
    if r < 1 {
        return Vec::new();
    }
    let r2: i64 = 2 * (r as i64);
    let mut x: i64 = r as i64 - 1;
    let mut y: i64 = 0;
    let mut tx: i64 = 1;
    let mut ty: i64 = 1;
    let mut error: i64 = tx - r2;
    let mut points: Vec<(i32, i32)> = Vec::new();
    let cx = center_x as i64;
    let cy = center_y as i64;
    let ghost whole = circle_points(center_x as int, center_y as int, r as int);
    assert(error == x * x + y * y - r * r) by (nonlinear_arith)
        requires
            x == r - 1,
            y == 0,
            error == 1 - 2 * r,
    ;
    while x >= y
        invariant
            r2 == 2 * r,
            cx == center_x,
            cy == center_y,
            0 <= y,
            x <= r - 1,
            y <= x + 2,
            r >= 1,
            ty == 2 * y + 1,
            tx == 2 * (r - x) - 1,
            error == x * x + y * y - r * r,
            r >= 1 ==> i32::MIN + (r - 1) <= center_x <= i32::MAX - (r - 1),
            r >= 1 ==> i32::MIN + (r - 1) <= center_y <= i32::MAX - (r - 1),
            widen(points@) + circle_from(cx as int, cy as int, x as int, y as int, error as int)
                == whole,
        decreases x - y + 2,
    {
        proof {
            assert(x * x <= (r - 1) * (r - 1)) by (nonlinear_arith)
                requires
                    0 <= x <= r - 1,
            ;
            assert(y * y <= x * x) by (nonlinear_arith)
                requires
                    0 <= y <= x,
            ;
            assert(r * r < 0x4000_0000_0000_0000) by (nonlinear_arith)
                requires
                    1 <= r < 0x8000_0000,
            ;
            assert(-0x4000_0000_0000_0000 < error < 0x4000_0000_0000_0000) by (nonlinear_arith)
                requires
                    error == x * x + y * y - r * r,
                    0 <= y <= x <= r - 1,
                    r * r < 0x4000_0000_0000_0000,
            ;
        }
        let ghost before = points@;
        points.push(((cx + x) as i32, (cy - y) as i32));
        points.push(((cx + x) as i32, (cy + y) as i32));
        points.push(((cx - x) as i32, (cy - y) as i32));
        points.push(((cx - x) as i32, (cy + y) as i32));
        points.push(((cx + y) as i32, (cy - x) as i32));
        points.push(((cx + y) as i32, (cy + x) as i32));
        points.push(((cx - y) as i32, (cy - x) as i32));
        points.push(((cx - y) as i32, (cy + x) as i32));
        let ghost ox = x as int;
        let ghost oy = y as int;
        let ghost oe = error as int;
        if error <= 0 {
            y = y + 1;
            error = error + ty;
            ty = ty + 2;
        }
        if error > 0 {
            x = x - 1;
            tx = tx + 2;
            error = error + (tx - r2);
        }
        proof {
            assert(widen(points@) == widen(before) + octet(cx as int, cy as int, ox, oy));
            assert(circle_from(cx as int, cy as int, ox, oy, oe) == octet(
                cx as int,
                cy as int,
                ox,
                oy,
            ) + circle_from(cx as int, cy as int, x as int, y as int, error as int));
            assert(error == x * x + y * y - r * r) by (nonlinear_arith)
                requires
                    error == oe + (if oe <= 0 { 2 * oy + 1 } else { 0 }) + (if x < ox { -2 * ox + 1 } else { 0 }),
                    y == (if oe <= 0 { oy + 1 } else { oy }),
                    x == ox || x == ox - 1,
                    oe == ox * ox + oy * oy - r * r,
            ;
        }
    }
    points
}

} // verus!
