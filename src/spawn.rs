//! Initial placement of the orbiting particles.

use rand::Rng;
use vstd::prelude::*;

verus! {

/// Width of the drawing surface in pixels.
pub const SCREEN_WIDTH: i32 = 1920;

/// Height of the drawing surface in pixels.
pub const SCREEN_HEIGHT: i32 = 1080;

/// Rust's remainder on integers: truncating, with the sign of `a`.
pub open spec fn truncated_rem(a: int, m: int) -> int {
    if a >= 0 {
        a % m
    } else {
        -((-a) % m)
    }
}

/// The starting pixel of a particle drawn from two random integers: the
/// first reduced by the screen width, the second by twice the screen
/// height and lifted by half the height, so that particles spread above and
/// below the visible area.
pub open spec fn start_cell(rx: int, ry: int) -> (int, int) {
    (truncated_rem(rx, SCREEN_WIDTH as int), truncated_rem(ry, 2 * SCREEN_HEIGHT) - SCREEN_HEIGHT / 2)
}

/// The starting pixel for the random integers `rx` and `ry`.
pub fn start_position(rx: i32, ry: i32) -> (p: (i32, i32))
    ensures
        p.0 == start_cell(rx as int, ry as int).0,
        p.1 == start_cell(rx as int, ry as int).1,
{
    let x = rx % SCREEN_WIDTH;
    let y = ry % (2 * SCREEN_HEIGHT) - SCREEN_HEIGHT / 2;
    (x, y)
}

/// Relies on rand's `thread_rng().gen::<i32>()`: a value drawn from the
/// thread-local generator, any `i32` possible. Nothing more is known of it.
/// (rand panics here only if the operating system's entropy source fails
/// when the generator is first seeded.)
#[verifier::external_body]
fn random_i32() -> (v: i32) {
    rand::thread_rng().gen()
}

/// A random starting pixel for a new particle: `x` within one screen width
/// of zero, `y` within twice the screen height of minus half the height.
pub fn spawn_position() -> (p: (i32, i32))
    ensures
        exists|rx: i32, ry: i32| (p.0 as int, p.1 as int) == #[trigger] start_cell(rx as int, ry as int),
        -SCREEN_WIDTH < p.0 < SCREEN_WIDTH,
        -2 * SCREEN_HEIGHT - SCREEN_HEIGHT / 2 < p.1 < 2 * SCREEN_HEIGHT - SCREEN_HEIGHT / 2,
{
    let rx = random_i32();
    let ry = random_i32();
    start_position(rx, ry)
}

} // verus!
