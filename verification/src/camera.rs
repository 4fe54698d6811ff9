//! The camera: where the viewer stands and which way the view faces, how it
//! turns and how it moves without entering walls.

use vstd::prelude::*;

use crate::fixed::{cell_index, clamp_i32, floor_div, floor_sqrt, is_sqrt, isqrt, split_cell};
use crate::tile_map::{MapView, TileMap};

verus! {

/// How many cells the camera moves in one second.
pub const MOVE_SPEED: i64 = 5;

/// A viewer's pose in the map. Every field is a 16.16 fixed-point number.
///
/// `(dir_x, dir_y)` points along the view; `(plane_x, plane_y)` spans half the
/// width of the view at distance one, so the ratio of its length to that of
/// the direction sets the field of view.
#[derive(Debug, Clone, Copy, PartialEq, Eq, Structural)]
pub struct Camera {
    pub x: i32,
    pub y: i32,
    pub dir_x: i32,
    pub dir_y: i32,
    pub plane_x: i32,
    pub plane_y: i32,
}

/// The `x` component of the vector `(a, b)` turned by the angle whose cosine
/// and sine are `cos` and `sin`, limited to the range of `i32`.
pub open spec fn turned_x(a: int, b: int, cos: int, sin: int) -> int {
    clamp_i32((a * cos - b * sin) / 65536)
}

/// The `y` component of the vector `(a, b)` turned by the angle whose cosine
/// and sine are `cos` and `sin`, limited to the range of `i32`.
pub open spec fn turned_y(a: int, b: int, cos: int, sin: int) -> int {
    clamp_i32((a * sin + b * cos) / 65536)
}

/// The sum of the movement intents along `x`: forward and back along the
/// direction, right and left along its perpendicular `(-dir_y, dir_x)`.
pub open spec fn intent_x(
    camera: Camera,
    forward: bool,
    back: bool,
    left: bool,
    right: bool,
) -> int {
    (if forward { camera.dir_x as int } else { 0 }) - (if back { camera.dir_x as int } else { 0 })
        - (if right { camera.dir_y as int } else { 0 }) + (if left { camera.dir_y as int } else { 0 })
}

/// The sum of the movement intents along `y`.
pub open spec fn intent_y(
    camera: Camera,
    forward: bool,
    back: bool,
    left: bool,
    right: bool,
) -> int {
    (if forward { camera.dir_y as int } else { 0 }) - (if back { camera.dir_y as int } else { 0 })
        + (if right { camera.dir_x as int } else { 0 }) - (if left { camera.dir_x as int } else { 0 })
}

/// The distance covered in `elapsed` seconds.
pub open spec fn step_length(elapsed: int) -> int {
    MOVE_SPEED * elapsed
}

/// One component of the displacement along the vector `(mx, my)` whose
/// length, rounded down, is `len`: the component `m` scaled so that the
/// vector has length `step`. No displacement when the vector has no length.
pub open spec fn displacement(m: int, len: int, step: int) -> int {
    if len == 0 {
        0
    } else {
        m * step / len
    }
}

/// The coordinate `from + delta` along `x` when the cell at it, with the
/// other coordinate `other`, is not solid; `from` when it is.
pub open spec fn slide_x(map: MapView, from: int, other: int, delta: int) -> int {
    if map.solid(cell_index(from + delta), cell_index(other)) {
        from
    } else {
        from + delta
    }
}

/// The coordinate `from + delta` along `y` when the cell at it, with the
/// other coordinate `other`, is not solid; `from` when it is.
pub open spec fn slide_y(map: MapView, from: int, other: int, delta: int) -> int {
    if map.solid(cell_index(other), cell_index(from + delta)) {
        from
    } else {
        from + delta
    }
}

/// A camera that stands in a cell that is not solid stands in such a cell
/// after any attempt to move: it never enters a wall and never leaves the
/// map.
pub proof fn lemma_slide_stays_clear(camera: Camera, map: MapView, dx: int, dy: int)
    requires
        map.wf(),
        !map.solid(cell_index(camera.x as int), cell_index(camera.y as int)),
    ensures
        !map.solid(
            cell_index(camera.slid(map, dx, dy).x as int),
            cell_index(camera.slid(map, dx, dy).y as int),
        ),
        map.contains(
            cell_index(camera.slid(map, dx, dy).x as int),
            cell_index(camera.slid(map, dx, dy).y as int),
        ),
{
    let x = slide_x(map, camera.x as int, camera.y as int, dx);
    assert(!map.solid(cell_index(x), cell_index(camera.y as int)));
    assert(map.contains(cell_index(x), cell_index(camera.y as int)));
    let y = slide_y(map, camera.y as int, x, dy);
    assert(!map.solid(cell_index(x), cell_index(y)));
    assert(map.contains(cell_index(x), cell_index(y)));
}

/// A turn by the angle zero leaves a vector as it is.
pub proof fn lemma_turn_by_zero(a: int, b: int)
    requires
        i32::MIN <= a <= i32::MAX,
        i32::MIN <= b <= i32::MAX,
    ensures
        turned_x(a, b, 65536, 0) == a,
        turned_y(a, b, 65536, 0) == b,
{
    assert(a * 65536 - b * 0 == a * 65536) by (nonlinear_arith);
    assert(a * 0 + b * 65536 == b * 65536) by (nonlinear_arith);
}

/// A component of a vector is never longer than the vector.
pub proof fn lemma_component_within_length(mx: int, my: int, len: int)
    by (nonlinear_arith)
    requires
        is_sqrt(mx * mx + my * my, len),
    ensures
        -len <= mx <= len,
        -len <= my <= len,
{
}

/// A displacement is never longer than the step it was scaled to.
pub proof fn lemma_displacement_within_step(m: int, len: int, step: int)
    requires
        -len <= m <= len,
    ensures
        step >= 0 ==> -step <= displacement(m, len, step) <= step,
        step < 0 ==> step <= displacement(m, len, step) <= -step,
{
    if len > 0 {
        let n = m * step;
        let q = n / len;
        let r = n % len;
        vstd::arithmetic::div_mod::lemma_fundamental_div_mod(n, len);
        vstd::arithmetic::div_mod::lemma_mod_bound(n, len);
        if step >= 0 {
            assert(-step <= q <= step) by (nonlinear_arith)
                requires
                    n == len * q + r,
                    0 <= r < len,
                    n == m * step,
                    -len <= m <= len,
                    step >= 0,
                    len > 0,
            ;
        } else {
            assert(step <= q <= -step) by (nonlinear_arith)
                requires
                    n == len * q + r,
                    0 <= r < len,
                    n == m * step,
                    -len <= m <= len,
                    step < 0,
                    len > 0,
            ;
        }
    }
}

/// `v` limited to the range of `i32`.
fn clamp_to_i32(v: i128) -> (r: i32)
    ensures
        r == clamp_i32(v as int),
{
    if v < i32::MIN as i128 {
        i32::MIN
    } else if v > i32::MAX as i128 {
        i32::MAX
    } else {
        v as i32
    }
}

/// Turns the vector `(a, b)` by the angle whose cosine and sine are `cos` and
/// `sin`.
fn turn_vector(a: i32, b: i32, cos: i32, sin: i32) -> (r: (i32, i32))
    ensures
        r.0 == turned_x(a as int, b as int, cos as int, sin as int),
        r.1 == turned_y(a as int, b as int, cos as int, sin as int),
{
    assert(-0x8000_0000 * 0x8000_0000 <= a * cos <= 0x8000_0000 * 0x8000_0000
        && -0x8000_0000 * 0x8000_0000 <= b * sin <= 0x8000_0000 * 0x8000_0000
        && -0x8000_0000 * 0x8000_0000 <= a * sin <= 0x8000_0000 * 0x8000_0000
        && -0x8000_0000 * 0x8000_0000 <= b * cos <= 0x8000_0000 * 0x8000_0000)
        by (nonlinear_arith)
        requires
            -0x8000_0000 <= a <= 0x8000_0000,
            -0x8000_0000 <= b <= 0x8000_0000,
            -0x8000_0000 <= cos <= 0x8000_0000,
            -0x8000_0000 <= sin <= 0x8000_0000,
    ;
    let x = floor_div((a as i128) * (cos as i128) - (b as i128) * (sin as i128), 65536);
    let y = floor_div((a as i128) * (sin as i128) + (b as i128) * (cos as i128), 65536);
    (clamp_to_i32(x), clamp_to_i32(y))
}

impl Camera {
    /// The camera after a turn by the angle whose cosine and sine are `cos`
    /// and `sin`: direction and plane are turned alike, the position stays.
    pub open spec fn turned(self, cos: int, sin: int) -> Camera {
        Camera {
            x: self.x,
            y: self.y,
            dir_x: turned_x(self.dir_x as int, self.dir_y as int, cos, sin) as i32,
            dir_y: turned_y(self.dir_x as int, self.dir_y as int, cos, sin) as i32,
            plane_x: turned_x(self.plane_x as int, self.plane_y as int, cos, sin) as i32,
            plane_y: turned_y(self.plane_x as int, self.plane_y as int, cos, sin) as i32,
        }
    }

    /// The camera after an attempt to move by `(dx, dy)`: first along `x`,
    /// then, from where that left it, along `y`. Each part is made in full
    /// when the cell it leads to is not solid, and not at all when it is.
    pub open spec fn slid(self, map: MapView, dx: int, dy: int) -> Camera {
        let x = slide_x(map, self.x as int, self.y as int, dx);
        let y = slide_y(map, self.y as int, x, dy);
        Camera { x: x as i32, y: y as i32, ..self }
    }

    /// The displacement that the movement intents call for in `elapsed`
    /// seconds, along `x` and along `y`: the intents' sum scaled to the length
    /// `MOVE_SPEED * elapsed`.
    pub open spec fn intended_move(
        self,
        forward: bool,
        back: bool,
        left: bool,
        right: bool,
        elapsed: int,
    ) -> (int, int) {
        let mx = intent_x(self, forward, back, left, right);
        let my = intent_y(self, forward, back, left, right);
        let len = floor_sqrt(mx * mx + my * my);
        (
            displacement(mx, len, step_length(elapsed)),
            displacement(my, len, step_length(elapsed)),
        )
    }

    /// Turns the view by the angle whose cosine and sine, as 16.16 numbers,
    /// are `cos` and `sin`.
    pub fn rotate(&mut self, cos: i32, sin: i32)
        ensures
            *final(self) == old(self).turned(cos as int, sin as int),
    {
        let (dir_x, dir_y) = turn_vector(self.dir_x, self.dir_y, cos, sin);
        let (plane_x, plane_y) = turn_vector(self.plane_x, self.plane_y, cos, sin);
        self.dir_x = dir_x;
        self.dir_y = dir_y;
        self.plane_x = plane_x;
        self.plane_y = plane_y;
    }

    /// The displacement for the given movement intents over `elapsed`
    /// seconds: the intents' sum, scaled to the length `MOVE_SPEED * elapsed`
    /// whatever its own length, or nothing when the sum has no length.
    pub fn movement(
        &self,
        forward: bool,
        back: bool,
        left: bool,
        right: bool,
        elapsed: i32,
    ) -> (d: (i64, i64))
        ensures
            (d.0 as int, d.1 as int) == self.intended_move(
                forward,
                back,
                left,
                right,
                elapsed as int,
            ),
            step_length(elapsed as int) >= 0 ==> -step_length(elapsed as int) <= d.0
                <= step_length(elapsed as int) && -step_length(elapsed as int) <= d.1
                <= step_length(elapsed as int),
    {
        let dx = self.dir_x as i64;
        let dy = self.dir_y as i64;
        let mx: i64 = (if forward { dx } else { 0 }) - (if back { dx } else { 0 }) - (if right {
            dy
        } else {
            0
        }) + (if left { dy } else { 0 });
        let my: i64 = (if forward { dy } else { 0 }) - (if back { dy } else { 0 }) + (if right {
            dx
        } else {
            0
        }) - (if left { dx } else { 0 });
        assert(0 <= mx * mx <= 0x2_0000_0000 * 0x2_0000_0000 && 0 <= my * my <= 0x2_0000_0000
            * 0x2_0000_0000) by (nonlinear_arith)
            requires
                -0x2_0000_0000 <= mx <= 0x2_0000_0000,
                -0x2_0000_0000 <= my <= 0x2_0000_0000,
        ;
        let squared: u128 = ((mx as i128) * (mx as i128) + (my as i128) * (my as i128)) as u128;
        let len = isqrt(squared);
        let step: i64 = MOVE_SPEED * (elapsed as i64);
        if len == 0 {
            return (0, 0);
        }
        proof {
            lemma_component_within_length(mx as int, my as int, len as int);
            lemma_displacement_within_step(mx as int, len as int, step as int);
            lemma_displacement_within_step(my as int, len as int, step as int);
        }
        assert(-0x2_0000_0000 * 0x4_0000_0000 <= mx * step <= 0x2_0000_0000 * 0x4_0000_0000
            && -0x2_0000_0000 * 0x4_0000_0000 <= my * step <= 0x2_0000_0000 * 0x4_0000_0000)
            by (nonlinear_arith)
            requires
                -0x2_0000_0000 <= mx <= 0x2_0000_0000,
                -0x2_0000_0000 <= my <= 0x2_0000_0000,
                -0x4_0000_0000 <= step <= 0x4_0000_0000,
        ;
        let move_x = floor_div((mx as i128) * (step as i128), len as i128);
        let move_y = floor_div((my as i128) * (step as i128), len as i128);
        (move_x as i64, move_y as i64)
    }

    /// Moves by `(dx, dy)` as far as the walls of `map` allow: along each axis
    /// in full or not at all.
    pub fn try_move(&mut self, map: &TileMap, dx: i64, dy: i64)
        requires
            map.wf(),
        ensures
            *final(self) == old(self).slid(map@, dx as int, dy as int),
            final(self).x == (if map@.solid(
                cell_index(old(self).x + dx),
                cell_index(old(self).y as int),
            ) {
                old(self).x as int
            } else {
                old(self).x + dx
            }),
            final(self).y == (if map@.solid(
                cell_index(final(self).x as int),
                cell_index(old(self).y + dy),
            ) {
                old(self).y as int
            } else {
                old(self).y + dy
            }),
    {
        proof {
            map.lemma_view_wf();
        }
        let cell_y = split_cell(self.y).0;
        let nx: i128 = self.x as i128 + dx as i128;
        if i32::MIN as i128 <= nx && nx <= i32::MAX as i128 {
            let cell_nx = split_cell(nx as i32).0;
            if !map.is_solid(cell_nx, cell_y) {
                self.x = nx as i32;
            }
        }
        let cell_x = split_cell(self.x).0;
        let ny: i128 = self.y as i128 + dy as i128;
        if i32::MIN as i128 <= ny && ny <= i32::MAX as i128 {
            let cell_ny = split_cell(ny as i32).0;
            if !map.is_solid(cell_x, cell_ny) {
                self.y = ny as i32;
            }
        }
    }
}

} // verus!
