//! Ray casting: walking a ray through the wall grid one grid line at a time
//! until it enters a solid cell.

use vstd::prelude::*;

use crate::camera::Camera;
use crate::fixed::{
    cell_index, cell_offset, floor_div, lemma_quotients_ordered, offset_in_cell, split_cell,
};
use crate::tile_map::{MapView, TileMap};

verus! {

/// What one ray found. Distances and directions are 16.16 fixed-point
/// numbers.
#[derive(Debug, Clone, Copy, PartialEq, Eq, Structural)]
pub struct Ray {
    /// The ray's direction.
    pub ray_dir_x: i64,
    pub ray_dir_y: i64,
    /// The distance from the camera to the wall, measured along the view
    /// direction; `i64::MAX` for a ray without direction.
    pub ray_dist: i64,
    /// The solid cell that the ray entered.
    pub map_x: i32,
    pub map_y: i32,
    /// 0 when the ray entered the cell across a line of constant `x`, 1 when
    /// across a line of constant `y`.
    pub side: i32,
    /// Where along the cell's face the ray struck, in `[0, 65536)`.
    pub wall_x: i32,
}

/// `n / d` rounded down, or 0 when `d` is 0.
pub open spec fn div_or_zero(n: int, d: int) -> int {
    if d == 0 {
        0
    } else {
        n / d
    }
}

/// A ray through the grid: where it starts and its direction.
pub struct Walk {
    pub pos_x: int,
    pub pos_y: int,
    pub dir_x: int,
    pub dir_y: int,
}

impl Walk {
    /// The column of the cell in which the ray starts.
    pub open spec fn cell_x(self) -> int {
        cell_index(self.pos_x)
    }

    /// The row of the cell in which the ray starts.
    pub open spec fn cell_y(self) -> int {
        cell_index(self.pos_y)
    }

    /// The ray's extent along `x`.
    pub open spec fn abs_x(self) -> int {
        if self.dir_x < 0 {
            -self.dir_x
        } else {
            self.dir_x
        }
    }

    /// The ray's extent along `y`.
    pub open spec fn abs_y(self) -> int {
        if self.dir_y < 0 {
            -self.dir_y
        } else {
            self.dir_y
        }
    }

    /// The distance along `x` from the start to the first line of constant
    /// `x` in the ray's direction.
    pub open spec fn off_x(self) -> int {
        if self.dir_x < 0 {
            cell_offset(self.pos_x)
        } else {
            65536 - cell_offset(self.pos_x)
        }
    }

    /// The distance along `y` from the start to the first line of constant
    /// `y` in the ray's direction.
    pub open spec fn off_y(self) -> int {
        if self.dir_y < 0 {
            cell_offset(self.pos_y)
        } else {
            65536 - cell_offset(self.pos_y)
        }
    }

    /// Whether, after `i` steps along `x` and `j` along `y`, the ray reaches
    /// its next line of constant `x` before its next line of constant `y`.
    ///
    /// In cells, the ray reaches them at the parameters
    /// `(off_x + i) / |dir_x|` and `(off_y + j) / |dir_y|`; the comparison is
    /// made without dividing, so a ray that does not move along an axis never
    /// steps along it unless it does not move at all.
    pub open spec fn x_line_first(self, i: int, j: int) -> bool {
        (self.off_x() + i * 65536) * self.abs_y() < (self.off_y() + j * 65536) * self.abs_x()
    }

    /// How many of the ray's first `n` steps go along `x`.
    pub open spec fn x_steps(self, n: nat) -> nat
        decreases n,
    {
        if n == 0 {
            0
        } else {
            let i = self.x_steps((n - 1) as nat);
            if self.x_line_first(i as int, n - 1 - i) {
                i + 1
            } else {
                i
            }
        }
    }

    /// The column of the cell the ray is in after `n` steps.
    pub open spec fn cell_x_at(self, n: nat) -> int {
        if self.dir_x < 0 {
            self.cell_x() - self.x_steps(n)
        } else {
            self.cell_x() + self.x_steps(n)
        }
    }

    /// The row of the cell the ray is in after `n` steps.
    pub open spec fn cell_y_at(self, n: nat) -> int {
        if self.dir_y < 0 {
            self.cell_y() - (n - self.x_steps(n))
        } else {
            self.cell_y() + (n - self.x_steps(n))
        }
    }

    /// Whether step `n` is the first that takes the ray into a solid cell.
    pub open spec fn first_hit(self, map: MapView, n: nat) -> bool {
        &&& n >= 1
        &&& map.solid(self.cell_x_at(n), self.cell_y_at(n))
        &&& forall|m: nat| 1 <= m < n ==> !map.solid(#[trigger] self.cell_x_at(m), self.cell_y_at(m))
    }

    /// 0 when step `n` goes along `x`, 1 when along `y`.
    pub open spec fn side_at(self, n: nat) -> int {
        if n >= 1 && self.x_steps(n) > self.x_steps((n - 1) as nat) {
            0
        } else {
            1
        }
    }

    /// The distance along the stepped axis from the start to the grid line
    /// crossed at step `n`.
    pub open spec fn travel_at(self, n: nat) -> int {
        if self.side_at(n) == 0 {
            self.off_x() + (self.x_steps(n) - 1) * 65536
        } else {
            self.off_y() + (n - self.x_steps(n) - 1) * 65536
        }
    }

    /// The ray's extent along the axis stepped at step `n`.
    pub open spec fn stepped_extent(self, n: nat) -> int {
        if self.side_at(n) == 0 {
            self.abs_x()
        } else {
            self.abs_y()
        }
    }

    /// The distance to the grid line crossed at step `n`, measured along the
    /// view direction: the travel along the stepped axis divided by the
    /// ray's extent along it.
    pub open spec fn distance_at(self, n: nat) -> int {
        if self.stepped_extent(n) == 0 {
            i64::MAX as int
        } else {
            self.travel_at(n) * 65536 / self.stepped_extent(n)
        }
    }

    /// The coordinate, along the axis not stepped, of the point where the ray
    /// crosses the grid line at step `n`.
    pub open spec fn crossing_at(self, n: nat) -> int {
        if self.side_at(n) == 0 {
            self.pos_y + div_or_zero(self.travel_at(n) * self.dir_y, self.abs_x())
        } else {
            self.pos_x + div_or_zero(self.travel_at(n) * self.dir_x, self.abs_y())
        }
    }

    /// Whether the face struck at step `n` is seen from the side on which
    /// texture columns run backwards.
    pub open spec fn mirrored_at(self, n: nat) -> bool {
        (self.side_at(n) == 0 && self.dir_x < 0) || (self.side_at(n) == 1 && self.dir_y > 0)
    }

    /// Where along the struck face the ray crosses at step `n`, in
    /// `[0, 65536)`.
    pub open spec fn wall_x_at(self, n: nat) -> int {
        let part = cell_offset(self.crossing_at(n));
        if self.mirrored_at(n) {
            65535 - part
        } else {
            part
        }
    }

    /// What the ray reports when step `n` is its first into a solid cell.
    pub open spec fn ray_at(self, n: nat) -> Ray {
        Ray {
            ray_dir_x: self.dir_x as i64,
            ray_dir_y: self.dir_y as i64,
            ray_dist: self.distance_at(n) as i64,
            map_x: self.cell_x_at(n) as i32,
            map_y: self.cell_y_at(n) as i32,
            side: self.side_at(n) as i32,
            wall_x: self.wall_x_at(n) as i32,
        }
    }

    /// A ray has at most one first step into a solid cell.
    pub proof fn lemma_first_hit_unique(self, map: MapView, n1: nat, n2: nat)
        requires
            self.first_hit(map, n1),
            self.first_hit(map, n2),
        ensures
            n1 == n2,
    {
        if n1 < n2 {
            assert(!map.solid(self.cell_x_at(n1), self.cell_y_at(n1)));
        }
        if n2 < n1 {
            assert(!map.solid(self.cell_x_at(n2), self.cell_y_at(n2)));
        }
    }

    /// Each step moves the ray by one cell along one axis.
    pub proof fn lemma_x_steps_bounds(self, n: nat)
        ensures
            self.x_steps(n) <= n,
            n >= 1 ==> self.x_steps((n - 1) as nat) <= self.x_steps(n) <= self.x_steps(
                (n - 1) as nat,
            ) + 1,
        decreases n,
    {
        if n > 0 {
            self.lemma_x_steps_bounds((n - 1) as nat);
        }
    }

    /// The number of steps along `x` never falls as the ray goes on, and
    /// neither does the number along `y`.
    pub proof fn lemma_x_steps_monotonic(self, m: nat, n: nat)
        requires
            m <= n,
        ensures
            self.x_steps(m) <= self.x_steps(n),
            m - self.x_steps(m) <= n - self.x_steps(n),
        decreases n - m,
    {
        if m < n {
            self.lemma_x_steps_monotonic(m, (n - 1) as nat);
            self.lemma_x_steps_bounds(n);
        }
    }

    /// The ray reaches the grid line of each step no later than the grid
    /// line of the next: cells are entered in the order in which they lie
    /// along the ray. The parameter at which the line of step `n` is reached
    /// is `travel_at(n) / stepped_extent(n)`; the comparison is stated
    /// without dividing.
    pub proof fn lemma_crossings_in_order(self, n: nat)
        requires
            n >= 1,
        ensures
            self.travel_at(n) * self.stepped_extent(n + 1) <= self.travel_at(n + 1)
                * self.stepped_extent(n),
            0 <= self.travel_at(n),
            0 <= self.stepped_extent(n),
    {
        self.lemma_x_steps_bounds((n - 1) as nat);
        self.lemma_x_steps_bounds(n);
        self.lemma_x_steps_bounds(n + 1);
        let before = self.x_steps((n - 1) as nat) as int;
        let i = self.x_steps(n) as int;
        let j = n - i;
        let ax = self.abs_x();
        let ay = self.abs_y();
        let ox = self.off_x();
        let oy = self.off_y();
        assert(0 <= ox <= 65536 && 0 <= oy <= 65536);
        assert(self.x_steps(n + 1) == if self.x_line_first(i, j) { i + 1 } else { i });
        assert(self.x_steps(n) == if self.x_line_first(before, n - 1 - before) {
            before + 1
        } else {
            before
        });
        if self.side_at(n) == 0 {
            assert(i == before + 1);
            assert(self.x_line_first(before, j));
            let t = ox + (i - 1) * 65536;
            assert(self.travel_at(n) == t);
            assert(t * ay < (oy + j * 65536) * ax);
            assert(t * ax <= (ox + i * 65536) * ax) by (nonlinear_arith)
                requires
                    t == ox + (i - 1) * 65536,
                    ax >= 0,
            ;
        } else {
            assert(i == before);
            assert(!self.x_line_first(i, j - 1));
            let t = oy + (j - 1) * 65536;
            assert(self.travel_at(n) == t);
            assert((ox + i * 65536) * ay >= t * ax);
            assert(t * ay <= (oy + j * 65536) * ay) by (nonlinear_arith)
                requires
                    t == oy + (j - 1) * 65536,
                    ay >= 0,
            ;
        }
    }

    /// The distance that the ray reports never falls from one step to the
    /// next: the wall it finds is the nearest along it.
    pub proof fn lemma_distance_never_falls(self, n: nat)
        requires
            n >= 1,
        ensures
            self.distance_at(n) <= self.distance_at(n + 1),
    {
        self.lemma_crossings_in_order(n);
        self.lemma_crossings_in_order(n + 1);
        self.lemma_x_steps_bounds((n - 1) as nat);
        self.lemma_x_steps_bounds(n);
        self.lemma_x_steps_bounds(n + 1);
        let i = self.x_steps(n) as int;
        let j = n - i;
        let before = self.x_steps((n - 1) as nat) as int;
        assert(self.x_steps(n + 1) == if self.x_line_first(i, j) { i + 1 } else { i });
        assert(self.x_steps(n) == if self.x_line_first(before, n - 1 - before) {
            before + 1
        } else {
            before
        });
        let e1 = self.stepped_extent(n);
        let e2 = self.stepped_extent(n + 1);
        assert(self.off_x() >= 0 && self.off_y() >= 0);
        if self.side_at(n) == 0 {
            assert(self.abs_x() > 0) by (nonlinear_arith)
                requires
                    self.x_line_first(before, j),
                    self.x_line_first(before, j) == ((self.off_x() + before * 65536)
                        * self.abs_y() < (self.off_y() + j * 65536) * self.abs_x()),
                    self.off_x() + before * 65536 >= 0,
                    self.abs_y() >= 0,
                    self.abs_x() >= 0,
            ;
        }
        if self.side_at(n + 1) == 0 {
            assert(self.abs_x() > 0) by (nonlinear_arith)
                requires
                    self.x_line_first(i, j),
                    self.x_line_first(i, j) == ((self.off_x() + i * 65536) * self.abs_y() < (
                    self.off_y() + j * 65536) * self.abs_x()),
                    self.off_x() + i * 65536 >= 0,
                    self.abs_y() >= 0,
                    self.abs_x() >= 0,
            ;
        }
        if e1 > 0 && e2 > 0 {
            lemma_quotients_ordered(self.travel_at(n), e1, self.travel_at(n + 1), e2, 65536);
        } else if e1 > 0 {
            assert(self.side_at(n + 1) == 1 && self.abs_y() == 0);
            assert(!self.x_line_first(i, j));
            assert(self.off_y() + j * 65536 > 0);
            assert(self.abs_x() == 0) by (nonlinear_arith)
                requires
                    !self.x_line_first(i, j),
                    self.x_line_first(i, j) == ((self.off_x() + i * 65536) * self.abs_y() < (
                    self.off_y() + j * 65536) * self.abs_x()),
                    self.abs_y() == 0,
                    self.off_y() + j * 65536 > 0,
                    self.abs_x() >= 0,
            ;
        } else if e2 > 0 {
            assert(self.side_at(n) == 1 && self.abs_y() == 0);
            assert(self.side_at(n + 1) == 0);
            assert(!self.x_line_first(before, j - 1));
            assert(self.off_y() + (j - 1) * 65536 > 0);
            assert(self.abs_x() == 0) by (nonlinear_arith)
                requires
                    !self.x_line_first(before, j - 1),
                    self.x_line_first(before, j - 1) == ((self.off_x() + before * 65536)
                        * self.abs_y() < (self.off_y() + (j - 1) * 65536) * self.abs_x()),
                    self.abs_y() == 0,
                    self.off_y() + (j - 1) * 65536 > 0,
                    self.abs_x() >= 0,
            ;
        }
    }

    /// A ray that is inside the map after its first step and after step `n`
    /// has taken fewer steps than the map has rows and columns.
    pub proof fn lemma_steps_inside_bounded(self, map: MapView, n: nat)
        requires
            n >= 1,
            map.contains(self.cell_x_at(1), self.cell_y_at(1)),
            map.contains(self.cell_x_at(n), self.cell_y_at(n)),
        ensures
            n < map.width + map.height,
    {
        self.lemma_x_steps_monotonic(1, n);
        self.lemma_x_steps_bounds(1);
    }
}

/// One component of the direction of the ray through screen column `column`
/// of `width`: `dir + plane * (2 * column / width - 1)`.
pub open spec fn ray_dir_component(dir: int, plane: int, column: int, width: int) -> int {
    dir + plane * (2 * column - width) / width
}

/// The ray from the camera through screen column `column` of `width`.
pub open spec fn column_walk(camera: Camera, column: int, width: int) -> Walk {
    Walk {
        pos_x: camera.x as int,
        pos_y: camera.y as int,
        dir_x: ray_dir_component(camera.dir_x as int, camera.plane_x as int, column, width),
        dir_y: ray_dir_component(camera.dir_y as int, camera.plane_y as int, column, width),
    }
}

/// Whether `ray` is what the ray `walk` finds in `map`: the report of the
/// walk's first step into a solid cell, which comes after at most as many
/// steps as the map has rows and columns, and one more.
pub open spec fn is_cast(map: MapView, walk: Walk, ray: Ray) -> bool {
    exists|n: nat|
        1 <= n <= map.width + map.height + 1 && #[trigger] walk.first_hit(map, n) && ray
            == walk.ray_at(n)
}

/// What holds of every ray that was cast in `map`: its distance is not
/// negative, its side is 0 or 1, the place where it struck lies along a face,
/// and the cell it reports is solid.
pub open spec fn ray_in_range(map: MapView, ray: Ray) -> bool {
    &&& ray.ray_dist >= 0
    &&& (ray.side == 0 || ray.side == 1)
    &&& 0 <= ray.wall_x < 65536
    &&& map.solid(ray.map_x as int, ray.map_y as int)
}

/// What the ray `walk` finds in `map`.
pub open spec fn cast_result(map: MapView, walk: Walk) -> Ray {
    choose|ray: Ray| is_cast(map, walk, ray)
}

/// What the rays through the `width` columns of the camera's view find, from
/// left to right.
pub open spec fn column_rays(map: MapView, camera: Camera, width: int) -> Seq<Ray> {
    Seq::new(
        (if width > 0 { width } else { 0 }) as nat,
        |x: int| cast_result(map, column_walk(camera, x, width)),
    )
}

/// A ray finds one thing only: two reports of the same ray in the same map
/// are equal.
pub proof fn lemma_cast_unique(map: MapView, walk: Walk, r1: Ray, r2: Ray)
    requires
        is_cast(map, walk, r1),
        is_cast(map, walk, r2),
    ensures
        r1 == r2,
{
    let n1 = choose|n: nat|
        1 <= n <= map.width + map.height + 1 && #[trigger] walk.first_hit(map, n) && r1
            == walk.ray_at(n);
    let n2 = choose|n: nat|
        1 <= n <= map.width + map.height + 1 && #[trigger] walk.first_hit(map, n) && r2
            == walk.ray_at(n);
    walk.lemma_first_hit_unique(map, n1, n2);
}

/// Computes one component of a column's ray direction.
fn direction_component(dir: i32, plane: i32, column: i32, width: i32) -> (r: i64)
    requires
        0 <= column < width,
    ensures
        r == ray_dir_component(dir as int, plane as int, column as int, width as int),
{
    let offset: i64 = 2 * (column as i64) - width as i64;
    assert(-0x8000_0000 * 0x8000_0000 <= plane * offset <= 0x8000_0000 * 0x8000_0000)
        by (nonlinear_arith)
        requires
            -0x8000_0000 <= plane <= 0x8000_0000,
            -0x8000_0000 <= offset <= 0x8000_0000,
    ;
    let scaled = floor_div((plane as i128) * (offset as i128), width as i128);
    (dir as i128 + scaled) as i64
}

/// What a ray reports of the step that took it into a solid cell: the step
/// was its `n`th, after `i` steps along `x` and `j` along `y`.
fn report_hit(
    pos_x: i32,
    pos_y: i32,
    ray_dir_x: i64,
    ray_dir_y: i64,
    i: i64,
    j: i64,
    side: i32,
    map_x: i32,
    map_y: i32,
    Ghost(n): Ghost<nat>,
) -> (ray: Ray)
    requires
        n >= 1,
        n == i + j,
        0 <= i <= 65537,
        0 <= j <= 65537,
        i == (Walk {
            pos_x: pos_x as int,
            pos_y: pos_y as int,
            dir_x: ray_dir_x as int,
            dir_y: ray_dir_y as int,
        }).x_steps(n),
        side == (Walk {
            pos_x: pos_x as int,
            pos_y: pos_y as int,
            dir_x: ray_dir_x as int,
            dir_y: ray_dir_y as int,
        }).side_at(n),
        map_x == (Walk {
            pos_x: pos_x as int,
            pos_y: pos_y as int,
            dir_x: ray_dir_x as int,
            dir_y: ray_dir_y as int,
        }).cell_x_at(n),
        map_y == (Walk {
            pos_x: pos_x as int,
            pos_y: pos_y as int,
            dir_x: ray_dir_x as int,
            dir_y: ray_dir_y as int,
        }).cell_y_at(n),
    ensures
        ray == (Walk {
            pos_x: pos_x as int,
            pos_y: pos_y as int,
            dir_x: ray_dir_x as int,
            dir_y: ray_dir_y as int,
        }).ray_at(n),
        ray.ray_dist >= 0,
        ray.side == 0 || ray.side == 1,
        0 <= ray.wall_x < 65536,
{
    let ghost walk = Walk {
        pos_x: pos_x as int,
        pos_y: pos_y as int,
        dir_x: ray_dir_x as int,
        dir_y: ray_dir_y as int,
    };
    proof {
        walk.lemma_x_steps_bounds((n - 1) as nat);
        walk.lemma_x_steps_bounds(n);
    }
    let part_x = split_cell(pos_x).1;
    let part_y = split_cell(pos_y).1;
    let back_x: bool = ray_dir_x < 0;
    let back_y: bool = ray_dir_y < 0;
    let travel: i64 = if side == 0 {
        (if back_x { part_x as i64 } else { 65536 - part_x as i64 }) + (i - 1) * 65536
    } else {
        (if back_y { part_y as i64 } else { 65536 - part_y as i64 }) + (j - 1) * 65536
    };
    let toward: i64 = if side == 0 { ray_dir_x } else { ray_dir_y };
    let extent: i128 = if toward < 0 { -(toward as i128) } else { toward as i128 };
    let along: i64 = if side == 0 { ray_dir_y } else { ray_dir_x };
    let from: i32 = if side == 0 { pos_y } else { pos_x };
    assert(travel == walk.travel_at(n));
    assert(extent == walk.stepped_extent(n));
    assert(-0x2_0000_0000 * 0x8000_0000_0000_0000 <= travel * along <= 0x2_0000_0000
        * 0x8000_0000_0000_0000) by (nonlinear_arith)
        requires
            0 <= travel <= 0x2_0000_0000,
            -0x8000_0000_0000_0000 <= along <= 0x8000_0000_0000_0000,
    ;
    let ray_dist: i64 = if extent == 0 {
        i64::MAX
    } else {
        floor_div((travel as i128) * 65536, extent) as i64
    };
    let shift: i128 = if extent == 0 {
        0
    } else {
        floor_div((travel as i128) * (along as i128), extent)
    };
    let part = offset_in_cell(from as i128 + shift);
    let mirrored: bool = (side == 0 && back_x) || (side == 1 && ray_dir_y > 0);
    let wall_x: i32 = if mirrored { 65535 - part } else { part };
    Ray { ray_dir_x, ray_dir_y, ray_dist, map_x, map_y, side, wall_x }
}

/// Casts the ray that starts at `(pos_x, pos_y)` with direction
/// `(ray_dir_x, ray_dir_y)` through the wall grid of `map`.
pub fn cast(map: &TileMap, pos_x: i32, pos_y: i32, ray_dir_x: i64, ray_dir_y: i64) -> (ray: Ray)
    requires
        map.wf(),
    ensures
        is_cast(
            map@,
            Walk {
                pos_x: pos_x as int,
                pos_y: pos_y as int,
                dir_x: ray_dir_x as int,
                dir_y: ray_dir_y as int,
            },
            ray,
        ),
        ray == cast_result(
            map@,
            Walk {
                pos_x: pos_x as int,
                pos_y: pos_y as int,
                dir_x: ray_dir_x as int,
                dir_y: ray_dir_y as int,
            },
        ),
        ray.ray_dir_x == ray_dir_x,
        ray.ray_dir_y == ray_dir_y,
        ray_in_range(map@, ray),
{
    let ghost walk = Walk {
        pos_x: pos_x as int,
        pos_y: pos_y as int,
        dir_x: ray_dir_x as int,
        dir_y: ray_dir_y as int,
    };
    proof {
        map.lemma_view_wf();
    }
    let (cell_x, part_x) = split_cell(pos_x);
    let (cell_y, part_y) = split_cell(pos_y);
    let back_x: bool = ray_dir_x < 0;
    let back_y: bool = ray_dir_y < 0;
    let abs_x: i128 = if back_x { -(ray_dir_x as i128) } else { ray_dir_x as i128 };
    let abs_y: i128 = if back_y { -(ray_dir_y as i128) } else { ray_dir_y as i128 };
    let off_x: i64 = if back_x { part_x as i64 } else { 65536 - part_x as i64 };
    let off_y: i64 = if back_y { part_y as i64 } else { 65536 - part_y as i64 };
    let limit: i64 = map.width() as i64 + map.height() as i64;
    let mut i: i64 = 0;
    let mut j: i64 = 0;
    let mut side: i32 = 0;
    let mut map_x: i32 = cell_x;
    let mut map_y: i32 = cell_y;
    let ghost mut n: nat = 0;
    loop
        invariant_except_break
            forall|m: nat| 1 <= m <= n ==> !map@.solid(#[trigger] walk.cell_x_at(m), walk.cell_y_at(m)),
            n >= 1 ==> n < limit,
        invariant
            map.wf(),
            map@.wf(),
            walk == (Walk {
                pos_x: pos_x as int,
                pos_y: pos_y as int,
                dir_x: ray_dir_x as int,
                dir_y: ray_dir_y as int,
            }),
            limit == map@.width + map@.height,
            abs_x == walk.abs_x(),
            abs_y == walk.abs_y(),
            off_x == walk.off_x(),
            off_y == walk.off_y(),
            0 <= off_x <= 65536,
            0 <= off_y <= 65536,
            cell_x == walk.cell_x(),
            cell_y == walk.cell_y(),
            -32768 <= cell_x < 32768,
            -32768 <= cell_y < 32768,
            back_x == (ray_dir_x < 0),
            back_y == (ray_dir_y < 0),
            0 <= i,
            0 <= j,
            n == i + j,
            n <= limit + 1,
            i == walk.x_steps(n),
            map_x == walk.cell_x_at(n),
            map_y == walk.cell_y_at(n),
            side == walk.side_at(n) || n == 0,
        ensures
            1 <= n <= limit + 1,
            walk.first_hit(map@, n),
        decreases limit - n,
    {
        assert(0 <= (off_x + i * 65536) * abs_y <= 0x2_0000_0000 * 0x8000_0000_0000_0000
            && 0 <= (off_y + j * 65536) * abs_x <= 0x2_0000_0000 * 0x8000_0000_0000_0000)
            by (nonlinear_arith)
            requires
                0 <= off_x <= 65536,
                0 <= off_y <= 65536,
                0 <= i <= 65537,
                0 <= j <= 65537,
                0 <= abs_x <= 0x8000_0000_0000_0000,
                0 <= abs_y <= 0x8000_0000_0000_0000,
        ;
        let lhs: i128 = (off_x as i128 + (i as i128) * 65536) * abs_y;
        let rhs: i128 = (off_y as i128 + (j as i128) * 65536) * abs_x;
        if lhs < rhs {
            i = i + 1;
            map_x = if back_x { map_x - 1 } else { map_x + 1 };
            side = 0;
        } else {
            j = j + 1;
            map_y = if back_y { map_y - 1 } else { map_y + 1 };
            side = 1;
        }
        proof {
            n = n + 1;
            walk.lemma_x_steps_bounds(n);
        }
        if map.is_solid(map_x, map_y) {
            break ;
        }
        proof {
            assert(!map@.solid(walk.cell_x_at(1), walk.cell_y_at(1)));
            walk.lemma_steps_inside_bounded(map@, n);
        }
    }
    let ray = report_hit(pos_x, pos_y, ray_dir_x, ray_dir_y, i, j, side, map_x, map_y, Ghost(n));
    proof {
        assert(is_cast(map@, walk, ray));
        lemma_cast_unique(map@, walk, ray, cast_result(map@, walk));
    }
    ray
}

/// Casts the ray through screen column `column` of a view `width` columns
/// wide.
pub fn cast_ray(map: &TileMap, camera: &Camera, column: i32, width: i32) -> (ray: Ray)
    requires
        map.wf(),
        0 <= column < width,
    ensures
        is_cast(map@, column_walk(*camera, column as int, width as int), ray),
        ray == cast_result(map@, column_walk(*camera, column as int, width as int)),
        ray_in_range(map@, ray),
{
    let ray_dir_x = direction_component(camera.dir_x, camera.plane_x, column, width);
    let ray_dir_y = direction_component(camera.dir_y, camera.plane_y, column, width);
    cast(map, camera.x, camera.y, ray_dir_x, ray_dir_y)
}

/// Casts one ray through each of the `width` screen columns, from left to
/// right. The result is the frame's depth buffer: entry `x` is what the ray
/// through column `x` found.
pub fn cast_rays(map: &TileMap, camera: &Camera, width: i32) -> (rays: Vec<Ray>)
    requires
        map.wf(),
    ensures
        rays@ == column_rays(map@, *camera, width as int),
        rays@.len() == (if width > 0 { width as int } else { 0 }),
        forall|x: int|
            0 <= x < rays@.len() ==> is_cast(
                map@,
                column_walk(*camera, x, width as int),
                #[trigger] rays@[x],
            ),
        forall|x: int| 0 <= x < rays@.len() ==> ray_in_range(map@, #[trigger] rays@[x]),
{
    let mut rays: Vec<Ray> = Vec::new();
    let mut x: i32 = 0;
    while x < width
        invariant
            map.wf(),
            0 <= x,
            width > 0 ==> x <= width,
            width <= 0 ==> x == 0,
            rays@.len() == x,
            forall|k: int|
                0 <= k < rays@.len() ==> is_cast(
                    map@,
                    column_walk(*camera, k, width as int),
                    #[trigger] rays@[k],
                ),
            forall|k: int|
                0 <= k < rays@.len() ==> #[trigger] rays@[k] == cast_result(
                    map@,
                    column_walk(*camera, k, width as int),
                ),
            forall|k: int| 0 <= k < rays@.len() ==> ray_in_range(map@, #[trigger] rays@[k]),
        decreases width - x,
    {
        let ray = cast_ray(map, camera, x, width);
        rays.push(ray);
        x += 1;
    }
    assert(rays@ =~= column_rays(map@, *camera, width as int));
    rays
}

/// A ray that runs along `x` alone never leaves its row, and the distance it
/// reports for step `n` is the distance along `x` from its start to the near
/// face of the cell it enters at that step, divided by the length of its
/// direction. With a direction of length one the report is that distance
/// exactly.
pub proof fn lemma_ray_along_x(walk: Walk, n: nat)
    requires
        walk.dir_y == 0,
        walk.dir_x != 0,
        n >= 1,
    ensures
        walk.x_steps(n) == n,
        walk.side_at(n) == 0,
        walk.cell_y_at(n) == walk.cell_y(),
        walk.dir_x > 0 ==> walk.travel_at(n) == (walk.cell_x() + n) * 65536 - walk.pos_x,
        walk.dir_x < 0 ==> walk.travel_at(n) == walk.pos_x - (walk.cell_x() - n + 1) * 65536,
        walk.distance_at(n) == walk.travel_at(n) * 65536 / walk.abs_x(),
        walk.abs_x() == 65536 ==> walk.distance_at(n) == walk.travel_at(n),
    decreases n,
{
    if n > 1 {
        lemma_ray_along_x(walk, (n - 1) as nat);
    }
    let i = walk.x_steps((n - 1) as nat) as int;
    assert(i == n - 1);
    assert(walk.off_y() > 0);
    assert(walk.x_line_first(i, 0)) by (nonlinear_arith)
        requires
            walk.abs_y() == 0,
            walk.abs_x() > 0,
            walk.off_y() > 0,
            walk.x_line_first(i, 0) == ((walk.off_x() + i * 65536) * walk.abs_y() < (walk.off_y()
                + 0 * 65536) * walk.abs_x()),
    ;
    assert(walk.x_steps(n) == n);
    vstd::arithmetic::div_mod::lemma_fundamental_div_mod(walk.pos_x, 65536);
}

/// A ray that runs along `y` alone never leaves its column, and the distance
/// it reports for step `n` is the distance along `y` from its start to the
/// near face of the cell it enters at that step, divided by the length of
/// its direction. With a direction of length one the report is that
/// distance exactly.
pub proof fn lemma_ray_along_y(walk: Walk, n: nat)
    requires
        walk.dir_x == 0,
        walk.dir_y != 0,
        n >= 1,
    ensures
        walk.x_steps(n) == 0,
        walk.side_at(n) == 1,
        walk.cell_x_at(n) == walk.cell_x(),
        walk.dir_y > 0 ==> walk.travel_at(n) == (walk.cell_y() + n) * 65536 - walk.pos_y,
        walk.dir_y < 0 ==> walk.travel_at(n) == walk.pos_y - (walk.cell_y() - n + 1) * 65536,
        walk.distance_at(n) == walk.travel_at(n) * 65536 / walk.abs_y(),
        walk.abs_y() == 65536 ==> walk.distance_at(n) == walk.travel_at(n),
    decreases n,
{
    if n > 1 {
        lemma_ray_along_y(walk, (n - 1) as nat);
    }
    let j = n - 1;
    assert(walk.x_steps((n - 1) as nat) == 0);
    assert(!walk.x_line_first(0, j)) by (nonlinear_arith)
        requires
            walk.abs_x() == 0,
            walk.abs_y() > 0,
            walk.off_x() >= 0,
            walk.x_line_first(0, j) == ((walk.off_x() + 0 * 65536) * walk.abs_y() < (walk.off_y()
                + j * 65536) * walk.abs_x()),
    ;
    assert(walk.x_steps(n) == 0);
    vstd::arithmetic::div_mod::lemma_fundamental_div_mod(walk.pos_y, 65536);
}

/// Whether every cell on the edge of the map is solid.
pub open spec fn enclosed(map: MapView) -> bool {
    forall|x: int, y: int|
        map.contains(x, y) && (x == 0 || y == 0 || x == map.width - 1 || y == map.height - 1)
            ==> #[trigger] map.solid(x, y)
}

/// In a map whose edge is solid, a ray that starts in a cell of the map that
/// is not solid ends in a cell of the map, after fewer steps than the map
/// has rows and columns together.
pub proof fn lemma_enclosed_ray_ends_inside(walk: Walk, map: MapView, n: nat)
    requires
        enclosed(map),
        map.contains(walk.cell_x(), walk.cell_y()),
        !map.solid(walk.cell_x(), walk.cell_y()),
        walk.first_hit(map, n),
    ensures
        map.contains(walk.cell_x_at(n), walk.cell_y_at(n)),
        n < map.width + map.height,
{
    let before = (n - 1) as nat;
    walk.lemma_x_steps_bounds(n);
    assert(walk.x_steps(0) == 0);
    assert(!map.solid(walk.cell_x_at(before), walk.cell_y_at(before)));
    assert(map.contains(walk.cell_x_at(before), walk.cell_y_at(before)));
    assert(map.contains(walk.cell_x_at(n), walk.cell_y_at(n)));
    if n > 1 {
        assert(!map.solid(walk.cell_x_at(1), walk.cell_y_at(1)));
    }
    walk.lemma_steps_inside_bounded(map, n);
}

} // verus!
