//! Floor and ceiling: each screen row below the horizon shows the floor at
//! one distance from the camera, and the row mirrored above the horizon shows
//! the ceiling at that distance.

use image::DynamicImage;
use vstd::prelude::*;

use crate::camera::Camera;
use crate::fixed::{cell_index, cell_offset, floor_div, offset_in_cell};
use crate::renderer::{scale_color, scaled_color, Renderer};
use crate::texture::{
    height_of, select_texture, texel, texel_of, texture_height, texture_index, texture_is_rgba8,
    texture_width, width_of, wrap, wrap_texel,
};
use crate::tile_map::{Grid, MapView, TileMap, SOLID};

verus! {

/// The distance from the camera at which the floor shows in screen row `row`
/// of `height` rows: `height / (2 * row - height)`.
pub open spec fn row_distance(height: int, row: int) -> int {
    height * 65536 / (2 * row - height)
}

/// The map coordinate that shows in the leftmost column of a row at distance
/// `distance`: the point at that distance along the leftmost ray,
/// `dir - plane`.
pub open spec fn row_start(pos: int, dir: int, plane: int, distance: int) -> int {
    pos + distance * (dir - plane) / 65536
}

/// How far the map coordinate moves from one column to the next in a row at
/// distance `distance` of a view `width` columns wide.
pub open spec fn row_step(plane: int, distance: int, width: int) -> int {
    distance * (2 * plane) / (65536 * width)
}

/// The map coordinate that shows in column `x` of a row at distance
/// `distance`.
pub open spec fn row_coord(
    pos: int,
    dir: int,
    plane: int,
    distance: int,
    width: int,
    x: int,
) -> int {
    row_start(pos, dir, plane, distance) + x * row_step(plane, distance, width)
}

/// The colour of `texture` at the map point `(fx, fy)`: the texel at the
/// point's offsets in its cell, scaled to the texture's size and wrapped.
/// None for a texture without texels and for one that is not held as 8-bit
/// RGBA.
pub open spec fn sample_at(texture: DynamicImage, fx: int, fy: int) -> Option<[u8; 4]> {
    let tw = texture_width(texture);
    let th = texture_height(texture);
    if tw == 0 || th == 0 || !texture_is_rgba8(texture) {
        None
    } else {
        Some(
            texel(
                texture,
                wrap_texel((tw * cell_offset(fx) / 65536) as u32, tw) as int,
                wrap_texel((th * cell_offset(fy) / 65536) as u32, th) as int,
            ),
        )
    }
}

/// The colour that the grid `which` shows at the map point `(fx, fy)`,
/// dimmed by `num / den`. None where the cell holds 0 and where no texture
/// can be sampled.
pub open spec fn plane_color(
    map: MapView,
    textures: Seq<DynamicImage>,
    which: Grid,
    fx: int,
    fy: int,
    num: int,
    den: int,
) -> Option<[u8; 4]> {
    let value = map.cell(which, cell_index(fx), cell_index(fy));
    if value == 0 {
        None
    } else {
        match texture_index(value, textures.len() as int) {
            None => None,
            Some(id) => match sample_at(textures[id], fx, fy) {
                None => None,
                Some(c) => Some(scale_color(c, num, den)),
            },
        }
    }
}

/// What the grid `which` shows in column `x` of the floor row `row`. The
/// brightness rises from the horizon to the edge of the screen as
/// `(2 * row - height) / height`.
pub open spec fn plane_at(
    map: MapView,
    camera: Camera,
    textures: Seq<DynamicImage>,
    which: Grid,
    width: int,
    height: int,
    x: int,
    row: int,
) -> Option<[u8; 4]> {
    let distance = row_distance(height, row);
    plane_color(
        map,
        textures,
        which,
        row_coord(camera.x as int, camera.dir_x as int, camera.plane_x as int, distance, width, x),
        row_coord(camera.y as int, camera.dir_y as int, camera.plane_y as int, distance, width, x),
        2 * row - height,
        height,
    )
}

/// What the floor and ceiling pass paints at `(x, y)` of a view of
/// `width` by `height` pixels: the floor in the rows below the horizon, and
/// in each row `y` above it the ceiling as seen in the floor row
/// `height - y`. The horizon row and row 0 are left alone.
pub open spec fn floor_ceiling_at(
    map: MapView,
    camera: Camera,
    textures: Seq<DynamicImage>,
    width: int,
    height: int,
    x: int,
    y: int,
) -> Option<[u8; 4]> {
    if x < 0 || x >= width {
        None
    } else if 2 * y > height && y < height {
        plane_at(map, camera, textures, Grid::Floor, width, height, x, y)
    } else if 2 * y < height && y > 0 {
        plane_at(map, camera, textures, Grid::Ceiling, width, height, x, height - y)
    } else {
        None
    }
}

/// Samples `texture` at the map point `(fx, fy)`.
fn sample(texture: &DynamicImage, fx: i128, fy: i128) -> (c: Option<[u8; 4]>)
    requires
        -0x100_0000_0000_0000_0000_0000_0000_0000 < fx < 0x100_0000_0000_0000_0000_0000_0000_0000,
        -0x100_0000_0000_0000_0000_0000_0000_0000 < fy < 0x100_0000_0000_0000_0000_0000_0000_0000,
    ensures
        c == sample_at(*texture, fx as int, fy as int),
{
    let tw = width_of(texture);
    let th = height_of(texture);
    if tw == 0 || th == 0 {
        return None;
    }
    let part_x = offset_in_cell(fx);
    let part_y = offset_in_cell(fy);
    assert(0 <= tw * part_x <= 0xffff_ffff * 65536 && 0 <= th * part_y <= 0xffff_ffff * 65536)
        by (nonlinear_arith)
        requires
            0 <= tw <= 0xffff_ffff,
            0 <= th <= 0xffff_ffff,
            0 <= part_x < 65536,
            0 <= part_y < 65536,
    ;
    let raw_x: u64 = (tw as u64) * (part_x as u64) / 65536;
    let raw_y: u64 = (th as u64) * (part_y as u64) / 65536;
    let tx = wrap(raw_x as u32, tw);
    let ty = wrap(raw_y as u32, th);
    texel_of(texture, tx, ty)
}

/// The value of the cell `(x, y)` of a grid, for coordinates of any size.
fn cell_wide(map: &TileMap, which: Grid, x: i128, y: i128) -> (value: u32)
    requires
        map.wf(),
    ensures
        value == map@.cell(which, x as int, y as int),
{
    proof {
        map.lemma_view_wf();
    }
    if x < 0 || x > i32::MAX as i128 || y < 0 || y > i32::MAX as i128 {
        SOLID
    } else {
        map.cell(which, x as i32, y as i32)
    }
}

/// The colour that the grid `which` shows at the map point `(fx, fy)`,
/// dimmed by `num / den`.
fn color_at_point(
    map: &TileMap,
    textures: &Vec<DynamicImage>,
    which: Grid,
    fx: i128,
    fy: i128,
    num: i64,
    den: i64,
) -> (c: Option<[u8; 4]>)
    requires
        map.wf(),
        0 <= num,
        0 < den,
        -0x100_0000_0000_0000_0000_0000_0000_0000 < fx < 0x100_0000_0000_0000_0000_0000_0000_0000,
        -0x100_0000_0000_0000_0000_0000_0000_0000 < fy < 0x100_0000_0000_0000_0000_0000_0000_0000,
    ensures
        c == plane_color(map@, textures@, which, fx as int, fy as int, num as int, den as int),
{
    let cx = floor_div(fx, 65536);
    let cy = floor_div(fy, 65536);
    let value = cell_wide(map, which, cx, cy);
    if value == 0 {
        return None;
    }
    match select_texture(value, textures.len()) {
        None => None,
        Some(id) => match sample(&textures[id], fx, fy) {
            None => None,
            Some(c) => Some(scaled_color(&c, num, den)),
        },
    }
}

/// Where a floor row starts and how it advances along one axis.
fn row_span(pos: i32, dir: i32, plane: i32, distance: i128, width: i32) -> (r: (i128, i128))
    requires
        0 <= distance <= 0x8000_0000_0000,
        0 < width,
    ensures
        r.0 == row_start(pos as int, dir as int, plane as int, distance as int),
        r.1 == row_step(plane as int, distance as int, width as int),
        -0x1_0000_0000_0000_0000_0000 <= r.0 <= 0x1_0000_0000_0000_0000_0000,
        -0x1_0000_0000_0000_0000_0000 <= r.1 <= 0x1_0000_0000_0000_0000_0000,
{
    let lean: i64 = dir as i64 - plane as i64;
    assert(-0x8000_0000_0000 * 0x1_0000_0000 <= distance * lean <= 0x8000_0000_0000
        * 0x1_0000_0000 && -0x8000_0000_0000 * 0x1_0000_0000 <= distance * (2 * plane)
        <= 0x8000_0000_0000 * 0x1_0000_0000) by (nonlinear_arith)
        requires
            0 <= distance <= 0x8000_0000_0000,
            -0x1_0000_0000 <= lean <= 0x1_0000_0000,
            -0x8000_0000 <= plane <= 0x8000_0000,
    ;
    let start = pos as i128 + floor_div(distance * (lean as i128), 65536);
    let step = floor_div(distance * (2 * (plane as i128)), 65536 * (width as i128));
    (start, step)
}

/// Paints the floor below the horizon and the ceiling above it.
pub fn draw_floor_ceiling(
    renderer: &mut Renderer,
    map: &TileMap,
    camera: &Camera,
    textures: &Vec<DynamicImage>,
)
    requires
        old(renderer).wf(),
        map.wf(),
    ensures
        final(renderer).wf(),
        final(renderer)@ == old(renderer)@.overlay(
            |x: int, y: int|
                floor_ceiling_at(
                    map@,
                    *camera,
                    textures@,
                    old(renderer)@.width,
                    old(renderer)@.height,
                    x,
                    y,
                ),
        ),
{
    let width: i32 = renderer.width();
    let height: i32 = renderer.height();
    proof {
        renderer.lemma_view_wf();
    }
    let ghost paint = |x: int, y: int|
        floor_ceiling_at(map@, *camera, textures@, width as int, height as int, x, y);
    let ghost row_of = |y: int| if 2 * y > height { y } else { height - y };
    let mut row: i32 = height / 2 + 1;
    proof {
        assert(renderer@.pixels =~= old(renderer)@.overlay(
            |x: int, y: int| if row_of(y) < row { paint(x, y) } else { None },
        ).pixels);
    }
    while row < height
        invariant
            renderer.wf(),
            map.wf(),
            renderer@.width == width,
            renderer@.height == height,
            old(renderer)@.width == width,
            old(renderer)@.height == height,
            0 < width,
            0 < height,
            height / 2 + 1 <= row,
            row <= height || height / 2 + 1 > height,
            paint == |x: int, y: int|
                floor_ceiling_at(map@, *camera, textures@, width as int, height as int, x, y),
            row_of == |y: int| if 2 * y > height { y } else { height - y },
            renderer@ == old(renderer)@.overlay(
                |x: int, y: int| if row_of(y) < row { paint(x, y) } else { None },
            ),
        decreases height - row,
    {
        let num: i64 = 2 * (row as i64) - height as i64;
        let distance = floor_div((height as i128) * 65536, num as i128);
        let (start_x, step_x) = row_span(camera.x, camera.dir_x, camera.plane_x, distance, width);
        let (start_y, step_y) = row_span(camera.y, camera.dir_y, camera.plane_y, distance, width);
        let mut fx: i128 = start_x;
        let mut fy: i128 = start_y;
        let mut x: i32 = 0;
        proof {
            assert(0 * step_x == 0 && 0 * step_y == 0) by (nonlinear_arith);
            assert(renderer@.pixels =~= old(renderer)@.overlay(
                |px: int, py: int|
                    if row_of(py) < row || (row_of(py) == row && px < x) {
                        paint(px, py)
                    } else {
                        None
                    },
            ).pixels);
        }
        while x < width
            invariant
                renderer.wf(),
                map.wf(),
                renderer@.width == width,
                renderer@.height == height,
                old(renderer)@.width == width,
                old(renderer)@.height == height,
                0 < width,
                0 < height,
                height / 2 + 1 <= row < height,
                num == 2 * row - height,
                distance == row_distance(height as int, row as int),
                start_x == row_start(
                    camera.x as int,
                    camera.dir_x as int,
                    camera.plane_x as int,
                    distance as int,
                ),
                start_y == row_start(
                    camera.y as int,
                    camera.dir_y as int,
                    camera.plane_y as int,
                    distance as int,
                ),
                step_x == row_step(camera.plane_x as int, distance as int, width as int),
                step_y == row_step(camera.plane_y as int, distance as int, width as int),
                -0x1_0000_0000_0000_0000_0000 <= start_x <= 0x1_0000_0000_0000_0000_0000,
                -0x1_0000_0000_0000_0000_0000 <= step_x <= 0x1_0000_0000_0000_0000_0000,
                -0x1_0000_0000_0000_0000_0000 <= start_y <= 0x1_0000_0000_0000_0000_0000,
                -0x1_0000_0000_0000_0000_0000 <= step_y <= 0x1_0000_0000_0000_0000_0000,
                0 <= x <= width,
                fx == start_x + x * step_x,
                fy == start_y + x * step_y,
                paint == |x: int, y: int|
                    floor_ceiling_at(map@, *camera, textures@, width as int, height as int, x, y),
                row_of == |y: int| if 2 * y > height { y } else { height - y },
                renderer@ == old(renderer)@.overlay(
                    |px: int, py: int|
                        if row_of(py) < row || (row_of(py) == row && px < x) {
                            paint(px, py)
                        } else {
                            None
                        },
                ),
            decreases width - x,
        {
            proof {
                assert(-0x8000_0000 * 0x1_0000_0000_0000_0000_0000 <= x * step_x <= 0x8000_0000
                    * 0x1_0000_0000_0000_0000_0000 && -0x8000_0000 * 0x1_0000_0000_0000_0000_0000 <= x
                    * step_y <= 0x8000_0000 * 0x1_0000_0000_0000_0000_0000) by (nonlinear_arith)
                    requires
                        0 <= x <= 0x8000_0000,
                        -0x1_0000_0000_0000_0000_0000 <= step_x <= 0x1_0000_0000_0000_0000_0000,
                        -0x1_0000_0000_0000_0000_0000 <= step_y <= 0x1_0000_0000_0000_0000_0000,
                ;
                assert((x + 1) * step_x == x * step_x + step_x && (x + 1) * step_y == x * step_y
                    + step_y) by (nonlinear_arith);
            }
            let below = color_at_point(map, textures, Grid::Floor, fx, fy, num, height as i64);
            if let Some(c) = below {
                renderer.draw_pixel(&c, x, row);
            }
            let above = color_at_point(map, textures, Grid::Ceiling, fx, fy, num, height as i64);
            if let Some(c) = above {
                renderer.draw_pixel(&c, x, height - row);
            }
            proof {
                assert(renderer@.pixels =~= old(renderer)@.overlay(
                    |px: int, py: int|
                        if row_of(py) < row || (row_of(py) == row && px < x + 1) {
                            paint(px, py)
                        } else {
                            None
                        },
                ).pixels);
            }
            fx = fx + step_x;
            fy = fy + step_y;
            x += 1;
        }
        proof {
            assert(renderer@.pixels =~= old(renderer)@.overlay(
                |px: int, py: int| if row_of(py) < row + 1 { paint(px, py) } else { None },
            ).pixels);
        }
        row += 1;
    }
    proof {
        assert(renderer@.pixels =~= old(renderer)@.overlay(paint).pixels);
    }
}

} // verus!
