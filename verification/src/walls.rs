//! Walls: each screen column shows one vertical slice of the wall that its
//! ray struck, taller the nearer the wall.

use image::DynamicImage;
use vstd::prelude::*;

use crate::fixed::floor_div;
use crate::ray::Ray;
use crate::renderer::{scale_channel, scaled_channel, sub_texture_at, Rect, Renderer, Size};
use crate::texture::{height_of, select_texture, texture_height, texture_index, texture_width, width_of};
use crate::tile_map::{Grid, MapView, TileMap};

verus! {

/// The brightness of a wall face crossed along `x`, before distance dims it.
pub const SIDE_X_BRIGHTNESS: u8 = 0x99;

/// The brightness of a wall face crossed along `y`, before distance dims it.
pub const SIDE_Y_BRIGHTNESS: u8 = 0xff;

/// How many pixels tall a wall at distance `dist` shows in a view `height`
/// pixels tall: `height / dist` rounded up, limited to `i32::MAX`; a wall at
/// no distance shows as tall as can be.
pub open spec fn line_height(height: int, dist: int) -> int {
    if dist <= 0 {
        i32::MAX as int
    } else if (height * 65536 + dist - 1) / dist > i32::MAX {
        i32::MAX as int
    } else {
        (height * 65536 + dist - 1) / dist
    }
}

/// The top row of a strip `line_height` pixels tall centred in a view
/// `height` pixels tall: `(height - line_height) / 2`, a half rounding away
/// from zero.
pub open spec fn strip_top(height: int, line_height: int) -> int {
    if height - line_height >= 0 {
        (height - line_height + 1) / 2
    } else {
        -((line_height - height + 1) / 2)
    }
}

/// The brightness of a wall strip: the brightness of its face, dimmed by
/// `line_height / height`.
pub open spec fn wall_brightness(side: int, line_height: int, height: int) -> u8 {
    scale_channel(
        if side == 0 {
            SIDE_X_BRIGHTNESS
        } else {
            SIDE_Y_BRIGHTNESS
        },
        line_height,
        height,
    )
}

/// The texture column that shows at the place `wall_x` along a wall face, in
/// a texture `width` texels wide.
pub open spec fn wall_texel_column(wall_x: int, width: int) -> int {
    wall_x * width / 65536
}

/// What the wall strip for `ray`, drawn in screen column `col` of a view
/// `height` pixels tall, paints at `(x, y)`: one column of the struck cell's
/// texture, stretched to the strip's height. Nothing when `ray.wall_x` is no
/// place along a face or there is no texture.
pub open spec fn wall_strip_at(
    map: MapView,
    textures: Seq<DynamicImage>,
    ray: Ray,
    height: int,
    col: int,
    x: int,
    y: int,
) -> Option<[u8; 4]> {
    if ray.wall_x < 0 || ray.wall_x >= 65536 {
        None
    } else {
        match texture_index(
            map.cell(Grid::Walls, ray.map_x as int, ray.map_y as int),
            textures.len() as int,
        ) {
            None => None,
            Some(id) => {
                let tall = line_height(height, ray.ray_dist as int);
                let c = wall_brightness(ray.side as int, tall, height);
                sub_texture_at(
                    textures[id],
                    [c, c, c, 255u8],
                    col,
                    strip_top(height, tall),
                    (Size { width: 1, height: tall as u32 }),
                    (Rect {
                        x: wall_texel_column(
                            ray.wall_x as int,
                            texture_width(textures[id]) as int,
                        ) as u32,
                        y: 0,
                        width: 1,
                        height: texture_height(textures[id]),
                    }),
                    x,
                    y,
                )
            },
        }
    }
}

/// What the wall pass paints at `(x, y)`: in each column that has a ray, the
/// strip for that ray.
pub open spec fn walls_at(
    map: MapView,
    textures: Seq<DynamicImage>,
    rays: Seq<Ray>,
    height: int,
    x: int,
    y: int,
) -> Option<[u8; 4]> {
    if 0 <= x < rays.len() {
        wall_strip_at(map, textures, rays[x], height, x, x, y)
    } else {
        None
    }
}

/// How many pixels tall a wall at distance `dist` shows.
pub fn wall_line_height(height: i32, dist: i64) -> (tall: i32)
    requires
        0 < height,
    ensures
        tall == line_height(height as int, dist as int),
        0 < tall,
{
    if dist <= 0 {
        return i32::MAX;
    }
    let tall = floor_div((height as i128) * 65536 + dist as i128 - 1, dist as i128);
    proof {
        let n = height * 65536 + dist - 1;
        vstd::arithmetic::div_mod::lemma_fundamental_div_mod(n, dist as int);
        vstd::arithmetic::div_mod::lemma_mod_bound(n, dist as int);
        let r = n % (dist as int);
        assert(tall > 0) by (nonlinear_arith)
            requires
                n == (dist as int) * tall + r,
                0 <= r < dist,
                n >= dist,
                dist > 0,
        ;
    }
    if tall > i32::MAX as i128 {
        i32::MAX
    } else {
        tall as i32
    }
}

/// The top row of a strip `tall` pixels tall centred in the view.
pub fn wall_strip_top(height: i32, tall: i32) -> (top: i32)
    requires
        0 < height,
        0 < tall,
    ensures
        top == strip_top(height as int, tall as int),
{
    let n: i64 = height as i64 - tall as i64;
    if n >= 0 {
        ((n + 1) / 2) as i32
    } else {
        (-((1 - n) / 2)) as i32
    }
}

/// Draws the wall strip for `ray` in screen column `col`.
pub fn draw_wall_strip(
    renderer: &mut Renderer,
    map: &TileMap,
    textures: &Vec<DynamicImage>,
    ray: &Ray,
    col: i32,
)
    requires
        old(renderer).wf(),
        map.wf(),
    ensures
        final(renderer).wf(),
        final(renderer)@ == old(renderer)@.overlay(
            |x: int, y: int|
                wall_strip_at(map@, textures@, *ray, old(renderer)@.height, col as int, x, y),
        ),
{
    let ghost paint = |x: int, y: int|
        wall_strip_at(map@, textures@, *ray, old(renderer)@.height, col as int, x, y);
    proof {
        renderer.lemma_view_wf();
    }
    if ray.wall_x < 0 || ray.wall_x >= 65536 {
        proof {
            assert(renderer@.pixels =~= old(renderer)@.overlay(paint).pixels);
        }
        return ;
    }
    let value = map.cell(Grid::Walls, ray.map_x, ray.map_y);
    match select_texture(value, textures.len()) {
        None => {
            proof {
                assert(renderer@.pixels =~= old(renderer)@.overlay(paint).pixels);
            }
        },
        Some(id) => {
            let texture = &textures[id];
            let height = renderer.height();
            let tall = wall_line_height(height, ray.ray_dist);
            let top = wall_strip_top(height, tall);
            let face: u8 = if ray.side == 0 { SIDE_X_BRIGHTNESS } else { SIDE_Y_BRIGHTNESS };
            let c = scaled_channel(face, tall as i64, height as i64);
            let shade: [u8; 4] = [c, c, c, 255u8];
            let tw = width_of(texture);
            let th = height_of(texture);
            assert(0 <= ray.wall_x * tw <= 65535 * tw) by (nonlinear_arith)
                requires
                    0 <= ray.wall_x <= 65535,
                    0 <= tw,
            ;
            let tex_x: u64 = (ray.wall_x as u64) * (tw as u64) / 65536;
            let size = Size { width: 1, height: tall as u32 };
            let sub = Rect { x: tex_x as u32, y: 0, width: 1, height: th };
            renderer.draw_sub_texture_shaded(texture, &shade, col, top, size, sub);
            proof {
                assert(renderer@.pixels =~= old(renderer)@.overlay(paint).pixels);
            }
        },
    }
}

/// Draws the walls: for each screen column that has a ray, the strip for
/// that ray.
pub fn draw_walls(
    renderer: &mut Renderer,
    map: &TileMap,
    textures: &Vec<DynamicImage>,
    rays: &Vec<Ray>,
)
    requires
        old(renderer).wf(),
        map.wf(),
    ensures
        final(renderer).wf(),
        final(renderer)@ == old(renderer)@.overlay(
            |x: int, y: int| walls_at(map@, textures@, rays@, old(renderer)@.height, x, y),
        ),
{
    let ghost paint = |x: int, y: int|
        walls_at(map@, textures@, rays@, old(renderer)@.height, x, y);
    proof {
        renderer.lemma_view_wf();
    }
    let width = renderer.width();
    let count: usize = rays.len();
    let mut x: i32 = 0;
    proof {
        assert(renderer@.pixels =~= old(renderer)@.overlay(
            |px: int, py: int| if px < x { paint(px, py) } else { None },
        ).pixels);
    }
    while x < width && (x as usize) < count
        invariant
            renderer.wf(),
            map.wf(),
            renderer@.width == old(renderer)@.width,
            renderer@.height == old(renderer)@.height,
            width == renderer@.width,
            count == rays@.len(),
            0 <= x <= width,
            x <= count,
            paint == |x: int, y: int|
                walls_at(map@, textures@, rays@, old(renderer)@.height, x, y),
            renderer@ == old(renderer)@.overlay(
                |px: int, py: int| if px < x { paint(px, py) } else { None },
            ),
        decreases width - x,
    {
        draw_wall_strip(renderer, map, textures, &rays[x as usize], x);
        proof {
            assert(renderer@.pixels =~= old(renderer)@.overlay(
                |px: int, py: int| if px < x + 1 { paint(px, py) } else { None },
            ).pixels);
        }
        x += 1;
    }
    proof {
        assert(renderer@.pixels =~= old(renderer)@.overlay(paint).pixels);
    }
}

} // verus!
