//! Sprites: entities drawn as pictures that face the camera, farthest first,
//! each screen column hidden where a wall is nearer.

use image::DynamicImage;
use vstd::prelude::*;

use crate::camera::Camera;
use crate::entity::Entity;
use crate::fixed::{floor_div, floor_ratio, ratio};
use crate::ray::Ray;
use crate::renderer::{
    scale_channel, scaled_channel, sub_texture_at, Frame, Rect, Renderer, Size,
};
use crate::texture::{
    height_of, select_or_default, texture_height, texture_or_default, texture_width, width_of,
};

verus! {

/// The determinant of the camera's basis `(plane, dir)`, as a 32.32 number.
pub open spec fn view_det(camera: Camera) -> int {
    camera.plane_x * camera.dir_y - camera.dir_x * camera.plane_y
}

/// How far in front of the camera the entity stands, measured along the view
/// direction in units of its length: the second coordinate of the entity's
/// offset in the basis `(plane, dir)`. 0 when the basis has no area.
pub open spec fn sprite_depth(camera: Camera, entity: Entity) -> int {
    ratio(
        (camera.plane_x * (entity.y_pos - camera.y) - camera.plane_y * (entity.x_pos - camera.x))
            * 65536,
        view_det(camera),
    )
}

/// How far to the side of the view's axis the entity stands, in units of the
/// plane vector's length: the first coordinate of its offset in the basis
/// `(plane, dir)`.
pub open spec fn sprite_lateral(camera: Camera, entity: Entity) -> int {
    ratio(
        (camera.dir_y * (entity.x_pos - camera.x) - camera.dir_x * (entity.y_pos - camera.y))
            * 65536,
        view_det(camera),
    )
}

/// The screen column at which an entity's centre shows:
/// `(width / 2) * (1 + lateral / depth)`.
pub open spec fn sprite_screen_x(width: int, depth: int, lateral: int) -> int {
    (width / 2) * (depth + lateral) / depth
}

/// The width and height in pixels of a sprite at depth `depth`:
/// `height / depth`, limited to `i32::MAX`.
pub open spec fn sprite_size(height: int, depth: int) -> int {
    if height * 65536 / depth > i32::MAX {
        i32::MAX as int
    } else {
        height * 65536 / depth
    }
}

/// The first screen column of a sprite.
pub open spec fn sprite_start_x(camera: Camera, entity: Entity, width: int, height: int) -> int {
    let depth = sprite_depth(camera, entity);
    sprite_screen_x(width, depth, sprite_lateral(camera, entity)) - sprite_size(height, depth) / 2
}

/// The screen column after the last of a sprite.
pub open spec fn sprite_end_x(camera: Camera, entity: Entity, width: int, height: int) -> int {
    let depth = sprite_depth(camera, entity);
    sprite_screen_x(width, depth, sprite_lateral(camera, entity)) + sprite_size(height, depth) / 2
}

/// Whether the entity stands in front of the camera and its sprite spans the
/// screen column `x` of a view `width` columns wide.
pub open spec fn sprite_spans(
    camera: Camera,
    entity: Entity,
    width: int,
    height: int,
    x: int,
) -> bool {
    &&& sprite_depth(camera, entity) > 0
    &&& 0 <= x < width
    &&& sprite_start_x(camera, entity, width, height) <= x < sprite_end_x(
        camera,
        entity,
        width,
        height,
    )
}

/// The texture column shown `offset` columns into a sprite `size` columns
/// wide, in a texture `width` texels wide.
pub open spec fn sprite_texel_column(offset: int, width: int, size: int) -> int {
    if width <= 0 {
        0
    } else if offset * width / size >= width {
        width - 1
    } else {
        offset * width / size
    }
}

/// The brightness of a sprite `size` pixels tall in a view `height` pixels
/// tall: full when it fills the view, less in proportion when smaller.
pub open spec fn sprite_brightness(size: int, height: int) -> u8 {
    scale_channel(255u8, if size < height { size } else { height }, height)
}

/// What the sprite of `entity` paints at `(x, y)`. A column shows only where
/// the sprite spans it, a ray was cast through it, and the wall that ray
/// struck is no nearer than the entity.
pub open spec fn sprite_at(
    camera: Camera,
    entity: Entity,
    textures: Seq<DynamicImage>,
    rays: Seq<Ray>,
    width: int,
    height: int,
    x: int,
    y: int,
) -> Option<[u8; 4]> {
    let depth = sprite_depth(camera, entity);
    let size = sprite_size(height, depth);
    let start = sprite_start_x(camera, entity, width, height);
    if !sprite_spans(camera, entity, width, height, x) || x >= rays.len() || rays[x].ray_dist
        < depth {
        None
    } else {
        match texture_or_default(entity.texture_id as int, textures.len() as int) {
            None => None,
            Some(id) => {
                let c = sprite_brightness(size, height);
                sub_texture_at(
                    textures[id],
                    [c, c, c, c],
                    x,
                    height / 2 - size / 2,
                    (Size { width: 1, height: size as u32 }),
                    (Rect {
                        x: sprite_texel_column(
                            x - start,
                            texture_width(textures[id]) as int,
                            size,
                        ) as u32,
                        y: 0,
                        width: 1,
                        height: texture_height(textures[id]),
                    }),
                    x,
                    y,
                )
            },
        }
    }
}

/// A sprite that stands behind a nearer wall in every screen column it spans
/// paints nothing.
pub proof fn lemma_occluded_sprite_paints_nothing(
    frame: Frame,
    camera: Camera,
    entity: Entity,
    textures: Seq<DynamicImage>,
    rays: Seq<Ray>,
)
    requires
        frame.wf(),
        forall|x: int|
            sprite_spans(camera, entity, frame.width, frame.height, x) && x < rays.len()
                ==> (#[trigger] rays[x]).ray_dist < sprite_depth(camera, entity),
    ensures
        frame.overlay(
            |x: int, y: int|
                sprite_at(camera, entity, textures, rays, frame.width, frame.height, x, y),
        ) == frame,
{
    let after = frame.overlay(
        |x: int, y: int| sprite_at(camera, entity, textures, rays, frame.width, frame.height, x, y),
    );
    assert forall|x: int, y: int| frame.contains(x, y) implies sprite_at(
        camera,
        entity,
        textures,
        rays,
        frame.width,
        frame.height,
        x,
        y,
    ) is None by {
        if sprite_spans(camera, entity, frame.width, frame.height, x) && x < rays.len() {
            assert(rays[x].ray_dist < sprite_depth(camera, entity));
        }
    }
    assert(after.pixels =~= frame.pixels);
}

/// Where on the screen a sprite shows.
#[derive(Debug, Clone, Copy, PartialEq, Eq, Structural)]
pub struct Projection {
    /// The entity's depth, positive.
    pub depth: i128,
    /// The sprite's first screen column and the one after its last.
    pub start_x: i128,
    pub end_x: i128,
    /// The sprite's top row.
    pub top: i32,
    /// The sprite's width and height in pixels.
    pub size: i32,
}

/// Projects an entity onto a view of `width` by `height` pixels. None when
/// the entity does not stand in front of the camera.
pub fn project(camera: &Camera, entity: &Entity, width: i32, height: i32) -> (r: Option<Projection>)
    requires
        0 < width,
        0 < height,
    ensures
        r is Some <==> sprite_depth(*camera, *entity) > 0,
        r is Some ==> {
            let p = r->Some_0;
            &&& p.depth == sprite_depth(*camera, *entity)
            &&& p.size == sprite_size(height as int, p.depth as int)
            &&& p.start_x == sprite_start_x(*camera, *entity, width as int, height as int)
            &&& p.end_x == sprite_end_x(*camera, *entity, width as int, height as int)
            &&& p.top == height / 2 - p.size / 2
            &&& 0 <= p.size
            &&& p.end_x - p.start_x <= p.size
        },
{
    let sx: i128 = entity.x_pos as i128 - camera.x as i128;
    let sy: i128 = entity.y_pos as i128 - camera.y as i128;
    let dir_x = camera.dir_x as i128;
    let dir_y = camera.dir_y as i128;
    let plane_x = camera.plane_x as i128;
    let plane_y = camera.plane_y as i128;
    assert(-0x8000_0000 * 0x8000_0000 <= plane_x * dir_y <= 0x8000_0000 * 0x8000_0000
        && -0x8000_0000 * 0x8000_0000 <= dir_x * plane_y <= 0x8000_0000 * 0x8000_0000
        && -0x8000_0000 * 0x1_0000_0000 <= plane_x * sy <= 0x8000_0000 * 0x1_0000_0000
        && -0x8000_0000 * 0x1_0000_0000 <= plane_y * sx <= 0x8000_0000 * 0x1_0000_0000
        && -0x8000_0000 * 0x1_0000_0000 <= dir_y * sx <= 0x8000_0000 * 0x1_0000_0000
        && -0x8000_0000 * 0x1_0000_0000 <= dir_x * sy <= 0x8000_0000 * 0x1_0000_0000)
        by (nonlinear_arith)
        requires
            -0x8000_0000 <= plane_x <= 0x8000_0000,
            -0x8000_0000 <= plane_y <= 0x8000_0000,
            -0x8000_0000 <= dir_x <= 0x8000_0000,
            -0x8000_0000 <= dir_y <= 0x8000_0000,
            -0x1_0000_0000 <= sx <= 0x1_0000_0000,
            -0x1_0000_0000 <= sy <= 0x1_0000_0000,
    ;
    let det: i128 = plane_x * dir_y - dir_x * plane_y;
    let depth = floor_ratio((plane_x * sy - plane_y * sx) * 65536, det);
    if depth <= 0 {
        return None;
    }
    let lateral = floor_ratio((dir_y * sx - dir_x * sy) * 65536, det);
    let half: i128 = (width / 2) as i128;
    assert(-0x4000_0000 * 0x4_0000_0000_0000_0000_0000 <= half * (depth + lateral) <= 0x4000_0000
        * 0x4_0000_0000_0000_0000_0000) by (nonlinear_arith)
        requires
            0 <= half <= 0x4000_0000,
            -0x4_0000_0000_0000_0000_0000 <= depth + lateral <= 0x4_0000_0000_0000_0000_0000,
    ;
    let screen_x = floor_div(half * (depth + lateral), depth);
    let wide = floor_div((height as i128) * 65536, depth);
    let size: i32 = if wide > i32::MAX as i128 { i32::MAX } else { wide as i32 };
    let start_x = screen_x - (size / 2) as i128;
    let end_x = screen_x + (size / 2) as i128;
    Some(Projection { depth, start_x, end_x, top: height / 2 - size / 2, size })
}

/// Draws the sprite of `entity`, one screen column at a time, skipping each
/// column in which the wall is nearer than the entity.
pub fn draw_sprite(
    renderer: &mut Renderer,
    camera: &Camera,
    entity: &Entity,
    textures: &Vec<DynamicImage>,
    rays: &Vec<Ray>,
)
    requires
        old(renderer).wf(),
    ensures
        final(renderer).wf(),
        final(renderer)@.width == old(renderer)@.width,
        final(renderer)@.height == old(renderer)@.height,
        final(renderer)@ == old(renderer)@.overlay(
            |x: int, y: int|
                sprite_at(
                    *camera,
                    *entity,
                    textures@,
                    rays@,
                    old(renderer)@.width,
                    old(renderer)@.height,
                    x,
                    y,
                ),
        ),
{
    let ghost paint = |x: int, y: int|
        sprite_at(
            *camera,
            *entity,
            textures@,
            rays@,
            old(renderer)@.width,
            old(renderer)@.height,
            x,
            y,
        );
    proof {
        renderer.lemma_view_wf();
    }
    let width = renderer.width();
    let height = renderer.height();
    let projection = match project(camera, entity, width, height) {
        None => {
            proof {
                assert(renderer@.pixels =~= old(renderer)@.overlay(paint).pixels);
            }
            return ;
        },
        Some(p) => p,
    };
    let id = match select_or_default(entity.texture_id, textures.len()) {
        None => {
            proof {
                assert(renderer@.pixels =~= old(renderer)@.overlay(paint).pixels);
            }
            return ;
        },
        Some(id) => id,
    };
    let texture = &textures[id];
    let tw = width_of(texture);
    let th = height_of(texture);
    let size = projection.size;
    let c = scaled_channel(
        255u8,
        if size < height { size as i64 } else { height as i64 },
        height as i64,
    );
    let shade: [u8; 4] = [c, c, c, c];
    let lo: i32 = if projection.start_x < 0 { 0 } else if projection.start_x > width as i128 {
        width
    } else {
        projection.start_x as i32
    };
    let seen: i32 = if rays.len() < width as usize { rays.len() as i32 } else { width };
    let hi: i32 = if projection.end_x > seen as i128 { seen } else if projection.end_x < 0 {
        0
    } else {
        projection.end_x as i32
    };
    let mut x: i32 = lo;
    proof {
        assert(renderer@.pixels =~= old(renderer)@.overlay(
            |px: int, py: int| if px < x { paint(px, py) } else { None },
        ).pixels);
    }
    while x < hi
        invariant
            renderer.wf(),
            renderer@.width == old(renderer)@.width,
            renderer@.height == old(renderer)@.height,
            width == renderer@.width,
            height == renderer@.height,
            0 < width,
            0 < height,
            projection.depth == sprite_depth(*camera, *entity),
            projection.depth > 0,
            projection.size == sprite_size(height as int, projection.depth as int),
            projection.start_x == sprite_start_x(*camera, *entity, width as int, height as int),
            projection.end_x == sprite_end_x(*camera, *entity, width as int, height as int),
            projection.top == height / 2 - projection.size / 2,
            projection.end_x - projection.start_x <= projection.size,
            size == projection.size,
            0 <= size,
            texture_or_default(entity.texture_id as int, textures@.len() as int) == Some(
                id as int,
            ),
            id < textures@.len(),
            *texture == textures@[id as int],
            tw == texture_width(*texture),
            th == texture_height(*texture),
            shade == [c, c, c, c],
            c == sprite_brightness(size as int, height as int),
            0 <= lo <= x,
            x <= hi || hi < lo,
            hi <= width,
            hi <= rays@.len(),
            lo == (if projection.start_x < 0 {
                0
            } else if projection.start_x > width {
                width as int
            } else {
                projection.start_x as int
            }),
            seen == (if rays@.len() < width { rays@.len() as int } else { width as int }),
            hi == (if projection.end_x > seen {
                seen as int
            } else if projection.end_x < 0 {
                0
            } else {
                projection.end_x as int
            }),
            paint == |x: int, y: int|
                sprite_at(
                    *camera,
                    *entity,
                    textures@,
                    rays@,
                    old(renderer)@.width,
                    old(renderer)@.height,
                    x,
                    y,
                ),
            renderer@ == old(renderer)@.overlay(
                |px: int, py: int| if px < x { paint(px, py) } else { None },
            ),
        decreases hi - x,
    {
        if rays[x as usize].ray_dist as i128 >= projection.depth {
            let offset: i128 = x as i128 - projection.start_x;
            assert(0 <= offset * tw <= 0x8000_0000 * 0xffff_ffff) by (nonlinear_arith)
                requires
                    0 <= offset <= 0x8000_0000,
                    0 <= tw <= 0xffff_ffff,
            ;
            let raw: i128 = offset * (tw as i128) / (size as i128);
            let tex_x: u32 = if tw == 0 {
                0
            } else if raw >= tw as i128 {
                tw - 1
            } else {
                raw as u32
            };
            let strip = Size { width: 1, height: size as u32 };
            let sub = Rect { x: tex_x, y: 0, width: 1, height: th };
            renderer.draw_sub_texture_shaded(texture, &shade, x, projection.top, strip, sub);
        }
        proof {
            assert(renderer@.pixels =~= old(renderer)@.overlay(
                |px: int, py: int| if px < x + 1 { paint(px, py) } else { None },
            ).pixels);
        }
        x += 1;
    }
    proof {
        assert(renderer@.pixels =~= old(renderer)@.overlay(paint).pixels);
    }
}

/// The square of the distance between the camera and an entity.
pub open spec fn squared_distance(camera: Camera, entity: Entity) -> int {
    (camera.x - entity.x_pos) * (camera.x - entity.x_pos) + (camera.y - entity.y_pos) * (camera.y
        - entity.y_pos)
}

/// Whether entity `a` is drawn before entity `b`: it is farther from the
/// camera, or as far and earlier in the list.
pub open spec fn drawn_before(camera: Camera, entities: Seq<Entity>, a: int, b: int) -> bool {
    squared_distance(camera, entities[a]) > squared_distance(camera, entities[b]) || (
    squared_distance(camera, entities[a]) == squared_distance(camera, entities[b]) && a < b)
}

/// Whether `order` names the entity `i`.
pub open spec fn lists(order: Seq<usize>, i: int) -> bool {
    exists|k: int| 0 <= k < order.len() && #[trigger] order[k] == i
}

/// Whether `order` lists every entity once, each before all that are drawn
/// after it.
pub open spec fn is_draw_order(order: Seq<usize>, camera: Camera, entities: Seq<Entity>) -> bool {
    &&& order.len() == entities.len()
    &&& forall|k: int| 0 <= k < order.len() ==> (#[trigger] order[k]) < entities.len()
    &&& forall|a: int, b: int|
        0 <= a < b < order.len() ==> drawn_before(
            camera,
            entities,
            #[trigger] order[a] as int,
            #[trigger] order[b] as int,
        )
    &&& forall|i: int| 0 <= i < entities.len() ==> #[trigger] lists(order, i)
}

/// The order in which the entities are drawn: farthest from the camera
/// first, and of two that are as far the one earlier in the list.
pub open spec fn draw_order(camera: Camera, entities: Seq<Entity>) -> Seq<usize> {
    choose|order: Seq<usize>| is_draw_order(order, camera, entities)
}

/// Where two draw orders agree up to a place, they agree at that place.
proof fn lemma_draw_order_step(
    o1: Seq<usize>,
    o2: Seq<usize>,
    camera: Camera,
    entities: Seq<Entity>,
    a: int,
)
    requires
        is_draw_order(o1, camera, entities),
        is_draw_order(o2, camera, entities),
        0 <= a < entities.len(),
        forall|b: int| 0 <= b < a ==> o1[b] == o2[b],
    ensures
        o1[a] == o2[a],
{
    let i = o1[a] as int;
    let j = o2[a] as int;
    assert(lists(o2, i));
    let c = choose|k: int| 0 <= k < o2.len() && #[trigger] o2[k] == i;
    assert(lists(o1, j));
    let d = choose|k: int| 0 <= k < o1.len() && #[trigger] o1[k] == j;
    if c < a {
        assert(o1[c] == o2[c]);
        assert(drawn_before(camera, entities, o1[c] as int, o1[a] as int));
    }
    if d < a {
        assert(o1[d] == o2[d]);
        assert(drawn_before(camera, entities, o2[d] as int, o2[a] as int));
    }
    if c > a {
        assert(drawn_before(camera, entities, o2[a] as int, o2[c] as int));
        if d > a {
            assert(drawn_before(camera, entities, o1[a] as int, o1[d] as int));
        }
    }
}

/// Two draw orders agree up to every place.
proof fn lemma_draw_order_prefix(
    o1: Seq<usize>,
    o2: Seq<usize>,
    camera: Camera,
    entities: Seq<Entity>,
    a: int,
)
    requires
        is_draw_order(o1, camera, entities),
        is_draw_order(o2, camera, entities),
        0 <= a <= entities.len(),
    ensures
        forall|b: int| 0 <= b < a ==> o1[b] == o2[b],
    decreases a,
{
    if a > 0 {
        lemma_draw_order_prefix(o1, o2, camera, entities, a - 1);
        lemma_draw_order_step(o1, o2, camera, entities, a - 1);
    }
}

/// The entities have one draw order only.
pub proof fn lemma_draw_order_unique(
    o1: Seq<usize>,
    o2: Seq<usize>,
    camera: Camera,
    entities: Seq<Entity>,
)
    requires
        is_draw_order(o1, camera, entities),
        is_draw_order(o2, camera, entities),
    ensures
        o1 == o2,
{
    lemma_draw_order_prefix(o1, o2, camera, entities, entities.len() as int);
    assert(o1 =~= o2);
}

/// The grid after the sprites of the first `count` entries of `order` have
/// been drawn over it, one after another. An entry that names no entity draws
/// nothing.
pub open spec fn sprites_painted(
    frame: Frame,
    camera: Camera,
    entities: Seq<Entity>,
    textures: Seq<DynamicImage>,
    rays: Seq<Ray>,
    order: Seq<usize>,
    count: nat,
) -> Frame
    decreases count,
{
    if count == 0 {
        frame
    } else {
        let before = sprites_painted(
            frame,
            camera,
            entities,
            textures,
            rays,
            order,
            (count - 1) as nat,
        );
        let i = order[count - 1] as int;
        if i < entities.len() {
            before.overlay(
                |x: int, y: int|
                    sprite_at(camera, entities[i], textures, rays, frame.width, frame.height, x, y),
            )
        } else {
            before
        }
    }
}

/// Drawing sprites leaves the size of the grid as it was.
pub proof fn lemma_sprites_painted_size(
    frame: Frame,
    camera: Camera,
    entities: Seq<Entity>,
    textures: Seq<DynamicImage>,
    rays: Seq<Ray>,
    order: Seq<usize>,
    count: nat,
)
    ensures
        sprites_painted(frame, camera, entities, textures, rays, order, count).width
            == frame.width,
        sprites_painted(frame, camera, entities, textures, rays, order, count).height
            == frame.height,
    decreases count,
{
    if count > 0 {
        lemma_sprites_painted_size(
            frame,
            camera,
            entities,
            textures,
            rays,
            order,
            (count - 1) as nat,
        );
    }
}

/// The square of the distance between the camera and an entity.
fn distance_squared(camera: &Camera, entity: &Entity) -> (d: i128)
    ensures
        d == squared_distance(*camera, *entity),
{
    let dx: i128 = camera.x as i128 - entity.x_pos as i128;
    let dy: i128 = camera.y as i128 - entity.y_pos as i128;
    assert(0 <= dx * dx <= 0x1_0000_0000 * 0x1_0000_0000 && 0 <= dy * dy <= 0x1_0000_0000
        * 0x1_0000_0000) by (nonlinear_arith)
        requires
            -0x1_0000_0000 <= dx <= 0x1_0000_0000,
            -0x1_0000_0000 <= dy <= 0x1_0000_0000,
    ;
    dx * dx + dy * dy
}

/// An order of entities below `i` with `i` put in names only entities up to
/// `i`.
proof fn lemma_insert_in_range(before: Seq<usize>, p: int, i: usize)
    requires
        0 <= p <= before.len(),
        forall|k: int| 0 <= k < before.len() ==> (#[trigger] before[k]) < i,
    ensures
        forall|k: int|
            0 <= k < before.insert(p, i).len() ==> (#[trigger] before.insert(p, i)[k]) < i + 1,
{
    before.insert_ensures(p, i);
    let after = before.insert(p, i);
    assert forall|k: int| 0 <= k < after.len() implies (#[trigger] after[k]) < i + 1 by {
        if k < p {
            assert(after[k] == before[k]);
        } else if k > p {
            assert(after[k] == before[k - 1]);
        }
    }
}

/// A draw order of entities below `i` stays one when `i` is put in behind
/// all that are at least as far from the camera and before the first that is
/// nearer.
proof fn lemma_insert_sorted(
    before: Seq<usize>,
    camera: Camera,
    entities: Seq<Entity>,
    p: int,
    i: usize,
)
    requires
        0 <= p <= before.len(),
        i < entities.len(),
        forall|k: int| 0 <= k < before.len() ==> (#[trigger] before[k]) < i,
        forall|a: int, b: int|
            0 <= a < b < before.len() ==> drawn_before(
                camera,
                entities,
                #[trigger] before[a] as int,
                #[trigger] before[b] as int,
            ),
        forall|k: int|
            0 <= k < p ==> squared_distance(camera, entities[(#[trigger] before[k]) as int])
                >= squared_distance(camera, entities[i as int]),
        p < before.len() ==> squared_distance(camera, entities[before[p] as int])
            < squared_distance(camera, entities[i as int]),
    ensures
        forall|a: int, b: int|
            0 <= a < b < before.insert(p, i).len() ==> drawn_before(
                camera,
                entities,
                #[trigger] before.insert(p, i)[a] as int,
                #[trigger] before.insert(p, i)[b] as int,
            ),
{
    before.insert_ensures(p, i);
    let after = before.insert(p, i);
    assert forall|a: int, b: int| 0 <= a < b < after.len() implies drawn_before(
        camera,
        entities,
        #[trigger] after[a] as int,
        #[trigger] after[b] as int,
    ) by {
        let ia = if a < p { a } else { a - 1 };
        let ib = if b < p { b } else { b - 1 };
        if a != p {
            assert(after[a] == before[ia]);
        }
        if b != p {
            assert(after[b] == before[ib]);
        }
        if a == p {
            assert(after[a] == i);
            if ib > p {
                assert(drawn_before(camera, entities, before[p] as int, before[ib] as int));
            }
        } else if b == p {
            assert(after[b] == i);
            assert(before[ia] < i);
        } else {
            assert(drawn_before(camera, entities, before[ia] as int, before[ib] as int));
        }
    }
}

/// An order that names every entity below `i` names every entity up to `i`
/// when `i` is put in.
proof fn lemma_insert_lists(before: Seq<usize>, p: int, i: usize)
    requires
        0 <= p <= before.len(),
        forall|j: int| 0 <= j < i ==> #[trigger] lists(before, j),
    ensures
        forall|j: int| 0 <= j < i + 1 ==> #[trigger] lists(before.insert(p, i), j),
{
    before.insert_ensures(p, i);
    let after = before.insert(p, i);
    assert forall|j: int| 0 <= j < i + 1 implies #[trigger] lists(after, j) by {
        if j == i {
            assert(after[p] == j);
        } else {
            assert(lists(before, j));
            let k0 = choose|k: int| 0 <= k < before.len() && #[trigger] before[k] == j;
            if k0 < p {
                assert(after[k0] == j);
            } else {
                assert(after[k0 + 1] == before[k0]);
            }
        }
    }
}

/// The order in which to draw the entities: farthest from the camera first,
/// and of two that are as far the one earlier in the list.
pub fn back_to_front(camera: &Camera, entities: &Vec<Entity>) -> (order: Vec<usize>)
    ensures
        is_draw_order(order@, *camera, entities@),
        order@ == draw_order(*camera, entities@),
{
    let mut order: Vec<usize> = Vec::new();
    let mut i: usize = 0;
    while i < entities.len()
        invariant
            i <= entities.len(),
            order@.len() == i,
            forall|k: int| 0 <= k < order@.len() ==> (#[trigger] order@[k]) < i,
            forall|a: int, b: int|
                0 <= a < b < order@.len() ==> drawn_before(
                    *camera,
                    entities@,
                    #[trigger] order@[a] as int,
                    #[trigger] order@[b] as int,
                ),
            forall|j: int| 0 <= j < i ==> #[trigger] lists(order@, j),
        decreases entities.len() - i,
    {
        let d = distance_squared(camera, &entities[i]);
        let mut p: usize = 0;
        while p < order.len() && distance_squared(camera, &entities[order[p]]) >= d
            invariant
                i < entities.len(),
                p <= order@.len(),
                order@.len() == i,
                forall|k: int| 0 <= k < order@.len() ==> (#[trigger] order@[k]) < i,
                d == squared_distance(*camera, entities@[i as int]),
                forall|k: int|
                    0 <= k < p ==> squared_distance(*camera, entities@[(#[trigger] order@[k]) as int])
                        >= d,
            decreases order@.len() - p,
        {
            p += 1;
        }
        proof {
            lemma_insert_in_range(order@, p as int, i);
            lemma_insert_sorted(order@, *camera, entities@, p as int, i);
            lemma_insert_lists(order@, p as int, i);
        }
        order.insert(p, i);
        i += 1;
    }
    proof {
        lemma_draw_order_unique(order@, draw_order(*camera, entities@), *camera, entities@);
    }
    order
}

/// Draws the sprites of the entities that `order` names, in that order, so
/// that each may cover those drawn before it.
pub fn draw_sprites_in_order(
    renderer: &mut Renderer,
    camera: &Camera,
    entities: &Vec<Entity>,
    textures: &Vec<DynamicImage>,
    rays: &Vec<Ray>,
    order: &Vec<usize>,
)
    requires
        old(renderer).wf(),
    ensures
        final(renderer).wf(),
        final(renderer)@.width == old(renderer)@.width,
        final(renderer)@.height == old(renderer)@.height,
        final(renderer)@ == sprites_painted(
            old(renderer)@,
            *camera,
            entities@,
            textures@,
            rays@,
            order@,
            order@.len(),
        ),
{
    let mut k: usize = 0;
    while k < order.len()
        invariant
            renderer.wf(),
            k <= order@.len(),
            renderer@.width == old(renderer)@.width,
            renderer@.height == old(renderer)@.height,
            renderer@ == sprites_painted(
                old(renderer)@,
                *camera,
                entities@,
                textures@,
                rays@,
                order@,
                k as nat,
            ),
        decreases order@.len() - k,
    {
        let i = order[k];
        if i < entities.len() {
            draw_sprite(renderer, camera, &entities[i], textures, rays);
        }
        k += 1;
    }
}

/// Draws the sprites of all entities, farthest first.
pub fn draw_sprites(
    renderer: &mut Renderer,
    camera: &Camera,
    entities: &Vec<Entity>,
    textures: &Vec<DynamicImage>,
    rays: &Vec<Ray>,
)
    requires
        old(renderer).wf(),
    ensures
        final(renderer).wf(),
        final(renderer)@.width == old(renderer)@.width,
        final(renderer)@.height == old(renderer)@.height,
        final(renderer)@ == sprites_painted(
            old(renderer)@,
            *camera,
            entities@,
            textures@,
            rays@,
            draw_order(*camera, entities@),
            entities@.len(),
        ),
{
    let order = back_to_front(camera, entities);
    draw_sprites_in_order(renderer, camera, entities, textures, rays, &order);
}

} // verus!
