//! The frame pipeline: one step of the world per input snapshot, and one
//! picture of the world per frame.

use image::DynamicImage;
use vstd::prelude::*;

use crate::camera::Camera;
use crate::entity::{update_entities, Entity};
use crate::fixed::{clamp_i32, floor_div};
use crate::floor::{draw_floor_ceiling, floor_ceiling_at};
use crate::input::{InputManager, InputView, MouseButton};
use crate::ray::{cast_rays, column_rays, Ray};
use crate::renderer::{Frame, Renderer};
use crate::sprites::{draw_order, draw_sprites, lemma_sprites_painted_size, sprites_painted};
use crate::tile_map::{MapView, TileMap};
use crate::walls::{draw_walls, walls_at};

verus! {

/// What the player asked for during one frame. `turn_cos` and `turn_sin` are
/// the cosine and sine of the angle to turn by, and `elapsed_time` is the
/// length of the frame in seconds, all as 16.16 numbers.
#[derive(Debug, Clone, Copy, PartialEq, Eq, Structural)]
pub struct InputSnapshot {
    pub move_forward: bool,
    pub move_back: bool,
    pub strafe_left: bool,
    pub strafe_right: bool,
    pub turn_cos: i32,
    pub turn_sin: i32,
    pub fire_trigger: bool,
    pub elapsed_time: i32,
}

/// The keys that move the camera, by their codes.
#[derive(Debug, Clone, Copy, PartialEq, Eq, Structural)]
pub struct KeyBindings {
    pub forward: u32,
    pub back: u32,
    pub left: u32,
    pub right: u32,
}

/// How many radians the view turns for one unit of mouse motion in one
/// second.
pub const TURN_RATE: i64 = 2;

/// The angle to turn by, in radians as a 16.16 number, for a mouse motion of
/// `motion` during a frame of `elapsed` seconds, both 16.16 numbers:
/// `motion * elapsed * TURN_RATE`, limited to the range of `i32`.
pub open spec fn turn_angle_of(motion: int, elapsed: int) -> int {
    clamp_i32(motion * elapsed * TURN_RATE / 65536)
}

/// A time in microseconds as seconds in a 16.16 number, limited to the range
/// of `i32`; 0 for no time.
pub open spec fn seconds_of(micros: Option<u64>) -> int {
    match micros {
        Some(t) => clamp_i32(t * 65536 / 1_000_000),
        None => 0,
    }
}

/// What the input state asks of the world at the end of a frame: the
/// movement keys that are down, the turn that the caller worked out, a shot
/// when the left mouse button went down during the frame, and the length of
/// the frame.
pub open spec fn snapshot_of(
    input: InputView,
    keys: KeyBindings,
    turn_cos: i32,
    turn_sin: i32,
) -> InputSnapshot {
    InputSnapshot {
        move_forward: input.held.contains(keys.forward),
        move_back: input.held.contains(keys.back),
        strafe_left: input.held.contains(keys.left),
        strafe_right: input.held.contains(keys.right),
        turn_cos,
        turn_sin,
        fire_trigger: input.mouse_just_pressed(MouseButton::Left),
        elapsed_time: seconds_of(input.delta_time) as i32,
    }
}

/// The length of the last frame in seconds, as a 16.16 number.
pub fn frame_seconds(input: &InputManager) -> (seconds: i32)
    ensures
        seconds == seconds_of(input@.delta_time),
{
    match input.elapsed() {
        None => 0,
        Some(t) => {
            let scaled: u128 = (t as u128) * 65536 / 1_000_000;
            if scaled > i32::MAX as u128 {
                i32::MAX
            } else {
                scaled as i32
            }
        },
    }
}

/// The angle to turn by at the end of a frame, in radians as a 16.16 number:
/// in proportion to the mouse motion along `x` and to the length of the
/// frame.
pub fn turn_angle(input: &InputManager) -> (angle: i32)
    ensures
        angle == turn_angle_of(input@.mouse_motion.0 as int, seconds_of(input@.delta_time)),
{
    let motion = input.mouse_motion().0;
    let elapsed = frame_seconds(input);
    assert(-0x8000_0000_0000_0000 * 0x8000_0000 <= motion * elapsed <= 0x8000_0000_0000_0000
        * 0x8000_0000) by (nonlinear_arith)
        requires
            -0x8000_0000_0000_0000 <= motion <= 0x8000_0000_0000_0000,
            -0x8000_0000 <= elapsed <= 0x8000_0000,
    ;
    let base: i128 = (motion as i128) * (elapsed as i128);
    assert(TURN_RATE == 2);
    assert(motion * elapsed * TURN_RATE == base * 2) by (nonlinear_arith)
        requires
            base == motion * elapsed,
            TURN_RATE == 2,
    ;
    let angle = floor_div(base * (TURN_RATE as i128), 65536);
    if angle < i32::MIN as i128 {
        i32::MIN
    } else if angle > i32::MAX as i128 {
        i32::MAX
    } else {
        angle as i32
    }
}

/// Gathers what the input state asks of the world at the end of a frame.
/// `turn_cos` and `turn_sin` are the cosine and sine of the angle to turn by.
pub fn snapshot(input: &InputManager, keys: &KeyBindings, turn_cos: i32, turn_sin: i32) -> (s:
    InputSnapshot)
    ensures
        s == snapshot_of(input@, *keys, turn_cos, turn_sin),
{
    InputSnapshot {
        move_forward: input.is_down(keys.forward),
        move_back: input.is_down(keys.back),
        strafe_left: input.is_down(keys.left),
        strafe_right: input.is_down(keys.right),
        turn_cos,
        turn_sin,
        fire_trigger: input.is_mouse_just_pressed(MouseButton::Left),
        elapsed_time: frame_seconds(input),
    }
}

/// The map, the viewer, the entities in the map and the table of textures.
pub struct World {
    pub camera: Camera,
    pub map: TileMap,
    pub entities: Vec<Entity>,
    pub textures: Vec<DynamicImage>,
}

/// The picture of a world on a grid the size of `frame`, given what the
/// columns' rays found: black, then floor and ceiling, then the walls that
/// `rays` tell of, then the sprites, farthest first, each hidden where
/// `rays` tell of a nearer wall.
pub open spec fn scene_with(
    frame: Frame,
    map: MapView,
    camera: Camera,
    entities: Seq<Entity>,
    textures: Seq<DynamicImage>,
    rays: Seq<Ray>,
) -> Frame {
    let grounded = frame.filled([0u8, 0u8, 0u8, 255u8]).overlay(
        |x: int, y: int|
            floor_ceiling_at(map, camera, textures, frame.width, frame.height, x, y),
    );
    let walled = grounded.overlay(
        |x: int, y: int| walls_at(map, textures, rays, frame.height, x, y),
    );
    sprites_painted(
        walled,
        camera,
        entities,
        textures,
        rays,
        draw_order(camera, entities),
        entities.len(),
    )
}

/// The picture of a world on a grid the size of `frame`: the picture given
/// what the rays through the grid's columns find.
pub open spec fn scene(
    frame: Frame,
    map: MapView,
    camera: Camera,
    entities: Seq<Entity>,
    textures: Seq<DynamicImage>,
) -> Frame {
    scene_with(frame, map, camera, entities, textures, column_rays(map, camera, frame.width))
}

/// A picture of a world has the size of the grid it is drawn on.
pub proof fn lemma_scene_size(
    frame: Frame,
    map: MapView,
    camera: Camera,
    entities: Seq<Entity>,
    textures: Seq<DynamicImage>,
    rays: Seq<Ray>,
)
    ensures
        scene_with(frame, map, camera, entities, textures, rays).width == frame.width,
        scene_with(frame, map, camera, entities, textures, rays).height == frame.height,
        scene(frame, map, camera, entities, textures).width == frame.width,
        scene(frame, map, camera, entities, textures).height == frame.height,
{
    let grounded = frame.filled([0u8, 0u8, 0u8, 255u8]).overlay(
        |x: int, y: int|
            floor_ceiling_at(map, camera, textures, frame.width, frame.height, x, y),
    );
    let walled = grounded.overlay(
        |x: int, y: int| walls_at(map, textures, rays, frame.height, x, y),
    );
    lemma_sprites_painted_size(
        walled,
        camera,
        entities,
        textures,
        rays,
        draw_order(camera, entities),
        entities.len(),
    );
    let cast = column_rays(map, camera, frame.width);
    let walled_cast = grounded.overlay(
        |x: int, y: int| walls_at(map, textures, cast, frame.height, x, y),
    );
    lemma_sprites_painted_size(
        walled_cast,
        camera,
        entities,
        textures,
        cast,
        draw_order(camera, entities),
        entities.len(),
    );
}

impl World {
    /// The world's map is well formed.
    pub open spec fn wf(&self) -> bool {
        self.map.wf()
    }

    /// The camera after one frame with the given input: turned, then moved
    /// as far as the walls allow.
    pub open spec fn camera_after(&self, input: InputSnapshot) -> Camera {
        let turned = self.camera.turned(input.turn_cos as int, input.turn_sin as int);
        let d = turned.intended_move(
            input.move_forward,
            input.move_back,
            input.strafe_left,
            input.strafe_right,
            input.elapsed_time as int,
        );
        turned.slid(self.map@, d.0, d.1)
    }

    /// The entities after one frame with the given input: a projectile is
    /// added when the trigger was pulled, then each entity is moved on by the
    /// frame's length, and those that left the map or struck a wall are
    /// dropped.
    pub open spec fn entities_after(&self, input: InputSnapshot) -> Seq<Entity> {
        let present = if input.fire_trigger {
            self.entities@.push(Entity::fired_by(self.camera_after(input)))
        } else {
            self.entities@
        };
        present.filter_map(|e: Entity| e.step(self.map@, input.elapsed_time as int))
    }

    /// Makes a world with no entity and no texture.
    pub fn new(map: TileMap, camera: Camera) -> (w: World)
        requires
            map.wf(),
        ensures
            w.wf(),
            w.map == map,
            w.camera == camera,
            w.entities@.len() == 0,
            w.textures@.len() == 0,
    {
        World { camera, map, entities: Vec::new(), textures: Vec::new() }
    }

    /// Adds a texture to the table and returns its index.
    pub fn push_texture(&mut self, texture: DynamicImage) -> (id: usize)
        ensures
            id == old(self).textures@.len(),
            final(self).textures@ == old(self).textures@.push(texture),
            final(self).camera == old(self).camera,
            final(self).map == old(self).map,
            final(self).entities == old(self).entities,
    {
        self.textures.push(texture);
        self.textures.len() - 1
    }

    /// Adds an entity to the world.
    pub fn push_entity(&mut self, entity: Entity)
        ensures
            final(self).entities@ == old(self).entities@.push(entity),
            final(self).camera == old(self).camera,
            final(self).map == old(self).map,
            final(self).textures == old(self).textures,
    {
        self.entities.push(entity);
    }

    /// Advances the world by one frame.
    pub fn update(&mut self, input: &InputSnapshot)
        requires
            old(self).wf(),
        ensures
            final(self).wf(),
            final(self).map == old(self).map,
            final(self).textures == old(self).textures,
            final(self).camera == old(self).camera_after(*input),
            final(self).entities@ == old(self).entities_after(*input),
    {
        self.camera.rotate(input.turn_cos, input.turn_sin);
        let d = self.camera.movement(
            input.move_forward,
            input.move_back,
            input.strafe_left,
            input.strafe_right,
            input.elapsed_time,
        );
        self.camera.try_move(&self.map, d.0, d.1);
        if input.fire_trigger {
            let shot = Entity::fire(&self.camera);
            self.entities.push(shot);
        }
        update_entities(&mut self.entities, &self.map, input.elapsed_time);
    }

    /// Draws the world as the camera sees it, given what the rays through
    /// the grid's columns found: entry `x` of `rays` for column `x`. The grid
    /// is cleared to black; then floor and ceiling, walls and sprites are
    /// drawn in that order.
    pub fn draw_with_rays(&self, renderer: &mut Renderer, rays: &Vec<Ray>)
        requires
            self.wf(),
            old(renderer).wf(),
        ensures
            final(renderer).wf(),
            final(renderer)@.width == old(renderer)@.width,
            final(renderer)@.height == old(renderer)@.height,
            final(renderer)@ == scene_with(
                old(renderer)@,
                self.map@,
                self.camera,
                self.entities@,
                self.textures@,
                rays@,
            ),
    {
        let black: [u8; 4] = [0u8, 0u8, 0u8, 255u8];
        proof {
            renderer.lemma_view_wf();
        }
        renderer.fill(&black);
        draw_floor_ceiling(renderer, &self.map, &self.camera, &self.textures);
        let ghost grounded = renderer@;
        draw_walls(renderer, &self.map, &self.textures, rays);
        let ghost walled = renderer@;
        draw_sprites(renderer, &self.camera, &self.entities, &self.textures, rays);
        proof {
            let start = old(renderer)@;
            let want_grounded = start.filled([0u8, 0u8, 0u8, 255u8]).overlay(
                |x: int, y: int|
                    floor_ceiling_at(
                        self.map@,
                        self.camera,
                        self.textures@,
                        start.width,
                        start.height,
                        x,
                        y,
                    ),
            );
            assert(grounded.pixels =~= want_grounded.pixels);
            let want_walled = want_grounded.overlay(
                |x: int, y: int| walls_at(self.map@, self.textures@, rays@, start.height, x, y),
            );
            assert(walled.pixels =~= want_walled.pixels);
        }
    }

    /// Draws the world as the camera sees it: casts a ray through each column
    /// of the grid, then draws with what they found.
    pub fn draw(&self, renderer: &mut Renderer)
        requires
            self.wf(),
            old(renderer).wf(),
        ensures
            final(renderer).wf(),
            final(renderer)@.width == old(renderer)@.width,
            final(renderer)@.height == old(renderer)@.height,
            final(renderer)@ == scene(
                old(renderer)@,
                self.map@,
                self.camera,
                self.entities@,
                self.textures@,
            ),
    {
        let width = renderer.width();
        let rays = cast_rays(&self.map, &self.camera, width);
        self.draw_with_rays(renderer, &rays);
    }
}

} // verus!
