//! Entities: things that stand in the map or fly through it.

use vstd::prelude::*;

use crate::camera::Camera;
use crate::fixed::{cell_index, clamp_i32, floor_div, split_cell};
use crate::tile_map::{MapView, TileMap};

verus! {

/// How many times faster than the camera's direction vector a projectile
/// flies, in cells per second.
pub const PROJECTILE_SPEED: i64 = 8;

/// The texture that a projectile shows.
pub const PROJECTILE_TEXTURE: usize = 5;

/// How an entity moves.
#[derive(Debug, Clone, Copy, PartialEq, Eq, Structural)]
pub enum EntityType {
    /// It stays where it is.
    Stationary,
    /// It flies with the given velocity along `x` and `y`, in cells per
    /// second as 16.16 numbers.
    Projectile(i32, i32),
}

/// A thing in the map, shown as a picture that always faces the camera. The
/// position is a pair of 16.16 numbers.
#[derive(Debug, Clone, Copy, PartialEq, Eq, Structural)]
pub struct Entity {
    pub x_pos: i32,
    pub y_pos: i32,
    pub texture_id: usize,
    pub entity_type: EntityType,
}

/// The coordinate `pos` after `elapsed` seconds at velocity `velocity`.
pub open spec fn advance_coord(pos: int, velocity: int, elapsed: int) -> int {
    pos + velocity * elapsed / 65536
}

/// The coordinate `pos` after `elapsed` seconds at velocity `velocity`.
fn advanced_coord(pos: i32, velocity: i32, elapsed: i32) -> (r: i64)
    ensures
        r == advance_coord(pos as int, velocity as int, elapsed as int),
{
    assert(-0x8000_0000 * 0x8000_0000 <= velocity * elapsed <= 0x8000_0000 * 0x8000_0000)
        by (nonlinear_arith)
        requires
            -0x8000_0000 <= velocity <= 0x8000_0000,
            -0x8000_0000 <= elapsed <= 0x8000_0000,
    ;
    let travel = floor_div((velocity as i128) * (elapsed as i128), 65536);
    (pos as i128 + travel) as i64
}

impl Entity {
    /// Where the entity is after `elapsed` seconds, along `x`.
    pub open spec fn next_x(self, elapsed: int) -> int {
        match self.entity_type {
            EntityType::Stationary => self.x_pos as int,
            EntityType::Projectile(vx, _) => advance_coord(self.x_pos as int, vx as int, elapsed),
        }
    }

    /// Where the entity is after `elapsed` seconds, along `y`.
    pub open spec fn next_y(self, elapsed: int) -> int {
        match self.entity_type {
            EntityType::Stationary => self.y_pos as int,
            EntityType::Projectile(_, vy) => advance_coord(self.y_pos as int, vy as int, elapsed),
        }
    }

    /// The entity after `elapsed` seconds: moved to its next position, or
    /// gone when that position lies in a solid cell or outside the map.
    pub open spec fn step(self, map: MapView, elapsed: int) -> Option<Entity> {
        if map.solid(cell_index(self.next_x(elapsed)), cell_index(self.next_y(elapsed))) {
            None
        } else {
            Some(
                Entity {
                    x_pos: self.next_x(elapsed) as i32,
                    y_pos: self.next_y(elapsed) as i32,
                    ..self
                },
            )
        }
    }

    /// Makes an entity.
    pub fn new(x_pos: i32, y_pos: i32, texture_id: usize, entity_type: EntityType) -> (e: Entity)
        ensures
            e == (Entity { x_pos, y_pos, texture_id, entity_type }),
    {
        Entity { x_pos, y_pos, texture_id, entity_type }
    }

    /// The projectile that a camera fires: it starts where the camera stands
    /// and flies along the view direction, `PROJECTILE_SPEED` times its
    /// length each second.
    pub open spec fn fired_by(camera: Camera) -> Entity {
        Entity {
            x_pos: camera.x,
            y_pos: camera.y,
            texture_id: PROJECTILE_TEXTURE,
            entity_type: EntityType::Projectile(
                clamp_i32(camera.dir_x * PROJECTILE_SPEED) as i32,
                clamp_i32(camera.dir_y * PROJECTILE_SPEED) as i32,
            ),
        }
    }

    /// Makes the projectile that `camera` fires.
    pub fn fire(camera: &Camera) -> (e: Entity)
        ensures
            e == Entity::fired_by(*camera),
    {
        let vx: i64 = camera.dir_x as i64 * PROJECTILE_SPEED;
        let vy: i64 = camera.dir_y as i64 * PROJECTILE_SPEED;
        let vx: i32 = if vx < i32::MIN as i64 {
            i32::MIN
        } else if vx > i32::MAX as i64 {
            i32::MAX
        } else {
            vx as i32
        };
        let vy: i32 = if vy < i32::MIN as i64 {
            i32::MIN
        } else if vy > i32::MAX as i64 {
            i32::MAX
        } else {
            vy as i32
        };
        Entity {
            x_pos: camera.x,
            y_pos: camera.y,
            texture_id: PROJECTILE_TEXTURE,
            entity_type: EntityType::Projectile(vx, vy),
        }
    }

    /// Moves the entity on by `elapsed` seconds and tells whether it remains.
    pub fn advance(&self, map: &TileMap, elapsed: i32) -> (r: Option<Entity>)
        requires
            map.wf(),
        ensures
            r == self.step(map@, elapsed as int),
    {
        proof {
            map.lemma_view_wf();
        }
        let (x, y): (i64, i64) = match self.entity_type {
            EntityType::Stationary => (self.x_pos as i64, self.y_pos as i64),
            EntityType::Projectile(vx, vy) => (
                advanced_coord(self.x_pos, vx, elapsed),
                advanced_coord(self.y_pos, vy, elapsed),
            ),
        };
        if x < 0 || x > i32::MAX as i64 || y < 0 || y > i32::MAX as i64 {
            return None;
        }
        let cell_x = split_cell(x as i32).0;
        let cell_y = split_cell(y as i32).0;
        if map.is_solid(cell_x, cell_y) {
            None
        } else {
            Some(
                Entity {
                    x_pos: x as i32,
                    y_pos: y as i32,
                    texture_id: self.texture_id,
                    entity_type: self.entity_type,
                },
            )
        }
    }
}

/// Moves every entity on by `elapsed` seconds and drops those that left the
/// map or struck a wall. Those that remain keep their order.
pub fn update_entities(entities: &mut Vec<Entity>, map: &TileMap, elapsed: i32)
    requires
        map.wf(),
    ensures
        final(entities)@ == old(entities)@.filter_map(
            |e: Entity| e.step(map@, elapsed as int),
        ),
{
    let ghost step = |e: Entity| e.step(map@, elapsed as int);
    let mut kept: Vec<Entity> = Vec::new();
    let mut i: usize = 0;
    assert(entities@.take(0).filter_map(step) =~= Seq::<Entity>::empty());
    while i < entities.len()
        invariant
            map.wf(),
            i <= entities.len(),
            *entities == *old(entities),
            step == |e: Entity| e.step(map@, elapsed as int),
            kept@ == entities@.take(i as int).filter_map(step),
        decreases entities.len() - i,
    {
        proof {
            entities@.lemma_filter_map_take_succ(step, i as int);
        }
        match entities[i].advance(map, elapsed) {
            Some(e) => {
                kept.push(e);
            },
            None => {},
        }
        i += 1;
    }
    assert(entities@.take(i as int) =~= entities@);
    *entities = kept;
}

} // verus!
