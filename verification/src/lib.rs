//! A software ray-casting engine: a tile map and a camera pose are turned into
//! a colour image by per-column grid traversal, floor and ceiling projection
//! and depth-tested billboard sprites.
//!
//! Positions, directions, distances and times are 16.16 fixed-point numbers:
//! the integer `v` stands for `v / 65536`. Every quotient is rounded down.
//! Map coordinates count cells, so the cell of a coordinate is its integer
//! part. A colour is the four bytes red, green, blue and alpha. A texture is
//! an image held as 8-bit RGBA; an image held in another format has a size but
//! shows nothing.
//!
//! Each drawing operation is specified by a function that tells, for every
//! pixel, whether the operation paints it and with what colour; the picture
//! after the operation is the picture before it overlaid with those pixels.

pub mod camera;
pub mod entity;
pub mod fixed;
pub mod floor;
pub mod input;
pub mod ray;
pub mod renderer;
pub mod sprites;
pub mod texture;
pub mod tile_map;
pub mod walls;
pub mod world;
