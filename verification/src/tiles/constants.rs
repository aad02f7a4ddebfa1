//! Sizes, layer indices, tile identifiers and streaming radii.
use vstd::prelude::*;

verus! {

/// Size of each chunk in tiles (width and height).
pub const CHUNK_SIZE: usize = 32;

/// Total number of tiles in one layer of a chunk.
pub const CHUNK_AREA: usize = 1024;

/// Size of each chunk as `i32`, for coordinate calculations.
pub const CHUNK_SIZE_I32: i32 = 32;

/// Pixel size of each tile.
pub const TILE_SIZE: i32 = 8;

/// Pixel size of each chunk: `TILE_SIZE * CHUNK_SIZE`.
pub const CHUNK_PIXEL_SIZE: i32 = 256;

/// Display size for tiles in the tilemap.
pub const TILE_DISPLAY_SIZE: u32 = 32;

/// Number of tile layers per chunk.
pub const NUM_LAYERS: usize = 3;

/// Base terrain layer.
pub const LAYER_GROUND: usize = 0;

/// Decorative tiles (flowers, rocks, ...).
pub const LAYER_DECORATION: usize = 1;

/// Top layer (effects, particles, ...).
pub const LAYER_OVERLAY: usize = 2;

/// Empty tile: reserved on every layer.
pub const TILE_EMPTY: u16 = 0;

/// Grass tile.
pub const TILE_GRASS: u16 = 1;

/// Dirt tile.
pub const TILE_DIRT: u16 = 2;

/// Fog of war, solid black.
pub const TILE_FOG_BLACK: u16 = 3;

/// Light shadow, first variant.
pub const TILE_SHADOW_LIGHT_1: u16 = 4;

/// Light shadow, second variant.
pub const TILE_SHADOW_LIGHT_2: u16 = 5;

/// Medium shadow, first variant.
pub const TILE_SHADOW_MEDIUM_1: u16 = 6;

/// Medium shadow, second variant.
pub const TILE_SHADOW_MEDIUM_2: u16 = 7;

/// Dark shadow, first variant.
pub const TILE_SHADOW_DARK_1: u16 = 8;

/// Dark shadow, second variant.
pub const TILE_SHADOW_DARK_2: u16 = 9;

/// All shadow tiles, lightest first.
pub const SHADOW_TILES: [u16; 6] = [4, 5, 6, 7, 8, 9];

/// Number of distinct tile identifiers a `u16` can hold.
pub const MAX_TILE_TYPES: usize = 65536;

/// Smallest radius of chunks loaded around the viewpoint (a 7x7 square).
pub const CHUNK_LOAD_RADIUS: i32 = 3;

/// Radius of chunks kept loaded at the smallest load radius (an 11x11
/// square): two more than the load radius, so that a viewpoint moving back
/// and forth over a chunk border does not load and unload the same chunks.
pub const CHUNK_UNLOAD_RADIUS: i32 = 5;

} // verus!
