//! Tile identifiers, chunk coordinates and the per-chunk tile store.
pub mod chunk;
pub mod constants;
pub mod coords;
pub mod registry;
pub mod types;

pub use constants::{
    CHUNK_AREA, CHUNK_LOAD_RADIUS, CHUNK_PIXEL_SIZE, CHUNK_SIZE, CHUNK_SIZE_I32,
    CHUNK_UNLOAD_RADIUS, LAYER_DECORATION, LAYER_GROUND, LAYER_OVERLAY, MAX_TILE_TYPES,
    NUM_LAYERS, SHADOW_TILES, TILE_DIRT, TILE_DISPLAY_SIZE, TILE_EMPTY, TILE_FOG_BLACK,
    TILE_GRASS, TILE_SHADOW_DARK_1, TILE_SHADOW_DARK_2, TILE_SHADOW_LIGHT_1,
    TILE_SHADOW_LIGHT_2, TILE_SHADOW_MEDIUM_1, TILE_SHADOW_MEDIUM_2, TILE_SIZE,
};
pub use chunk::{Chunk, ChunkContent, ChunkData, DirtyChunk};
pub use registry::TileRegistry;
pub use types::{ChunkPos, TileId};
