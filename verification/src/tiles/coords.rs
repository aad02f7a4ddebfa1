//! Conversions from world positions to chunks and to cells within a chunk,
//! at this world's tile and chunk sizes.
use super::constants::{CHUNK_PIXEL_SIZE, CHUNK_SIZE_I32, TILE_SIZE};
use super::types::{clamp_i32, floor_div, floor_mod, saturate_i32, ChunkPos};
use vstd::arithmetic::div_mod::{lemma_fundamental_div_mod, lemma_mod_bound};
use vstd::prelude::*;

verus! {

/// The chunk that holds a pixel.
pub open spec fn spec_world_to_chunk(world_x: int, world_y: int) -> ChunkPos {
    ChunkPos::spec_from_world(world_x, world_y, CHUNK_PIXEL_SIZE as int)
}

/// The chunk that holds a tile.
pub open spec fn spec_tile_to_chunk(tile_x: int, tile_y: int) -> ChunkPos {
    ChunkPos::spec_from_tile(tile_x, tile_y, CHUNK_SIZE_I32 as int)
}

/// Along one axis, the cell within its chunk of the tile that holds a pixel:
/// the tile's coordinate (floor division by the tile size, as far as an `i32`
/// reaches) taken modulo the chunk size, so that the tile at -1 is the last
/// cell of its chunk.
pub open spec fn spec_local_tile(world: int) -> int {
    clamp_i32(world / (TILE_SIZE as int)) % (CHUNK_SIZE_I32 as int)
}

/// Convert world position to chunk position.
pub fn world_to_chunk(world_x: i64, world_y: i64) -> (pos: ChunkPos)
    ensures
        pos == spec_world_to_chunk(world_x as int, world_y as int),
{
    ChunkPos::from_world(world_x, world_y, CHUNK_PIXEL_SIZE)
}

/// Convert tile position to chunk position.
pub fn tile_to_chunk(tile_x: i32, tile_y: i32) -> (pos: ChunkPos)
    ensures
        pos == spec_tile_to_chunk(tile_x as int, tile_y as int),
{
    ChunkPos::from_tile(tile_x, tile_y, CHUNK_SIZE_I32)
}

/// Convert world position to local tile position within chunk (0-31, 0-31).
pub fn world_to_local_tile(world_x: i64, world_y: i64) -> (local: (usize, usize))
    ensures
        local.0 == spec_local_tile(world_x as int),
        local.1 == spec_local_tile(world_y as int),
        local.0 < CHUNK_SIZE_I32,
        local.1 < CHUNK_SIZE_I32,
{
    let tile_x: i32 = saturate_i32(floor_div(world_x, TILE_SIZE as i64));
    let tile_y: i32 = saturate_i32(floor_div(world_y, TILE_SIZE as i64));
    let local_x: i64 = floor_mod(tile_x as i64, CHUNK_SIZE_I32 as i64);
    let local_y: i64 = floor_mod(tile_y as i64, CHUNK_SIZE_I32 as i64);
    (local_x as usize, local_y as usize)
}

/// A pixel's chunk and its cell within the chunk name the pixel's tile:
/// where the tile's coordinate is one an `i32` can hold, it is the chunk's
/// coordinate times the chunk size, plus the cell's.
pub proof fn lemma_chunk_and_cell_give_tile(world: int)
    requires
        i32::MIN <= world / (TILE_SIZE as int) <= i32::MAX,
    ensures
        world / (TILE_SIZE as int) == (world / (CHUNK_PIXEL_SIZE as int)) * CHUNK_SIZE_I32
            + spec_local_tile(world),
        clamp_i32(world / (CHUNK_PIXEL_SIZE as int)) == world / (CHUNK_PIXEL_SIZE as int),
{
    let tile = world / 8;
    lemma_fundamental_div_mod(world, 8);
    lemma_mod_bound(world, 8);
    lemma_fundamental_div_mod(tile, 32);
    lemma_mod_bound(tile, 32);
    lemma_fundamental_div_mod(world, 256);
    lemma_mod_bound(world, 256);
    let q = tile / 32;
    let r = (tile % 32) * 8 + world % 8;
    assert(world == q * 256 + r);
    vstd::arithmetic::div_mod::lemma_fundamental_div_mod_converse(world, 256, q, r);
}

} // verus!
