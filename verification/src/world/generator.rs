//! Content for chunks that have no record yet.
use crate::tiles::chunk::{cell_index, ChunkContent, ChunkData};
use crate::tiles::constants::{
    CHUNK_AREA, CHUNK_SIZE, LAYER_GROUND, NUM_LAYERS, TILE_DIRT, TILE_EMPTY, TILE_GRASS,
};
use crate::tiles::types::{ChunkPos, TileId};
use vstd::prelude::*;

verus! {

/// The ground tile of a generated chunk at a cell: grass and dirt alternate
/// like the squares of a checkerboard.
pub open spec fn checkerboard_tile(local_x: int, local_y: int) -> TileId {
    if (local_x + local_y) % 2 == 0 {
        TILE_GRASS
    } else {
        TILE_DIRT
    }
}

/// What a freshly generated chunk holds: a checkerboard on the ground layer
/// and nothing on the others. It depends on the position only through the
/// position that the chunk carries.
pub open spec fn spec_generate_chunk(position: ChunkPos) -> ChunkContent {
    ChunkContent {
        position,
        layers: Seq::new(
            NUM_LAYERS as nat,
            |l: int|
                Seq::new(
                    CHUNK_AREA as nat,
                    |i: int|
                        if l == LAYER_GROUND {
                            checkerboard_tile(i % (CHUNK_SIZE as int), i / (CHUNK_SIZE as int))
                        } else {
                            TILE_EMPTY
                        },
                ),
        ),
    }
}

/// Generate a new chunk at the given position: a checkerboard pattern of
/// grass and dirt tiles on the ground layer.
pub fn generate_chunk(position: ChunkPos) -> (chunk: ChunkData)
    ensures
        chunk@ == spec_generate_chunk(position),
        chunk@.position == position,
{
    let mut chunk = ChunkData::empty(position);
    let mut y: usize = 0;
    while y < CHUNK_SIZE
        invariant
            0 <= y <= CHUNK_SIZE,
            chunk@.position == position,
            chunk@.wf(),
            forall|l: int, k: int|
                0 <= l < NUM_LAYERS && 0 <= k < CHUNK_AREA ==> #[trigger] chunk@.layers[l][k] == (
                if l == LAYER_GROUND && k < y * CHUNK_SIZE {
                    spec_generate_chunk(position).layers[l][k]
                } else {
                    TILE_EMPTY
                }),
        decreases CHUNK_SIZE - y,
    {
        let mut x: usize = 0;
        while x < CHUNK_SIZE
            invariant
                0 <= x <= CHUNK_SIZE,
                0 <= y < CHUNK_SIZE,
                chunk@.position == position,
                chunk@.wf(),
                forall|l: int, k: int|
                    0 <= l < NUM_LAYERS && 0 <= k < CHUNK_AREA ==> #[trigger] chunk@.layers[l][k]
                        == (if l == LAYER_GROUND && k < y * CHUNK_SIZE + x {
                        spec_generate_chunk(position).layers[l][k]
                    } else {
                        TILE_EMPTY
                    }),
            decreases CHUNK_SIZE - x,
        {
            let tile = if (x + y) % 2 == 0 {
                TILE_GRASS
            } else {
                TILE_DIRT
            };
            proof {
                assert(cell_index(x as int, y as int) == y * 32 + x);
                assert((y * 32 + x) % 32 == x && (y * 32 + x) / 32 == y);
            }
            chunk.set_tile(LAYER_GROUND, x, y, tile);
            x += 1;
        }
        y += 1;
    }
    proof {
        let target = spec_generate_chunk(position);
        assert forall|l: int| 0 <= l < NUM_LAYERS implies #[trigger] chunk@.layers[l]
            == target.layers[l] by {
            assert(chunk@.layers[l] =~= target.layers[l]);
        }
        assert(chunk@.layers =~= target.layers);
    }
    chunk
}

} // verus!
