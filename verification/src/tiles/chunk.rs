//! The layered tile grid of one chunk.
use super::constants::{CHUNK_AREA, CHUNK_SIZE, LAYER_GROUND, NUM_LAYERS, TILE_EMPTY};
use super::types::{ChunkPos, TileId};
use vstd::prelude::*;

verus! {

/// Tag of one drawn layer of a chunk: the chunk's position and the layer
/// that the drawable shows.
#[derive(Debug, Clone, Copy)]
pub struct Chunk {
    pub position: ChunkPos,
    pub layer: usize,
}

impl Chunk {
    /// The tag of a chunk's ground layer.
    pub fn new(position: ChunkPos) -> (chunk: Self)
        ensures
            chunk.position == position,
            chunk.layer == LAYER_GROUND,
    {
        Self { position, layer: LAYER_GROUND }
    }

    /// The tag of one layer of a chunk.
    pub fn with_layer(position: ChunkPos, layer: usize) -> (chunk: Self)
        ensures
            chunk.position == position,
            chunk.layer == layer,
    {
        Self { position, layer }
    }
}

/// Marker for chunks that have been modified and need saving.
#[derive(Debug)]
pub struct DirtyChunk;

/// What a chunk holds, as a mathematical value: its position and, for each
/// layer, the tiles row by row.
pub ghost struct ChunkContent {
    pub position: ChunkPos,
    pub layers: Seq<Seq<TileId>>,
}

/// Index of the cell `(local_x, local_y)` within a layer: rows follow each
/// other.
pub open spec fn cell_index(local_x: int, local_y: int) -> int {
    local_y * CHUNK_SIZE as int + local_x
}

/// The layer exists and the cell lies within the chunk.
pub open spec fn in_bounds(layer: int, local_x: int, local_y: int) -> bool {
    &&& 0 <= layer < NUM_LAYERS
    &&& 0 <= local_x < CHUNK_SIZE
    &&& 0 <= local_y < CHUNK_SIZE
}

/// The index in the tileset that draws a tile: none for the empty tile, else
/// one less than the identifier, since tileset indices start at zero.
pub open spec fn tileset_index(tile_id: TileId) -> Option<u16> {
    if tile_id == TILE_EMPTY {
        None
    } else {
        Some((tile_id - 1) as u16)
    }
}

/// The tile that a tileset index draws: the inverse of `tileset_index`.
pub open spec fn tile_of_tileset_index(entry: Option<u16>) -> TileId {
    match entry {
        Some(index) => (index + 1) as TileId,
        None => TILE_EMPTY,
    }
}

impl ChunkContent {
    /// Every layer is there and fully populated.
    pub open spec fn wf(self) -> bool {
        &&& self.layers.len() == NUM_LAYERS
        &&& forall|l: int| 0 <= l < NUM_LAYERS ==> (#[trigger] self.layers[l]).len() == CHUNK_AREA
    }

    /// A chunk whose layer `l` holds `layer_tiles[l]` in every cell.
    pub open spec fn filled_layers(position: ChunkPos, layer_tiles: Seq<TileId>) -> ChunkContent {
        ChunkContent {
            position,
            layers: Seq::new(
                NUM_LAYERS as nat,
                |l: int| Seq::new(CHUNK_AREA as nat, |i: int| layer_tiles[l]),
            ),
        }
    }

    /// A chunk that holds `tile_id` in every cell of every layer.
    pub open spec fn filled(position: ChunkPos, tile_id: TileId) -> ChunkContent {
        ChunkContent {
            position,
            layers: Seq::new(
                NUM_LAYERS as nat,
                |l: int| Seq::new(CHUNK_AREA as nat, |i: int| tile_id),
            ),
        }
    }

    /// A chunk with every cell empty.
    pub open spec fn empty(position: ChunkPos) -> ChunkContent {
        Self::filled(position, TILE_EMPTY)
    }

    /// The tile at a cell, or nothing outside the chunk's layers and cells.
    pub open spec fn get_tile(self, layer: int, local_x: int, local_y: int) -> Option<TileId> {
        if in_bounds(layer, local_x, local_y) {
            Some(self.layers[layer][cell_index(local_x, local_y)])
        } else {
            None
        }
    }

    /// The chunk with one cell replaced; outside the chunk's layers and
    /// cells, the chunk as it is.
    pub open spec fn set_tile(self, layer: int, local_x: int, local_y: int, tile_id: TileId)
        -> ChunkContent {
        if in_bounds(layer, local_x, local_y) {
            ChunkContent {
                position: self.position,
                layers: self.layers.update(
                    layer,
                    self.layers[layer].update(cell_index(local_x, local_y), tile_id),
                ),
            }
        } else {
            self
        }
    }

    /// One layer as tileset indices, cell by cell; for a layer that does not
    /// exist, nothing in every cell.
    pub open spec fn layer_to_tilemap_data(self, layer: int) -> Seq<Option<u16>> {
        Seq::new(
            CHUNK_AREA as nat,
            |i: int|
                if 0 <= layer < NUM_LAYERS {
                    tileset_index(self.layers[layer][i])
                } else {
                    None
                },
        )
    }

    /// The chunk that holds on one layer the tiles that the tileset indices
    /// draw, and nothing on the other layers.
    pub open spec fn from_tilemap_data_single_layer(
        position: ChunkPos,
        layer: int,
        tile_data: Seq<Option<u16>>,
    ) -> ChunkContent {
        ChunkContent {
            position,
            layers: Seq::new(
                NUM_LAYERS as nat,
                |l: int|
                    Seq::new(
                        CHUNK_AREA as nat,
                        |i: int|
                            if l == layer {
                                tile_of_tileset_index(tile_data[i])
                            } else {
                                TILE_EMPTY
                            },
                    ),
            ),
        }
    }
}

/// The index in the tileset that draws a tile: none for the empty tile, else
/// one less than the identifier.
pub fn tile_to_tileset_index(tile_id: TileId) -> (entry: Option<u16>)
    ensures
        entry == tileset_index(tile_id),
{
    if tile_id == TILE_EMPTY {
        None
    } else {
        Some(tile_id - 1)
    }
}

/// Chunk data storage, apart from what is drawn: for each layer a grid of
/// `CHUNK_SIZE` by `CHUNK_SIZE` tile identifiers, row by row.
#[derive(Debug)]
pub struct ChunkData {
    pub position: ChunkPos,
    /// The layers in the order ground, decoration, overlay.
    pub layers: Box<[[TileId; CHUNK_AREA]; NUM_LAYERS]>,
}

impl View for ChunkData {
    type V = ChunkContent;

    open spec fn view(&self) -> ChunkContent {
        ChunkContent {
            position: self.position,
            layers: Seq::new(NUM_LAYERS as nat, |l: int| self.layers[l]@),
        }
    }
}

impl Clone for ChunkData {
    fn clone(&self) -> (copy: Self)
        ensures
            copy@ == self@,
    {
        let copy = ChunkData { position: self.position, layers: Box::new(*self.layers) };
        assert(copy@.layers =~= self@.layers);
        copy
    }
}

impl ChunkData {
    /// The view of a chunk is always fully populated.
    pub proof fn lemma_view_wf(&self)
        ensures
            self@.wf(),
    {
    }

    /// Create a new chunk with all layers filled with a specific tile.
    pub fn filled(position: ChunkPos, tile_id: TileId) -> (chunk: Self)
        ensures
            chunk@ == ChunkContent::filled(position, tile_id),
    {
        let chunk = Self { position, layers: Box::new([[tile_id; CHUNK_AREA]; NUM_LAYERS]) };
        proof {
            assert forall|l: int| 0 <= l < NUM_LAYERS implies #[trigger] chunk@.layers[l]
                == ChunkContent::filled(position, tile_id).layers[l] by {
                assert(chunk@.layers[l] =~= ChunkContent::filled(position, tile_id).layers[l]);
            }
            assert(chunk@.layers =~= ChunkContent::filled(position, tile_id).layers);
        }
        chunk
    }

    /// Create a new chunk with specific tile for each layer.
    pub fn filled_layers(position: ChunkPos, layer_tiles: [TileId; NUM_LAYERS]) -> (chunk: Self)
        ensures
            chunk@ == ChunkContent::filled_layers(position, layer_tiles@),
    {
        let mut layers = Box::new([[TILE_EMPTY; CHUNK_AREA]; NUM_LAYERS]);
        let mut layer_idx: usize = 0;
        while layer_idx < NUM_LAYERS
            invariant
                0 <= layer_idx <= NUM_LAYERS,
                forall|l: int, i: int|
                    0 <= l < layer_idx && 0 <= i < CHUNK_AREA ==> layers[l][i] == layer_tiles[l],
            decreases NUM_LAYERS - layer_idx,
        {
            layers[layer_idx] = [layer_tiles[layer_idx]; CHUNK_AREA];
            layer_idx += 1;
        }
        let chunk = Self { position, layers };
        proof {
            let target = ChunkContent::filled_layers(position, layer_tiles@);
            assert forall|l: int| 0 <= l < NUM_LAYERS implies #[trigger] chunk@.layers[l]
                == target.layers[l] by {
                assert(chunk@.layers[l] =~= target.layers[l]);
            }
            assert(chunk@.layers =~= target.layers);
        }
        chunk
    }

    /// Create an empty chunk (all layers `TILE_EMPTY`).
    pub fn empty(position: ChunkPos) -> (chunk: Self)
        ensures
            chunk@ == ChunkContent::empty(position),
    {
        Self::filled(position, TILE_EMPTY)
    }

    /// Get tile at local chunk coordinates (0-31, 0-31) for a specific layer.
    pub fn get_tile(&self, layer: usize, local_x: usize, local_y: usize) -> (tile: Option<TileId>)
        ensures
            tile == self@.get_tile(layer as int, local_x as int, local_y as int),
            tile is Some <==> in_bounds(layer as int, local_x as int, local_y as int),
    {
        if layer >= NUM_LAYERS || local_x >= CHUNK_SIZE || local_y >= CHUNK_SIZE {
            return None;
        }
        let index = local_y * CHUNK_SIZE + local_x;
        Some(self.layers[layer][index])
    }

    /// Set tile at local chunk coordinates (0-31, 0-31) for a specific
    /// layer. Changes exactly one cell, or nothing where the layer or the
    /// cell does not exist.
    pub fn set_tile(&mut self, layer: usize, local_x: usize, local_y: usize, tile_id: TileId) -> (done:
        bool)
        ensures
            done == in_bounds(layer as int, local_x as int, local_y as int),
            final(self)@ == old(self)@.set_tile(
                layer as int,
                local_x as int,
                local_y as int,
                tile_id,
            ),
            !done ==> *final(self) == *old(self),
    {
        if layer >= NUM_LAYERS || local_x >= CHUNK_SIZE || local_y >= CHUNK_SIZE {
            return false;
        }
        let index = local_y * CHUNK_SIZE + local_x;
        self.layers[layer][index] = tile_id;
        proof {
            let target = old(self)@.set_tile(layer as int, local_x as int, local_y as int, tile_id);
            assert forall|l: int| 0 <= l < NUM_LAYERS implies #[trigger] self@.layers[l]
                == target.layers[l] by {
                assert(self@.layers[l] =~= target.layers[l]);
            }
            assert(self@.layers =~= target.layers);
        }
        true
    }

    /// One layer as tileset indices for the tilemap that draws it.
    pub fn layer_to_tilemap_data(&self, layer: usize) -> (data: Vec<Option<u16>>)
        ensures
            data@ == self@.layer_to_tilemap_data(layer as int),
    {
        let mut data: Vec<Option<u16>> = Vec::new();
        let mut i: usize = 0;
        while i < CHUNK_AREA
            invariant
                0 <= i <= CHUNK_AREA,
                data@.len() == i,
                forall|k: int|
                    0 <= k < i ==> #[trigger] data@[k] == self@.layer_to_tilemap_data(
                        layer as int,
                    )[k],
            decreases CHUNK_AREA - i,
        {
            if layer >= NUM_LAYERS {
                data.push(None);
            } else {
                data.push(tile_to_tileset_index(self.layers[layer][i]));
            }
            i += 1;
        }
        assert(data@ =~= self@.layer_to_tilemap_data(layer as int));
        data
    }

    /// The ground layer as tileset indices. Kept for callers that know one
    /// layer only; `layer_to_tilemap_data` names the layer.
    pub fn to_tilemap_data(&self) -> (data: Vec<Option<u16>>)
        ensures
            data@ == self@.layer_to_tilemap_data(LAYER_GROUND as int),
    {
        self.layer_to_tilemap_data(LAYER_GROUND)
    }

    /// Create chunk data from the tileset indices of a single layer; the
    /// other layers stay empty. Nothing comes back unless there is one entry
    /// for each cell and the layer exists.
    pub fn from_tilemap_data_single_layer(
        position: ChunkPos,
        layer: usize,
        tile_data: &[Option<u16>],
    ) -> (chunk: Option<Self>)
        requires
            tile_data@.len() == CHUNK_AREA && layer < NUM_LAYERS ==> forall|i: int|
                0 <= i < tile_data@.len() && tile_data@[i] is Some ==> tile_data@[i]->Some_0
                    < u16::MAX,
        ensures
            chunk is Some <==> tile_data@.len() == CHUNK_AREA && layer < NUM_LAYERS,
            chunk is Some ==> chunk->Some_0@ == ChunkContent::from_tilemap_data_single_layer(
                position,
                layer as int,
                tile_data@,
            ),
    {
        if tile_data.len() != CHUNK_AREA || layer >= NUM_LAYERS {
            return None;
        }
        let mut chunk = Self::empty(position);
        proof {
            assert forall|l: int, k: int| 0 <= l < NUM_LAYERS && 0 <= k < CHUNK_AREA implies chunk.layers[l][k]
                == TILE_EMPTY by {
                assert(chunk@.layers[l][k] == TILE_EMPTY);
            }
        }
        let mut i: usize = 0;
        while i < CHUNK_AREA
            invariant
                0 <= i <= CHUNK_AREA,
                layer < NUM_LAYERS,
                tile_data@.len() == CHUNK_AREA,
                chunk.position == position,
                forall|k: int|
                    0 <= k < tile_data@.len() && tile_data@[k] is Some ==> tile_data@[k]->Some_0
                        < u16::MAX,
                forall|l: int, k: int|
                    0 <= l < NUM_LAYERS && 0 <= k < CHUNK_AREA ==> chunk.layers[l][k] == (if l
                        == layer && k < i {
                        tile_of_tileset_index(tile_data@[k])
                    } else {
                        TILE_EMPTY
                    }),
            decreases CHUNK_AREA - i,
        {
            let tile_id: TileId = match tile_data[i] {
                Some(index) => index + 1,
                None => TILE_EMPTY,
            };
            chunk.layers[layer][i] = tile_id;
            i += 1;
        }
        proof {
            let target = ChunkContent::from_tilemap_data_single_layer(
                position,
                layer as int,
                tile_data@,
            );
            assert forall|l: int| 0 <= l < NUM_LAYERS implies #[trigger] chunk@.layers[l]
                == target.layers[l] by {
                assert(chunk@.layers[l] =~= target.layers[l]);
            }
            assert(chunk@.layers =~= target.layers);
        }
        Some(chunk)
    }

    /// Create chunk data from the tileset indices of the ground layer. Kept
    /// for callers that know one layer only.
    pub fn from_tilemap_data(position: ChunkPos, tile_data: &[Option<u16>]) -> (chunk: Option<Self>)
        requires
            tile_data@.len() == CHUNK_AREA ==> forall|i: int|
                0 <= i < tile_data@.len() && tile_data@[i] is Some ==> tile_data@[i]->Some_0
                    < u16::MAX,
        ensures
            chunk is Some <==> tile_data@.len() == CHUNK_AREA,
            chunk is Some ==> chunk->Some_0@ == ChunkContent::from_tilemap_data_single_layer(
                position,
                LAYER_GROUND as int,
                tile_data@,
            ),
    {
        Self::from_tilemap_data_single_layer(position, LAYER_GROUND, tile_data)
    }
}

} // verus!
