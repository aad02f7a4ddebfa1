//! The registry of loaded chunks: which chunks are drawn, which are held in
//! memory, which differ from their record, where the viewpoint is, and which
//! tile edits wait to be applied. Pure bookkeeping: nothing here reads or
//! writes outside memory.
use crate::tiles::chunk::{ChunkContent, ChunkData};
use crate::tiles::constants::NUM_LAYERS;
use crate::tiles::types::{ChunkPos, TileId};
use std::collections::HashMap;
use std::collections::HashSet;
use crate::text::{decimal, decimal_digits, push_decimal, push_unsigned};
use vstd::prelude::*;
use vstd::std_specs::iter::IteratorSpec;
use vstd::string::{StrSliceExecFns, StringExecFns};

verus! {

/// Handle of one drawn layer of a chunk. The renderer gives it out; here it
/// is only kept and handed back.
pub type EntityId = u64;

/// A pending tile modification: a world position in pixels, the new tile
/// and the layer it goes to.
#[derive(Debug, Clone, Copy)]
pub struct TileModification {
    pub world_x: i64,
    pub world_y: i64,
    pub tile_id: TileId,
    pub layer: usize,
}

/// Statistics about the current world state.
#[derive(Debug, Clone, Copy)]
pub struct WorldStats {
    pub loaded_chunks: usize,
    pub dirty_chunks: usize,
    pub cached_chunks: usize,
    pub camera_chunk: Option<ChunkPos>,
}

/// A chunk position as debug text shows it.
pub open spec fn chunk_pos_text(pos: ChunkPos) -> Seq<char> {
    "ChunkPos { x: "@ + decimal(pos.x as int) + ", y: "@ + decimal(pos.y as int) + " }"@
}

/// The camera's chunk as debug text shows it.
pub open spec fn camera_text(camera_chunk: Option<ChunkPos>) -> Seq<char> {
    match camera_chunk {
        Some(pos) => "Some("@ + chunk_pos_text(pos) + ")"@,
        None => "None"@,
    }
}

impl WorldStats {
    /// The statistics in one line.
    pub open spec fn spec_summary(self) -> Seq<char> {
        "Loaded: "@ + decimal_digits(self.loaded_chunks as nat) + ", Dirty: "@ + decimal_digits(
            self.dirty_chunks as nat,
        ) + ", Cached: "@ + decimal_digits(self.cached_chunks as nat) + ", Camera: "@ + camera_text(
            self.camera_chunk,
        )
    }

    /// The statistics in one line, for a log.
    pub fn summary(&self) -> (text: String)
        ensures
            text@ == self.spec_summary(),
    {
        let mut text = String::from_str("Loaded: ");
        push_unsigned(&mut text, self.loaded_chunks as u64);
        text.append(", Dirty: ");
        push_unsigned(&mut text, self.dirty_chunks as u64);
        text.append(", Cached: ");
        push_unsigned(&mut text, self.cached_chunks as u64);
        text.append(", Camera: ");
        let ghost start = text@;
        match self.camera_chunk {
            Some(pos) => {
                text.append("Some(");
                text.append("ChunkPos { x: ");
                push_decimal(&mut text, pos.x as i64);
                text.append(", y: ");
                push_decimal(&mut text, pos.y as i64);
                text.append(" }");
                text.append(")");
                assert(text@ =~= start + camera_text(self.camera_chunk));
            },
            None => {
                text.append("None");
            },
        }
        text
    }
}

/// The state of the world manager as a mathematical value.
pub ghost struct WorldState {
    /// The drawn chunks, each with the handles of its layers.
    pub active: Map<ChunkPos, [EntityId; NUM_LAYERS]>,
    /// The chunks held in memory.
    pub cache: Map<ChunkPos, ChunkContent>,
    /// The chunks whose content differs from their record.
    pub dirty: Set<ChunkPos>,
    /// The chunk that holds the camera, once it is known.
    pub viewpoint: Option<ChunkPos>,
    /// The tile edits that wait, oldest first.
    pub pending: Seq<TileModification>,
    /// The directory that holds the records.
    pub save_directory: Seq<char>,
}

impl WorldState {
    /// The state at the start of a session: nothing loaded, nothing known.
    pub open spec fn empty(save_directory: Seq<char>) -> WorldState {
        WorldState {
            active: Map::empty(),
            cache: Map::empty(),
            dirty: Set::empty(),
            viewpoint: None,
            pending: Seq::empty(),
            save_directory,
        }
    }

    /// The collections agree with each other: every drawn chunk and every
    /// dirty chunk is held in memory, under the position that it carries.
    pub open spec fn consistent(self) -> bool {
        &&& self.active.dom().subset_of(self.cache.dom())
        &&& self.dirty.subset_of(self.cache.dom())
        &&& forall|p: ChunkPos| #[trigger]
            self.cache.contains_key(p) ==> self.cache[p].position == p && self.cache[p].wf()
    }
}

/// The key under which a position is kept: both coordinates, moved into the
/// non-negative numbers, side by side.
pub open spec fn chunk_key(pos: ChunkPos) -> u64 {
    ((pos.x + 0x8000_0000) * 0x1_0000_0000 + (pos.y + 0x8000_0000)) as u64
}

/// The position that a key stands for.
pub open spec fn key_chunk(key: u64) -> ChunkPos {
    ChunkPos {
        x: (key / 0x1_0000_0000 - 0x8000_0000) as i32,
        y: (key % 0x1_0000_0000 - 0x8000_0000) as i32,
    }
}

/// Every position has a key of its own, and every key stands for a position.
pub proof fn lemma_key_round_trip(pos: ChunkPos, key: u64)
    ensures
        key_chunk(chunk_key(pos)) == pos,
        chunk_key(key_chunk(key)) == key,
{
}

/// A key belongs to one position only.
pub proof fn lemma_key_of_one_position(pos: ChunkPos)
    ensures
        forall|p: ChunkPos| #[trigger] chunk_key(p) == chunk_key(pos) ==> p == pos,
{
    assert forall|p: ChunkPos| #[trigger] chunk_key(p) == chunk_key(pos) implies p == pos by {
        lemma_key_round_trip(p, 0);
        lemma_key_round_trip(pos, 0);
    }
}

/// A map by keys as a map by positions.
pub open spec fn by_position<V>(m: Map<u64, V>) -> Map<ChunkPos, V> {
    Map::new(|p: ChunkPos| m.contains_key(chunk_key(p)), |p: ChunkPos| m[chunk_key(p)])
}

/// A set of keys as a set of positions.
pub open spec fn positions(s: Set<u64>) -> Set<ChunkPos> {
    Set::new(|p: ChunkPos| s.contains(chunk_key(p)))
}

/// The contents of cached chunks.
pub open spec fn contents(m: Map<ChunkPos, ChunkData>) -> Map<ChunkPos, ChunkContent> {
    m.map_values(|data: ChunkData| data@)
}

/// Inserting under a position's key inserts under the position.
pub proof fn lemma_by_position_insert<V>(m: Map<u64, V>, pos: ChunkPos, v: V)
    ensures
        by_position(m.insert(chunk_key(pos), v)) == by_position(m).insert(pos, v),
{
    lemma_key_of_one_position(pos);
    assert(by_position(m.insert(chunk_key(pos), v)) =~= by_position(m).insert(pos, v));
}

/// Removing a position's key removes the position.
pub proof fn lemma_by_position_remove<V>(m: Map<u64, V>, pos: ChunkPos)
    ensures
        by_position(m.remove(chunk_key(pos))) == by_position(m).remove(pos),
{
    lemma_key_of_one_position(pos);
    assert(by_position(m.remove(chunk_key(pos))) =~= by_position(m).remove(pos));
}

/// Inserting a position's key inserts the position.
pub proof fn lemma_positions_insert(s: Set<u64>, pos: ChunkPos)
    ensures
        positions(s.insert(chunk_key(pos))) == positions(s).insert(pos),
{
    lemma_key_of_one_position(pos);
    assert(positions(s.insert(chunk_key(pos))) =~= positions(s).insert(pos));
}

/// Removing a position's key removes the position.
pub proof fn lemma_positions_remove(s: Set<u64>, pos: ChunkPos)
    ensures
        positions(s.remove(chunk_key(pos))) == positions(s).remove(pos),
{
    lemma_key_of_one_position(pos);
    assert(positions(s.remove(chunk_key(pos))) =~= positions(s).remove(pos));
}

/// There are as many positions as keys.
pub proof fn lemma_positions_len(s: Set<u64>)
    requires
        s.finite(),
    ensures
        positions(s).finite(),
        positions(s).len() == s.len(),
{
    let f = |k: u64| key_chunk(k);
    assert forall|k1: u64, k2: u64| #[trigger] f(k1) == #[trigger] f(k2) implies k1 == k2 by {
        lemma_key_round_trip(ChunkPos { x: 0, y: 0 }, k1);
        lemma_key_round_trip(ChunkPos { x: 0, y: 0 }, k2);
    }
    assert forall|p: ChunkPos| s.map(f).contains(p) <==> positions(s).contains(p) by {
        lemma_key_round_trip(p, 0);
        if positions(s).contains(p) {
            assert(s.contains(chunk_key(p)) && f(chunk_key(p)) == p);
        }
        if s.map(f).contains(p) {
            let k = choose|k: u64| s.contains(k) && p == f(k);
            lemma_key_round_trip(p, k);
        }
    }
    assert(s.map(f) =~= positions(s));
    vstd::set_lib::lemma_map_size(s, positions(s), f);
}

/// Keys walked one by one, none twice, give the positions that they stand
/// for, none twice.
pub proof fn lemma_positions_of_keys(keys: Seq<u64>, chunks: Seq<ChunkPos>, s: Set<u64>)
    requires
        keys.no_duplicates(),
        keys.to_set() == s,
        chunks.len() == keys.len(),
        forall|j: int| 0 <= j < chunks.len() ==> #[trigger] chunks[j] == key_chunk(keys[j]),
    ensures
        chunks.no_duplicates(),
        chunks.to_set() == positions(s),
{
    assert forall|i: int, j: int| 0 <= i < chunks.len() && 0 <= j < chunks.len() && i != j implies chunks[i]
        != chunks[j] by {
        lemma_key_round_trip(chunks[i], keys[i]);
        lemma_key_round_trip(chunks[j], keys[j]);
    }
    assert forall|p: ChunkPos| chunks.to_set().contains(p) <==> positions(s).contains(p) by {
        if chunks.to_set().contains(p) {
            let j = choose|j: int| 0 <= j < chunks.len() && chunks[j] == p;
            lemma_key_round_trip(p, keys[j]);
            assert(keys.to_set().contains(keys[j]));
        }
        if positions(s).contains(p) {
            assert(keys.to_set().contains(chunk_key(p)));
            let j = choose|j: int| 0 <= j < keys.len() && keys[j] == chunk_key(p);
            lemma_key_round_trip(p, keys[j]);
            assert(chunks[j] == p);
        }
    }
    assert(chunks.to_set() =~= positions(s));
}

/// The packed key of a position.
pub fn key_of(pos: &ChunkPos) -> (key: u64)
    ensures
        key == chunk_key(*pos),
{
    let high: u64 = (pos.x as i64 + 0x8000_0000) as u64;
    let low: u64 = (pos.y as i64 + 0x8000_0000) as u64;
    high * 0x1_0000_0000 + low
}

/// The position that a packed key stands for.
pub fn pos_of(key: u64) -> (pos: ChunkPos)
    ensures
        pos == key_chunk(key),
{
    let high: i64 = (key / 0x1_0000_0000) as i64;
    let low: i64 = (key % 0x1_0000_0000) as i64;
    ChunkPos { x: (high - 0x8000_0000) as i32, y: (low - 0x8000_0000) as i32 }
}

/// The name of the file that holds the record of a chunk.
pub open spec fn spec_chunk_file_name(pos: ChunkPos) -> Seq<char> {
    "chunk_"@ + decimal(pos.x as int) + "_"@ + decimal(pos.y as int) + ".bin"@
}

/// The path of the file that holds the record of a chunk: the file lies in
/// the directory `chunks` below the save directory; with no save directory,
/// in `chunks` below where the program runs. A separator is put behind the
/// save directory unless it ends in one.
pub open spec fn spec_chunk_path(save_directory: Seq<char>, pos: ChunkPos) -> Seq<char> {
    if save_directory.len() == 0 || save_directory.last() == '/' {
        save_directory + "chunks/"@ + spec_chunk_file_name(pos)
    } else {
        save_directory + "/chunks/"@ + spec_chunk_file_name(pos)
    }
}

/// Appends the name of the file that holds the record of a chunk.
fn push_chunk_file_name(out: &mut String, pos: &ChunkPos)
    ensures
        final(out)@ == old(out)@ + spec_chunk_file_name(*pos),
{
    out.append("chunk_");
    push_decimal(out, pos.x as i64);
    out.append("_");
    push_decimal(out, pos.y as i64);
    out.append(".bin");
    assert(out@ =~= old(out)@ + spec_chunk_file_name(*pos));
}

/// World manager: tracks all loaded chunks and their state.
pub struct WorldManager {
    /// The layer handles of each drawn chunk, by the chunk's key.
    active_chunks: HashMap<u64, [EntityId; NUM_LAYERS]>,
    /// The keys of the chunks that have been modified and need saving.
    dirty_chunks: HashSet<u64>,
    /// In-memory cache of chunk data, by the chunk's key.
    chunk_cache: HashMap<u64, ChunkData>,
    /// Directory where chunk files are saved.
    save_directory: String,
    /// Current camera chunk position (for loading/unloading decisions).
    camera_chunk: Option<ChunkPos>,
    /// Queue of pending tile modifications.
    pending_tile_modifications: Vec<TileModification>,
}

impl View for WorldManager {
    type V = WorldState;

    closed spec fn view(&self) -> WorldState {
        WorldState {
            active: by_position(self.active_chunks@),
            cache: contents(by_position(self.chunk_cache@)),
            dirty: positions(self.dirty_chunks@),
            viewpoint: self.camera_chunk,
            pending: self.pending_tile_modifications@,
            save_directory: self.save_directory@,
        }
    }
}

impl WorldManager {
    /// A world manager with nothing loaded, which saves below the given
    /// directory.
    pub fn new(save_directory: String) -> (world: Self)
        ensures
            world@ == WorldState::empty(save_directory@),
            world@.consistent(),
    {
        broadcast use vstd::std_specs::hash::group_hash_axioms;

        let world = Self {
            active_chunks: HashMap::new(),
            dirty_chunks: HashSet::new(),
            chunk_cache: HashMap::new(),
            save_directory,
            camera_chunk: None,
            pending_tile_modifications: Vec::new(),
        };
        proof {
            assert(world@.active =~= Map::empty());
            assert(world@.cache =~= Map::empty());
            assert(world@.dirty =~= Set::empty());
        }
        world
    }

    /// Check if a chunk is currently loaded.
    pub fn is_loaded(&self, pos: &ChunkPos) -> (loaded: bool)
        ensures
            loaded == self@.active.contains_key(*pos),
    {
        broadcast use vstd::std_specs::hash::group_hash_axioms;

        self.active_chunks.contains_key(&key_of(pos))
    }

    /// Get the handles of a loaded chunk (all layers).
    pub fn get_chunk_entities(&self, pos: &ChunkPos) -> (entities: Option<&[EntityId; NUM_LAYERS]>)
        ensures
            entities is Some <==> self@.active.contains_key(*pos),
            entities is Some ==> *entities->Some_0 == self@.active[*pos],
    {
        broadcast use vstd::std_specs::hash::group_hash_axioms;

        self.active_chunks.get(&key_of(pos))
    }

    /// Get the handle of one layer of a chunk.
    pub fn get_chunk_layer_entity(&self, pos: &ChunkPos, layer: usize) -> (entity: Option<EntityId>)
        requires
            self@.active.contains_key(*pos) ==> layer < NUM_LAYERS,
        ensures
            entity == (if self@.active.contains_key(*pos) {
                Some(self@.active[*pos][layer as int])
            } else {
                None
            }),
    {
        broadcast use vstd::std_specs::hash::group_hash_axioms;

        match self.active_chunks.get(&key_of(pos)) {
            Some(entities) => Some(entities[layer]),
            None => None,
        }
    }

    /// Register the layer handles of a chunk.
    pub fn register_chunk(&mut self, pos: ChunkPos, entities: [EntityId; NUM_LAYERS])
        ensures
            final(self)@ == (WorldState {
                active: old(self)@.active.insert(pos, entities),
                ..old(self)@
            }),
    {
        broadcast use vstd::std_specs::hash::group_hash_axioms;

        self.active_chunks.insert(key_of(&pos), entities);
        proof {
            lemma_by_position_insert(old(self).active_chunks@, pos, entities);
        }
    }

    /// Unregister a chunk (when its drawables go): gives back its handles.
    pub fn unregister_chunk(&mut self, pos: &ChunkPos) -> (entities: Option<[EntityId; NUM_LAYERS]>)
        ensures
            final(self)@ == (WorldState { active: old(self)@.active.remove(*pos), ..old(self)@ }),
            entities == (if old(self)@.active.contains_key(*pos) {
                Some(old(self)@.active[*pos])
            } else {
                None
            }),
    {
        broadcast use vstd::std_specs::hash::group_hash_axioms;

        let entities = self.active_chunks.remove(&key_of(pos));
        proof {
            lemma_by_position_remove(old(self).active_chunks@, *pos);
        }
        entities
    }

    /// Mark a chunk as dirty (needs saving).
    pub fn mark_dirty(&mut self, pos: ChunkPos)
        ensures
            final(self)@ == (WorldState { dirty: old(self)@.dirty.insert(pos), ..old(self)@ }),
    {
        broadcast use vstd::std_specs::hash::group_hash_axioms;

        self.dirty_chunks.insert(key_of(&pos));
        proof {
            lemma_positions_insert(old(self).dirty_chunks@, pos);
        }
    }

    /// Clear dirty flag for a chunk (after saving).
    pub fn clear_dirty(&mut self, pos: &ChunkPos)
        ensures
            final(self)@ == (WorldState { dirty: old(self)@.dirty.remove(*pos), ..old(self)@ }),
    {
        broadcast use vstd::std_specs::hash::group_hash_axioms;

        self.dirty_chunks.remove(&key_of(pos));
        proof {
            lemma_positions_remove(old(self).dirty_chunks@, *pos);
        }
    }

    /// Check if a chunk is dirty.
    pub fn is_dirty(&self, pos: &ChunkPos) -> (dirty: bool)
        ensures
            dirty == self@.dirty.contains(*pos),
    {
        broadcast use vstd::std_specs::hash::group_hash_axioms;

        self.dirty_chunks.contains(&key_of(pos))
    }

    /// Add chunk data to cache, under the position that the data carries.
    pub fn cache_chunk(&mut self, data: ChunkData)
        ensures
            final(self)@ == (WorldState {
                cache: old(self)@.cache.insert(data.position, data@),
                ..old(self)@
            }),
    {
        broadcast use vstd::std_specs::hash::group_hash_axioms;

        let ghost pos = data.position;
        let ghost content = data@;
        let key = key_of(&data.position);
        self.chunk_cache.insert(key, data);
        proof {
            lemma_by_position_insert(old(self).chunk_cache@, pos, data);
            assert(self@.cache =~= old(self)@.cache.insert(pos, content));
        }
    }

    /// Get chunk data from cache.
    pub fn get_cached_chunk(&self, pos: &ChunkPos) -> (data: Option<&ChunkData>)
        ensures
            data is Some <==> self@.cache.contains_key(*pos),
            data is Some ==> data->Some_0@ == self@.cache[*pos],
    {
        broadcast use vstd::std_specs::hash::group_hash_axioms;

        self.chunk_cache.get(&key_of(pos))
    }

    /// Remove chunk data from cache.
    pub fn uncache_chunk(&mut self, pos: &ChunkPos) -> (data: Option<ChunkData>)
        ensures
            final(self)@ == (WorldState { cache: old(self)@.cache.remove(*pos), ..old(self)@ }),
            data is Some <==> old(self)@.cache.contains_key(*pos),
            data is Some ==> data->Some_0@ == old(self)@.cache[*pos],
    {
        broadcast use vstd::std_specs::hash::group_hash_axioms;

        let data = self.chunk_cache.remove(&key_of(pos));
        proof {
            lemma_by_position_remove(old(self).chunk_cache@, *pos);
            assert(self@.cache =~= old(self)@.cache.remove(*pos));
        }
        data
    }

    /// The chunk that holds the camera, once it is known.
    pub fn camera_chunk(&self) -> (pos: Option<ChunkPos>)
        ensures
            pos == self@.viewpoint,
    {
        self.camera_chunk
    }

    /// Update the camera's chunk position. Nothing changes if the camera
    /// was in that chunk already.
    pub fn update_camera_position(&mut self, chunk_pos: ChunkPos)
        ensures
            final(self)@ == (WorldState { viewpoint: Some(chunk_pos), ..old(self)@ }),
            old(self)@.viewpoint == Some(chunk_pos) ==> final(self)@ == old(self)@,
    {
        self.camera_chunk = Some(chunk_pos);
    }

    /// Queue a tile modification at a world position (in pixels). It waits
    /// behind those queued before it.
    pub fn queue_tile_modification(
        &mut self,
        world_x: i64,
        world_y: i64,
        tile_id: TileId,
        layer: usize,
    )
        ensures
            final(self)@ == (WorldState {
                pending: old(self)@.pending.push(
                    TileModification { world_x, world_y, tile_id, layer },
                ),
                ..old(self)@
            }),
    {
        self.pending_tile_modifications.push(
            TileModification { world_x, world_y, tile_id, layer },
        );
    }

    /// Get all pending tile modifications, oldest first, and clear the
    /// queue.
    pub fn take_tile_modifications(&mut self) -> (taken: Vec<TileModification>)
        ensures
            taken@ == old(self)@.pending,
            final(self)@ == (WorldState { pending: Seq::empty(), ..old(self)@ }),
    {
        let mut taken: Vec<TileModification> = Vec::new();
        core::mem::swap(&mut taken, &mut self.pending_tile_modifications);
        taken
    }

    /// Get all dirty chunk positions, each once, in no particular order.
    pub fn get_dirty_chunks(&self) -> (chunks: Vec<ChunkPos>)
        ensures
            chunks@.no_duplicates(),
            chunks@.to_set() == self@.dirty,
    {
        broadcast use vstd::std_specs::hash::group_hash_axioms;

        let mut chunks: Vec<ChunkPos> = Vec::new();
        for key in iter: self.dirty_chunks.iter()
            invariant
                chunks.len() == iter.index(),
                forall|j: int|
                    0 <= j < chunks.len() ==> #[trigger] chunks@[j] == key_chunk(*iter.seq()[j]),
        {
            chunks.push(pos_of(*key));
        }
        proof {
            let keys = self.dirty_chunks.iter().remaining().unref();
            lemma_positions_of_keys(keys, chunks@, self.dirty_chunks@);
        }
        chunks
    }

    /// Get the positions of all loaded chunks, each once, in no particular
    /// order.
    pub fn get_loaded_chunks(&self) -> (chunks: Vec<ChunkPos>)
        ensures
            chunks@.no_duplicates(),
            chunks@.to_set() == self@.active.dom(),
    {
        broadcast use vstd::std_specs::hash::group_hash_axioms;

        let mut chunks: Vec<ChunkPos> = Vec::new();
        for key in iter: self.active_chunks.keys()
            invariant
                chunks.len() == iter.index(),
                forall|j: int|
                    0 <= j < chunks.len() ==> #[trigger] chunks@[j] == key_chunk(*iter.seq()[j]),
        {
            chunks.push(pos_of(*key));
        }
        proof {
            let keys = self.active_chunks.keys().remaining().unref();
            lemma_positions_of_keys(keys, chunks@, self.active_chunks@.dom());
            assert(positions(self.active_chunks@.dom()) =~= self@.active.dom());
        }
        chunks
    }

    /// Set one tile of a cached chunk. Changes exactly one cell of that
    /// chunk, or nothing where the chunk is not cached or the layer or the
    /// cell does not exist; tells which.
    pub fn set_cached_tile(
        &mut self,
        pos: &ChunkPos,
        layer: usize,
        local_x: usize,
        local_y: usize,
        tile_id: TileId,
    ) -> (done: bool)
        ensures
            done == (old(self)@.cache.contains_key(*pos) && crate::tiles::chunk::in_bounds(
                layer as int,
                local_x as int,
                local_y as int,
            )),
            done ==> final(self)@ == (WorldState {
                cache: old(self)@.cache.insert(
                    *pos,
                    old(self)@.cache[*pos].set_tile(
                        layer as int,
                        local_x as int,
                        local_y as int,
                        tile_id,
                    ),
                ),
                ..old(self)@
            }),
            !done ==> final(self)@ == old(self)@,
    {
        broadcast use vstd::std_specs::hash::group_hash_axioms;

        let key = key_of(pos);
        match self.chunk_cache.remove(&key) {
            Some(mut data) => {
                let ghost before = data;
                let done = data.set_tile(layer, local_x, local_y, tile_id);
                self.chunk_cache.insert(key, data);
                proof {
                    lemma_by_position_remove(old(self).chunk_cache@, *pos);
                    lemma_by_position_insert(old(self).chunk_cache@.remove(key), *pos, data);
                    if done {
                        assert(self@.cache =~= old(self)@.cache.insert(
                            *pos,
                            old(self)@.cache[*pos].set_tile(
                                layer as int,
                                local_x as int,
                                local_y as int,
                                tile_id,
                            ),
                        ));
                    } else {
                        assert(data == before);
                        assert(self.chunk_cache@ =~= old(self).chunk_cache@);
                    }
                }
                done
            },
            None => {
                proof {
                    assert(self.chunk_cache@ =~= old(self).chunk_cache@);
                }
                false
            },
        }
    }

    /// Get statistics about the world state.
    pub fn stats(&self) -> (stats: WorldStats)
        ensures
            self@.active.dom().finite(),
            self@.dirty.finite(),
            self@.cache.dom().finite(),
            stats.loaded_chunks == self@.active.dom().len(),
            stats.dirty_chunks == self@.dirty.len(),
            stats.cached_chunks == self@.cache.dom().len(),
            stats.camera_chunk == self@.viewpoint,
    {
        broadcast use vstd::std_specs::hash::group_hash_axioms;

        proof {
            lemma_positions_len(self.active_chunks@.dom());
            vstd::seq_lib::seq_to_set_is_finite(self.dirty_chunks.iter().remaining().unref());
            lemma_positions_len(self.dirty_chunks@);
            lemma_positions_len(self.chunk_cache@.dom());
            assert(positions(self.active_chunks@.dom()) =~= self@.active.dom());
            assert(positions(self.chunk_cache@.dom()) =~= self@.cache.dom());
        }
        WorldStats {
            loaded_chunks: self.active_chunks.len(),
            dirty_chunks: self.dirty_chunks.len(),
            cached_chunks: self.chunk_cache.len(),
            camera_chunk: self.camera_chunk,
        }
    }

    /// Get the path to a chunk save file.
    pub fn get_chunk_path(&self, pos: &ChunkPos) -> (path: String)
        ensures
            path@ == spec_chunk_path(self@.save_directory, *pos),
    {
        let mut path = self.save_directory.clone();
        let len = path.as_str().unicode_len();
        if len == 0 || path.as_str().get_char(len - 1) == '/' {
            path.append("chunks/");
        } else {
            path.append("/chunks/");
        }
        push_chunk_file_name(&mut path, pos);
        assert(path@ =~= spec_chunk_path(self@.save_directory, *pos));
        path
    }
}

impl Default for WorldManager {
    /// A world manager that saves below `saves/world`.
    fn default() -> (world: Self)
        ensures
            world@ == WorldState::empty("saves/world"@),
    {
        Self::new(String::from_str("saves/world"))
    }
}

} // verus!
