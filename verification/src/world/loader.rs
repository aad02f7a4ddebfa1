//! The streaming decisions of one tick: where the viewpoint is, which chunks
//! to load around it, which to unload, and what the queued tile edits change.
//!
//! Each function takes the world manager and plain values, changes the
//! manager's bookkeeping and returns what is left to do outside memory:
//! records to read or write, drawables to make, change or destroy.
use super::generator::{generate_chunk, spec_generate_chunk};
use super::manager::{EntityId, TileModification, WorldManager, WorldState};
use super::serialization::{
    load_chunk, save_chunk, spec_load_chunk, spec_save_chunk, SerializationError,
};
use crate::tiles::chunk::{cell_index, Chunk, ChunkContent, ChunkData};
use crate::tiles::constants::{CHUNK_LOAD_RADIUS, CHUNK_PIXEL_SIZE, CHUNK_SIZE, NUM_LAYERS};
use crate::tiles::coords::{
    spec_local_tile, spec_world_to_chunk, world_to_chunk, world_to_local_tile,
};
use crate::tiles::types::{
    clamp_i32, floor_div, floor_mod, max_int, saturate_i32, ChunkPos, TileId,
};
use vstd::prelude::*;

verus! {

/// Number of chunks added around the visible ones when loading, and again
/// between the load and the unload radius.
pub const RADIUS_BUFFER: i32 = 2;

/// Track the camera: the chunk that holds the camera's position becomes the
/// viewpoint. Tells whether the viewpoint changed; loading and unloading
/// need to run only then.
pub fn update_camera_chunk(world: &mut WorldManager, camera_x: i64, camera_y: i64) -> (moved: bool)
    ensures
        final(world)@ == (WorldState {
            viewpoint: Some(spec_world_to_chunk(camera_x as int, camera_y as int)),
            ..old(world)@
        }),
        moved == (old(world)@.viewpoint != Some(
            spec_world_to_chunk(camera_x as int, camera_y as int),
        )),
        old(world)@.consistent() ==> final(world)@.consistent(),
{
    let chunk_pos = world_to_chunk(camera_x, camera_y);
    let moved = match world.camera_chunk() {
        Some(current) => current.x != chunk_pos.x || current.y != chunk_pos.y,
        None => true,
    };
    if moved {
        world.update_camera_position(chunk_pos);
    }
    moved
}

/// The quotient rounded towards positive infinity.
pub open spec fn ceil_div(a: int, d: int) -> int {
    if a % d == 0 {
        a / d
    } else {
        a / d + 1
    }
}

/// The number of chunks that a stretch of `half_extent` pixels reaches
/// into, as far as an `i32` counts.
pub open spec fn chunks_spanned(half_extent: int) -> int {
    clamp_i32(ceil_div(half_extent, CHUNK_PIXEL_SIZE as int))
}

/// The load radius for a viewport that reaches `half_width` pixels to each
/// side of the camera and `half_height` pixels up and down: the chunks that
/// the longer reach spans, two more, and never less than
/// `CHUNK_LOAD_RADIUS`. Without a viewport, `CHUNK_LOAD_RADIUS`.
pub open spec fn spec_load_radius(viewport: Option<(i64, i64)>) -> int {
    match viewport {
        Some((half_width, half_height)) => max_int(
            clamp_i32(
                max_int(chunks_spanned(half_width as int), chunks_spanned(half_height as int))
                    + RADIUS_BUFFER,
            ),
            CHUNK_LOAD_RADIUS as int,
        ),
        None => CHUNK_LOAD_RADIUS as int,
    }
}

/// The unload radius that goes with a load radius: two chunks more, so that
/// a chunk just loaded is not unloaded when the viewpoint steps back.
pub open spec fn spec_unload_radius(load_radius: int) -> int {
    load_radius + RADIUS_BUFFER
}

/// The chunks that a stretch of pixels reaches into.
fn span_chunks(half_extent: i64) -> (chunks: i32)
    ensures
        chunks == chunks_spanned(half_extent as int),
{
    let whole: i64 = floor_div(half_extent, CHUNK_PIXEL_SIZE as i64);
    let rest: i64 = floor_mod(half_extent, CHUNK_PIXEL_SIZE as i64);
    proof {
        crate::tiles::types::lemma_floor_div_bounds(half_extent as int, CHUNK_PIXEL_SIZE as int);
    }
    if rest == 0 {
        saturate_i32(whole)
    } else {
        saturate_i32(whole + 1)
    }
}

/// Calculate the chunk load radius for the visible area, given as the
/// viewport's half width and half height in world pixels (none where the
/// camera or the window is not known).
pub fn calculate_load_radius(viewport: Option<(i64, i64)>) -> (load_radius: i32)
    ensures
        load_radius == spec_load_radius(viewport),
        load_radius >= CHUNK_LOAD_RADIUS,
{
    match viewport {
        Some((half_width, half_height)) => {
            let chunks_horizontal = span_chunks(half_width);
            let chunks_vertical = span_chunks(half_height);
            let visible_radius = if chunks_horizontal >= chunks_vertical {
                chunks_horizontal
            } else {
                chunks_vertical
            };
            let load_radius = saturate_i32(visible_radius as i64 + RADIUS_BUFFER as i64);
            if load_radius >= CHUNK_LOAD_RADIUS {
                load_radius
            } else {
                CHUNK_LOAD_RADIUS
            }
        },
        None => CHUNK_LOAD_RADIUS,
    }
}

/// Calculate the unload radius from the load radius: always two chunks
/// more.
pub fn calculate_unload_radius(load_radius: i32) -> (unload_radius: i32)
    requires
        load_radius + RADIUS_BUFFER <= i32::MAX,
    ensures
        unload_radius == spec_unload_radius(load_radius as int),
{
    load_radius + RADIUS_BUFFER
}

/// The chunk lies within the load radius of the viewpoint.
pub open spec fn in_load_range(viewpoint: ChunkPos, pos: ChunkPos, load_radius: int) -> bool {
    viewpoint.spec_chebyshev_distance(pos) <= load_radius
}

/// The chunk lies beyond the unload radius that goes with the load radius.
pub open spec fn is_distant(viewpoint: ChunkPos, pos: ChunkPos, load_radius: int) -> bool {
    viewpoint.spec_chebyshev_distance(pos) > spec_unload_radius(load_radius)
}

/// The Chebyshev distance obeys the triangle inequality.
pub proof fn lemma_chebyshev_triangle(a: ChunkPos, b: ChunkPos, c: ChunkPos)
    ensures
        a.spec_chebyshev_distance(c) <= a.spec_chebyshev_distance(b) + b.spec_chebyshev_distance(
            c,
        ),
        a.spec_chebyshev_distance(b) == b.spec_chebyshev_distance(a),
        a.spec_chebyshev_distance(b) >= 0,
{
}

/// No chunk is to be loaded and unloaded at once: within the load radius
/// means not beyond the unload radius.
pub proof fn lemma_load_range_not_distant(viewpoint: ChunkPos, pos: ChunkPos, load_radius: int)
    requires
        in_load_range(viewpoint, pos, load_radius),
    ensures
        !is_distant(viewpoint, pos, load_radius),
{
}

/// Hysteresis: a chunk within the load radius of the viewpoint stays within
/// the unload radius when the viewpoint moves by up to two chunks, so a
/// viewpoint that steps over a chunk border and back unloads nothing that
/// it had loaded.
pub proof fn lemma_hysteresis(before: ChunkPos, after: ChunkPos, pos: ChunkPos, load_radius: int)
    requires
        in_load_range(before, pos, load_radius),
        before.spec_chebyshev_distance(after) <= RADIUS_BUFFER,
    ensures
        !is_distant(after, pos, load_radius),
{
    lemma_chebyshev_triangle(after, before, pos);
    lemma_chebyshev_triangle(after, before, before);
}

/// What `push` does to membership, and that it keeps a sequence free of
/// repetitions when the new element is not in it yet.
pub proof fn lemma_push_contains<T>(s: Seq<T>, v: T)
    ensures
        forall|p: T| #[trigger] s.push(v).contains(p) <==> s.contains(p) || p == v,
        s.no_duplicates() && !s.contains(v) ==> s.push(v).no_duplicates(),
{
    assert forall|p: T| #[trigger] s.push(v).contains(p) <==> s.contains(p) || p == v by {
        if s.contains(p) {
            let j = choose|j: int| 0 <= j < s.len() && s[j] == p;
            assert(s.push(v)[j] == p);
        }
        if p == v {
            assert(s.push(v)[s.len() as int] == v);
        }
        if s.push(v).contains(p) {
            let j = choose|j: int| 0 <= j < s.push(v).len() && s.push(v)[j] == p;
            if j < s.len() {
                assert(s[j] == p);
            }
        }
    }
    if s.no_duplicates() && !s.contains(v) {
        assert forall|i: int, j: int|
            0 <= i < s.push(v).len() && 0 <= j < s.push(v).len() && i != j implies s.push(v)[i]
            != s.push(v)[j] by {
            if i < s.len() {
                assert(s.contains(s[i]));
            }
            if j < s.len() {
                assert(s.contains(s[j]));
            }
        }
    }
}

/// The value is one of the first `n` elements of the sequence.
pub open spec fn among_first<T>(s: Seq<T>, n: int, v: T) -> bool {
    exists|j: int| 0 <= j < n && s[j] == v
}

/// Walking a sequence one element further: the first `n + 1` elements are
/// the first `n` and the element at `n`; and in a sequence free of
/// repetitions, that element is not among the first `n`.
pub proof fn lemma_among_first_step<T>(s: Seq<T>, n: int, next: int)
    requires
        0 <= n < s.len(),
        next == n + 1,
    ensures
        forall|v: T| #[trigger] among_first(s, next, v) <==> among_first(s, n, v) || v == s[n],
        s.no_duplicates() ==> !among_first(s, n, s[n]),
{
    assert forall|v: T| #[trigger] among_first(s, next, v) <==> among_first(s, n, v) || v
        == s[n] by {
        if among_first(s, n, v) {
            let j = choose|j: int| 0 <= j < n && s[j] == v;
            assert(0 <= j < next && s[j] == v);
        }
        if v == s[n] {
            assert(0 <= n < next && s[n] == v);
        }
        if among_first(s, next, v) {
            let j = choose|j: int| 0 <= j < next && s[j] == v;
            if j < n {
                assert(0 <= j < n && s[j] == v);
            }
        }
    }
    if s.no_duplicates() && among_first(s, n, s[n]) {
        let j = choose|j: int| 0 <= j < n && s[j] == s[n];
        assert(s[j] == s[n]);
    }
}

/// None of a sequence's elements is among its first none, and all of them
/// are among its first `len`.
pub proof fn lemma_among_first_ends<T>(s: Seq<T>)
    ensures
        forall|v: T| !(#[trigger] among_first(s, 0, v)),
        forall|v: T| #[trigger] among_first(s, s.len() as int, v) <==> s.contains(v),
{
    assert forall|v: T| #[trigger] among_first(s, s.len() as int, v) <==> s.contains(v) by {
        if s.contains(v) {
            let j = choose|j: int| 0 <= j < s.len() && s[j] == v;
            assert(0 <= j < s.len() && s[j] == v);
        }
        if among_first(s, s.len() as int, v) {
            let j = choose|j: int| 0 <= j < s.len() && s[j] == v;
            assert(s[j] == v);
        }
    }
}

/// The chunk is to be loaded: the viewpoint is known, the chunk lies within
/// the load radius of it, and it is not loaded yet.
pub open spec fn should_load(state: WorldState, pos: ChunkPos, load_radius: int) -> bool {
    &&& state.viewpoint is Some
    &&& in_load_range(state.viewpoint->Some_0, pos, load_radius)
    &&& !state.active.contains_key(pos)
}

/// The chunks to load around the camera: every chunk within the load radius
/// of the viewpoint that is not loaded yet, each once. None before the
/// viewpoint is known.
pub fn chunks_to_load(world: &WorldManager, load_radius: i32) -> (chunks: Vec<ChunkPos>)
    ensures
        chunks@.no_duplicates(),
        forall|p: ChunkPos| #[trigger]
            chunks@.contains(p) <==> should_load(world@, p, load_radius as int),
{
    let mut chunks: Vec<ChunkPos> = Vec::new();
    let center = match world.camera_chunk() {
        Some(center) => center,
        None => {
            return chunks;
        },
    };
    if load_radius < 0 {
        return chunks;
    }
    let radius: i64 = load_radius as i64;
    let min_x: i64 = if center.x as i64 - radius < -2147483648 {
        -2147483648
    } else {
        center.x as i64 - radius
    };
    let max_x: i64 = if center.x as i64 + radius > 2147483647 {
        2147483647
    } else {
        center.x as i64 + radius
    };
    let min_y: i64 = if center.y as i64 - radius < -2147483648 {
        -2147483648
    } else {
        center.y as i64 - radius
    };
    let max_y: i64 = if center.y as i64 + radius > 2147483647 {
        2147483647
    } else {
        center.y as i64 + radius
    };
    assert forall|p: ChunkPos|
        in_load_range(center, p, load_radius as int) <==> (min_x <= p.x <= max_x && min_y <= p.y
            <= max_y) by {}
    let mut y: i64 = min_y;
    while y <= max_y
        invariant
            world@.viewpoint == Some(center),
            i32::MIN <= min_x <= max_x <= i32::MAX,
            i32::MIN <= min_y <= max_y <= i32::MAX,
            min_y <= y <= max_y + 1,
            forall|p: ChunkPos|
                in_load_range(center, p, load_radius as int) <==> (min_x <= p.x <= max_x && min_y
                    <= p.y <= max_y),
            chunks@.no_duplicates(),
            forall|p: ChunkPos| #[trigger]
                chunks@.contains(p) <==> should_load(world@, p, load_radius as int) && p.y < y,
        decreases max_y + 1 - y,
    {
        let mut x: i64 = min_x;
        while x <= max_x
            invariant
                world@.viewpoint == Some(center),
                i32::MIN <= min_x <= max_x <= i32::MAX,
                i32::MIN <= min_y <= max_y <= i32::MAX,
                min_y <= y <= max_y,
                min_x <= x <= max_x + 1,
                forall|p: ChunkPos|
                    in_load_range(center, p, load_radius as int) <==> (min_x <= p.x <= max_x
                        && min_y <= p.y <= max_y),
                chunks@.no_duplicates(),
                forall|p: ChunkPos| #[trigger]
                    chunks@.contains(p) <==> should_load(world@, p, load_radius as int) && (p.y < y
                        || (p.y == y && p.x < x)),
            decreases max_x + 1 - x,
        {
            let pos = ChunkPos { x: x as i32, y: y as i32 };
            if !world.is_loaded(&pos) {
                proof {
                    lemma_push_contains(chunks@, pos);
                }
                chunks.push(pos);
            }
            x += 1;
        }
        y += 1;
    }
    chunks
}

/// Where the content of a chunk came from.
#[derive(Debug, Clone, PartialEq, Eq)]
pub enum ChunkSource {
    /// The chunk was held in memory.
    Cache,
    /// The chunk was read from its record.
    Disk,
    /// The chunk has no record and was generated.
    Generated,
    /// The record could not be read, so the chunk was generated.
    Unreadable(SerializationError),
    /// The chunk was read from a record that names another position, which
    /// is given here. The record's tiles were taken all the same.
    Misplaced(ChunkPos),
}

/// The content of a chunk that is about to be loaded, and where it comes
/// from, in this order: the cache; else the record, where there is one and
/// it can be read; else the generator. What a record gives are its tiles:
/// the chunk is the one asked for, whatever position the record names.
pub open spec fn spec_obtain_chunk_data(
    state: WorldState,
    pos: ChunkPos,
    record: Option<Seq<u8>>,
) -> (ChunkContent, ChunkSource) {
    if state.cache.contains_key(pos) {
        (state.cache[pos], ChunkSource::Cache)
    } else {
        match record {
            Some(bytes) => match spec_load_chunk(bytes) {
                Ok(content) => (
                    ChunkContent { position: pos, layers: content.layers },
                    if content.position == pos {
                        ChunkSource::Disk
                    } else {
                        ChunkSource::Misplaced(content.position)
                    },
                ),
                Err(e) => (spec_generate_chunk(pos), ChunkSource::Unreadable(e)),
            },
            None => (spec_generate_chunk(pos), ChunkSource::Generated),
        }
    }
}

/// The bytes of a record, where there is one.
pub open spec fn record_bytes(record: Option<&[u8]>) -> Option<Seq<u8>> {
    match record {
        Some(bytes) => Some(bytes@),
        None => None,
    }
}

/// Obtain the content of a chunk that is about to be loaded. `record` holds
/// the bytes of the chunk's record where there is one; it is looked at only
/// if the chunk is not in the cache. A record that cannot be read never
/// stops the load: the chunk is then generated, and the source tells why.
/// A record that can be read is taken, under the position asked for.
pub fn obtain_chunk_data(world: &WorldManager, pos: ChunkPos, record: Option<&[u8]>) -> (obtained: (
    ChunkData,
    ChunkSource,
))
    ensures
        (obtained.0@, obtained.1) == spec_obtain_chunk_data(world@, pos, record_bytes(record)),
        obtained.1 != ChunkSource::Cache ==> obtained.0@.position == pos,
        world@.consistent() ==> obtained.0@.position == pos,
{
    match world.get_cached_chunk(&pos) {
        Some(cached) => (cached.clone(), ChunkSource::Cache),
        None => match record {
            Some(bytes) => match load_chunk(bytes) {
                Ok(data) => {
                    let found = data.position;
                    if found.x == pos.x && found.y == pos.y {
                        (data, ChunkSource::Disk)
                    } else {
                        (
                            ChunkData { position: pos, layers: data.layers },
                            ChunkSource::Misplaced(found),
                        )
                    }
                },
                Err(e) => (generate_chunk(pos), ChunkSource::Unreadable(e)),
            },
            None => (generate_chunk(pos), ChunkSource::Generated),
        },
    }
}

/// The state after a chunk has been loaded and drawn: the chunk is active
/// with its handles, and in the cache unless the cache held it already.
pub open spec fn spec_finish_chunk_load(
    state: WorldState,
    content: ChunkContent,
    entities: [EntityId; NUM_LAYERS],
) -> WorldState {
    WorldState {
        active: state.active.insert(content.position, entities),
        cache: if state.cache.contains_key(content.position) {
            state.cache
        } else {
            state.cache.insert(content.position, content)
        },
        ..state
    }
}

/// Finish the load of a chunk whose drawables have been made: register it
/// as active with the handles of its layers, and put its content into the
/// cache if the cache does not hold the chunk yet.
pub fn finish_chunk_load(world: &mut WorldManager, data: ChunkData, entities: [EntityId; NUM_LAYERS])
    ensures
        final(world)@ == spec_finish_chunk_load(old(world)@, data@, entities),
        final(world)@.active.contains_key(data.position),
        final(world)@.cache.contains_key(data.position),
        old(world)@.consistent() ==> final(world)@.consistent(),
{
    let pos = data.position;
    world.register_chunk(pos, entities);
    if world.get_cached_chunk(&pos).is_none() {
        world.cache_chunk(data);
    }
}

/// A chunk that has been unloaded, with what is left to do for it outside
/// memory: destroy the drawables behind its handles, and write its record
/// where there is one.
#[derive(Debug)]
pub struct UnloadedChunk {
    pub position: ChunkPos,
    /// The handles of the chunk's layers.
    pub entities: [EntityId; NUM_LAYERS],
    /// The record to write: there is one if the chunk was dirty.
    pub record: Option<Vec<u8>>,
}

impl UnloadedChunk {
    /// The bytes of the record to write, where there is one.
    pub open spec fn record_bytes(self) -> Option<Seq<u8>> {
        match self.record {
            Some(bytes) => Some(bytes@),
            None => None,
        }
    }
}

/// The positions of unloaded chunks, in their order.
pub open spec fn unloaded_positions(unloaded: Seq<UnloadedChunk>) -> Seq<ChunkPos> {
    Seq::new(unloaded.len(), |i: int| unloaded[i].position)
}

/// The chunk is to be unloaded: the viewpoint is known, the chunk is loaded,
/// and it lies beyond the unload radius.
pub open spec fn should_unload(state: WorldState, pos: ChunkPos, load_radius: int) -> bool {
    &&& state.viewpoint is Some
    &&& state.active.contains_key(pos)
    &&& is_distant(state.viewpoint->Some_0, pos, load_radius)
}

/// The record to write for a chunk that leaves memory: that of its cached
/// content if the chunk is dirty, else none.
pub open spec fn record_to_write(state: WorldState, pos: ChunkPos) -> Option<Seq<u8>> {
    if state.dirty.contains(pos) && state.cache.contains_key(pos) {
        Some(spec_save_chunk(state.cache[pos]))
    } else {
        None
    }
}

/// The state with a set of chunks gone from the active chunks, from the
/// cache and from the dirty chunks.
pub open spec fn without_chunks(state: WorldState, gone: Set<ChunkPos>) -> WorldState {
    WorldState {
        active: state.active.remove_keys(gone),
        cache: state.cache.remove_keys(gone),
        dirty: state.dirty.difference(gone),
        ..state
    }
}

/// The state after the unload step: every chunk that was to be unloaded is
/// gone; everything else is as it was.
pub open spec fn spec_unload_distant_chunks(state: WorldState, load_radius: int) -> WorldState {
    without_chunks(state, Set::new(|p: ChunkPos| should_unload(state, p, load_radius)))
}

/// Taking chunks out of all three collections keeps them in agreement.
pub proof fn lemma_without_chunks_consistent(state: WorldState, gone: Set<ChunkPos>)
    requires
        state.consistent(),
    ensures
        without_chunks(state, gone).consistent(),
{
    let after = without_chunks(state, gone);
    assert forall|p: ChunkPos| #[trigger] after.cache.contains_key(p) implies after.cache[p].position
        == p && after.cache[p].wf() by {
        assert(state.cache.contains_key(p));
    }
}

/// After the unload step no active chunk lies beyond the unload radius, and
/// every chunk within the load radius that was active still is, with its
/// cached content and its dirty flag as they were.
pub proof fn lemma_unload_keeps_near_chunks(state: WorldState, load_radius: int)
    requires
        state.viewpoint is Some,
    ensures
        forall|p: ChunkPos| #[trigger]
            spec_unload_distant_chunks(state, load_radius).active.contains_key(p) ==> !is_distant(
                state.viewpoint->Some_0,
                p,
                load_radius,
            ),
        forall|p: ChunkPos|
            #![trigger spec_unload_distant_chunks(state, load_radius).active.contains_key(p)]
            #![trigger spec_unload_distant_chunks(state, load_radius).cache.contains_key(p)]
            #![trigger spec_unload_distant_chunks(state, load_radius).dirty.contains(p)]
            in_load_range(state.viewpoint->Some_0, p, load_radius) ==> {
                &&& spec_unload_distant_chunks(state, load_radius).active.contains_key(p)
                    == state.active.contains_key(p)
                &&& spec_unload_distant_chunks(state, load_radius).cache.contains_key(p)
                    == state.cache.contains_key(p)
                &&& spec_unload_distant_chunks(state, load_radius).dirty.contains(p)
                    == state.dirty.contains(p)
                &&& state.cache.contains_key(p) ==> spec_unload_distant_chunks(
                    state,
                    load_radius,
                ).cache[p] == state.cache[p]
            },
{
}

/// Among the first `n` of the candidates, the chunks that are to be
/// unloaded.
pub open spec fn unloaded_so_far(
    state: WorldState,
    load_radius: int,
    candidates: Seq<ChunkPos>,
    n: int,
) -> Set<ChunkPos> {
    Set::new(
        |p: ChunkPos| should_unload(state, p, load_radius) && among_first(candidates, n, p),
    )
}

/// Unload the chunks far from the camera: every loaded chunk beyond the
/// unload radius leaves the active chunks, the cache and the dirty chunks.
/// What comes back tells, for each of them, the handles of the drawables to
/// destroy and, if the chunk was dirty, the record to write. The chunk has
/// left memory whether or not that record can then be written. Nothing
/// happens before the viewpoint is known.
pub fn unload_distant_chunks(world: &mut WorldManager, load_radius: i32) -> (unloaded: Vec<
    UnloadedChunk,
>)
    ensures
        final(world)@ == spec_unload_distant_chunks(old(world)@, load_radius as int),
        unloaded_positions(unloaded@).no_duplicates(),
        forall|p: ChunkPos| #[trigger]
            unloaded_positions(unloaded@).contains(p) <==> should_unload(
                old(world)@,
                p,
                load_radius as int,
            ),
        forall|k: int|
            0 <= k < unloaded@.len() ==> {
                &&& (#[trigger] unloaded@[k]).entities == old(world)@.active[unloaded@[k].position]
                &&& unloaded@[k].record_bytes() == record_to_write(
                    old(world)@,
                    unloaded@[k].position,
                )
            },
        old(world)@.consistent() ==> final(world)@.consistent(),
{
    let mut unloaded: Vec<UnloadedChunk> = Vec::new();
    let ghost before = world@;
    let ghost radius = load_radius as int;
    let camera_chunk = match world.camera_chunk() {
        Some(camera_chunk) => camera_chunk,
        None => {
            proof {
                let none = Set::new(|p: ChunkPos| should_unload(before, p, radius));
                assert(before.active.remove_keys(none) =~= before.active);
                assert(before.cache.remove_keys(none) =~= before.cache);
                assert(before.dirty.difference(none) =~= before.dirty);
            }
            return unloaded;
        },
    };
    let candidates = world.get_loaded_chunks();
    let unload_radius: i64 = load_radius as i64 + RADIUS_BUFFER as i64;
    proof {
        lemma_among_first_ends(candidates@);
        let none = unloaded_so_far(before, radius, candidates@, 0);
        assert(before.active.remove_keys(none) =~= before.active);
        assert(before.cache.remove_keys(none) =~= before.cache);
        assert(before.dirty.difference(none) =~= before.dirty);
    }
    let mut i: usize = 0;
    while i < candidates.len()
        invariant
            0 <= i <= candidates@.len(),
            before == old(world)@,
            radius == load_radius as int,
            before.viewpoint == Some(camera_chunk),
            unload_radius == spec_unload_radius(radius),
            candidates@.no_duplicates(),
            candidates@.to_set() == before.active.dom(),
            world@ == without_chunks(
                before,
                unloaded_so_far(before, radius, candidates@, i as int),
            ),
            unloaded_positions(unloaded@).no_duplicates(),
            forall|p: ChunkPos| #[trigger]
                unloaded_positions(unloaded@).contains(p) <==> unloaded_so_far(
                    before,
                    radius,
                    candidates@,
                    i as int,
                ).contains(p),
            forall|k: int|
                0 <= k < unloaded@.len() ==> {
                    &&& (#[trigger] unloaded@[k]).entities == before.active[unloaded@[k].position]
                    &&& unloaded@[k].record_bytes() == record_to_write(
                        before,
                        unloaded@[k].position,
                    )
                },
        decreases candidates@.len() - i,
    {
        let chunk_pos = candidates[i];
        let ghost gone = unloaded_so_far(before, radius, candidates@, i as int);
        let ghost gone_next = unloaded_so_far(before, radius, candidates@, i + 1);
        proof {
            assert(candidates@.to_set().contains(chunk_pos));
            lemma_among_first_step(candidates@, i as int, i + 1);
        }
        let distance = camera_chunk.chebyshev_distance_wide(&chunk_pos);
        if distance > unload_radius {
            let record = if world.is_dirty(&chunk_pos) {
                match world.get_cached_chunk(&chunk_pos) {
                    Some(chunk_data) => Some(save_chunk(chunk_data)),
                    None => None,
                }
            } else {
                None
            };
            world.clear_dirty(&chunk_pos);
            let removed = world.unregister_chunk(&chunk_pos);
            world.uncache_chunk(&chunk_pos);
            match removed {
                Some(entities) => {
                    let entry = UnloadedChunk { position: chunk_pos, entities, record };
                    proof {
                        lemma_push_contains(unloaded_positions(unloaded@), chunk_pos);
                        assert(unloaded_positions(unloaded@.push(entry)) =~= unloaded_positions(
                            unloaded@,
                        ).push(chunk_pos));
                        assert(gone_next =~= gone.insert(chunk_pos));
                        assert(world@.active =~= before.active.remove_keys(gone_next));
                        assert(world@.cache =~= before.cache.remove_keys(gone_next));
                        assert(world@.dirty =~= before.dirty.difference(gone_next));
                    }
                    unloaded.push(entry);
                },
                None => {
                    assert(false);
                },
            }
        } else {
            proof {
                assert(gone_next =~= gone);
            }
        }
        i += 1;
    }
    proof {
        let all = Set::new(|p: ChunkPos| should_unload(before, p, radius));
        let gone = unloaded_so_far(before, radius, candidates@, candidates@.len() as int);
        lemma_among_first_ends(candidates@);
        assert forall|p: ChunkPos| all.contains(p) implies gone.contains(p) by {
            assert(candidates@.to_set().contains(p));
        }
        assert(gone =~= all);
        if before.consistent() {
            lemma_without_chunks_consistent(before, all);
        }
    }
    unloaded
}

/// A change to one cell of a drawn layer, for the renderer to carry out.
#[derive(Debug, Clone, Copy)]
pub struct TileUpdate {
    /// The handle of the layer's drawable.
    pub entity: EntityId,
    /// The cell's index within the layer, rows following each other.
    pub index: usize,
    /// The tile that the cell now holds.
    pub tile_id: TileId,
}

/// The chunk that a tile modification falls into.
pub open spec fn edit_chunk(edit: TileModification) -> ChunkPos {
    spec_world_to_chunk(edit.world_x as int, edit.world_y as int)
}

/// The modification can be applied: its chunk is in the cache and its layer
/// exists. (The cell always exists: it is found from the world position.)
pub open spec fn edit_applies(state: WorldState, edit: TileModification) -> bool {
    state.cache.contains_key(edit_chunk(edit)) && edit.layer < NUM_LAYERS
}

/// The state after one tile modification: where it can be applied, the cell
/// of the cached chunk holds the new tile and the chunk is dirty; where it
/// cannot, nothing has changed, and the modification is dropped.
pub open spec fn apply_edit(state: WorldState, edit: TileModification) -> WorldState {
    if edit_applies(state, edit) {
        WorldState {
            cache: state.cache.insert(
                edit_chunk(edit),
                state.cache[edit_chunk(edit)].set_tile(
                    edit.layer as int,
                    spec_local_tile(edit.world_x as int),
                    spec_local_tile(edit.world_y as int),
                    edit.tile_id,
                ),
            ),
            dirty: state.dirty.insert(edit_chunk(edit)),
            ..state
        }
    } else {
        state
    }
}

/// The state after a sequence of tile modifications, applied first to last.
pub open spec fn apply_edits(state: WorldState, edits: Seq<TileModification>) -> WorldState
    decreases edits.len(),
{
    if edits.len() == 0 {
        state
    } else {
        apply_edit(apply_edits(state, edits.drop_last()), edits.last())
    }
}

/// What a tile modification changes in what is drawn: where it can be
/// applied and its chunk is active, one cell of the drawable of its layer.
pub open spec fn edit_update(state: WorldState, edit: TileModification) -> Option<TileUpdate> {
    if edit_applies(state, edit) && state.active.contains_key(edit_chunk(edit)) {
        Some(
            TileUpdate {
                entity: state.active[edit_chunk(edit)][edit.layer as int],
                index: cell_index(
                    spec_local_tile(edit.world_x as int),
                    spec_local_tile(edit.world_y as int),
                ) as usize,
                tile_id: edit.tile_id,
            },
        )
    } else {
        None
    }
}

/// What a sequence of tile modifications changes in what is drawn, in the
/// order of the modifications.
pub open spec fn edit_updates(state: WorldState, edits: Seq<TileModification>) -> Seq<TileUpdate>
    decreases edits.len(),
{
    if edits.len() == 0 {
        Seq::empty()
    } else {
        let earlier = edit_updates(state, edits.drop_last());
        match edit_update(apply_edits(state, edits.drop_last()), edits.last()) {
            Some(update) => earlier.push(update),
            None => earlier,
        }
    }
}

/// The state after the edit step: every queued modification has been
/// applied or dropped, in the order of the queue, and the queue is empty.
pub open spec fn spec_apply_tile_modifications(state: WorldState) -> WorldState {
    WorldState { pending: Seq::empty(), ..apply_edits(state, state.pending) }
}

/// Tile modifications change neither the active chunks nor the viewpoint nor
/// the queue, nor which chunks are cached; they keep the collections in
/// agreement.
pub proof fn lemma_apply_edits_keeps(state: WorldState, edits: Seq<TileModification>)
    ensures
        apply_edits(state, edits).active == state.active,
        apply_edits(state, edits).viewpoint == state.viewpoint,
        apply_edits(state, edits).pending == state.pending,
        apply_edits(state, edits).save_directory == state.save_directory,
        apply_edits(state, edits).cache.dom() == state.cache.dom(),
        state.consistent() ==> apply_edits(state, edits).consistent(),
    decreases edits.len(),
{
    if edits.len() > 0 {
        lemma_apply_edits_keeps(state, edits.drop_last());
        let mid = apply_edits(state, edits.drop_last());
        let after = apply_edit(mid, edits.last());
        assert(after.cache.dom() =~= mid.cache.dom());
        if state.consistent() {
            assert forall|p: ChunkPos| #[trigger] after.cache.contains_key(p) implies after.cache[p].position
                == p && after.cache[p].wf() by {
                assert(mid.cache.contains_key(p));
            }
        }
    }
}

/// One modification of a cached chunk: afterwards the chunk is dirty and
/// its cell holds the new tile. One of a chunk that is not cached changes
/// nothing.
pub proof fn lemma_apply_edit_effect(state: WorldState, edit: TileModification)
    requires
        state.consistent(),
    ensures
        edit_applies(state, edit) ==> {
            &&& apply_edit(state, edit).dirty.contains(edit_chunk(edit))
            &&& apply_edit(state, edit).cache[edit_chunk(edit)].get_tile(
                edit.layer as int,
                spec_local_tile(edit.world_x as int),
                spec_local_tile(edit.world_y as int),
            ) == Some(edit.tile_id)
        },
        !state.cache.contains_key(edit_chunk(edit)) ==> apply_edit(state, edit) == state,
{
    if edit_applies(state, edit) {
        assert(state.cache[edit_chunk(edit)].wf());
    }
}

/// Apply the pending tile modifications, oldest first, and empty the queue.
/// Each changes one cell of its chunk in the cache and marks the chunk
/// dirty; one whose chunk is not in the cache, or whose layer does not
/// exist, is dropped. What comes back are the changes to carry out on what
/// is drawn: one for each applied modification of an active chunk.
pub fn apply_tile_modifications(world: &mut WorldManager) -> (updates: Vec<TileUpdate>)
    ensures
        final(world)@ == spec_apply_tile_modifications(old(world)@),
        updates@ == edit_updates(old(world)@, old(world)@.pending),
        final(world)@.pending.len() == 0,
        old(world)@.consistent() ==> final(world)@.consistent(),
{
    let ghost before = world@;
    let modifications = world.take_tile_modifications();
    let mut updates: Vec<TileUpdate> = Vec::new();
    let mut i: usize = 0;
    proof {
        assert(modifications@.take(0) =~= Seq::<TileModification>::empty());
    }
    while i < modifications.len()
        invariant
            0 <= i <= modifications@.len(),
            before == old(world)@,
            modifications@ == before.pending,
            world@ == (WorldState {
                pending: Seq::empty(),
                ..apply_edits(before, modifications@.take(i as int))
            }),
            updates@ == edit_updates(before, modifications@.take(i as int)),
        decreases modifications@.len() - i,
    {
        let modification = modifications[i];
        let ghost mid = apply_edits(before, modifications@.take(i as int));
        proof {
            assert(modifications@.take(i + 1).drop_last() =~= modifications@.take(i as int));
            assert(modifications@.take(i + 1).last() == modification);
            lemma_apply_edits_keeps(before, modifications@.take(i as int));
        }
        let chunk_pos = world_to_chunk(modification.world_x, modification.world_y);
        let (local_x, local_y) = world_to_local_tile(modification.world_x, modification.world_y);
        if world.set_cached_tile(
            &chunk_pos,
            modification.layer,
            local_x,
            local_y,
            modification.tile_id,
        ) {
            world.mark_dirty(chunk_pos);
            match world.get_chunk_layer_entity(&chunk_pos, modification.layer) {
                Some(entity) => {
                    updates.push(
                        TileUpdate {
                            entity,
                            index: local_y * CHUNK_SIZE + local_x,
                            tile_id: modification.tile_id,
                        },
                    );
                },
                None => {},
            }
        }
        i += 1;
    }
    proof {
        assert(modifications@.take(modifications@.len() as int) =~= modifications@);
        lemma_apply_edits_keeps(before, before.pending);
    }
    updates
}

/// A chunk with the record to write for it.
#[derive(Debug)]
pub struct ChunkRecord {
    pub position: ChunkPos,
    pub bytes: Vec<u8>,
}

/// The positions of records, in their order.
pub open spec fn record_positions(records: Seq<ChunkRecord>) -> Seq<ChunkPos> {
    Seq::new(records.len(), |i: int| records[i].position)
}

/// Autosave: the records of all dirty chunks that are in the cache, each
/// once, for the caller to write. The chunks stay dirty.
pub fn autosave_dirty_chunks(world: &WorldManager) -> (records: Vec<ChunkRecord>)
    ensures
        record_positions(records@).no_duplicates(),
        forall|p: ChunkPos| #[trigger]
            record_positions(records@).contains(p) <==> world@.dirty.contains(p)
                && world@.cache.contains_key(p),
        forall|k: int|
            0 <= k < records@.len() ==> (#[trigger] records@[k]).bytes@ == spec_save_chunk(
                world@.cache[records@[k].position],
            ),
{
    let dirty = world.get_dirty_chunks();
    let mut records: Vec<ChunkRecord> = Vec::new();
    let mut i: usize = 0;
    proof {
        lemma_among_first_ends(dirty@);
    }
    while i < dirty.len()
        invariant
            0 <= i <= dirty@.len(),
            dirty@.no_duplicates(),
            dirty@.to_set() == world@.dirty,
            record_positions(records@).no_duplicates(),
            forall|p: ChunkPos| #[trigger]
                record_positions(records@).contains(p) <==> world@.cache.contains_key(p)
                    && among_first(dirty@, i as int, p),
            forall|k: int|
                0 <= k < records@.len() ==> (#[trigger] records@[k]).bytes@ == spec_save_chunk(
                    world@.cache[records@[k].position],
                ),
        decreases dirty@.len() - i,
    {
        let chunk_pos = dirty[i];
        let ghost listed = record_positions(records@);
        proof {
            lemma_among_first_step(dirty@, i as int, i + 1);
        }
        match world.get_cached_chunk(&chunk_pos) {
            Some(chunk_data) => {
                let entry = ChunkRecord { position: chunk_pos, bytes: save_chunk(chunk_data) };
                proof {
                    lemma_push_contains(listed, chunk_pos);
                    assert(record_positions(records@.push(entry)) =~= listed.push(chunk_pos));
                }
                records.push(entry);
            },
            None => {},
        }
        i += 1;
    }
    proof {
        lemma_among_first_ends(dirty@);
        assert forall|p: ChunkPos| #[trigger]
            record_positions(records@).contains(p) <==> world@.dirty.contains(p)
                && world@.cache.contains_key(p) by {
            assert(dirty@.to_set().contains(p) <==> dirty@.contains(p));
        }
    }
    records
}

/// The dirty chunks after the chunks behind the first `n` tags have been
/// marked.
pub open spec fn marked_dirty(dirty: Set<ChunkPos>, modified: Seq<Chunk>, n: int) -> Set<ChunkPos> {
    Set::new(|p: ChunkPos| dirty.contains(p) || among_first(tag_positions(modified), n, p))
}

/// The positions that tags carry, in their order.
pub open spec fn tag_positions(modified: Seq<Chunk>) -> Seq<ChunkPos> {
    Seq::new(modified.len(), |j: int| modified[j].position)
}

/// Mark as dirty the chunks whose drawn layers have been modified. The
/// collections stay in agreement if each of these chunks is in the cache.
pub fn mark_modified_chunks(world: &mut WorldManager, modified_chunks: &[Chunk])
    ensures
        final(world)@ == (WorldState {
            dirty: marked_dirty(
                old(world)@.dirty,
                modified_chunks@,
                modified_chunks@.len() as int,
            ),
            ..old(world)@
        }),
        old(world)@.consistent() && (forall|j: int|
            0 <= j < modified_chunks@.len() ==> old(world)@.cache.contains_key(
                #[trigger] modified_chunks@[j].position,
            )) ==> final(world)@.consistent(),
{
    let ghost before = world@;
    proof {
        lemma_among_first_ends(tag_positions(modified_chunks@));
        assert(marked_dirty(before.dirty, modified_chunks@, 0) =~= before.dirty);
    }
    let mut i: usize = 0;
    while i < modified_chunks.len()
        invariant
            0 <= i <= modified_chunks@.len(),
            before == old(world)@,
            world@ == (WorldState {
                dirty: marked_dirty(before.dirty, modified_chunks@, i as int),
                ..before
            }),
        decreases modified_chunks@.len() - i,
    {
        let ghost marked = marked_dirty(before.dirty, modified_chunks@, i as int);
        let ghost marked_next = marked_dirty(before.dirty, modified_chunks@, i + 1);
        world.mark_dirty(modified_chunks[i].position);
        proof {
            let pos = modified_chunks@[i as int].position;
            lemma_among_first_step(tag_positions(modified_chunks@), i as int, i + 1);
            assert(marked_next =~= marked.insert(pos));
        }
        i += 1;
    }
}

/// The value nearest to `v` that an `i64` can hold.
pub open spec fn clamp_i64(v: int) -> int {
    if v < i64::MIN {
        i64::MIN as int
    } else if v > i64::MAX {
        i64::MAX as int
    } else {
        v
    }
}

/// The chunk lies in the rectangle of chunks that the viewport touches: the
/// chunks from the one that holds the viewport's corner with the smallest
/// coordinates to the one that holds the opposite corner.
pub open spec fn is_visible(
    pos: ChunkPos,
    camera_x: int,
    camera_y: int,
    half_width: int,
    half_height: int,
) -> bool {
    let low = spec_world_to_chunk(
        clamp_i64(camera_x - half_width),
        clamp_i64(camera_y - half_height),
    );
    let high = spec_world_to_chunk(
        clamp_i64(camera_x + half_width),
        clamp_i64(camera_y + half_height),
    );
    low.x <= pos.x <= high.x && low.y <= pos.y <= high.y
}

/// The sum of two numbers, stopping at the ends of the range.
fn add_clamped(a: i64, b: i64) -> (sum: i64)
    ensures
        sum == clamp_i64(a + b),
{
    match a.checked_add(b) {
        Some(sum) => sum,
        None => if b > 0 {
            i64::MAX
        } else {
            i64::MIN
        },
    }
}

/// The difference of two numbers, stopping at the ends of the range.
fn sub_clamped(a: i64, b: i64) -> (difference: i64)
    ensures
        difference == clamp_i64(a - b),
{
    match a.checked_sub(b) {
        Some(difference) => difference,
        None => if b > 0 {
            i64::MIN
        } else {
            i64::MAX
        },
    }
}

/// Calculate which chunks are visible in the camera viewport, given the
/// camera's position and the viewport's half width and half height in world
/// pixels: each chunk that the viewport touches, once.
pub fn calculate_visible_chunks(
    camera_x: i64,
    camera_y: i64,
    half_width: i64,
    half_height: i64,
) -> (visible: Vec<ChunkPos>)
    ensures
        visible@.no_duplicates(),
        forall|p: ChunkPos| #[trigger]
            visible@.contains(p) <==> is_visible(
                p,
                camera_x as int,
                camera_y as int,
                half_width as int,
                half_height as int,
            ),
{
    let min_chunk = world_to_chunk(
        sub_clamped(camera_x, half_width),
        sub_clamped(camera_y, half_height),
    );
    let max_chunk = world_to_chunk(
        add_clamped(camera_x, half_width),
        add_clamped(camera_y, half_height),
    );
    let mut visible: Vec<ChunkPos> = Vec::new();
    if min_chunk.x > max_chunk.x || min_chunk.y > max_chunk.y {
        return visible;
    }
    let min_x: i64 = min_chunk.x as i64;
    let max_x: i64 = max_chunk.x as i64;
    let min_y: i64 = min_chunk.y as i64;
    let max_y: i64 = max_chunk.y as i64;
    let mut x: i64 = min_x;
    while x <= max_x
        invariant
            i32::MIN <= min_x <= max_x <= i32::MAX,
            i32::MIN <= min_y <= max_y <= i32::MAX,
            min_x <= x <= max_x + 1,
            visible@.no_duplicates(),
            forall|p: ChunkPos| #[trigger]
                visible@.contains(p) <==> min_x <= p.x < x && min_y <= p.y <= max_y,
        decreases max_x + 1 - x,
    {
        let mut y: i64 = min_y;
        while y <= max_y
            invariant
                i32::MIN <= min_x <= max_x <= i32::MAX,
                i32::MIN <= min_y <= max_y <= i32::MAX,
                min_x <= x <= max_x,
                min_y <= y <= max_y + 1,
                visible@.no_duplicates(),
                forall|p: ChunkPos| #[trigger]
                    visible@.contains(p) <==> (min_x <= p.x < x && min_y <= p.y <= max_y) || (p.x
                        == x && min_y <= p.y < y),
            decreases max_y + 1 - y,
        {
            let pos = ChunkPos { x: x as i32, y: y as i32 };
            proof {
                lemma_push_contains(visible@, pos);
            }
            visible.push(pos);
            y += 1;
        }
        x += 1;
    }
    visible
}

/// What the chunk grid shows for one chunk.
#[derive(Debug, Clone, Copy, PartialEq, Eq, Structural)]
pub enum GridCell {
    /// The chunk that holds the camera.
    Camera,
    /// A visible chunk that is loaded.
    VisibleLoaded,
    /// A visible chunk that is not loaded.
    Visible,
    /// A loaded chunk within the load radius.
    Loaded,
    /// A loaded chunk outside the load radius: about to be unloaded.
    Leaving,
    /// A chunk within the load radius that is not loaded yet.
    Loading,
    /// A chunk that is not loaded.
    Unloaded,
}

/// What the chunk grid shows for a chunk: the first that holds of camera,
/// visible and loaded, visible, loaded within the load radius, loaded,
/// within the load radius.
pub open spec fn spec_grid_cell(
    state: WorldState,
    camera_chunk: ChunkPos,
    pos: ChunkPos,
    visible: bool,
    load_radius: int,
) -> GridCell {
    let loaded = state.active.contains_key(pos);
    let in_range = in_load_range(camera_chunk, pos, load_radius);
    if pos == camera_chunk {
        GridCell::Camera
    } else if visible && loaded {
        GridCell::VisibleLoaded
    } else if visible {
        GridCell::Visible
    } else if loaded && in_range {
        GridCell::Loaded
    } else if loaded {
        GridCell::Leaving
    } else if in_range {
        GridCell::Loading
    } else {
        GridCell::Unloaded
    }
}

/// What the chunk grid shows for a chunk.
pub fn grid_cell(
    world: &WorldManager,
    camera_chunk: ChunkPos,
    pos: ChunkPos,
    visible: bool,
    load_radius: i32,
) -> (cell: GridCell)
    ensures
        cell == spec_grid_cell(world@, camera_chunk, pos, visible, load_radius as int),
{
    let is_loaded = world.is_loaded(&pos);
    let is_camera = pos.x == camera_chunk.x && pos.y == camera_chunk.y;
    let is_in_load_radius = camera_chunk.chebyshev_distance_wide(&pos) <= load_radius as i64;
    if is_camera {
        GridCell::Camera
    } else if visible && is_loaded {
        GridCell::VisibleLoaded
    } else if visible {
        GridCell::Visible
    } else if is_loaded && is_in_load_radius {
        GridCell::Loaded
    } else if is_loaded {
        GridCell::Leaving
    } else if is_in_load_radius {
        GridCell::Loading
    } else {
        GridCell::Unloaded
    }
}

} // verus!
