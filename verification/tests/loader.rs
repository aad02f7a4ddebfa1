use tileworld::tiles::{Chunk, ChunkData, ChunkPos, LAYER_GROUND, TILE_DIRT, TILE_GRASS};
use tileworld::world::generate_chunk;
use tileworld::world::loader::{
    apply_tile_modifications, autosave_dirty_chunks, calculate_load_radius,
    calculate_unload_radius, calculate_visible_chunks, chunks_to_load, finish_chunk_load,
    grid_cell, mark_modified_chunks, obtain_chunk_data, unload_distant_chunks,
    update_camera_chunk, ChunkSource, GridCell,
};
use tileworld::world::serialization::{load_chunk, save_chunk, SerializationError};
use tileworld::world::WorldManager;

/// Runs the load step with no records on disk; handles are numbered from
/// `first_handle` on.
fn load_all(world: &mut WorldManager, load_radius: i32, first_handle: u64) -> usize {
    let plan = chunks_to_load(world, load_radius);
    let mut handle = first_handle;
    for pos in plan.iter() {
        let (data, _) = obtain_chunk_data(world, *pos, None);
        finish_chunk_load(world, data, [handle, handle + 1, handle + 2]);
        handle += 3;
    }
    plan.len()
}

#[test]
fn camera_chunk_is_tracked() {
    let mut world = WorldManager::default();
    assert!(update_camera_chunk(&mut world, 10, 10));
    assert_eq!(world.camera_chunk(), Some(ChunkPos::new(0, 0)));
    assert!(!update_camera_chunk(&mut world, 255, 0));
    assert!(update_camera_chunk(&mut world, 256, -1));
    assert_eq!(world.camera_chunk(), Some(ChunkPos::new(1, -1)));
}

#[test]
fn load_radius_follows_the_viewport() {
    assert_eq!(calculate_load_radius(None), 3);
    // Less than one chunk visible to each side: 1 + 2.
    assert_eq!(calculate_load_radius(Some((100, 50))), 3);
    assert_eq!(calculate_load_radius(Some((256, 256))), 3);
    // 400 pixels reach into 2 chunks: 2 + 2.
    assert_eq!(calculate_load_radius(Some((400, 300))), 4);
    assert_eq!(calculate_load_radius(Some((300, 1025))), 7);
    assert_eq!(calculate_load_radius(Some((0, 0))), 3);
    assert_eq!(calculate_load_radius(Some((-500, -500))), 3);
    assert_eq!(calculate_load_radius(Some((i64::MAX, 0))), i32::MAX);
    assert_eq!(calculate_unload_radius(3), 5);
    assert_eq!(calculate_unload_radius(7), 9);
}

#[test]
fn nothing_loads_before_the_viewpoint_is_known() {
    let mut world = WorldManager::default();
    assert!(chunks_to_load(&world, 3).is_empty());
    assert!(unload_distant_chunks(&mut world, 3).is_empty());
}

#[test]
fn radius_3_loads_49_chunks_and_a_step_unloads_none() {
    let mut world = WorldManager::default();
    assert!(update_camera_chunk(&mut world, 0, 0));
    assert_eq!(load_all(&mut world, 3, 0), 49);
    assert_eq!(world.stats().loaded_chunks, 49);
    assert_eq!(world.stats().cached_chunks, 49);
    assert!(world.is_loaded(&ChunkPos::new(-3, 3)));
    assert!(!world.is_loaded(&ChunkPos::new(4, 0)));
    assert!(unload_distant_chunks(&mut world, 3).is_empty());
    assert!(chunks_to_load(&world, 3).is_empty());

    // The viewpoint moves one chunk to the right.
    assert!(update_camera_chunk(&mut world, 256, 0));
    assert_eq!(calculate_unload_radius(3), 5);
    assert!(unload_distant_chunks(&mut world, 3).is_empty());
    assert_eq!(world.stats().loaded_chunks, 49);
    let mut plan = chunks_to_load(&world, 3);
    plan.sort_by_key(|p| p.y);
    assert_eq!(plan, (-3..=3).map(|y| ChunkPos::new(4, y)).collect::<Vec<_>>());
    assert_eq!(load_all(&mut world, 3, 1000), 7);
    assert_eq!(world.stats().loaded_chunks, 56);
}

#[test]
fn chunks_beyond_the_unload_radius_are_unloaded() {
    let mut world = WorldManager::default();
    update_camera_chunk(&mut world, 0, 0);
    load_all(&mut world, 3, 0);
    let handles = *world.get_chunk_entities(&ChunkPos::new(-3, 0)).unwrap();
    world.queue_tile_modification(-3 * 256 + 8, 16, TILE_DIRT, LAYER_GROUND);
    assert_eq!(apply_tile_modifications(&mut world).len(), 1);
    assert!(world.is_dirty(&ChunkPos::new(-3, 0)));

    // Three chunks to the right: the column at x = -3 is now 6 away.
    update_camera_chunk(&mut world, 3 * 256, 0);
    let mut unloaded = unload_distant_chunks(&mut world, 3);
    unloaded.sort_by_key(|u| u.position.y);
    assert_eq!(
        unloaded.iter().map(|u| u.position).collect::<Vec<_>>(),
        (-3..=3).map(|y| ChunkPos::new(-3, y)).collect::<Vec<_>>()
    );
    for u in unloaded.iter() {
        assert!(!world.is_loaded(&u.position));
        assert!(world.get_cached_chunk(&u.position).is_none());
        assert!(!world.is_dirty(&u.position));
        assert_eq!(u.record.is_some(), u.position == ChunkPos::new(-3, 0));
    }
    assert_eq!(unloaded[3].entities, handles);
    let written = load_chunk(unloaded[3].record.as_ref().unwrap()).unwrap();
    assert_eq!(written.position, ChunkPos::new(-3, 0));
    assert_eq!(written.get_tile(LAYER_GROUND, 1, 2), Some(TILE_DIRT));
    assert_eq!(world.stats().loaded_chunks, 42);
    assert_eq!(world.stats().cached_chunks, 42);
    assert_eq!(world.stats().dirty_chunks, 0);
    assert!(world.is_loaded(&ChunkPos::new(-2, 3)));
}

#[test]
fn content_comes_from_cache_then_record_then_generator() {
    let mut world = WorldManager::default();
    let pos = ChunkPos::new(2, 2);
    let saved = ChunkData::filled(pos, 9);
    let record = save_chunk(&saved);

    let (data, source) = obtain_chunk_data(&world, pos, None);
    assert_eq!(source, ChunkSource::Generated);
    assert_eq!(data.layers, generate_chunk(pos).layers);

    let (data, source) = obtain_chunk_data(&world, pos, Some(&record));
    assert_eq!(source, ChunkSource::Disk);
    assert_eq!(data.layers, saved.layers);
    assert_eq!(data.position, pos);

    let mut corrupt = record.clone();
    corrupt[100] ^= 1;
    let (data, source) = obtain_chunk_data(&world, pos, Some(&corrupt));
    assert_eq!(source, ChunkSource::Unreadable(SerializationError::InvalidChecksum));
    assert_eq!(data.layers, generate_chunk(pos).layers);
    assert_eq!(data.position, pos);

    // A record that names another position is taken, under the position
    // asked for.
    let elsewhere = save_chunk(&ChunkData::filled(ChunkPos::new(5, 5), 9));
    let (data, source) = obtain_chunk_data(&world, pos, Some(&elsewhere));
    assert_eq!(source, ChunkSource::Misplaced(ChunkPos::new(5, 5)));
    assert_eq!(data.layers, saved.layers);
    assert_eq!(data.get_tile(LAYER_GROUND, 0, 0), Some(9));
    assert_eq!(data.position, pos);

    world.cache_chunk(ChunkData::filled(pos, 4));
    let (data, source) = obtain_chunk_data(&world, pos, Some(&record));
    assert_eq!(source, ChunkSource::Cache);
    assert_eq!(data.get_tile(0, 0, 0), Some(4));
}

#[test]
fn finishing_a_load_keeps_what_the_cache_holds() {
    let mut world = WorldManager::default();
    let pos = ChunkPos::new(1, 1);
    world.cache_chunk(ChunkData::filled(pos, 4));
    finish_chunk_load(&mut world, ChunkData::filled(pos, 5), [1, 2, 3]);
    assert!(world.is_loaded(&pos));
    assert_eq!(world.get_cached_chunk(&pos).unwrap().get_tile(0, 0, 0), Some(4));

    let other = ChunkPos::new(2, 1);
    finish_chunk_load(&mut world, ChunkData::filled(other, 5), [4, 5, 6]);
    assert_eq!(world.get_chunk_entities(&other), Some(&[4, 5, 6]));
    assert_eq!(world.get_cached_chunk(&other).unwrap().get_tile(0, 0, 0), Some(5));
}

#[test]
fn edit_of_an_active_chunk_marks_it_dirty() {
    let mut world = WorldManager::default();
    update_camera_chunk(&mut world, 2 * 256, 2 * 256);
    load_all(&mut world, 3, 0);
    let pos = ChunkPos::new(2, 2);
    let handles = *world.get_chunk_entities(&pos).unwrap();
    assert!(!world.is_dirty(&pos));

    // Cell (5, 10) of chunk (2, 2), on the decoration layer.
    world.queue_tile_modification(2 * 256 + 5 * 8 + 3, 2 * 256 + 10 * 8, 77, 1);
    let updates = apply_tile_modifications(&mut world);
    assert_eq!(updates.len(), 1);
    assert_eq!(updates[0].entity, handles[1]);
    assert_eq!(updates[0].index, 10 * 32 + 5);
    assert_eq!(updates[0].tile_id, 77);
    assert!(world.is_dirty(&pos));
    assert_eq!(world.get_cached_chunk(&pos).unwrap().get_tile(1, 5, 10), Some(77));
    assert_eq!(world.get_dirty_chunks(), vec![pos]);
    assert!(world.take_tile_modifications().is_empty());
    assert!(apply_tile_modifications(&mut world).is_empty());
}

#[test]
fn edit_of_an_evicted_chunk_is_dropped() {
    let mut world = WorldManager::default();
    update_camera_chunk(&mut world, 2 * 256, 2 * 256);
    load_all(&mut world, 3, 0);
    let pos = ChunkPos::new(2, 2);
    world.queue_tile_modification(2 * 256 + 8, 2 * 256 + 8, TILE_GRASS, LAYER_GROUND);
    apply_tile_modifications(&mut world);

    // In one tick: the viewpoint jumps away, the chunk is evicted, and only
    // then the edit step runs.
    world.queue_tile_modification(2 * 256 + 16, 2 * 256 + 16, 500, LAYER_GROUND);
    update_camera_chunk(&mut world, 100 * 256, 100 * 256);
    let unloaded = unload_distant_chunks(&mut world, 3);
    assert_eq!(unloaded.len(), 49);
    let evicted = unloaded.iter().find(|u| u.position == pos).unwrap();
    let record = evicted.record.clone().unwrap();
    let updates = apply_tile_modifications(&mut world);
    assert!(updates.is_empty());
    assert!(!world.is_dirty(&pos));
    assert!(world.get_cached_chunk(&pos).is_none());
    assert!(world.get_dirty_chunks().is_empty());

    let written = load_chunk(&record).unwrap();
    assert_eq!(written.get_tile(LAYER_GROUND, 1, 1), Some(TILE_GRASS));
    assert_eq!(written.get_tile(LAYER_GROUND, 2, 2), generate_chunk(pos).get_tile(0, 2, 2));
}

#[test]
fn edits_apply_in_order_and_bad_layers_are_dropped() {
    let mut world = WorldManager::default();
    let pos = ChunkPos::new(-1, -1);
    world.cache_chunk(ChunkData::empty(pos));
    world.queue_tile_modification(-1, -1, 5, 0);
    world.queue_tile_modification(-1, -1, 6, 0);
    world.queue_tile_modification(-8, -8, 7, 3);
    let updates = apply_tile_modifications(&mut world);
    // Cached but not active: nothing to draw.
    assert!(updates.is_empty());
    assert_eq!(world.get_cached_chunk(&pos).unwrap().get_tile(0, 31, 31), Some(6));
    assert!(world.is_dirty(&pos));

    let mut clean = WorldManager::default();
    clean.cache_chunk(ChunkData::empty(pos));
    clean.queue_tile_modification(-8, -8, 7, 3);
    assert!(apply_tile_modifications(&mut clean).is_empty());
    assert!(!clean.is_dirty(&pos));
}

#[test]
fn autosave_gives_the_records_of_dirty_chunks() {
    let mut world = WorldManager::default();
    let a = ChunkPos::new(0, 0);
    let b = ChunkPos::new(0, 1);
    world.cache_chunk(ChunkData::filled(a, 1));
    world.cache_chunk(ChunkData::filled(b, 2));
    world.mark_dirty(b);
    world.mark_dirty(ChunkPos::new(9, 9));
    let records = autosave_dirty_chunks(&world);
    assert_eq!(records.len(), 1);
    assert_eq!(records[0].position, b);
    assert_eq!(records[0].bytes, save_chunk(&ChunkData::filled(b, 2)));
    assert!(world.is_dirty(&b));
}

#[test]
fn modified_chunks_are_marked_dirty() {
    let mut world = WorldManager::default();
    let tags = [Chunk::new(ChunkPos::new(1, 1)), Chunk::with_layer(ChunkPos::new(2, 2), 1)];
    mark_modified_chunks(&mut world, &tags);
    assert!(world.is_dirty(&ChunkPos::new(1, 1)));
    assert!(world.is_dirty(&ChunkPos::new(2, 2)));
    assert_eq!(world.stats().dirty_chunks, 2);
}

#[test]
fn loading_near_the_edge_of_the_world_stays_in_range() {
    let mut world = WorldManager::default();
    world.update_camera_position(ChunkPos::new(i32::MAX, i32::MIN));
    let plan = chunks_to_load(&world, 1);
    assert_eq!(plan.len(), 4);
    assert!(plan.contains(&ChunkPos::new(i32::MAX - 1, i32::MIN + 1)));
}

#[test]
fn visible_chunks_are_those_the_viewport_touches() {
    // A viewport of 1280 by 720 pixels around the origin.
    let mut visible = calculate_visible_chunks(0, 0, 640, 360);
    visible.sort_by_key(|p| (p.y, p.x));
    let mut expected = Vec::new();
    for y in -2..=1 {
        for x in -3..=2 {
            expected.push(ChunkPos::new(x, y));
        }
    }
    assert_eq!(visible, expected);
    assert_eq!(calculate_visible_chunks(10, 10, 0, 0), vec![ChunkPos::new(0, 0)]);
    assert!(calculate_visible_chunks(0, 0, -300, 0).is_empty());
    assert_eq!(calculate_visible_chunks(i64::MAX, 0, 10, 0).len(), 1);
}

#[test]
fn grid_cells() {
    let mut world = WorldManager::default();
    let camera = ChunkPos::new(0, 0);
    world.register_chunk(ChunkPos::new(1, 0), [1, 2, 3]);
    world.register_chunk(ChunkPos::new(4, 0), [4, 5, 6]);
    assert_eq!(grid_cell(&world, camera, camera, true, 3), GridCell::Camera);
    assert_eq!(grid_cell(&world, camera, ChunkPos::new(1, 0), true, 3), GridCell::VisibleLoaded);
    assert_eq!(grid_cell(&world, camera, ChunkPos::new(2, 0), true, 3), GridCell::Visible);
    assert_eq!(grid_cell(&world, camera, ChunkPos::new(1, 0), false, 3), GridCell::Loaded);
    assert_eq!(grid_cell(&world, camera, ChunkPos::new(4, 0), false, 3), GridCell::Leaving);
    assert_eq!(grid_cell(&world, camera, ChunkPos::new(3, 3), false, 3), GridCell::Loading);
    assert_eq!(grid_cell(&world, camera, ChunkPos::new(3, 4), false, 3), GridCell::Unloaded);
}

#[test]
fn a_record_of_another_position_keeps_the_world_in_agreement() {
    let mut world = WorldManager::default();
    let pos = ChunkPos::new(2, 2);
    let elsewhere = save_chunk(&ChunkData::filled(ChunkPos::new(5, 5), 9));
    let (data, _) = obtain_chunk_data(&world, pos, Some(&elsewhere));
    finish_chunk_load(&mut world, data, [1, 2, 3]);
    assert!(world.is_loaded(&pos));
    assert_eq!(world.get_cached_chunk(&pos).unwrap().get_tile(0, 31, 31), Some(9));
    assert!(world.get_cached_chunk(&ChunkPos::new(5, 5)).is_none());
}
