use tileworld::tiles::{ChunkData, ChunkPos, LAYER_GROUND, TILE_GRASS};
use tileworld::world::manager::{key_of, pos_of};
use tileworld::world::{WorldManager, WorldStats};

#[test]
fn new_world_is_empty() {
    let world = WorldManager::new(String::from("saves/test"));
    let stats = world.stats();
    assert_eq!(stats.loaded_chunks, 0);
    assert_eq!(stats.dirty_chunks, 0);
    assert_eq!(stats.cached_chunks, 0);
    assert_eq!(stats.camera_chunk, None);
    assert_eq!(world.camera_chunk(), None);
    assert!(world.get_dirty_chunks().is_empty());
    assert!(world.get_loaded_chunks().is_empty());
}

#[test]
fn register_and_unregister_chunk() {
    let mut world = WorldManager::default();
    let pos = ChunkPos::new(-2, 3);
    assert!(!world.is_loaded(&pos));
    assert_eq!(world.get_chunk_entities(&pos), None);
    assert_eq!(world.get_chunk_layer_entity(&pos, 1), None);

    world.register_chunk(pos, [10, 11, 12]);
    assert!(world.is_loaded(&pos));
    assert!(!world.is_loaded(&ChunkPos::new(3, -2)));
    assert_eq!(world.get_chunk_entities(&pos), Some(&[10, 11, 12]));
    assert_eq!(world.get_chunk_layer_entity(&pos, 0), Some(10));
    assert_eq!(world.get_chunk_layer_entity(&pos, 2), Some(12));
    assert_eq!(world.get_loaded_chunks(), vec![pos]);
    assert_eq!(world.stats().loaded_chunks, 1);

    world.register_chunk(pos, [20, 21, 22]);
    assert_eq!(world.stats().loaded_chunks, 1);
    assert_eq!(world.unregister_chunk(&pos), Some([20, 21, 22]));
    assert_eq!(world.unregister_chunk(&pos), None);
    assert!(!world.is_loaded(&pos));
}

#[test]
fn dirty_flags() {
    let mut world = WorldManager::default();
    let a = ChunkPos::new(1, 1);
    let b = ChunkPos::new(i32::MIN, i32::MAX);
    world.mark_dirty(a);
    world.mark_dirty(b);
    world.mark_dirty(a);
    assert!(world.is_dirty(&a));
    assert!(world.is_dirty(&b));
    assert!(!world.is_dirty(&ChunkPos::new(1, 2)));
    let mut dirty = world.get_dirty_chunks();
    dirty.sort_by_key(|p| (p.x, p.y));
    assert_eq!(dirty, vec![b, a]);
    assert_eq!(world.stats().dirty_chunks, 2);
    world.clear_dirty(&a);
    assert!(!world.is_dirty(&a));
    assert_eq!(world.get_dirty_chunks(), vec![b]);
}

#[test]
fn cache_holds_chunks_by_their_position() {
    let mut world = WorldManager::default();
    let pos = ChunkPos::new(7, -7);
    assert!(world.get_cached_chunk(&pos).is_none());
    world.cache_chunk(ChunkData::filled(pos, TILE_GRASS));
    assert_eq!(world.stats().cached_chunks, 1);
    let cached = world.get_cached_chunk(&pos).unwrap();
    assert_eq!(cached.position, pos);
    assert_eq!(cached.get_tile(LAYER_GROUND, 0, 0), Some(TILE_GRASS));
    assert!(world.get_cached_chunk(&ChunkPos::new(-7, 7)).is_none());

    assert!(world.set_cached_tile(&pos, 1, 2, 3, 9));
    assert_eq!(world.get_cached_chunk(&pos).unwrap().get_tile(1, 2, 3), Some(9));
    assert!(!world.set_cached_tile(&pos, 3, 2, 3, 9));
    assert!(!world.set_cached_tile(&ChunkPos::new(0, 0), 1, 2, 3, 9));
    assert_eq!(world.stats().cached_chunks, 1);

    let removed = world.uncache_chunk(&pos).unwrap();
    assert_eq!(removed.get_tile(1, 2, 3), Some(9));
    assert!(world.uncache_chunk(&pos).is_none());
    assert_eq!(world.stats().cached_chunks, 0);
}

#[test]
fn camera_position() {
    let mut world = WorldManager::default();
    world.update_camera_position(ChunkPos::new(4, 5));
    assert_eq!(world.camera_chunk(), Some(ChunkPos::new(4, 5)));
    assert_eq!(world.stats().camera_chunk, Some(ChunkPos::new(4, 5)));
}

#[test]
fn tile_modifications_come_out_in_order_and_once() {
    let mut world = WorldManager::default();
    world.queue_tile_modification(1, 2, 3, 0);
    world.queue_tile_modification(-4, -5, 6, 2);
    let taken = world.take_tile_modifications();
    assert_eq!(taken.len(), 2);
    assert_eq!((taken[0].world_x, taken[0].world_y, taken[0].tile_id, taken[0].layer), (1, 2, 3, 0));
    assert_eq!((taken[1].world_x, taken[1].world_y, taken[1].tile_id, taken[1].layer), (-4, -5, 6, 2));
    assert!(world.take_tile_modifications().is_empty());
}

#[test]
fn chunk_paths() {
    let world = WorldManager::new(String::from("saves/world"));
    assert_eq!(world.get_chunk_path(&ChunkPos::new(0, 0)), "saves/world/chunks/chunk_0_0.bin");
    assert_eq!(
        world.get_chunk_path(&ChunkPos::new(-12, 340)),
        "saves/world/chunks/chunk_-12_340.bin"
    );
    assert_eq!(
        world.get_chunk_path(&ChunkPos::new(i32::MIN, i32::MAX)),
        "saves/world/chunks/chunk_-2147483648_2147483647.bin"
    );
    assert_eq!(
        WorldManager::default().get_chunk_path(&ChunkPos::new(1, -1)),
        "saves/world/chunks/chunk_1_-1.bin"
    );
    assert_eq!(
        WorldManager::new(String::new()).get_chunk_path(&ChunkPos::new(9, 10)),
        "chunks/chunk_9_10.bin"
    );
    assert_eq!(
        WorldManager::new(String::from("saves/")).get_chunk_path(&ChunkPos::new(9, 10)),
        "saves/chunks/chunk_9_10.bin"
    );
    assert_eq!(
        WorldManager::new(String::from("/")).get_chunk_path(&ChunkPos::new(0, -1)),
        "/chunks/chunk_0_-1.bin"
    );
    let path = WorldManager::new(String::from("saves/world")).get_chunk_path(&ChunkPos::new(3, 4));
    assert_eq!(
        std::path::PathBuf::from(path),
        std::path::PathBuf::from("saves/world").join("chunks").join("chunk_3_4.bin")
    );
}

#[test]
fn stats_summary() {
    let stats = WorldStats {
        loaded_chunks: 49,
        dirty_chunks: 0,
        cached_chunks: 121,
        camera_chunk: Some(ChunkPos::new(-1, 20)),
    };
    assert_eq!(stats.summary(), format!(
        "Loaded: {}, Dirty: {}, Cached: {}, Camera: {:?}",
        stats.loaded_chunks, stats.dirty_chunks, stats.cached_chunks, stats.camera_chunk
    ));
    assert_eq!(stats.summary(), "Loaded: 49, Dirty: 0, Cached: 121, Camera: Some(ChunkPos { x: -1, y: 20 })");
    let none = WorldStats { loaded_chunks: 1, dirty_chunks: 2, cached_chunks: 3, camera_chunk: None };
    assert_eq!(none.summary(), "Loaded: 1, Dirty: 2, Cached: 3, Camera: None");
}

#[test]
fn keys_and_positions_correspond() {
    for &(x, y) in [(0, 0), (-1, -1), (i32::MIN, i32::MAX), (i32::MAX, i32::MIN), (5, -9)].iter() {
        let pos = ChunkPos::new(x, y);
        assert_eq!(pos_of(key_of(&pos)), pos);
    }
    assert_eq!(key_of(&ChunkPos::new(i32::MIN, i32::MIN)), 0);
    assert_eq!(key_of(&ChunkPos::new(i32::MAX, i32::MAX)), u64::MAX);
    assert_eq!(key_of(&ChunkPos::new(0, 0)), 0x8000_0000_8000_0000);
    assert_ne!(key_of(&ChunkPos::new(1, 2)), key_of(&ChunkPos::new(2, 1)));
}
