use tileworld::tiles::chunk::tile_to_tileset_index;
use tileworld::tiles::coords::{tile_to_chunk, world_to_chunk, world_to_local_tile};
use tileworld::tiles::types::{abs_diff_i64, floor_div, floor_mod, saturate_i32};
use tileworld::tiles::{
    Chunk, ChunkData, ChunkPos, TileRegistry, CHUNK_AREA, CHUNK_PIXEL_SIZE, CHUNK_SIZE,
    LAYER_DECORATION, LAYER_GROUND, LAYER_OVERLAY, NUM_LAYERS, TILE_DIRT, TILE_EMPTY, TILE_GRASS,
};

#[test]
fn test_chunk_data_get_set() {
    let mut chunk = ChunkData::empty(ChunkPos::new(0, 0));

    // Set and get tile on ground layer
    assert!(chunk.set_tile(LAYER_GROUND, 5, 10, TILE_GRASS));
    assert_eq!(chunk.get_tile(LAYER_GROUND, 5, 10), Some(TILE_GRASS));

    // Set tile on decoration layer
    assert!(chunk.set_tile(LAYER_DECORATION, 5, 10, TILE_DIRT));
    assert_eq!(chunk.get_tile(LAYER_DECORATION, 5, 10), Some(TILE_DIRT));

    // Ground layer should still be grass
    assert_eq!(chunk.get_tile(LAYER_GROUND, 5, 10), Some(TILE_GRASS));

    // Out of bounds - invalid coordinates
    assert!(!chunk.set_tile(LAYER_GROUND, 32, 0, TILE_DIRT));
    assert_eq!(chunk.get_tile(LAYER_GROUND, 32, 0), None);

    // Out of bounds - invalid layer
    assert!(!chunk.set_tile(NUM_LAYERS, 5, 10, TILE_DIRT));
    assert_eq!(chunk.get_tile(NUM_LAYERS, 5, 10), None);
}

#[test]
fn test_world_to_local_tile() {
    // Position in first chunk, middle tile
    let (x, y) = world_to_local_tile(128, 128);
    assert_eq!((x, y), (16, 16)); // 128 / 8 = 16

    // Position in negative chunk
    let (x, y) = world_to_local_tile(-8, -8);
    assert_eq!((x, y), (31, 31)); // Wraps to last tile
}

#[test]
fn test_from_world() {
    let chunk_pixel_size = 256; // 32 tiles * 8 pixels

    // Origin chunk
    let pos = ChunkPos::from_world(0, 0, chunk_pixel_size);
    assert_eq!(pos, ChunkPos::new(0, 0));

    // Positive chunks
    let pos = ChunkPos::from_world(256, 256, chunk_pixel_size);
    assert_eq!(pos, ChunkPos::new(1, 1));

    // Negative chunks
    let pos = ChunkPos::from_world(-256, -256, chunk_pixel_size);
    assert_eq!(pos, ChunkPos::new(-1, -1));
}

#[test]
fn test_chunks_in_radius() {
    let center = ChunkPos::new(0, 0);
    let chunks = center.chunks_in_radius(1);
    assert_eq!(chunks.len(), 9); // 3x3 grid

    let chunks = center.chunks_in_radius(3);
    assert_eq!(chunks.len(), 49); // 7x7 grid
}

#[test]
fn test_manhattan_distance() {
    let a = ChunkPos::new(0, 0);
    let b = ChunkPos::new(3, 4);
    assert_eq!(a.manhattan_distance(&b), 7);
}

#[test]
fn test_chebyshev_distance() {
    let a = ChunkPos::new(0, 0);

    // Diagonal - should be max of differences (4)
    let b = ChunkPos::new(3, 4);
    assert_eq!(a.chebyshev_distance(&b), 4);

    // Horizontal - should be just x difference
    let c = ChunkPos::new(5, 0);
    assert_eq!(a.chebyshev_distance(&c), 5);

    // Vertical - should be just y difference
    let d = ChunkPos::new(0, 3);
    assert_eq!(a.chebyshev_distance(&d), 3);

    // Perfect diagonal - both differences equal
    let e = ChunkPos::new(3, 3);
    assert_eq!(a.chebyshev_distance(&e), 3);
}

#[test]
fn from_world_floors_negative_pixels() {
    assert_eq!(ChunkPos::from_world(-1, -1, 256), ChunkPos::new(-1, -1));
    assert_eq!(ChunkPos::from_world(255, -257, 256), ChunkPos::new(0, -2));
    assert_eq!(ChunkPos::from_world(-512, 511, 256), ChunkPos::new(-2, 1));
}

#[test]
fn from_world_stops_at_the_ends_of_the_range() {
    assert_eq!(ChunkPos::from_world(i64::MAX, i64::MIN, 256).x, i32::MAX);
    assert_eq!(ChunkPos::from_world(i64::MAX, i64::MIN, 256).y, i32::MIN);
}

#[test]
fn from_tile_floors_negative_tiles() {
    assert_eq!(ChunkPos::from_tile(-1, -1, 32), ChunkPos::new(-1, -1));
    assert_eq!(ChunkPos::from_tile(0, 31, 32), ChunkPos::new(0, 0));
    assert_eq!(ChunkPos::from_tile(32, -33, 32), ChunkPos::new(1, -2));
    assert_eq!(ChunkPos::from_tile(i32::MIN, i32::MAX, 32), ChunkPos::new(-67108864, 67108863));
    assert_eq!(tile_to_chunk(-32, 64), ChunkPos::new(-1, 2));
}

#[test]
fn to_world_gives_the_corner() {
    assert_eq!(ChunkPos::new(2, -3).to_world(CHUNK_PIXEL_SIZE), (512, -768));
    assert_eq!(
        ChunkPos::new(i32::MAX, i32::MIN).to_world(i32::MAX),
        (4611686014132420609, -4611686016279904256)
    );
}

#[test]
fn pixel_to_chunk_and_back_stays_in_the_chunk() {
    for &(x, y) in [(0i64, 0i64), (-1, -1), (255, 256), (-300, 700), (123456, -654321)].iter() {
        let chunk = world_to_chunk(x, y);
        let (corner_x, corner_y) = chunk.to_world(CHUNK_PIXEL_SIZE);
        assert_eq!(world_to_chunk(corner_x, corner_y), chunk);
        assert!(corner_x <= x && x < corner_x + 256);
        assert!(corner_y <= y && y < corner_y + 256);
    }
}

#[test]
fn every_cell_of_a_chunk_leads_back_to_it() {
    let chunk = ChunkPos::new(-3, 7);
    for local in [0i32, 1, 15, 31].iter() {
        let tile_x = chunk.x * 32 + local;
        let tile_y = chunk.y * 32 + local;
        assert_eq!(tile_to_chunk(tile_x, tile_y), chunk);
        let pixel_x = tile_x as i64 * 8;
        let pixel_y = tile_y as i64 * 8 + 7;
        assert_eq!(world_to_chunk(pixel_x, pixel_y), chunk);
        assert_eq!(world_to_local_tile(pixel_x, pixel_y), (*local as usize, *local as usize));
    }
}

#[test]
fn chunks_in_radius_is_the_square_around_the_centre() {
    let center = ChunkPos::new(10, -20);
    for radius in 0..5 {
        let chunks = center.chunks_in_radius(radius);
        assert_eq!(chunks.len() as i32, (2 * radius + 1) * (2 * radius + 1));
        for (i, a) in chunks.iter().enumerate() {
            assert!(center.chebyshev_distance(a) <= radius);
            for b in chunks.iter().skip(i + 1) {
                assert_ne!(a, b);
            }
        }
    }
    let square = center.chunks_in_radius(1);
    assert_eq!(square[0], ChunkPos::new(9, -21));
    assert_eq!(square[1], ChunkPos::new(10, -21));
    assert_eq!(square[3], ChunkPos::new(9, -20));
    assert_eq!(square[8], ChunkPos::new(11, -19));
    assert!(square.contains(&center));
}

#[test]
fn chunks_in_negative_radius_is_empty() {
    assert_eq!(ChunkPos::new(0, 0).chunks_in_radius(-1).len(), 0);
}

#[test]
fn chebyshev_distance_wide_holds_the_largest_distance() {
    let a = ChunkPos::new(i32::MIN, 0);
    let b = ChunkPos::new(i32::MAX, 0);
    assert_eq!(a.chebyshev_distance_wide(&b), 4294967295);
    assert_eq!(ChunkPos::new(-2, 5).manhattan_distance(&ChunkPos::new(1, 1)), 7);
}

#[test]
fn chunk_pos_from_pair() {
    assert_eq!(ChunkPos::from((3, -4)), ChunkPos::new(3, -4));
}

#[test]
fn filled_and_empty_chunks() {
    let pos = ChunkPos::new(1, 2);
    let chunk = ChunkData::filled(pos, 7);
    assert_eq!(chunk.position, pos);
    for layer in 0..NUM_LAYERS {
        assert_eq!(chunk.get_tile(layer, 0, 0), Some(7));
        assert_eq!(chunk.get_tile(layer, 31, 31), Some(7));
        assert_eq!(chunk.layers[layer].len(), CHUNK_AREA);
    }
    let empty = ChunkData::empty(pos);
    for layer in 0..NUM_LAYERS {
        assert!(empty.layers[layer].iter().all(|&t| t == TILE_EMPTY));
    }
    let layered = ChunkData::filled_layers(pos, [1, 2, 3]);
    assert_eq!(layered.get_tile(LAYER_GROUND, 4, 4), Some(1));
    assert_eq!(layered.get_tile(LAYER_DECORATION, 4, 4), Some(2));
    assert_eq!(layered.get_tile(LAYER_OVERLAY, 4, 4), Some(3));
}

#[test]
fn set_tile_changes_exactly_one_cell() {
    let mut chunk = ChunkData::empty(ChunkPos::new(0, 0));
    assert!(chunk.set_tile(LAYER_GROUND, 5, 10, 2));
    assert_eq!(chunk.get_tile(LAYER_GROUND, 5, 10), Some(2));
    assert_eq!(chunk.layers[LAYER_GROUND][10 * CHUNK_SIZE + 5], 2);
    let changed: usize = chunk.layers.iter().map(|l| l.iter().filter(|&&t| t != 0).count()).sum();
    assert_eq!(changed, 1);

    let before = chunk.clone();
    assert_eq!(chunk.get_tile(NUM_LAYERS, 5, 10), None);
    assert!(!chunk.set_tile(NUM_LAYERS, 5, 10, 9));
    assert!(!chunk.set_tile(LAYER_GROUND, 5, 32, 9));
    assert_eq!(chunk.layers, before.layers);
    assert_eq!(chunk.position, before.position);
}

#[test]
fn tilemap_data_shifts_identifiers_by_one() {
    let mut chunk = ChunkData::empty(ChunkPos::new(0, 0));
    chunk.set_tile(LAYER_DECORATION, 1, 0, 5);
    let data = chunk.layer_to_tilemap_data(LAYER_DECORATION);
    assert_eq!(data.len(), CHUNK_AREA);
    assert_eq!(data[0], None);
    assert_eq!(data[1], Some(4));
    assert!(chunk.layer_to_tilemap_data(NUM_LAYERS).iter().all(|d| d.is_none()));
    assert_eq!(chunk.to_tilemap_data(), chunk.layer_to_tilemap_data(LAYER_GROUND));

    let back = ChunkData::from_tilemap_data_single_layer(chunk.position, LAYER_DECORATION, &data)
        .unwrap();
    assert_eq!(back.layers, chunk.layers);
    assert!(ChunkData::from_tilemap_data_single_layer(chunk.position, NUM_LAYERS, &data).is_none());
    assert!(ChunkData::from_tilemap_data_single_layer(chunk.position, 0, &data[1..]).is_none());
    let ground = ChunkData::from_tilemap_data(chunk.position, &data).unwrap();
    assert_eq!(ground.get_tile(LAYER_GROUND, 1, 0), Some(5));
    assert_eq!(ground.get_tile(LAYER_DECORATION, 1, 0), Some(0));
}

#[test]
fn chunk_tags_and_registry() {
    let pos = ChunkPos::new(4, 5);
    assert_eq!(Chunk::new(pos).layer, LAYER_GROUND);
    assert_eq!(Chunk::new(pos).position, pos);
    assert_eq!(Chunk::with_layer(pos, 2).layer, 2);
    assert!(TileRegistry::new().is_valid_tile(0));
    assert!(TileRegistry::default().is_valid_tile(65535));
}

#[test]
fn floor_division_rounds_down() {
    assert_eq!(floor_div(7, 2), 3);
    assert_eq!(floor_div(-7, 2), -4);
    assert_eq!(floor_div(-8, 2), -4);
    assert_eq!(floor_div(-1, 256), -1);
    assert_eq!(floor_div(i64::MIN, 1), i64::MIN);
    assert_eq!(floor_div(i64::MIN, i64::MAX), -2);
    assert_eq!(floor_mod(7, 2), 1);
    assert_eq!(floor_mod(-7, 2), 1);
    assert_eq!(floor_mod(-8, 2), 0);
    assert_eq!(floor_mod(-1, 32), 31);
    assert_eq!(floor_mod(i64::MIN, i64::MAX), i64::MAX - 1);
    for x in -70i64..70 {
        for d in 1i64..9 {
            assert_eq!(floor_div(x, d), x.div_euclid(d));
            assert_eq!(floor_mod(x, d), x.rem_euclid(d));
        }
    }
}

#[test]
fn narrowing_stops_at_the_ends() {
    assert_eq!(saturate_i32(5), 5);
    assert_eq!(saturate_i32(-2147483648), i32::MIN);
    assert_eq!(saturate_i32(-2147483649), i32::MIN);
    assert_eq!(saturate_i32(2147483647), i32::MAX);
    assert_eq!(saturate_i32(2147483648), i32::MAX);
    assert_eq!(abs_diff_i64(i32::MIN, i32::MAX), 4294967295);
    assert_eq!(abs_diff_i64(3, -4), 7);
}

#[test]
fn tileset_index_of_a_tile() {
    assert_eq!(tile_to_tileset_index(TILE_EMPTY), None);
    assert_eq!(tile_to_tileset_index(TILE_GRASS), Some(0));
    assert_eq!(tile_to_tileset_index(TILE_DIRT), Some(1));
    assert_eq!(tile_to_tileset_index(65535), Some(65534));
}
