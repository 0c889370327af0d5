use voxel_world::block::BlockType;
use voxel_world::config::{ConfigError, WorldConfig};
use voxel_world::coord::{ChunkCoord, WorldPosition};
use voxel_world::samples::{ChunkSamples, ColumnSamples};
use voxel_world::world::World;

fn level_samples(coord: ChunkCoord, config: &WorldConfig, h: i32, b: i32) -> ChunkSamples {
    let mut columns = Vec::new();
    for _ in 0..config.chunk_size * config.chunk_size {
        columns.push(ColumnSamples { height: h, biome: b, caves: vec![0; config.chunk_height] });
    }
    ChunkSamples::new(coord, config.chunk_size, config.chunk_height, columns).unwrap()
}

fn offer_all(world: &World, coords: &[ChunkCoord], h: i32) -> Vec<ChunkSamples> {
    let config = world.config();
    coords.iter().map(|c| level_samples(*c, &config, h, 0)).collect()
}

fn at_block(x: i64, y: i64, z: i64) -> WorldPosition {
    WorldPosition { x: x * 1000 + 500, y: y * 1000 + 500, z: z * 1000 + 500 }
}

#[test]
fn a_new_world_is_empty() {
    let world = World::new(12345);
    assert_eq!(world.seed(), 12345);
    assert_eq!(world.config(), WorldConfig::default());
    assert_eq!(world.render_distance(), 8);
    assert!(world.loaded_chunks().is_empty());
    assert!(!world.is_loaded(ChunkCoord::new(0, 0)));
    assert!(world.get_chunk(ChunkCoord::new(0, 0)).is_none());
    assert_eq!(world.terrain_generator().seed(), 12345);
}

#[test]
fn a_world_rejects_a_bad_configuration() {
    let good = WorldConfig::default();
    assert!(matches!(
        World::with_config(1, WorldConfig { chunk_height: 0, ..good }),
        Err(ConfigError::ChunkHeight)
    ));
    assert!(matches!(
        World::with_config(1, WorldConfig { sea_level: 32, ..good }),
        Err(ConfigError::SeaLevel)
    ));
    assert!(matches!(
        World::with_config(1, WorldConfig { sea_level: -1, ..good }),
        Err(ConfigError::SeaLevel)
    ));
    assert!(matches!(
        World::with_config(1, WorldConfig { chunk_size: 0, ..good }),
        Err(ConfigError::ChunkSize)
    ));
    assert!(matches!(
        World::with_config(1, WorldConfig { render_distance: -2, ..good }),
        Err(ConfigError::RenderDistance)
    ));
    assert!(matches!(
        World::with_config(1, WorldConfig { eviction_margin: 0, ..good }),
        Err(ConfigError::EvictionMargin)
    ));
    let world = World::with_config(5, WorldConfig { render_distance: 2, ..good }).ok().unwrap();
    assert_eq!(world.render_distance(), 2);
    assert_eq!(world.seed(), 5);
}

#[test]
fn queries_on_unloaded_chunks_give_air_and_load_nothing() {
    let world = World::new(1);
    assert_eq!(world.get_block_at(0, 0, 0), BlockType::Air);
    assert_eq!(world.get_block_at(123_456, 5_000, -98_765), BlockType::Air);
    assert!(!world.is_solid_at(0, 0, 0));
    // the fallback: five blocks above the sea level
    assert_eq!(world.get_surface_height(0, 0), 21_000);
    assert!(world.loaded_chunks().is_empty());
}

#[test]
fn missing_chunks_lists_the_square_round_the_center_in_order() {
    let world = World::new(1);
    let missing = world.missing_chunks(ChunkCoord::new(10, -10), 1);
    let expected: Vec<ChunkCoord> = vec![
        ChunkCoord::new(9, -11),
        ChunkCoord::new(9, -10),
        ChunkCoord::new(9, -9),
        ChunkCoord::new(10, -11),
        ChunkCoord::new(10, -10),
        ChunkCoord::new(10, -9),
        ChunkCoord::new(11, -11),
        ChunkCoord::new(11, -10),
        ChunkCoord::new(11, -9),
    ];
    assert_eq!(missing, expected);
    assert_eq!(world.missing_chunks(ChunkCoord::new(0, 0), 8).len(), 17 * 17);
    assert_eq!(world.missing_chunks(ChunkCoord::new(0, 0), 0), vec![ChunkCoord::new(0, 0)]);
    assert!(world.missing_chunks(ChunkCoord::new(0, 0), -1).is_empty());
}

#[test]
fn missing_chunks_stops_at_the_end_of_the_grid() {
    let world = World::new(1);
    let corner = ChunkCoord::new(i32::MAX, i32::MIN);
    let missing = world.missing_chunks(corner, 1);
    assert_eq!(
        missing,
        vec![
            ChunkCoord::new(i32::MAX - 1, i32::MIN),
            ChunkCoord::new(i32::MAX - 1, i32::MIN + 1),
            ChunkCoord::new(i32::MAX, i32::MIN),
            ChunkCoord::new(i32::MAX, i32::MIN + 1),
        ]
    );
}

#[test]
fn update_loads_every_chunk_within_the_render_distance() {
    let mut world = World::new(1);
    let observer = at_block(3, 20, -5); // in chunk (0, -1)
    let center = ChunkCoord::from_world_pos(observer.x, observer.z);
    assert_eq!(center, ChunkCoord::new(0, -1));
    let needed = world.missing_chunks(center, world.render_distance());
    let terrain = offer_all(&world, &needed, 0);
    world.update_chunks(observer, &terrain);
    assert_eq!(world.loaded_chunks().len(), 289);
    assert_eq!(world.loaded_chunks(), &needed);
    for dx in -8..=8 {
        for dz in -8..=8 {
            let c = ChunkCoord::new(center.x + dx, center.z + dz);
            assert!(world.is_loaded(c));
            let chunk = world.get_chunk(c).unwrap();
            assert_eq!(chunk.coord(), c);
            assert!(chunk.is_generated());
        }
    }
    assert!(!world.is_loaded(ChunkCoord::new(9, -1)));
    assert!(!world.is_loaded(ChunkCoord::new(0, -10)));
    assert!(world.missing_chunks(center, 8).is_empty());
}

#[test]
fn update_passes_over_samples_that_are_not_wanted() {
    let mut world = World::new(1);
    let config = world.config();
    let observer = at_block(0, 0, 0);
    let small = WorldConfig { chunk_size: 4, ..config };
    let tall = WorldConfig { chunk_height: 64, ..config };
    let terrain = vec![
        level_samples(ChunkCoord::new(9, 0), &config, 0, 0),  // too far
        level_samples(ChunkCoord::new(1, 1), &small, 0, 0),   // wrong size
        level_samples(ChunkCoord::new(2, 2), &tall, 0, 0),    // wrong height
        level_samples(ChunkCoord::new(8, -8), &config, 0, 0), // wanted
        level_samples(ChunkCoord::new(8, -8), &config, 500_000, 0), // offered before
    ];
    world.update_chunks(observer, &terrain);
    assert_eq!(world.loaded_chunks(), &vec![ChunkCoord::new(8, -8)]);
    // the first offer was taken: its surface is at 16, not at 31
    let chunk = world.get_chunk(ChunkCoord::new(8, -8)).unwrap();
    assert_eq!(chunk.top_solid_level(0, 0), Some(16));
}

#[test]
fn update_does_not_generate_a_loaded_chunk_again() {
    let mut world = World::new(1);
    let config = world.config();
    let observer = at_block(0, 0, 0);
    world.update_chunks(observer, &vec![level_samples(ChunkCoord::new(0, 0), &config, 0, 0)]);
    world.update_chunks(observer, &vec![level_samples(ChunkCoord::new(0, 0), &config, 500_000, 0)]);
    assert_eq!(world.loaded_chunks().len(), 1);
    assert_eq!(world.get_chunk(ChunkCoord::new(0, 0)).unwrap().top_solid_level(0, 0), Some(16));
}

#[test]
fn a_far_move_evicts_all_and_loads_the_new_neighbourhood() {
    let config = WorldConfig { render_distance: 2, ..WorldConfig::default() };
    let mut world = World::with_config(1, config).ok().unwrap();
    let first = at_block(0, 0, 0);
    let needed = world.missing_chunks(ChunkCoord::new(0, 0), 2);
    let terrain = offer_all(&world, &needed, 0);
    world.update_chunks(first, &terrain);
    assert_eq!(world.loaded_chunks().len(), 25);

    let far = at_block(8 * 100, 0, 8 * 100);
    let far_center = ChunkCoord::new(100, 100);
    let needed_far = world.missing_chunks(far_center, 2);
    assert_eq!(needed_far.len(), 25);
    let terrain_far = offer_all(&world, &needed_far, 0);
    world.update_chunks(far, &terrain_far);
    assert_eq!(world.loaded_chunks(), &needed_far);
    for c in needed {
        assert!(!world.is_loaded(c));
    }
    for c in needed_far {
        assert!(world.is_loaded(c));
    }
}

#[test]
fn chunks_within_the_margin_are_kept() {
    let config = WorldConfig { render_distance: 1, eviction_margin: 2, ..WorldConfig::default() };
    let mut world = World::with_config(1, config).ok().unwrap();
    let needed = world.missing_chunks(ChunkCoord::new(0, 0), 1);
    let terrain = offer_all(&world, &needed, 0);
    world.update_chunks(at_block(0, 0, 0), &terrain);
    assert_eq!(world.loaded_chunks().len(), 9);
    // two chunks east: every chunk is within distance 3 of the new center
    world.update_chunks(at_block(16, 0, 0), &Vec::new());
    assert_eq!(world.loaded_chunks().len(), 9);
    // three chunks east: the column x = -1 is at distance 4 and goes
    world.update_chunks(at_block(24, 0, 0), &Vec::new());
    assert_eq!(world.loaded_chunks().len(), 6);
    assert!(!world.is_loaded(ChunkCoord::new(-1, 0)));
    assert!(world.is_loaded(ChunkCoord::new(0, 1)));
    assert_eq!(
        world.loaded_chunks(),
        &vec![
            ChunkCoord::new(0, -1),
            ChunkCoord::new(0, 0),
            ChunkCoord::new(0, 1),
            ChunkCoord::new(1, -1),
            ChunkCoord::new(1, 0),
            ChunkCoord::new(1, 1),
        ]
    );
    // and back: nothing is dropped, nothing comes back without samples
    world.update_chunks(at_block(0, 0, 0), &Vec::new());
    assert_eq!(world.loaded_chunks().len(), 6);
}

#[test]
fn evict_beyond_keeps_the_order_of_the_rest() {
    let mut world = World::new(1);
    let config = world.config();
    let coords = [ChunkCoord::new(3, 0), ChunkCoord::new(-4, 0), ChunkCoord::new(0, 2), ChunkCoord::new(0, -5)];
    let terrain: Vec<ChunkSamples> = coords.iter().map(|c| level_samples(*c, &config, 0, 0)).collect();
    world.load_offered(ChunkCoord::new(0, 0), 5, &terrain);
    assert_eq!(world.loaded_chunks(), &coords.to_vec());
    world.evict_beyond(ChunkCoord::new(0, 0), 3);
    assert_eq!(world.loaded_chunks(), &vec![ChunkCoord::new(3, 0), ChunkCoord::new(0, 2)]);
    assert!(!world.is_loaded(ChunkCoord::new(-4, 0)));
    world.evict_beyond(ChunkCoord::new(0, 0), -1);
    assert!(world.loaded_chunks().is_empty());
    assert!(!world.is_loaded(ChunkCoord::new(3, 0)));
}

#[test]
fn reloading_an_evicted_chunk_restores_its_blocks() {
    let config = WorldConfig { render_distance: 0, ..WorldConfig::default() };
    let mut world = World::with_config(1, config).ok().unwrap();
    let home = ChunkCoord::new(0, 0);
    let varied = || {
        let mut columns = Vec::new();
        for i in 0..64 {
            columns.push(ColumnSamples {
                height: (i - 32) * 10_000,
                biome: (i % 3 - 1) * 400_000,
                caves: (0..32).map(|y| if (i + y) % 5 == 0 { 700_000 } else { 0 }).collect(),
            });
        }
        ChunkSamples::new(home, 8, 32, columns).unwrap()
    };
    let snapshot = |world: &World| {
        let mut all = Vec::new();
        for x in 0..8 {
            for y in 0..32 {
                for z in 0..8 {
                    all.push(world.get_block_at(x * 1000, y * 1000, z * 1000));
                }
            }
        }
        all
    };
    world.update_chunks(at_block(0, 0, 0), &vec![varied()]);
    let before = snapshot(&world);
    assert!(before.contains(&BlockType::Water));
    assert!(before.contains(&BlockType::Sand));
    world.update_chunks(at_block(800, 0, 800), &Vec::new());
    assert!(!world.is_loaded(home));
    assert!(snapshot(&world).iter().all(|k| *k == BlockType::Air));
    world.update_chunks(at_block(0, 0, 0), &vec![varied()]);
    assert_eq!(snapshot(&world), before);
}

#[test]
fn block_queries_find_the_cell_of_a_position() {
    let mut world = World::new(1);
    let config = world.config();
    // surface at level 20 in chunk (-1, 0), which spans blocks -8..0 in x
    let terrain = vec![level_samples(ChunkCoord::new(-1, 0), &config, 133_334, -400_000)];
    world.update_chunks(at_block(0, 0, 0), &terrain);
    assert_eq!(world.get_block_at(-1, 0, 0), BlockType::Bedrock);
    assert_eq!(world.get_block_at(-8000, 1999, 7999), BlockType::Bedrock);
    assert_eq!(world.get_block_at(-4500, 2000, 4500), BlockType::Stone);
    assert_eq!(world.get_block_at(-4500, 17_000, 4500), BlockType::Sand);
    assert_eq!(world.get_block_at(-4500, 20_999, 4500), BlockType::Sand);
    assert_eq!(world.get_block_at(-4500, 21_000, 4500), BlockType::Air);
    assert!(world.is_solid_at(-4500, 20_999, 4500));
    assert!(!world.is_solid_at(-4500, 21_000, 4500));
    // the neighbours are not loaded
    assert_eq!(world.get_block_at(0, 0, 0), BlockType::Air);
    assert_eq!(world.get_block_at(-8001, 0, 0), BlockType::Air);
    assert_eq!(world.get_block_at(-1, 0, -1), BlockType::Air);
    assert_eq!(world.get_block_at(-1, 0, 8000), BlockType::Air);
}

#[test]
fn positions_below_and_above_the_world_hold_air() {
    let mut world = World::new(1);
    let config = world.config();
    world.update_chunks(at_block(0, 0, 0), &vec![level_samples(ChunkCoord::new(0, 0), &config, 1_000_000, 0)]);
    assert_eq!(world.get_block_at(0, 0, 0), BlockType::Bedrock);
    assert_eq!(world.get_block_at(0, -1, 0), BlockType::Air);
    assert_eq!(world.get_block_at(0, i64::MIN, 0), BlockType::Air);
    assert_eq!(world.get_block_at(0, 31_999, 0), BlockType::Grass);
    assert_eq!(world.get_block_at(0, 32_000, 0), BlockType::Air);
    assert_eq!(world.get_block_at(0, i64::MAX, 0), BlockType::Air);
    assert!(!world.is_solid_at(0, -1, 0));
}

#[test]
fn water_is_not_solid_in_the_world() {
    let mut world = World::new(1);
    let config = world.config();
    // surface at level 10, water from 11 to 16
    world.update_chunks(at_block(0, 0, 0), &vec![level_samples(ChunkCoord::new(0, 0), &config, -200_000, 0)]);
    assert_eq!(world.get_block_at(500, 12_500, 500), BlockType::Water);
    assert!(!world.is_solid_at(500, 12_500, 500));
    assert!(world.is_solid_at(500, 10_500, 500));
    // the standing height is above the ground, not above the water
    assert_eq!(world.get_surface_height(500, 500), 11_500);
}

#[test]
fn surface_height_sits_just_above_the_topmost_solid_block() {
    let mut world = World::new(1);
    let config = world.config();
    let mut columns = Vec::new();
    for i in 0..64 {
        columns.push(ColumnSamples { height: (i - 20) * 20_000, biome: 0, caves: vec![0; 32] });
    }
    let terrain = vec![ChunkSamples::new(ChunkCoord::new(0, 0), 8, 32, columns).unwrap()];
    world.update_chunks(at_block(0, 0, 0), &terrain);
    for bx in 0..8 {
        for bz in 0..8 {
            let x = bx * 1000 + 250;
            let z = bz * 1000 + 750;
            let h = world.get_surface_height(x, z);
            assert_eq!(h % 1000, 500);
            assert!(world.is_solid_at(x, h - 1500, z));
            assert!(!world.is_solid_at(x, h + 1000, z));
            assert!(!world.is_solid_at(x, h - 500, z));
        }
    }
    // column (0, 0): sample -0.4, surface at 16 - 12 = 4
    assert_eq!(world.get_surface_height(0, 0), 5_500);
    // column (7, 7): sample 0.86, surface clamped to 31
    assert_eq!(world.get_surface_height(7_999, 7_999), 32_500);
}

#[test]
fn load_offered_reports_nothing_beyond_its_radius() {
    let mut world = World::new(1);
    let config = world.config();
    let terrain = vec![
        level_samples(ChunkCoord::new(1, 1), &config, 0, 0),
        level_samples(ChunkCoord::new(2, 0), &config, 0, 0),
        level_samples(ChunkCoord::new(-1, 0), &config, 0, 0),
    ];
    world.load_offered(ChunkCoord::new(0, 0), 1, &terrain);
    assert_eq!(world.loaded_chunks(), &vec![ChunkCoord::new(1, 1), ChunkCoord::new(-1, 0)]);
    world.load_offered(ChunkCoord::new(0, 0), -1, &terrain);
    assert_eq!(world.loaded_chunks().len(), 2);
}

#[test]
fn a_world_of_other_dimensions_streams_and_answers_queries() {
    let config = WorldConfig {
        chunk_size: 4,
        chunk_height: 64,
        sea_level: 40,
        render_distance: 1,
        eviction_margin: 3,
    };
    let mut world = World::with_config(77, config).ok().unwrap();
    let observer = at_block(-1, 50, 9); // chunk (-1, 2) for chunks of four blocks
    let center = ChunkCoord::containing(observer.x, observer.z, 4);
    assert_eq!(center, ChunkCoord::new(-1, 2));
    let needed = world.missing_chunks(center, 1);
    // surface at 40 + 9 = 49
    let terrain: Vec<ChunkSamples> = needed.iter().map(|c| level_samples(*c, &config, 300_001, 0)).collect();
    world.update_chunks(observer, &terrain);
    assert_eq!(world.loaded_chunks().len(), 9);
    assert_eq!(world.get_block_at(-500, 49_000, 9_500), BlockType::Grass);
    assert_eq!(world.get_block_at(-500, 46_000, 9_500), BlockType::Dirt);
    assert_eq!(world.get_block_at(-500, 45_999, 9_500), BlockType::Stone);
    assert_eq!(world.get_block_at(-500, 50_000, 9_500), BlockType::Air);
    assert_eq!(world.get_surface_height(-500, 9_500), 50_500);
    assert_eq!(world.get_chunk(center).unwrap().size(), 4);
    assert_eq!(world.get_chunk(center).unwrap().height(), 64);
    // samples of the default dimensions do not fit this world
    let wrong = level_samples(ChunkCoord::new(5, 5), &WorldConfig::default(), 0, 0);
    world.load_offered(ChunkCoord::new(5, 5), 1, &vec![wrong]);
    assert!(!world.is_loaded(ChunkCoord::new(5, 5)));
    // four chunks away every chunk is still within the margin; five is too far
    world.update_chunks(at_block(-1 + 12, 50, 9), &Vec::new());
    assert_eq!(world.loaded_chunks().len(), 9);
    world.update_chunks(at_block(-1 + 16, 50, 9), &Vec::new());
    assert_eq!(world.loaded_chunks().len(), 6);
}
