use voxel_world::config::WorldConfig;
use voxel_world::coord::{ChunkCoord, WorldPosition};
use voxel_world::samples::{ChunkSamples, ColumnSamples};
use voxel_world::world::World;

fn flat(coord: ChunkCoord, config: &WorldConfig, h: i32) -> ChunkSamples {
    let mut columns = Vec::new();
    for _ in 0..config.chunk_size * config.chunk_size {
        columns.push(ColumnSamples { height: h, biome: 0, caves: vec![0; config.chunk_height] });
    }
    ChunkSamples::new(coord, config.chunk_size, config.chunk_height, columns).unwrap()
}

fn square(center: ChunkCoord, radius: i32, config: &WorldConfig, h: i32) -> Vec<ChunkSamples> {
    let mut all = Vec::new();
    for dx in -radius..=radius {
        for dz in -radius..=radius {
            all.push(flat(ChunkCoord::new(center.x + dx, center.z + dz), config, h));
        }
    }
    all
}

const LAND: i32 = 133_334; // surface at level 20
const SEABED: i32 = -200_000; // surface at level 10
const PEAK: i32 = 1_000_000; // surface at level 31

#[test]
fn spawn_is_accepted_at_the_preferred_point_on_land() {
    let mut world = World::new(12345);
    let config = world.config();
    // the preferred point lies in chunk (0, -1)
    let terrain = square(ChunkCoord::new(0, -1), 2, &config, LAND);
    let p = world.find_safe_spawn_position(2500, -3500, &terrain);
    assert_eq!(p, WorldPosition { x: 2500, y: 21_500, z: -3500 });
    assert!(world.is_acceptable(p.y));
    // the three by three chunks round the preferred point were loaded
    assert_eq!(world.loaded_chunks().len(), 9);
    for dx in -1..=1 {
        for dz in -1..=1 {
            assert!(world.is_loaded(ChunkCoord::new(dx, -1 + dz)));
        }
    }
}

#[test]
fn acceptable_heights_lie_between_sea_and_ceiling() {
    let world = World::new(1);
    assert!(!world.is_acceptable(16_000));
    assert!(world.is_acceptable(16_001));
    assert!(world.is_acceptable(26_999));
    assert!(!world.is_acceptable(27_000));
    assert!(!world.is_acceptable(i64::MIN));
    assert!(!world.is_acceptable(i64::MAX));
}

#[test]
fn spawn_falls_back_where_all_is_sea() {
    let mut world = World::new(1);
    let config = world.config();
    let terrain = square(ChunkCoord::new(0, 0), 4, &config, SEABED);
    world.load_offered(ChunkCoord::new(0, 0), 4, &terrain);
    let p = world.find_safe_spawn_position(4000, 4000, &Vec::new());
    // ten blocks above the sea level, at the preferred point
    assert_eq!(p, WorldPosition { x: 4000, y: 26_000, z: 4000 });
}

#[test]
fn spawn_falls_back_where_all_is_too_high() {
    let mut world = World::new(1);
    let config = world.config();
    let terrain = square(ChunkCoord::new(0, 0), 4, &config, PEAK);
    world.load_offered(ChunkCoord::new(0, 0), 4, &terrain);
    assert_eq!(world.get_surface_height(0, 0), 32_500);
    let p = world.spawn_position(0, 0);
    assert_eq!(p, WorldPosition { x: 0, y: 26_000, z: 0 });
}

#[test]
fn spawn_search_takes_the_first_candidate_that_is_acceptable() {
    let mut world = World::new(1);
    let config = world.config();
    // sea everywhere but in chunk (1, 0), which spans blocks 8..16 in x
    let mut terrain = vec![flat(ChunkCoord::new(1, 0), &config, LAND)];
    terrain.extend(square(ChunkCoord::new(0, 0), 4, &config, SEABED));
    world.load_offered(ChunkCoord::new(0, 0), 4, &terrain);
    let p = world.spawn_position(500, 500);
    // radius 1..3 at angle 0 reach x = 2.5, 4.5, 6.5; radius 4 reaches 8.5
    assert_eq!(p, WorldPosition { x: 8500, y: 21_500, z: 500 });
}

#[test]
fn spawn_search_looks_along_the_diagonals() {
    let mut world = World::new(1);
    let config = world.config();
    // land only in chunk (-1, 1): blocks -8..0 in x, 8..16 in z
    let mut terrain = vec![flat(ChunkCoord::new(-1, 1), &config, LAND)];
    terrain.extend(square(ChunkCoord::new(0, 0), 4, &config, SEABED));
    world.load_offered(ChunkCoord::new(0, 0), 4, &terrain);
    let p = world.spawn_position(500, 500);
    // angle 3 points to (-0.707, 0.707): at radius 6 the offset is 8.484,
    // the first to pass z = 8
    assert_eq!(p, WorldPosition { x: 500 - 8484, y: 21_500, z: 500 + 8484 });
}

#[test]
fn spawn_takes_the_fallback_height_of_unloaded_chunks_for_ground() {
    // nothing is loaded: the standing height is a guess of five blocks above
    // the sea, which lies in the accepted range
    let world = World::new(1);
    let p = world.spawn_position(1000, 2000);
    assert_eq!(p, WorldPosition { x: 1000, y: 21_000, z: 2000 });
}

#[test]
fn spawn_is_safe_or_the_fallback() {
    let config = WorldConfig::default();
    for (seed, h) in [(1u32, LAND), (2, SEABED), (3, PEAK), (4, 0), (5, 33_334)] {
        let mut world = World::new(seed);
        let terrain = square(ChunkCoord::new(5, 5), 1, &config, h);
        let p = world.find_safe_spawn_position(44_000, 44_000, &terrain);
        let safe = 16_000 < p.y && p.y < 27_000;
        let fallback = p == WorldPosition { x: 44_000, y: 26_000, z: 44_000 };
        assert!(safe || fallback, "{:?}", p);
    }
}

#[test]
fn spawn_search_stays_within_the_range_of_positions() {
    let world = World::new(1);
    let config = world.config();
    let sea = WorldConfig { sea_level: 31, ..config };
    // with the sea level at the top of the world no height is acceptable
    let drowned = World::with_config(1, sea).ok().unwrap();
    let p = drowned.spawn_position(i64::MAX, i64::MIN);
    assert_eq!(p, WorldPosition { x: i64::MAX, y: 41_000, z: i64::MIN });
    let q = world.spawn_position(i64::MAX, i64::MIN);
    assert_eq!(q, WorldPosition { x: i64::MAX, y: 21_000, z: i64::MIN });
}
