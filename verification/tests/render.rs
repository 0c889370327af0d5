use voxel_world::block::BlockType;
use voxel_world::chunk::Chunk;
use voxel_world::coord::ChunkCoord;
use voxel_world::render::{
    blocks_to_render, blocks_to_render_optimized, chunks_to_render, should_render_block,
    should_render_block_optimized, split_by_distance, DRAWN_BELOW, MOST_DRAWN,
};
use voxel_world::samples::{ChunkSamples, ColumnSamples};
use voxel_world::world::World;

fn solid_cube(size: usize, height: usize) -> Chunk {
    let mut chunk = Chunk::with_dimensions(ChunkCoord::new(0, 0), size, height).unwrap();
    for x in 0..size {
        for y in 0..height {
            for z in 0..size {
                chunk.set_block(x, y, z, BlockType::Stone);
            }
        }
    }
    chunk
}

#[test]
fn blocks_are_listed_once_in_index_order() {
    let mut chunk = Chunk::new(ChunkCoord::new(0, 0));
    assert!(chunk.blocks().is_empty());
    chunk.set_block(7, 0, 0, BlockType::Sand);
    chunk.set_block(0, 31, 7, BlockType::Stone);
    chunk.set_block(0, 0, 1, BlockType::Bedrock);
    chunk.set_block(0, 1, 0, BlockType::Water);
    chunk.set_block(3, 3, 3, BlockType::Wood);
    chunk.set_block(3, 3, 3, BlockType::Air);
    chunk.set_block(0, 0, 1, BlockType::Dirt);
    assert_eq!(
        chunk.blocks(),
        vec![
            ((0, 0, 1), BlockType::Dirt),
            ((0, 1, 0), BlockType::Water),
            ((0, 31, 7), BlockType::Stone),
            ((7, 0, 0), BlockType::Sand),
        ]
    );
}

#[test]
fn blocks_lists_a_full_chunk() {
    let chunk = solid_cube(3, 4);
    let listed = chunk.blocks();
    assert_eq!(listed.len(), 36);
    assert_eq!(listed[0], ((0, 0, 0), BlockType::Stone));
    assert_eq!(listed[1], ((0, 0, 1), BlockType::Stone));
    assert_eq!(listed[3], ((0, 1, 0), BlockType::Stone));
    assert_eq!(listed[35], ((2, 3, 2), BlockType::Stone));
}

#[test]
fn a_block_on_the_edge_of_the_chunk_is_drawn() {
    let chunk = solid_cube(4, 4);
    assert!(should_render_block(&chunk, 0, 1, 1));
    assert!(should_render_block(&chunk, 3, 1, 1));
    assert!(should_render_block(&chunk, 1, 0, 1));
    assert!(should_render_block(&chunk, 1, 3, 1));
    assert!(should_render_block(&chunk, 1, 1, 0));
    assert!(should_render_block(&chunk, 1, 1, 3));
}

#[test]
fn a_buried_block_is_not_drawn() {
    let chunk = solid_cube(4, 4);
    for x in 1..3 {
        for y in 1..3 {
            for z in 1..3 {
                assert!(!should_render_block(&chunk, x, y, z));
                assert!(!should_render_block_optimized(&chunk, x, y, z));
            }
        }
    }
}

#[test]
fn air_next_to_a_block_exposes_it_and_water_does_not() {
    for (dx, dy, dz) in [(1i32, 0i32, 0i32), (-1, 0, 0), (0, 1, 0), (0, -1, 0), (0, 0, 1), (0, 0, -1)] {
        let mut chunk = solid_cube(5, 5);
        let n = ((2 + dx) as usize, (2 + dy) as usize, (2 + dz) as usize);
        chunk.set_block(n.0, n.1, n.2, BlockType::Water);
        assert!(!should_render_block(&chunk, 2, 2, 2));
        chunk.set_block(n.0, n.1, n.2, BlockType::Air);
        assert!(should_render_block(&chunk, 2, 2, 2));
        // the quick test does not look underneath
        assert_eq!(should_render_block_optimized(&chunk, 2, 2, 2), dy != -1);
    }
}

#[test]
fn the_quick_test_draws_all_above_level_fifty() {
    let chunk = solid_cube(3, 60);
    assert!(!should_render_block_optimized(&chunk, 1, 50, 1));
    assert!(should_render_block_optimized(&chunk, 1, 51, 1));
    assert!(!should_render_block(&chunk, 1, 51, 1));
    // the bottom face lies on the edge, which the quick test does not see
    let one = solid_cube(3, 3);
    assert!(!should_render_block_optimized(&one, 1, 0, 1));
    assert!(should_render_block(&one, 1, 0, 1));
    assert!(should_render_block_optimized(&one, 1, 2, 1));
}

#[test]
fn cells_outside_the_chunk_count_as_exposed() {
    let chunk = solid_cube(2, 2);
    assert!(should_render_block(&chunk, 9, 9, 9));
    assert!(should_render_block(&chunk, usize::MAX, usize::MAX, usize::MAX));
    assert!(should_render_block_optimized(&chunk, usize::MAX, 0, usize::MAX));
}

#[test]
fn blocks_to_render_lists_the_exposed_blocks_in_order() {
    let chunk = solid_cube(3, 3);
    let drawn = blocks_to_render(&chunk);
    // all but the one in the middle
    assert_eq!(drawn.len(), 26);
    assert!(!drawn.contains(&((1, 1, 1), BlockType::Stone)));
    assert_eq!(drawn[0], ((0, 0, 0), BlockType::Stone));
    assert_eq!(drawn[12], ((1, 1, 0), BlockType::Stone));
    assert_eq!(drawn[13], ((1, 1, 2), BlockType::Stone));
    assert_eq!(drawn[25], ((2, 2, 2), BlockType::Stone));
    let mut sorted = drawn.clone();
    sorted.sort_by_key(|entry| entry.0);
    assert_eq!(sorted, drawn);
    assert!(blocks_to_render(&Chunk::new(ChunkCoord::new(0, 0))).is_empty());
}

#[test]
fn the_quick_list_leaves_out_high_and_buried_blocks() {
    let mut chunk = Chunk::with_dimensions(ChunkCoord::new(0, 0), 3, 100).unwrap();
    chunk.set_block(1, 79, 1, BlockType::Wood);
    chunk.set_block(1, 80, 1, BlockType::Leaves);
    chunk.set_block(1, 99, 1, BlockType::Leaves);
    chunk.set_block(1, 10, 1, BlockType::Stone);
    chunk.set_block(1, 11, 1, BlockType::Stone);
    chunk.set_block(0, 10, 1, BlockType::Stone);
    chunk.set_block(2, 10, 1, BlockType::Stone);
    chunk.set_block(1, 10, 0, BlockType::Stone);
    chunk.set_block(1, 10, 2, BlockType::Stone);
    let drawn = blocks_to_render_optimized(&chunk);
    let cells: Vec<(usize, usize, usize)> = drawn.iter().map(|entry| entry.0).collect();
    // (1, 10, 1) is covered above and on its sides; levels 80 and up are left out
    assert_eq!(cells, vec![(0, 10, 1), (1, 10, 0), (1, 10, 2), (1, 11, 1), (1, 79, 1), (2, 10, 1)]);
    assert_eq!(drawn[4].1, BlockType::Wood);
    // the full test sees the open face underneath
    assert!(blocks_to_render(&chunk).contains(&((1, 10, 1), BlockType::Stone)));
    assert_eq!(blocks_to_render(&chunk).len(), 9);
}

#[test]
fn the_quick_list_stops_at_its_limit() {
    assert_eq!(MOST_DRAWN, 1001);
    assert_eq!(DRAWN_BELOW, 80);
    // one layer of 40 by 40 blocks: every block has its top face exposed
    let mut chunk = Chunk::with_dimensions(ChunkCoord::new(0, 0), 40, 4).unwrap();
    for x in 0..40 {
        for z in 0..40 {
            chunk.set_block(x, 2, z, BlockType::Grass);
        }
    }
    let drawn = blocks_to_render_optimized(&chunk);
    assert_eq!(drawn.len(), 1001);
    assert_eq!(drawn[0].0, (0, 2, 0));
    assert_eq!(drawn[1000].0, (25, 2, 0));
    assert_eq!(blocks_to_render(&chunk).len(), 1600);
}

#[test]
fn split_by_distance_parts_the_list_in_order() {
    let rendered = vec![
        ChunkCoord::new(0, 0),
        ChunkCoord::new(5, 0),
        ChunkCoord::new(0, -4),
        ChunkCoord::new(-6, 6),
        ChunkCoord::new(5, 5),
    ];
    let (kept, dropped) = split_by_distance(&rendered, ChunkCoord::new(0, 0), 5);
    assert_eq!(kept, vec![
        ChunkCoord::new(0, 0),
        ChunkCoord::new(5, 0),
        ChunkCoord::new(0, -4),
        ChunkCoord::new(5, 5),
    ]);
    assert_eq!(dropped, vec![ChunkCoord::new(-6, 6)]);
    let (none, all) = split_by_distance(&rendered, ChunkCoord::new(100, 100), 5);
    assert!(none.is_empty());
    assert_eq!(all, rendered);
    let (empty_kept, empty_dropped) = split_by_distance(&Vec::new(), ChunkCoord::new(0, 0), 5);
    assert!(empty_kept.is_empty() && empty_dropped.is_empty());
}

#[test]
fn chunks_to_render_are_loaded_near_and_not_yet_drawn() {
    let mut world = World::new(1);
    let column = || ColumnSamples { height: 0, biome: 0, caves: vec![0; 32] };
    let mut terrain = Vec::new();
    for c in [(0, 0), (1, 0), (-1, 1), (2, 2), (0, -3)] {
        let columns = (0..64).map(|_| column()).collect();
        terrain.push(ChunkSamples::new(ChunkCoord::new(c.0, c.1), 8, 32, columns).unwrap());
    }
    world.load_offered(ChunkCoord::new(0, 0), 8, &terrain);
    let rendered = vec![ChunkCoord::new(1, 0), ChunkCoord::new(7, 7)];
    let next = chunks_to_render(&world, &rendered, ChunkCoord::new(0, 0), 2);
    assert_eq!(next, vec![ChunkCoord::new(-1, 1), ChunkCoord::new(0, 0), ChunkCoord::new(2, 2)]);
    assert!(chunks_to_render(&world, &rendered, ChunkCoord::new(0, 0), -1).is_empty());
    assert_eq!(
        chunks_to_render(&world, &Vec::new(), ChunkCoord::new(0, 0), 0),
        vec![ChunkCoord::new(0, 0)]
    );
    assert_eq!(chunks_to_render(&world, &Vec::new(), ChunkCoord::new(0, 0), 3).len(), 5);
}
