use voxel_world::block::BlockType;
use voxel_world::chunk::{Block, Chunk};
use voxel_world::coord::ChunkCoord;

#[test]
fn block_new_keeps_its_kind() {
    assert_eq!(Block::new(BlockType::Sand).block_type, BlockType::Sand);
}

#[test]
fn a_new_chunk_is_empty_and_not_generated() {
    let chunk = Chunk::new(ChunkCoord::new(3, -4));
    assert_eq!(chunk.coord(), ChunkCoord::new(3, -4));
    assert_eq!(chunk.size(), 8);
    assert_eq!(chunk.height(), 32);
    assert!(!chunk.is_generated());
    assert!(!chunk.is_meshed());
    for x in 0..8 {
        for y in 0..32 {
            for z in 0..8 {
                assert_eq!(chunk.get_block_type(x, y, z), BlockType::Air);
                assert!(chunk.get_block(x, y, z).is_none());
            }
        }
    }
}

#[test]
fn with_dimensions_rejects_dimensions_out_of_range() {
    let at = ChunkCoord::new(0, 0);
    assert!(Chunk::with_dimensions(at, 0, 32).is_none());
    assert!(Chunk::with_dimensions(at, 8, 0).is_none());
    assert!(Chunk::with_dimensions(at, 1025, 32).is_none());
    assert!(Chunk::with_dimensions(at, 8, 4097).is_none());
    let chunk = Chunk::with_dimensions(at, 1024, 4096).unwrap();
    assert_eq!(chunk.size(), 1024);
    assert_eq!(chunk.height(), 4096);
    let small = Chunk::with_dimensions(at, 1, 1).unwrap();
    assert_eq!(small.get_block_type(0, 0, 0), BlockType::Air);
}

#[test]
fn set_then_get_returns_the_kind() {
    let mut chunk = Chunk::new(ChunkCoord::new(0, 0));
    chunk.set_block(1, 2, 3, BlockType::Stone);
    assert_eq!(chunk.get_block_type(1, 2, 3), BlockType::Stone);
    assert_eq!(chunk.get_block(1, 2, 3), Some(&Block::new(BlockType::Stone)));
    // the indices are not mixed up
    assert_eq!(chunk.get_block_type(3, 2, 1), BlockType::Air);
    assert_eq!(chunk.get_block_type(2, 1, 3), BlockType::Air);
    assert_eq!(chunk.get_block_type(1, 3, 2), BlockType::Air);
    chunk.set_block(1, 2, 3, BlockType::Water);
    assert_eq!(chunk.get_block_type(1, 2, 3), BlockType::Water);
}

#[test]
fn setting_air_removes_the_entry() {
    let mut chunk = Chunk::new(ChunkCoord::new(0, 0));
    chunk.set_block(7, 31, 7, BlockType::Grass);
    chunk.set_block(0, 0, 0, BlockType::Bedrock);
    chunk.set_block(7, 31, 7, BlockType::Air);
    assert!(chunk.get_block(7, 31, 7).is_none());
    assert_eq!(chunk.get_block_type(7, 31, 7), BlockType::Air);
    assert_eq!(chunk.get_block_type(0, 0, 0), BlockType::Bedrock);
    // removing what is not there changes nothing
    chunk.set_block(4, 4, 4, BlockType::Air);
    assert_eq!(chunk.get_block_type(0, 0, 0), BlockType::Bedrock);
}

#[test]
fn out_of_bounds_reads_air_and_writes_nothing() {
    let mut chunk = Chunk::new(ChunkCoord::new(0, 0));
    chunk.set_block(8, 0, 0, BlockType::Stone);
    chunk.set_block(0, 32, 0, BlockType::Stone);
    chunk.set_block(0, 0, 8, BlockType::Stone);
    chunk.set_block(usize::MAX, usize::MAX, usize::MAX, BlockType::Stone);
    assert_eq!(chunk.get_block_type(8, 0, 0), BlockType::Air);
    assert_eq!(chunk.get_block_type(0, 32, 0), BlockType::Air);
    assert_eq!(chunk.get_block_type(0, 0, 8), BlockType::Air);
    assert_eq!(chunk.get_block_type(usize::MAX, 0, 0), BlockType::Air);
    for x in 0..8 {
        for y in 0..32 {
            for z in 0..8 {
                assert_eq!(chunk.get_block_type(x, y, z), BlockType::Air);
            }
        }
    }
}

#[test]
fn every_cell_is_stored_apart() {
    let mut chunk = Chunk::with_dimensions(ChunkCoord::new(0, 0), 4, 5).unwrap();
    let kinds = [BlockType::Stone, BlockType::Dirt, BlockType::Sand, BlockType::Wood];
    for x in 0..4usize {
        for y in 0..5usize {
            for z in 0..4usize {
                chunk.set_block(x, y, z, kinds[(x + 2 * y + 3 * z) % 4]);
            }
        }
    }
    for x in 0..4usize {
        for y in 0..5usize {
            for z in 0..4usize {
                assert_eq!(chunk.get_block_type(x, y, z), kinds[(x + 2 * y + 3 * z) % 4]);
            }
        }
    }
}

#[test]
fn world_to_local_offsets_and_clamps() {
    let chunk = Chunk::new(ChunkCoord::new(2, -1));
    // the chunk spans blocks 16..24 in x and -8..0 in z
    assert_eq!(chunk.world_to_local(16000, -8000), (0, 0));
    assert_eq!(chunk.world_to_local(16999, -7001), (0, 0));
    assert_eq!(chunk.world_to_local(19500, -4500), (3, 3));
    assert_eq!(chunk.world_to_local(23999, -1), (7, 7));
    // outside the chunk the index is clamped
    assert_eq!(chunk.world_to_local(24000, 0), (7, 7));
    assert_eq!(chunk.world_to_local(15999, -8001), (0, 0));
    assert_eq!(chunk.world_to_local(i64::MAX, i64::MIN), (7, 0));
}

#[test]
fn top_solid_level_finds_the_highest_solid_block() {
    let mut chunk = Chunk::new(ChunkCoord::new(0, 0));
    assert_eq!(chunk.top_solid_level(2, 2), None);
    chunk.set_block(2, 0, 2, BlockType::Bedrock);
    assert_eq!(chunk.top_solid_level(2, 2), Some(0));
    chunk.set_block(2, 9, 2, BlockType::Stone);
    chunk.set_block(2, 12, 2, BlockType::Water);
    assert_eq!(chunk.top_solid_level(2, 2), Some(9));
    chunk.set_block(2, 31, 2, BlockType::Leaves);
    assert_eq!(chunk.top_solid_level(2, 2), Some(31));
    assert_eq!(chunk.top_solid_level(2, 3), None);
    // a column outside the chunk holds nothing
    assert_eq!(chunk.top_solid_level(8, 2), None);
}

#[test]
fn mark_generated_sets_the_flag_only() {
    let mut chunk = Chunk::new(ChunkCoord::new(0, 0));
    chunk.set_block(1, 1, 1, BlockType::Dirt);
    chunk.mark_generated();
    assert!(chunk.is_generated());
    assert!(!chunk.is_meshed());
    assert_eq!(chunk.get_block_type(1, 1, 1), BlockType::Dirt);
}
