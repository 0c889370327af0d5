//! The terrain rules: from the noise samples of a column to its blocks.

use crate::block::BlockType;
use crate::chunk::Chunk;
use crate::config::{ConfigError, WorldConfig};
use crate::coord::floor_div;
use crate::samples::{ChunkSamples, ColumnSamples};
use vstd::prelude::*;

verus! {

/// How many blocks the surface rises for one whole of the height field.
pub const HEIGHT_AMPLITUDE: i64 = 30;

/// Biome samples below this are desert.
pub const DESERT_BELOW: i32 = -300000;

/// Biome samples below this, and not desert, are plains; the rest is forest.
pub const PLAINS_BELOW: i32 = 300000;

/// Cave samples above this carve a cave.
pub const CAVE_ABOVE: i32 = 600000;

/// Caves are carved only above this level.
pub const CAVE_FLOOR: i32 = 10;

/// A cave lies more than this many levels below the surface.
pub const CAVE_COVER: i32 = 5;

/// The biome's soil reaches this many levels down, the surface counted.
pub const SOIL_DEPTH: i32 = 4;

/// The terrain style of a column.
#[derive(Debug, Clone, Copy, PartialEq, Eq, Structural)]
pub enum BiomeType {
    Plains,
    Forest,
    Desert,
}

/// The level of the topmost ground block of a column: the height sample
/// times the amplitude, raised by the sea level, rounded down, and kept
/// between level 1 and the top level of the world.
pub open spec fn surface_height(height_noise: int, sea_level: int, world_height: int) -> int {
    let raw = (height_noise * 30 + sea_level * 1000000) / 1000000;
    let lifted = if raw < 1 {
        1
    } else {
        raw
    };
    if lifted > world_height - 1 {
        world_height - 1
    } else {
        lifted
    }
}

/// The biome of a column, by two thresholds on its biome sample.
pub open spec fn classify(biome_noise: int) -> BiomeType {
    if biome_noise < -300000 {
        BiomeType::Desert
    } else if biome_noise < 300000 {
        BiomeType::Plains
    } else {
        BiomeType::Forest
    }
}

/// The block on the surface of a biome.
pub open spec fn surface_block(biome: BiomeType) -> BlockType {
    match biome {
        BiomeType::Desert => BlockType::Sand,
        BiomeType::Plains => BlockType::Grass,
        BiomeType::Forest => BlockType::Grass,
    }
}

/// The block just below the surface of a biome.
pub open spec fn soil_block(biome: BiomeType) -> BlockType {
    match biome {
        BiomeType::Desert => BlockType::Sand,
        BiomeType::Plains => BlockType::Dirt,
        BiomeType::Forest => BlockType::Dirt,
    }
}

/// The kind of block at level `y` of a column. The rules apply in this
/// order, the first that fits deciding: bedrock at the two lowest levels;
/// above the surface, water up to the sea level and air beyond; a cave
/// where the cave sample is high, in the interior only; the biome's surface
/// block on the surface; the biome's soil just below it; stone elsewhere.
pub open spec fn terrain_block(
    y: int,
    surface: int,
    biome: BiomeType,
    cave_noise: int,
    sea_level: int,
) -> BlockType {
    if y <= 1 {
        BlockType::Bedrock
    } else if y > surface {
        if y <= sea_level {
            BlockType::Water
        } else {
            BlockType::Air
        }
    } else if cave_noise > 600000 && y > 10 && y < surface - 5 {
        BlockType::Air
    } else if y == surface {
        surface_block(biome)
    } else if y > surface - 4 {
        soil_block(biome)
    } else {
        BlockType::Stone
    }
}

/// The kind of block that the terrain rules give the cell at local index
/// `(x, y, z)` of the chunk that `samples` were drawn for.
pub open spec fn cell_block(cfg: WorldConfig, samples: ChunkSamples, x: int, y: int, z: int) -> BlockType {
    terrain_block(
        y,
        surface_height(samples.height_noise(x, z), cfg.sea_level as int, cfg.world_height()),
        classify(samples.biome_noise(x, z)),
        samples.cave_noise(x, y, z),
        cfg.sea_level as int,
    )
}

/// Whether `(x, y, z)` is a cell of the chunk that `samples` were drawn for.
pub open spec fn sampled(samples: ChunkSamples, x: int, y: int, z: int) -> bool {
    &&& 0 <= x < samples.spec_size()
    &&& 0 <= y < samples.spec_height()
    &&& 0 <= z < samples.spec_size()
}

/// The stored entries of the chunk that the terrain rules make of
/// `samples`: every cell whose kind is not `Air`, with its kind.
pub open spec fn terrain_of(cfg: WorldConfig, samples: ChunkSamples) -> Map<(int, int, int), BlockType> {
    Map::new(
        |p: (int, int, int)|
            sampled(samples, p.0, p.1, p.2) && cell_block(cfg, samples, p.0, p.1, p.2)
                != BlockType::Air,
        |p: (int, int, int)| cell_block(cfg, samples, p.0, p.1, p.2),
    )
}

/// Whether `samples` were drawn for `chunk`: for its coordinate and its
/// dimensions.
pub open spec fn drawn_for(samples: ChunkSamples, chunk: Chunk) -> bool {
    &&& samples.spec_coord() == chunk.spec_coord()
    &&& samples.spec_size() == chunk.spec_size()
    &&& samples.spec_height() == chunk.spec_height()
}

/// Whether the cell `(a, b, c)` comes before `(x, y, z)` in the order in
/// which a chunk is filled: column by column, each from the bottom up.
pub open spec fn filled_before(a: int, b: int, c: int, x: int, y: int, z: int) -> bool {
    a < x || (a == x && c < z) || (a == x && c == z && b < y)
}

/// The terrain rules of one world, bound to its seed.
pub struct TerrainGenerator {
    seed: u32,
    config: WorldConfig,
}

impl TerrainGenerator {
    #[verifier::type_invariant]
    closed spec fn inv(self) -> bool {
        self.config.valid()
    }

    pub closed spec fn spec_seed(&self) -> u32 {
        self.seed
    }

    pub closed spec fn spec_config(&self) -> WorldConfig {
        self.config
    }

    /// The rules of a world with the default parameters.
    pub fn new(seed: u32) -> (g: Self)
        ensures
            g.spec_seed() == seed,
            g.spec_config() == WorldConfig::standard(),
    {
        Self { seed, config: WorldConfig::default() }
    }

    /// The rules of a world with the given parameters, where they are valid.
    pub fn with_config(seed: u32, config: WorldConfig) -> (r: Result<Self, ConfigError>)
        ensures
            match r {
                Ok(g) => config.valid() && g.spec_seed() == seed && g.spec_config() == config,
                Err(e) => config.fault() == Some(e),
            },
    {
        match config.validate() {
            Ok(()) => Ok(Self { seed, config }),
            Err(e) => Err(e),
        }
    }

    /// The seed of the world.
    #[verifier::when_used_as_spec(spec_seed)]
    pub fn seed(&self) -> (s: u32)
        ensures
            s == self.spec_seed(),
    {
        self.seed
    }

    /// The parameters of the world; they are valid.
    #[verifier::when_used_as_spec(spec_config)]
    pub fn config(&self) -> (c: WorldConfig)
        ensures
            c == self.spec_config(),
            c.valid(),
    {
        proof {
            use_type_invariant(self);
        }
        self.config
    }

    /// The seed of the height field: the seed of the world.
    pub fn height_seed(&self) -> (s: u32)
        ensures
            s == self.spec_seed(),
    {
        self.seed
    }

    /// The seed of the cave field: one more than the seed of the world,
    /// wrapping round at the largest seed.
    pub fn cave_seed(&self) -> (s: u32)
        ensures
            s as int == (self.spec_seed() + 1) % 4294967296,
    {
        if self.seed == 4294967295 {
            0
        } else {
            self.seed + 1
        }
    }

    /// The seed of the biome field: two more than the seed of the world,
    /// wrapping round at the largest seed.
    pub fn biome_seed(&self) -> (s: u32)
        ensures
            s as int == (self.spec_seed() + 2) % 4294967296,
    {
        if self.seed >= 4294967294 {
            self.seed - 4294967294
        } else {
            self.seed + 2
        }
    }

    /// The surface level of a column with the given height sample.
    pub fn get_height(&self, height_noise: i32) -> (h: i32)
        ensures
            h == surface_height(
                height_noise as int,
                self.spec_config().sea_level as int,
                self.spec_config().world_height(),
            ),
            0 <= h < self.spec_config().chunk_height,
    {
        proof {
            use_type_invariant(self);
        }
        let scaled: i64 = height_noise as i64 * HEIGHT_AMPLITUDE + self.config.sea_level as i64
            * 1000000;
        let raw: i64 = floor_div(scaled, 1000000);
        let top: i64 = self.config.chunk_height as i64 - 1;
        let lifted: i64 = if raw < 1 {
            1
        } else {
            raw
        };
        if lifted > top {
            top as i32
        } else {
            lifted as i32
        }
    }

    /// The biome of a column with the given biome sample.
    pub fn get_biome(&self, biome_noise: i32) -> (b: BiomeType)
        ensures
            b == classify(biome_noise as int),
    {
        if biome_noise < DESERT_BELOW {
            BiomeType::Desert
        } else if biome_noise < PLAINS_BELOW {
            BiomeType::Plains
        } else {
            BiomeType::Forest
        }
    }

    /// The kind of block at level `y` of a column with the given surface
    /// level and biome, where the cave field has the given sample.
    pub fn get_block_type(&self, y: i32, surface_height: i32, biome: BiomeType, cave_noise: i32) -> (kind:
        BlockType)
        ensures
            kind == terrain_block(
                y as int,
                surface_height as int,
                biome,
                cave_noise as int,
                self.spec_config().sea_level as int,
            ),
    {
        if y <= 1 {
            return BlockType::Bedrock;
        }
        if y > surface_height {
            if y <= self.config.sea_level {
                return BlockType::Water;
            } else {
                return BlockType::Air;
            }
        }
        if cave_noise > CAVE_ABOVE && y > CAVE_FLOOR && (y as i64) < surface_height as i64
            - CAVE_COVER as i64 {
            return BlockType::Air;
        }
        if y == surface_height {
            match biome {
                BiomeType::Desert => BlockType::Sand,
                BiomeType::Plains => BlockType::Grass,
                BiomeType::Forest => BlockType::Grass,
            }
        } else if y as i64 > surface_height as i64 - SOIL_DEPTH as i64 {
            match biome {
                BiomeType::Desert => BlockType::Sand,
                _ => BlockType::Dirt,
            }
        } else {
            BlockType::Stone
        }
    }

    /// Fills a chunk from its samples, every cell by the terrain rules, and
    /// marks it generated. Whatever the chunk held before is replaced. Where
    /// the samples were drawn for another coordinate or other dimensions,
    /// nothing is changed and the result is `false`.
    pub fn generate_chunk(&self, chunk: &mut Chunk, samples: &ChunkSamples) -> (done: bool)
        requires
            old(chunk).wf(),
        ensures
            done == drawn_for(*samples, *old(chunk)),
            final(chunk).wf(),
            final(chunk).spec_coord() == old(chunk).spec_coord(),
            final(chunk).spec_size() == old(chunk).spec_size(),
            final(chunk).spec_height() == old(chunk).spec_height(),
            final(chunk).spec_is_meshed() == old(chunk).spec_is_meshed(),
            done ==> final(chunk).spec_is_generated(),
            done ==> final(chunk)@ == terrain_of(self.spec_config(), *samples),
            !done ==> final(chunk)@ == old(chunk)@,
            !done ==> final(chunk).spec_is_generated() == old(chunk).spec_is_generated(),
    {
        let wanted = chunk.coord();
        let given = samples.coord();
        if given.x != wanted.x || given.z != wanted.z || samples.size() != chunk.size()
            || samples.height() != chunk.height() {
            return false;
        }
        let size = chunk.size();
        let height = chunk.height();
        proof {
            chunk.lemma_wf();
        }
        let mut x: usize = 0;
        while x < size
            invariant
                x <= size,
                size == chunk.spec_size(),
                height == chunk.spec_height(),
                drawn_for(*samples, *chunk),
                1 <= height <= 4096,
                chunk.wf(),
                chunk.spec_coord() == old(chunk).spec_coord(),
                chunk.spec_size() == old(chunk).spec_size(),
                chunk.spec_height() == old(chunk).spec_height(),
                chunk.spec_is_meshed() == old(chunk).spec_is_meshed(),
                chunk.spec_is_generated() == old(chunk).spec_is_generated(),
                forall|a: int, b: int, c: int|
                    chunk.in_bounds(a, b, c) && filled_before(a, b, c, x as int, 0, 0)
                        ==> #[trigger] chunk.block_at(a, b, c) == cell_block(
                        self.spec_config(),
                        *samples,
                        a,
                        b,
                        c,
                    ),
            decreases size - x,
        {
            let mut z: usize = 0;
            while z < size
                invariant
                    x < size,
                    z <= size,
                    size == chunk.spec_size(),
                    height == chunk.spec_height(),
                    drawn_for(*samples, *chunk),
                    1 <= height <= 4096,
                    chunk.wf(),
                    chunk.spec_coord() == old(chunk).spec_coord(),
                    chunk.spec_size() == old(chunk).spec_size(),
                    chunk.spec_height() == old(chunk).spec_height(),
                    chunk.spec_is_meshed() == old(chunk).spec_is_meshed(),
                    chunk.spec_is_generated() == old(chunk).spec_is_generated(),
                    forall|a: int, b: int, c: int|
                        chunk.in_bounds(a, b, c) && filled_before(a, b, c, x as int, 0, z as int)
                            ==> #[trigger] chunk.block_at(a, b, c) == cell_block(
                            self.spec_config(),
                            *samples,
                            a,
                            b,
                            c,
                        ),
                decreases size - z,
            {
                let column: &ColumnSamples = samples.column(x, z);
                let surface = self.get_height(column.height);
                let biome = self.get_biome(column.biome);
                let mut y: usize = 0;
                while y < height
                    invariant
                        x < size,
                        z < size,
                        y <= height,
                        size == chunk.spec_size(),
                        height == chunk.spec_height(),
                        drawn_for(*samples, *chunk),
                        1 <= height <= 4096,
                        0 <= x * samples.spec_size() + z < samples.columns().len(),
                        *column == samples.columns()[x * samples.spec_size() + z],
                        column.caves@.len() == height,
                        surface == surface_height(
                            column.height as int,
                            self.spec_config().sea_level as int,
                            self.spec_config().world_height(),
                        ),
                        biome == classify(column.biome as int),
                        chunk.wf(),
                        chunk.spec_coord() == old(chunk).spec_coord(),
                        chunk.spec_size() == old(chunk).spec_size(),
                        chunk.spec_height() == old(chunk).spec_height(),
                        chunk.spec_is_meshed() == old(chunk).spec_is_meshed(),
                        chunk.spec_is_generated() == old(chunk).spec_is_generated(),
                        forall|a: int, b: int, c: int|
                            chunk.in_bounds(a, b, c) && filled_before(
                                a,
                                b,
                                c,
                                x as int,
                                y as int,
                                z as int,
                            ) ==> #[trigger] chunk.block_at(a, b, c) == cell_block(
                                self.spec_config(),
                                *samples,
                                a,
                                b,
                                c,
                            ),
                    decreases height - y,
                {
                    let kind = self.get_block_type(y as i32, surface, biome, column.caves[y]);
                    let ghost before = *chunk;
                    chunk.set_block(x, y, z, kind);
                    proof {
                        assert forall|a: int, b: int, c: int|
                            chunk.in_bounds(a, b, c) && filled_before(
                                a,
                                b,
                                c,
                                x as int,
                                y + 1,
                                z as int,
                            ) implies #[trigger] chunk.block_at(a, b, c) == cell_block(
                            self.spec_config(),
                            *samples,
                            a,
                            b,
                            c,
                        ) by {
                            if a == x && b == y && c == z {
                                assert(chunk.block_at(a, b, c) == kind);
                            } else {
                                assert(chunk.block_at(a, b, c) == before.block_at(a, b, c));
                            }
                        }
                    }
                    y += 1;
                }
                z += 1;
            }
            x += 1;
        }
        let ghost filled = *chunk;
        chunk.mark_generated();
        proof {
            chunk.lemma_wf();
            let made = terrain_of(self.spec_config(), *samples);
            assert forall|p: (int, int, int)| chunk@.contains_key(p) == made.contains_key(p) by {
                let kind = filled.block_at(p.0, p.1, p.2);
                if chunk.in_bounds(p.0, p.1, p.2) {
                    assert(kind == cell_block(self.spec_config(), *samples, p.0, p.1, p.2));
                }
            }
            assert forall|p: (int, int, int)| chunk@.contains_key(p) implies chunk@[p] == made[p] by {
                let kind = filled.block_at(p.0, p.1, p.2);
                assert(kind == cell_block(self.spec_config(), *samples, p.0, p.1, p.2));
            }
            assert(chunk@ =~= made);
        }
        true
    }
}

} // verus!
