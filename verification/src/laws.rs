//! What holds of chunks, terrain and worlds, whatever the samples.

use crate::block::{solid, BlockType};
use crate::chunk::{lemma_top_solid, local_index, top_solid, Chunk};
use crate::config::WorldConfig;
use crate::coord::{chebyshev, ChunkCoord};
use crate::samples::ChunkSamples;
use crate::terrain::{cell_block, sampled, surface_height, terrain_of};
use crate::world::{chunk_of, first_offer, made_by_rules, streamed, World};
use vstd::prelude::*;

verus! {

/// Whether two sets of samples hold the same numbers for the same chunk
/// dimensions.
pub open spec fn same_samples(a: ChunkSamples, b: ChunkSamples) -> bool {
    &&& a.spec_size() == b.spec_size()
    &&& a.spec_height() == b.spec_height()
    &&& forall|x: int, y: int, z: int|
        #![trigger a.cave_noise(x, y, z)]
        sampled(a, x, y, z) ==> {
            &&& a.height_noise(x, z) == b.height_noise(x, z)
            &&& a.biome_noise(x, z) == b.biome_noise(x, z)
            &&& a.cave_noise(x, y, z) == b.cave_noise(x, y, z)
        }
}

/// Generation is a function of the samples: samples that hold the same
/// numbers, drawn at any two times, give chunks with the same content.
pub proof fn lemma_generation_is_deterministic(cfg: WorldConfig, a: ChunkSamples, b: ChunkSamples)
    requires
        same_samples(a, b),
    ensures
        terrain_of(cfg, a) == terrain_of(cfg, b),
{
    assert forall|p: (int, int, int)| sampled(a, p.0, p.1, p.2) implies cell_block(
        cfg,
        a,
        p.0,
        p.1,
        p.2,
    ) == cell_block(cfg, b, p.0, p.1, p.2) by {
        let n = a.cave_noise(p.0, p.1, p.2);
    }
    assert(terrain_of(cfg, a) =~= terrain_of(cfg, b));
}

/// Sparse storage: within a chunk, a cell holds `Air` exactly where
/// nothing is stored for it.
pub proof fn lemma_air_is_not_stored(chunk: Chunk, x: int, y: int, z: int)
    requires
        chunk.wf(),
        chunk.in_bounds(x, y, z),
    ensures
        chunk.block_at(x, y, z) == BlockType::Air <==> !chunk@.contains_key((x, y, z)),
{
    chunk.lemma_wf();
}

/// Bedrock floor of the terrain rules: the two lowest levels of every
/// column are bedrock.
pub proof fn lemma_terrain_has_bedrock_floor(
    cfg: WorldConfig,
    samples: ChunkSamples,
    x: int,
    y: int,
    z: int,
)
    requires
        sampled(samples, x, y, z),
        y <= 1,
    ensures
        terrain_of(cfg, samples).contains_key((x, y, z)),
        terrain_of(cfg, samples)[(x, y, z)] == BlockType::Bedrock,
{
}

/// Bedrock floor of a world: in every loaded chunk, the two lowest levels
/// of every column are bedrock.
pub proof fn lemma_world_has_bedrock_floor(world: World, c: ChunkCoord, x: int, y: int, z: int)
    requires
        world.wf(),
        world.loaded(c),
        world@[c].in_bounds(x, y, z),
        y <= 1,
    ensures
        world@[c].block_at(x, y, z) == BlockType::Bedrock,
{
    world.lemma_wf();
    let chunk = world@[c];
    let cfg = world.spec_config();
    assert(made_by_rules(cfg, chunk));
    let s = choose|s: ChunkSamples|
        {
            &&& s.spec_size() == chunk.spec_size()
            &&& s.spec_height() == chunk.spec_height()
            &&& chunk@ == #[trigger] terrain_of(cfg, s)
        };
    lemma_terrain_has_bedrock_floor(cfg, s, x, y, z);
}

/// Sea fill: in a column whose surface lies below the sea level, every
/// level above the surface up to the sea level holds water, and every level
/// above the sea level holds air, for which nothing is stored.
pub proof fn lemma_sea_fill(cfg: WorldConfig, samples: ChunkSamples, x: int, y: int, z: int)
    requires
        cfg.valid(),
        sampled(samples, x, y, z),
        surface_height(samples.height_noise(x, z), cfg.sea_level as int, cfg.world_height())
            < cfg.sea_level,
    ensures
        ({
            let surface = surface_height(
                samples.height_noise(x, z),
                cfg.sea_level as int,
                cfg.world_height(),
            );
            let made = terrain_of(cfg, samples);
            &&& surface < y <= cfg.sea_level ==> made.contains_key((x, y, z)) && made[(x, y, z)]
                == BlockType::Water
            &&& y > cfg.sea_level ==> !made.contains_key((x, y, z))
        }),
{
    let kind = cell_block(cfg, samples, x, y, z);
}

/// Loading converges: where `needed` lists the chunks within the render
/// distance of the centre that are not loaded, and the samples offered to an
/// update hold some for each of them, every chunk within the render distance
/// of the centre is loaded after the update.
pub proof fn lemma_update_loads_neighbourhood(
    before: World,
    after: World,
    center: ChunkCoord,
    terrain: Seq<ChunkSamples>,
    needed: Seq<ChunkCoord>,
)
    requires
        before.spec_config().valid(),
        streamed(before, after, center, terrain),
        forall|c: ChunkCoord|
            #![trigger needed.contains(c)]
            needed.contains(c) <==> chebyshev(c, center) <= before.spec_config().render_distance
                && !before.loaded(c),
        forall|i: int|
            0 <= i < needed.len() ==> first_offer(
                terrain,
                before.spec_config(),
                #[trigger] needed[i],
            ) is Some,
    ensures
        forall|c: ChunkCoord|
            chebyshev(c, center) <= before.spec_config().render_distance ==> #[trigger] after.loaded(
                c,
            ),
{
    assert forall|c: ChunkCoord|
        chebyshev(c, center) <= before.spec_config().render_distance implies #[trigger] after.loaded(
        c,
    ) by {
        if !before.loaded(c) {
            assert(needed.contains(c));
            let i = choose|i: int| 0 <= i < needed.len() && needed[i] == c;
            assert(first_offer(terrain, before.spec_config(), needed[i]) is Some);
        }
    }
}

/// Eviction converges: after an update round a centre that is further than
/// the render distance and the eviction margin together from every chunk
/// that was loaded, none of those chunks is loaded.
pub proof fn lemma_update_evicts_distant(
    before: World,
    after: World,
    center: ChunkCoord,
    terrain: Seq<ChunkSamples>,
)
    requires
        before.spec_config().valid(),
        streamed(before, after, center, terrain),
        forall|c: ChunkCoord|
            before.loaded(c) ==> chebyshev(c, center) > before.spec_config().render_distance
                + before.spec_config().eviction_margin,
    ensures
        forall|c: ChunkCoord| before.loaded(c) ==> !#[trigger] after.loaded(c),
        forall|c: ChunkCoord| #[trigger]
            after.loaded(c) ==> chebyshev(c, center) <= before.spec_config().render_distance,
{
}

/// No thrash at the boundary: a loaded chunk that is no further from the
/// centre of an update than the render distance and the eviction margin
/// together stays loaded.
pub proof fn lemma_margin_keeps_chunk(
    before: World,
    after: World,
    center: ChunkCoord,
    terrain: Seq<ChunkSamples>,
    c: ChunkCoord,
)
    requires
        streamed(before, after, center, terrain),
        before.loaded(c),
        chebyshev(c, center) <= before.spec_config().render_distance
            + before.spec_config().eviction_margin,
    ensures
        after.loaded(c),
{
}

/// The standing height sits just above the topmost solid block: in a
/// loaded column that holds a solid block, the block one and a half blocks
/// below the standing height is solid, and the block one block above it is
/// not.
pub proof fn lemma_surface_height_is_above_ground(world: World, x: int, z: int)
    requires
        world.wf(),
        world.loaded(chunk_of(world.spec_config(), x, z)),
        ({
            let c = chunk_of(world.spec_config(), x, z);
            let size = world.spec_config().chunk_size as int;
            top_solid(
                world@[c],
                local_index(x, c.x as int, size),
                local_index(z, c.z as int, size),
                world.spec_config().chunk_height as int,
            ) >= 0
        }),
    ensures
        solid(world.block_at(x, world.surface_at(x, z) - 1500, z)),
        !solid(world.block_at(x, world.surface_at(x, z) + 1000, z)),
{
    world.lemma_wf();
    let cfg = world.spec_config();
    let c = chunk_of(cfg, x, z);
    let size = cfg.chunk_size as int;
    let chunk = world@[c];
    let lx = local_index(x, c.x as int, size);
    let lz = local_index(z, c.z as int, size);
    let top = top_solid(chunk, lx, lz, cfg.chunk_height as int);
    lemma_top_solid(chunk, lx, lz, cfg.chunk_height as int);
    chunk.lemma_wf();
    assert(world.surface_at(x, z) == top * 1000 + 1500);
    assert((top * 1000) / 1000 == top);
    assert((top * 1000 + 2500) / 1000 == top + 2);
    assert(world.block_at(x, top * 1000, z) == chunk.block_at(lx, top, lz));
    assert(world.block_at(x, top * 1000 + 2500, z) == chunk.block_at(lx, top + 2, lz));
    if top + 2 < cfg.chunk_height {
        assert(!solid(chunk.block_at(lx, top + 2, lz)));
    } else {
        assert(!chunk.in_bounds(lx, top + 2, lz));
        assert(chunk.block_at(lx, top + 2, lz) == BlockType::Air);
    }
}

} // verus!
