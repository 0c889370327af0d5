//! The world: the set of loaded chunks, and point queries on it.

use crate::block::{solid, BlockType};
use crate::chunk::{local_index, top_solid, Chunk};
use crate::config::{ConfigError, WorldConfig};
use crate::coord::{
    block_of, chebyshev, chunk_index, floor_div, lemma_key_injective, ChunkCoord, WorldPosition,
    UNITS_PER_BLOCK,
};
use crate::fnv_map::{
    fnv_map_contains_key, fnv_map_get, fnv_map_insert, fnv_map_new, fnv_map_remove,
};
use crate::samples::ChunkSamples;
use crate::terrain::{terrain_of, TerrainGenerator};
use fnv::FnvHashMap;
use vstd::prelude::*;

verus! {

/// The chunk coordinate that a storage key stands for.
#[verifier::opaque]
spec fn coord_of_key(k: u64) -> ChunkCoord {
    ChunkCoord {
        x: (k as int / 4294967296 - 2147483648) as i32,
        z: (k as int % 4294967296 - 2147483648) as i32,
    }
}

/// A storage key gives back the coordinate it was made of.
proof fn lemma_coord_of_key(c: ChunkCoord)
    ensures
        coord_of_key(c.spec_key()) == c,
{
    reveal(coord_of_key);
}

/// Whether a chunk is what the terrain rules make of some samples.
pub open spec fn made_by_rules(cfg: WorldConfig, chunk: Chunk) -> bool {
    exists|s: ChunkSamples|
        {
            &&& s.spec_size() == chunk.spec_size()
            &&& s.spec_height() == chunk.spec_height()
            &&& chunk@ == #[trigger] terrain_of(cfg, s)
        }
}

/// What holds of every loaded chunk: it is well formed, lies at its
/// coordinate, has the world's dimensions, and was filled by the terrain
/// rules.
pub open spec fn chunk_fits(cfg: WorldConfig, c: ChunkCoord, chunk: Chunk) -> bool {
    &&& chunk.wf()
    &&& chunk.spec_coord() == c
    &&& chunk.spec_size() == cfg.chunk_size
    &&& chunk.spec_height() == cfg.chunk_height
    &&& chunk.spec_is_generated()
    &&& made_by_rules(cfg, chunk)
}

/// Whether samples have the dimensions of the world's chunks.
pub open spec fn fits(cfg: WorldConfig, s: ChunkSamples) -> bool {
    s.spec_size() == cfg.chunk_size && s.spec_height() == cfg.chunk_height
}

/// The first samples of `terrain` that fit the world and were drawn for the
/// chunk at `c`.
pub open spec fn first_offer(terrain: Seq<ChunkSamples>, cfg: WorldConfig, c: ChunkCoord) -> Option<
    ChunkSamples,
>
    decreases terrain.len(),
{
    if terrain.len() == 0 {
        None
    } else {
        let earlier = first_offer(terrain.drop_last(), cfg, c);
        if earlier is Some {
            earlier
        } else if fits(cfg, terrain.last()) && terrain.last().spec_coord() == c {
            Some(terrain.last())
        } else {
            None
        }
    }
}

/// The list of loaded coordinates after loading from `terrain`: to the
/// coordinates loaded before, each coordinate within `radius` of `center`
/// that was not loaded is added where `terrain` first offers it.
pub open spec fn loaded_after(
    before: Seq<ChunkCoord>,
    terrain: Seq<ChunkSamples>,
    cfg: WorldConfig,
    center: ChunkCoord,
    radius: int,
) -> Seq<ChunkCoord>
    decreases terrain.len(),
{
    if terrain.len() == 0 {
        before
    } else {
        let earlier = loaded_after(before, terrain.drop_last(), cfg, center, radius);
        let s = terrain.last();
        if fits(cfg, s) && chebyshev(s.spec_coord(), center) <= radius && !earlier.contains(
            s.spec_coord(),
        ) {
            earlier.push(s.spec_coord())
        } else {
            earlier
        }
    }
}

/// The coordinates of `loaded` within `keep` of `center`, in their order.
pub open spec fn kept_within(loaded: Seq<ChunkCoord>, center: ChunkCoord, keep: int) -> Seq<
    ChunkCoord,
>
    decreases loaded.len(),
{
    if loaded.len() == 0 {
        loaded
    } else {
        let earlier = kept_within(loaded.drop_last(), center, keep);
        if chebyshev(loaded.last(), center) <= keep {
            earlier.push(loaded.last())
        } else {
            earlier
        }
    }
}

/// Which chunks are loaded after an update round `center`: those within the
/// keep radius that were loaded before, or that lie within the render
/// distance and are offered by `terrain`.
pub open spec fn streamed(
    before: World,
    after: World,
    center: ChunkCoord,
    terrain: Seq<ChunkSamples>,
) -> bool {
    let cfg = before.spec_config();
    forall|c: ChunkCoord|
        #![trigger after.loaded(c)]
        after.loaded(c) <==> chebyshev(c, center) <= cfg.render_distance + cfg.eviction_margin && (
        before.loaded(c) || (chebyshev(c, center) <= cfg.render_distance && first_offer(
            terrain,
            cfg,
            c,
        ) is Some))
}

/// The order in which coordinates are scanned: by `x`, then by `z`.
pub open spec fn comes_before(a: ChunkCoord, b: ChunkCoord) -> bool {
    a.x < b.x || (a.x == b.x && a.z < b.z)
}

/// The chunk that holds a fixed-point position, for the world's chunk size.
pub open spec fn chunk_of(cfg: WorldConfig, x: int, z: int) -> ChunkCoord {
    ChunkCoord {
        x: chunk_index(x, cfg.chunk_size as int) as i32,
        z: chunk_index(z, cfg.chunk_size as int) as i32,
    }
}

/// Adding a coordinate that a duplicate-free list does not name keeps
/// the list free of duplicates, and keeps every coordinate it named.
proof fn lemma_push_keeps(list: Seq<ChunkCoord>, c: ChunkCoord)
    requires
        list.no_duplicates(),
        !list.contains(c),
    ensures
        list.push(c).no_duplicates(),
        list.push(c).contains(c),
        forall|d: ChunkCoord| list.contains(d) ==> #[trigger] list.push(c).contains(d),
        forall|d: ChunkCoord| #[trigger] list.push(c).contains(d) ==> d == c || list.contains(d),
{
    let longer = list.push(c);
    assert(longer[list.len() as int] == c);
    assert forall|d: ChunkCoord| list.contains(d) implies #[trigger] longer.contains(d) by {
        let j = choose|j: int| 0 <= j < list.len() && list[j] == d;
        assert(longer[j] == d);
    }
    assert forall|d: ChunkCoord| #[trigger] longer.contains(d) implies d == c || list.contains(
        d,
    ) by {
        let j = choose|j: int| 0 <= j < longer.len() && longer[j] == d;
        if j < list.len() {
            assert(list[j] == d);
        }
    }
}

/// A world of chunks around a moving observer.
pub struct World {
    chunks: FnvHashMap<u64, Chunk>,
    terrain_generator: TerrainGenerator,
    loaded_chunks: Vec<ChunkCoord>,
}

impl View for World {
    type V = Map<ChunkCoord, Chunk>;

    /// The loaded chunks, each under its coordinate.
    closed spec fn view(&self) -> Map<ChunkCoord, Chunk> {
        Map::new(
            |c: ChunkCoord| self.chunks@.contains_key(c.spec_key()),
            |c: ChunkCoord| self.chunks@[c.spec_key()],
        )
    }
}

impl World {
    /// The parameters of the world.
    pub closed spec fn spec_config(&self) -> WorldConfig {
        self.terrain_generator.spec_config()
    }

    /// The seed of the world.
    pub closed spec fn spec_seed(&self) -> u32 {
        self.terrain_generator.spec_seed()
    }

    /// The coordinates of the loaded chunks, in the order in which they
    /// were loaded.
    pub closed spec fn spec_loaded_chunks(&self) -> Seq<ChunkCoord> {
        self.loaded_chunks@
    }

    /// Whether the chunk at a coordinate is loaded.
    pub open spec fn loaded(&self, c: ChunkCoord) -> bool {
        self@.contains_key(c)
    }

    /// The world's invariant: the parameters are valid, the list of loaded
    /// coordinates names each loaded chunk once and no other, and every
    /// loaded chunk fits the world.
    pub closed spec fn wf(&self) -> bool {
        &&& self.terrain_generator.spec_config().valid()
        &&& self.loaded_chunks@.no_duplicates()
        &&& forall|i: int|
            0 <= i < self.loaded_chunks@.len() ==> self.chunks@.contains_key(
                (#[trigger] self.loaded_chunks@[i]).spec_key(),
            )
        &&& forall|k: u64| #[trigger]
            self.chunks@.contains_key(k) ==> {
                &&& coord_of_key(k).spec_key() == k
                &&& self.loaded_chunks@.contains(coord_of_key(k))
                &&& chunk_fits(self.terrain_generator.spec_config(), coord_of_key(k), self.chunks@[k])
            }
    }

    /// In a well-formed world the parameters are valid, the list of loaded
    /// coordinates has no duplicates and names exactly the loaded chunks,
    /// and every loaded chunk fits the world.
    pub proof fn lemma_wf(&self)
        requires
            self.wf(),
        ensures
            self.spec_config().valid(),
            self.spec_loaded_chunks().no_duplicates(),
            forall|c: ChunkCoord| self.spec_loaded_chunks().contains(c) <==> self.loaded(c),
            forall|c: ChunkCoord| #[trigger]
                self.loaded(c) ==> chunk_fits(self.spec_config(), c, self@[c]),
    {
        assert forall|c: ChunkCoord| self.spec_loaded_chunks().contains(c) implies self.loaded(
            c,
        ) by {
            let i = choose|i: int|
                0 <= i < self.loaded_chunks@.len() && self.loaded_chunks@[i] == c;
            assert(self.chunks@.contains_key(self.loaded_chunks@[i].spec_key()));
        }
        assert forall|c: ChunkCoord| self.loaded(c) implies self.spec_loaded_chunks().contains(c)
            && chunk_fits(self.spec_config(), c, self@[c]) by {
            lemma_coord_of_key(c);
            assert(self.chunks@.contains_key(c.spec_key()));
        }
    }

    /// The kind of block at a fixed-point position: `Air` where the chunk
    /// is not loaded or the level lies outside the world, else the block of
    /// the chunk at the position's local index.
    pub open spec fn block_at(&self, x: int, y: int, z: int) -> BlockType {
        let size = self.spec_config().chunk_size as int;
        let c = ChunkCoord { x: chunk_index(x, size) as i32, z: chunk_index(z, size) as i32 };
        if self.loaded(c) {
            self@[c].block_at(
                local_index(x, c.x as int, size),
                block_of(y),
                local_index(z, c.z as int, size),
            )
        } else {
            BlockType::Air
        }
    }

    /// The height reported where no surface is found: five blocks above
    /// the sea level.
    pub open spec fn fallback_height(&self) -> int {
        (self.spec_config().sea_level + 5) * 1000
    }

    /// The height at which an entity stands in the column of a fixed-point
    /// position: one and a half blocks above the level of the topmost solid
    /// block, where the chunk is loaded and the column holds a solid block;
    /// else the fallback height.
    pub open spec fn surface_at(&self, x: int, z: int) -> int {
        let size = self.spec_config().chunk_size as int;
        let c = ChunkCoord { x: chunk_index(x, size) as i32, z: chunk_index(z, size) as i32 };
        if self.loaded(c) {
            let top = top_solid(
                self@[c],
                local_index(x, c.x as int, size),
                local_index(z, c.z as int, size),
                self.spec_config().chunk_height as int,
            );
            if top >= 0 {
                top * 1000 + 1500
            } else {
                self.fallback_height()
            }
        } else {
            self.fallback_height()
        }
    }

    /// An empty world with the default parameters.
    pub fn new(seed: u32) -> (w: Self)
        ensures
            w.wf(),
            w.spec_seed() == seed,
            w.spec_config() == WorldConfig::standard(),
            w@ == (Map::<ChunkCoord, Chunk>::empty()),
            w.spec_loaded_chunks() == Seq::<ChunkCoord>::empty(),
    {
        let w = Self {
            chunks: fnv_map_new(),
            terrain_generator: TerrainGenerator::new(seed),
            loaded_chunks: Vec::new(),
        };
        assert(w@ =~= Map::<ChunkCoord, Chunk>::empty());
        w
    }

    /// An empty world with the given parameters; a configuration that is
    /// not valid is rejected with its first fault.
    pub fn with_config(seed: u32, config: WorldConfig) -> (r: Result<Self, ConfigError>)
        ensures
            match r {
                Ok(w) => {
                    &&& config.valid()
                    &&& w.wf()
                    &&& w.spec_seed() == seed
                    &&& w.spec_config() == config
                    &&& w@ == Map::<ChunkCoord, Chunk>::empty()
                    &&& w.spec_loaded_chunks() == Seq::<ChunkCoord>::empty()
                },
                Err(e) => config.fault() == Some(e),
            },
    {
        match TerrainGenerator::with_config(seed, config) {
            Ok(terrain_generator) => {
                let w = Self { chunks: fnv_map_new(), terrain_generator, loaded_chunks: Vec::new() };
                assert(w@ =~= Map::<ChunkCoord, Chunk>::empty());
                Ok(w)
            },
            Err(e) => Err(e),
        }
    }

    /// The parameters of the world.
    #[verifier::when_used_as_spec(spec_config)]
    pub fn config(&self) -> (c: WorldConfig)
        ensures
            c == self.spec_config(),
            c.valid(),
    {
        self.terrain_generator.config()
    }

    /// The seed of the world.
    #[verifier::when_used_as_spec(spec_seed)]
    pub fn seed(&self) -> (s: u32)
        ensures
            s == self.spec_seed(),
    {
        self.terrain_generator.seed()
    }

    /// The terrain rules of the world.
    pub fn terrain_generator(&self) -> (g: &TerrainGenerator)
        ensures
            g.spec_config() == self.spec_config(),
            g.spec_seed() == self.spec_seed(),
    {
        &self.terrain_generator
    }

    /// Radius, in chunks, within which chunks are loaded.
    pub fn render_distance(&self) -> (d: i32)
        ensures
            d == self.spec_config().render_distance,
            d >= 0,
    {
        self.terrain_generator.config().render_distance
    }

    /// The coordinates of the loaded chunks, in the order in which they
    /// were loaded.
    pub fn loaded_chunks(&self) -> (v: &Vec<ChunkCoord>)
        ensures
            v@ == self.spec_loaded_chunks(),
    {
        &self.loaded_chunks
    }

    /// Whether the chunk at a coordinate is loaded.
    pub fn is_loaded(&self, coord: ChunkCoord) -> (b: bool)
        ensures
            b == self.loaded(coord),
    {
        fnv_map_contains_key(&self.chunks, coord.key())
    }

    /// The chunk at a coordinate, if it is loaded.
    pub fn get_chunk(&self, coord: ChunkCoord) -> (r: Option<&Chunk>)
        ensures
            r is Some <==> self.loaded(coord),
            r is Some ==> *r->Some_0 == self@[coord],
    {
        fnv_map_get(&self.chunks, coord.key())
    }

    /// The kind of block at a fixed-point position. A position in a chunk
    /// that is not loaded, or below or above the world, holds `Air`; no
    /// chunk is ever loaded by a query.
    pub fn get_block_at(&self, world_x: i64, world_y: i64, world_z: i64) -> (kind: BlockType)
        requires
            self.wf(),
        ensures
            kind == self.block_at(world_x as int, world_y as int, world_z as int),
    {
        let config = self.terrain_generator.config();
        let coord = ChunkCoord::containing(world_x, world_z, config.chunk_size);
        proof {
            self.lemma_wf();
        }
        match self.get_chunk(coord) {
            Some(chunk) => {
                let (local_x, local_z) = chunk.world_to_local(world_x, world_z);
                let level: i64 = floor_div(world_y, UNITS_PER_BLOCK);
                if level < 0 || level >= config.chunk_height as i64 {
                    proof {
                        chunk.lemma_wf();
                    }
                    BlockType::Air
                } else {
                    chunk.get_block_type(local_x, level as usize, local_z)
                }
            },
            None => BlockType::Air,
        }
    }

    /// The coordinates within `radius` chunks of `center` whose chunks are
    /// not loaded, in ascending order of `x` and, within one `x`, of `z`.
    /// These are the chunks for which `load_offered` takes samples.
    pub fn missing_chunks(&self, center: ChunkCoord, radius: i32) -> (v: Vec<ChunkCoord>)
        ensures
            forall|c: ChunkCoord|
                #![trigger v@.contains(c)]
                v@.contains(c) <==> chebyshev(c, center) <= radius && !self.loaded(c),
            forall|i: int, j: int|
                0 <= i < j < v@.len() ==> comes_before(#[trigger] v@[i], #[trigger] v@[j]),
    {
        let mut v: Vec<ChunkCoord> = Vec::new();
        if radius < 0 {
            return v;
        }
        let low: i64 = -2147483648;
        let high: i64 = 2147483647;
        let reach: i64 = radius as i64;
        let lo_x: i64 = if center.x as i64 - reach < low { low } else { center.x as i64 - reach };
        let hi_x: i64 = if center.x as i64 + reach > high { high } else { center.x as i64 + reach };
        let lo_z: i64 = if center.z as i64 - reach < low { low } else { center.z as i64 - reach };
        let hi_z: i64 = if center.z as i64 + reach > high { high } else { center.z as i64 + reach };
        assert forall|c: ChunkCoord| chebyshev(c, center) <= radius <==> lo_x <= c.x <= hi_x && lo_z
            <= c.z <= hi_z by {}
        let mut x: i64 = lo_x;
        while x <= hi_x
            invariant
                -2147483648 <= lo_x <= x <= hi_x + 1 <= 2147483648,
                -2147483648 <= lo_z <= hi_z <= 2147483647,
                forall|c: ChunkCoord|
                    chebyshev(c, center) <= radius <==> lo_x <= c.x <= hi_x && lo_z <= c.z <= hi_z,
                forall|c: ChunkCoord|
                    #![trigger v@.contains(c)]
                    v@.contains(c) <==> chebyshev(c, center) <= radius && !self.loaded(c) && c.x
                        < x,
                forall|i: int, j: int|
                    0 <= i < j < v@.len() ==> comes_before(#[trigger] v@[i], #[trigger] v@[j]),
            decreases hi_x + 1 - x,
        {
            let mut z: i64 = lo_z;
            while z <= hi_z
                invariant
                    -2147483648 <= lo_x <= x <= hi_x <= 2147483647,
                    -2147483648 <= lo_z <= z <= hi_z + 1 <= 2147483648,
                    forall|c: ChunkCoord|
                        chebyshev(c, center) <= radius <==> lo_x <= c.x <= hi_x && lo_z <= c.z
                            <= hi_z,
                    forall|c: ChunkCoord|
                        #![trigger v@.contains(c)]
                        v@.contains(c) <==> chebyshev(c, center) <= radius && !self.loaded(c) && (
                        c.x < x || (c.x == x && c.z < z)),
                    forall|i: int, j: int|
                        0 <= i < j < v@.len() ==> comes_before(
                            #[trigger] v@[i],
                            #[trigger] v@[j],
                        ),
                decreases hi_z + 1 - z,
            {
                let coord = ChunkCoord::new(x as i32, z as i32);
                if !self.is_loaded(coord) {
                    let ghost shorter = v@;
                    v.push(coord);
                    proof {
                        assert(v@[shorter.len() as int] == coord);
                        assert forall|c: ChunkCoord|
                            #![trigger v@.contains(c)]
                            v@.contains(c) <==> c == coord || shorter.contains(c) by {
                            if shorter.contains(c) {
                                let j = choose|j: int| 0 <= j < shorter.len() && shorter[j] == c;
                                assert(v@[j] == c);
                            }
                            if v@.contains(c) {
                                let j = choose|j: int| 0 <= j < v@.len() && v@[j] == c;
                                if j < shorter.len() {
                                    assert(shorter[j] == c);
                                }
                            }
                        }
                        assert forall|i: int, j: int| 0 <= i < j < v@.len() implies comes_before(
                            #[trigger] v@[i],
                            #[trigger] v@[j],
                        ) by {
                            if j == shorter.len() {
                                assert(shorter[i] == v@[i]);
                                assert(shorter.contains(v@[i]));
                            } else {
                                assert(shorter[i] == v@[i] && shorter[j] == v@[j]);
                            }
                        }
                    }
                }
                z += 1;
            }
            x += 1;
        }
        v
    }

    /// Loads chunks from the samples offered. For each of `terrain` in turn:
    /// where the samples fit the world, and their chunk lies within `radius`
    /// of `center` and is not loaded, an empty chunk is made, filled by the
    /// terrain rules and loaded. Other samples are passed over.
    pub fn load_offered(&mut self, center: ChunkCoord, radius: i64, terrain: &Vec<ChunkSamples>)
        requires
            old(self).wf(),
        ensures
            final(self).wf(),
            final(self).spec_config() == old(self).spec_config(),
            final(self).spec_seed() == old(self).spec_seed(),
            final(self).spec_loaded_chunks() == loaded_after(
                old(self).spec_loaded_chunks(),
                terrain@,
                old(self).spec_config(),
                center,
                radius as int,
            ),
            forall|c: ChunkCoord|
                #![trigger final(self).loaded(c)]
                final(self).loaded(c) <==> old(self).loaded(c) || (chebyshev(c, center) <= radius
                    && first_offer(terrain@, old(self).spec_config(), c) is Some),
            forall|c: ChunkCoord|
                #![trigger final(self)@[c]]
                old(self).loaded(c) ==> final(self)@[c] == old(self)@[c],
            forall|c: ChunkCoord|
                #![trigger final(self)@[c]]
                final(self).loaded(c) && !old(self).loaded(c) ==> final(self)@[c]@ == terrain_of(
                    old(self).spec_config(),
                    first_offer(terrain@, old(self).spec_config(), c)->Some_0,
                ),
    {
        let config = self.terrain_generator.config();
        let ghost cfg = self.spec_config();
        let ghost before = self.loaded_chunks@;
        let mut i: usize = 0;
        assert(terrain@.take(0) =~= Seq::<ChunkSamples>::empty());
        while i < terrain.len()
            invariant
                i <= terrain.len(),
                self.wf(),
                config == cfg,
                cfg.valid(),
                before == old(self).spec_loaded_chunks(),
                self.spec_config() == cfg,
                cfg == old(self).spec_config(),
                self.spec_seed() == old(self).spec_seed(),
                self.loaded_chunks@ == loaded_after(
                    before,
                    terrain@.take(i as int),
                    cfg,
                    center,
                    radius as int,
                ),
                forall|c: ChunkCoord|
                    #![trigger self.loaded(c)]
                    self.loaded(c) <==> old(self).loaded(c) || (chebyshev(c, center) <= radius
                        && first_offer(terrain@.take(i as int), cfg, c) is Some),
                forall|c: ChunkCoord|
                    #![trigger self@[c]]
                    old(self).loaded(c) ==> self@[c] == old(self)@[c],
                forall|c: ChunkCoord|
                    #![trigger self@[c]]
                    self.loaded(c) && !old(self).loaded(c) ==> self@[c]@ == terrain_of(
                        cfg,
                        first_offer(terrain@.take(i as int), cfg, c)->Some_0,
                    ),
            decreases terrain.len() - i,
        {
            let samples = &terrain[i];
            let coord = samples.coord();
            let ghost seen = terrain@.take(i as int);
            let ghost next = terrain@.take(i + 1);
            let ghost prior = *self;
            proof {
                assert(next.drop_last() =~= seen);
                assert(next.last() == terrain@[i as int]);
                prior.lemma_wf();
                assert forall|c: ChunkCoord| c != coord implies first_offer(next, cfg, c)
                    == first_offer(seen, cfg, c) by {}
            }
            let wanted = samples.size() == config.chunk_size && samples.height()
                == config.chunk_height && coord.distance(&center) <= radius;
            let present = fnv_map_contains_key(&self.chunks, coord.key());
            assert(present == prior.loaded(coord));
            if wanted && !present {
                match Chunk::with_dimensions(coord, config.chunk_size, config.chunk_height) {
                    Some(mut chunk) => {
                        let _ = self.terrain_generator.generate_chunk(&mut chunk, samples);
                        let ghost made = chunk;
                        let _ = fnv_map_insert(&mut self.chunks, coord.key(), chunk);
                        self.loaded_chunks.push(coord);
                        proof {
                            lemma_coord_of_key(coord);
                            assert(!prior.loaded_chunks@.contains(coord));
                            assert forall|c: ChunkCoord| c != coord implies c.spec_key()
                                != coord.spec_key() by {
                                lemma_key_injective(c, coord);
                            }
                            assert(made_by_rules(cfg, made)) by {
                                assert(made@ == terrain_of(cfg, *samples));
                            }
                            assert(chunk_fits(cfg, coord, made));
                            lemma_push_keeps(prior.loaded_chunks@, coord);
                            assert(self.wf()) by {
                                assert forall|k: u64| #[trigger]
                                    self.chunks@.contains_key(k) implies {
                                    &&& coord_of_key(k).spec_key() == k
                                    &&& self.loaded_chunks@.contains(coord_of_key(k))
                                    &&& chunk_fits(cfg, coord_of_key(k), self.chunks@[k])
                                } by {
                                    if k != coord.spec_key() {
                                        assert(prior.chunks@.contains_key(k));
                                    }
                                }
                            }
                            assert(first_offer(seen, cfg, coord) is None);
                            assert(first_offer(next, cfg, coord) == Some(*samples));
                            assert(!old(self).loaded(coord));
                            assert(self.loaded(coord));
                            assert(self@[coord] == made);
                            assert forall|c: ChunkCoord| c != coord implies (self.loaded(c)
                                == prior.loaded(c)) && (prior.loaded(c) ==> self@[c]
                                == prior@[c]) by {}
                            assert forall|c: ChunkCoord|
                                #![trigger self.loaded(c)]
                                self.loaded(c) <==> old(self).loaded(c) || (chebyshev(c, center)
                                    <= radius && first_offer(next, cfg, c) is Some) by {
                                if c != coord {
                                    assert(prior.loaded(c) == self.loaded(c));
                                }
                            }
                            assert forall|c: ChunkCoord|
                                #![trigger self@[c]]
                                old(self).loaded(c) implies self@[c] == old(self)@[c] by {
                                assert(prior.loaded(c));
                                assert(prior@[c] == old(self)@[c]);
                            }
                            assert forall|c: ChunkCoord|
                                #![trigger self@[c]]
                                self.loaded(c) && !old(self).loaded(c) implies self@[c]@
                                    == terrain_of(cfg, first_offer(next, cfg, c)->Some_0) by {
                                if c != coord {
                                    assert(prior.loaded(c));
                                    assert(prior@[c]@ == terrain_of(
                                        cfg,
                                        first_offer(seen, cfg, c)->Some_0,
                                    ));
                                }
                            }
                        }
                    },
                    None => {},
                }
            } else {
                proof {
                    if wanted {
                        assert(prior.loaded_chunks@.contains(coord));
                    }
                    assert forall|c: ChunkCoord|
                        #![trigger self.loaded(c)]
                        self.loaded(c) <==> old(self).loaded(c) || (chebyshev(c, center) <= radius
                            && first_offer(next, cfg, c) is Some) by {
                        assert(prior.loaded(c) == self.loaded(c));
                    }
                    assert forall|c: ChunkCoord|
                        #![trigger self@[c]]
                        self.loaded(c) && !old(self).loaded(c) implies self@[c]@ == terrain_of(
                        cfg,
                        first_offer(next, cfg, c)->Some_0,
                    ) by {
                        assert(prior.loaded(c));
                        assert(prior@[c]@ == terrain_of(cfg, first_offer(seen, cfg, c)->Some_0));
                    }
                }
            }
            i += 1;
        }
        assert(terrain@.take(terrain.len() as int) =~= terrain@);
    }

    /// Drops every loaded chunk that is further than `keep` chunks from
    /// `center`; the others stay as they are, in their order.
    pub fn evict_beyond(&mut self, center: ChunkCoord, keep: i64)
        requires
            old(self).wf(),
        ensures
            final(self).wf(),
            final(self).spec_config() == old(self).spec_config(),
            final(self).spec_seed() == old(self).spec_seed(),
            final(self).spec_loaded_chunks() == kept_within(
                old(self).spec_loaded_chunks(),
                center,
                keep as int,
            ),
            forall|c: ChunkCoord|
                #![trigger final(self).loaded(c)]
                final(self).loaded(c) <==> old(self).loaded(c) && chebyshev(c, center) <= keep,
            forall|c: ChunkCoord|
                #![trigger final(self)@[c]]
                final(self).loaded(c) ==> final(self)@[c] == old(self)@[c],
    {
        let ghost cfg = self.spec_config();
        let ghost listed = self.loaded_chunks@;
        let mut kept: Vec<ChunkCoord> = Vec::new();
        let mut i: usize = 0;
        proof {
            old(self).lemma_wf();
            assert(listed.take(0) =~= Seq::<ChunkCoord>::empty());
        }
        while i < self.loaded_chunks.len()
            invariant
                i <= listed.len(),
                old(self).wf(),
                listed == old(self).loaded_chunks@,
                self.loaded_chunks@ == listed,
                self.terrain_generator == old(self).terrain_generator,
                kept@ == kept_within(listed.take(i as int), center, keep as int),
                kept@.no_duplicates(),
                forall|c: ChunkCoord|
                    #![trigger kept@.contains(c)]
                    kept@.contains(c) <==> listed.take(i as int).contains(c) && chebyshev(
                        c,
                        center,
                    ) <= keep,
                forall|k: u64|
                    #![trigger self.chunks@.contains_key(k)]
                    self.chunks@.contains_key(k) <==> old(self).chunks@.contains_key(k) && !(
                    chebyshev(coord_of_key(k), center) > keep && listed.take(i as int).contains(
                        coord_of_key(k),
                    )),
                forall|k: u64|
                    #![trigger self.chunks@[k]]
                    self.chunks@.contains_key(k) ==> self.chunks@[k] == old(self).chunks@[k],
            decreases listed.len() - i,
        {
            let coord = self.loaded_chunks[i];
            let ghost seen = listed.take(i as int);
            let ghost next = listed.take(i + 1);
            let ghost prior = self.chunks@;
            proof {
                assert(next.drop_last() =~= seen);
                assert(next.last() == coord);
                lemma_coord_of_key(coord);
                assert(!seen.contains(coord)) by {
                    if seen.contains(coord) {
                        let j = choose|j: int| 0 <= j < seen.len() && seen[j] == coord;
                        assert(listed[j] == coord && listed[i as int] == coord);
                    }
                }
                assert forall|c: ChunkCoord| next.contains(c) <==> c == coord || seen.contains(
                    c,
                ) by {
                    if next.contains(c) {
                        let j = choose|j: int| 0 <= j < next.len() && next[j] == c;
                        if j < i {
                            assert(seen[j] == c);
                        }
                    }
                    if seen.contains(c) {
                        let j = choose|j: int| 0 <= j < seen.len() && seen[j] == c;
                        assert(next[j] == c);
                    }
                    assert(next[i as int] == coord);
                }
            }
            if coord.distance(&center) > keep {
                let _ = fnv_map_remove(&mut self.chunks, coord.key());
                proof {
                    assert forall|k: u64|
                        #![trigger self.chunks@.contains_key(k)]
                        self.chunks@.contains_key(k) <==> old(self).chunks@.contains_key(k) && !(
                        chebyshev(coord_of_key(k), center) > keep && next.contains(
                            coord_of_key(k),
                        )) by {
                        assert(prior.contains_key(k) || !prior.contains_key(k));
                        if old(self).chunks@.contains_key(k) {
                            assert(coord_of_key(k).spec_key() == k);
                        }
                    }
                }
            } else {
                kept.push(coord);
                proof {
                    let shorter = kept_within(seen, center, keep as int);
                    lemma_push_keeps(shorter, coord);
                    assert forall|k: u64|
                        #![trigger self.chunks@.contains_key(k)]
                        self.chunks@.contains_key(k) <==> old(self).chunks@.contains_key(k) && !(
                        chebyshev(coord_of_key(k), center) > keep && next.contains(
                            coord_of_key(k),
                        )) by {
                        assert(prior.contains_key(k) || !prior.contains_key(k));
                    }
                }
            }
            i += 1;
        }
        proof {
            assert(listed.take(listed.len() as int) =~= listed);
        }
        self.loaded_chunks = kept;
        proof {
            assert forall|j: int| 0 <= j < self.loaded_chunks@.len() implies self.chunks@.contains_key(
                (#[trigger] self.loaded_chunks@[j]).spec_key(),
            ) by {
                let c = self.loaded_chunks@[j];
                assert(kept@.contains(c));
                lemma_coord_of_key(c);
                assert(old(self).loaded(c));
            }
            assert forall|k: u64| #[trigger] self.chunks@.contains_key(k) implies {
                &&& coord_of_key(k).spec_key() == k
                &&& self.loaded_chunks@.contains(coord_of_key(k))
                &&& chunk_fits(cfg, coord_of_key(k), self.chunks@[k])
            } by {
                assert(old(self).chunks@.contains_key(k));
                assert(kept@.contains(coord_of_key(k)));
            }
            assert(self.wf());
            assert forall|c: ChunkCoord|
                #![trigger self.loaded(c)]
                self.loaded(c) <==> old(self).loaded(c) && chebyshev(c, center) <= keep by {
                lemma_coord_of_key(c);
                if old(self).loaded(c) {
                    assert(listed.contains(c));
                }
            }
        }
    }

    /// Brings the loaded chunks in line with the observer's position. The
    /// centre is the chunk that holds the observer. First, chunks within the
    /// render distance of the centre are loaded from the samples offered, as
    /// `load_offered` does; then every loaded chunk further from the centre
    /// than the render distance and the eviction margin together is dropped.
    pub fn update_chunks(&mut self, player_pos: WorldPosition, terrain: &Vec<ChunkSamples>)
        requires
            old(self).wf(),
        ensures
            final(self).wf(),
            final(self).spec_config() == old(self).spec_config(),
            final(self).spec_seed() == old(self).spec_seed(),
            ({
                let cfg = old(self).spec_config();
                let center = chunk_of(cfg, player_pos.x as int, player_pos.z as int);
                let near = cfg.render_distance as int;
                let keep = cfg.render_distance + cfg.eviction_margin;
                &&& final(self).spec_loaded_chunks() == kept_within(
                    loaded_after(old(self).spec_loaded_chunks(), terrain@, cfg, center, near),
                    center,
                    keep,
                )
                &&& streamed(*old(self), *final(self), center, terrain@)
                &&& forall|c: ChunkCoord|
                    #![trigger final(self)@[c]]
                    final(self).loaded(c) && old(self).loaded(c) ==> final(self)@[c] == old(
                        self,
                    )@[c]
                &&& forall|c: ChunkCoord|
                    #![trigger final(self)@[c]]
                    final(self).loaded(c) && !old(self).loaded(c) ==> final(self)@[c]@
                        == terrain_of(cfg, first_offer(terrain@, cfg, c)->Some_0)
            }),
    {
        let config = self.terrain_generator.config();
        let center = ChunkCoord::containing(player_pos.x, player_pos.z, config.chunk_size);
        let near: i64 = config.render_distance as i64;
        let keep: i64 = config.render_distance as i64 + config.eviction_margin as i64;
        self.load_offered(center, near, terrain);
        let ghost filled = *self;
        self.evict_beyond(center, keep);
        proof {
            assert forall|c: ChunkCoord|
                #![trigger self@[c]]
                self.loaded(c) && old(self).loaded(c) implies self@[c] == old(self)@[c] by {
                assert(filled.loaded(c));
                assert(filled@[c] == old(self)@[c]);
            }
            assert forall|c: ChunkCoord|
                #![trigger self@[c]]
                self.loaded(c) && !old(self).loaded(c) implies self@[c]@ == terrain_of(
                old(self).spec_config(),
                first_offer(terrain@, old(self).spec_config(), c)->Some_0,
            ) by {
                assert(filled.loaded(c));
                assert(filled@[c]@ == terrain_of(
                    old(self).spec_config(),
                    first_offer(terrain@, old(self).spec_config(), c)->Some_0,
                ));
            }
            assert forall|c: ChunkCoord|
                #![trigger self.loaded(c)]
                self.loaded(c) <==> chebyshev(c, center) <= keep && (old(self).loaded(c) || (
                chebyshev(c, center) <= near && first_offer(
                    terrain@,
                    old(self).spec_config(),
                    c,
                ) is Some)) by {
                assert(filled.loaded(c) || !filled.loaded(c));
            }
        }
    }

    /// The height at which an entity stands in the column of a fixed-point
    /// position, in thousandths of a block: one and a half blocks above the
    /// level of the topmost solid block. Where the chunk is not loaded, or
    /// the column holds no solid block, the result is five blocks above the
    /// sea level, which is a guess and no measurement.
    pub fn get_surface_height(&self, world_x: i64, world_z: i64) -> (h: i64)
        requires
            self.wf(),
        ensures
            h == self.surface_at(world_x as int, world_z as int),
    {
        let config = self.terrain_generator.config();
        let coord = ChunkCoord::containing(world_x, world_z, config.chunk_size);
        proof {
            self.lemma_wf();
        }
        if let Some(chunk) = self.get_chunk(coord) {
            let (local_x, local_z) = chunk.world_to_local(world_x, world_z);
            if let Some(level) = chunk.top_solid_level(local_x, local_z) {
                proof {
                    crate::chunk::lemma_top_solid(
                        *chunk,
                        local_x as int,
                        local_z as int,
                        chunk.spec_height() as int,
                    );
                }
                return level as i64 * UNITS_PER_BLOCK + 1500;
            }
        }
        (config.sea_level as i64 + 5) * UNITS_PER_BLOCK
    }

    /// Whether the block at a fixed-point position is solid.
    pub fn is_solid_at(&self, world_x: i64, world_y: i64, world_z: i64) -> (b: bool)
        requires
            self.wf(),
        ensures
            b == solid(self.block_at(world_x as int, world_y as int, world_z as int)),
    {
        self.get_block_at(world_x, world_y, world_z).is_solid()
    }
}

} // verus!
