//! The spawn finder: a search for a place to stand near a preferred point.

use crate::config::WorldConfig;
use crate::coord::{chebyshev, ChunkCoord, WorldPosition, UNITS_PER_BLOCK};
use crate::samples::ChunkSamples;
use crate::terrain::terrain_of;
use crate::world::{chunk_of, first_offer, loaded_after, World};
use vstd::prelude::*;

verus! {

/// The largest radius of the search, in steps of two blocks.
pub const SEARCH_RADIUS: i64 = 10;

/// How many directions the search looks in at each radius.
pub const SEARCH_ANGLES: i64 = 8;

/// The cosine of `angle` eighths of a turn, in thousandths.
pub open spec fn direction_x(angle: int) -> int {
    if angle == 0 {
        1000
    } else if angle == 1 || angle == 7 {
        707
    } else if angle == 2 || angle == 6 {
        0
    } else if angle == 3 || angle == 5 {
        -707
    } else {
        -1000
    }
}

/// The sine of `angle` eighths of a turn, in thousandths.
pub open spec fn direction_z(angle: int) -> int {
    if angle == 0 || angle == 4 {
        0
    } else if angle == 1 || angle == 3 {
        707
    } else if angle == 2 {
        1000
    } else if angle == 5 || angle == 7 {
        -707
    } else {
        -1000
    }
}

/// A coordinate moved by an offset, kept within the range of `i64`.
pub open spec fn shifted(p: int, d: int) -> int {
    if p + d > i64::MAX as int {
        i64::MAX as int
    } else if p + d < i64::MIN as int {
        i64::MIN as int
    } else {
        p + d
    }
}

/// The `k`-th candidate of the search round a preferred point: at radius
/// `k / 8 + 1` and angle `k % 8` eighths of a turn, the point two blocks
/// times the radius away from the preferred point in that direction.
pub open spec fn candidate(x: int, z: int, k: int) -> (int, int) {
    let radius = k / 8 + 1;
    let angle = k % 8;
    (shifted(x, direction_x(angle) * radius * 2), shifted(z, direction_z(angle) * radius * 2))
}

/// Whether a standing height is fit to spawn at: above the sea level and
/// more than five blocks below the top of the world.
pub open spec fn acceptable(cfg: WorldConfig, height: int) -> bool {
    cfg.sea_level * 1000 < height < (cfg.world_height() - 5) * 1000
}

/// The position used where the search finds nothing: the preferred point,
/// ten blocks above the sea level.
pub open spec fn fallback_spawn(cfg: WorldConfig, x: int, z: int) -> WorldPosition {
    WorldPosition { x: x as i64, y: ((cfg.sea_level + 10) * 1000) as i64, z: z as i64 }
}

/// The direction of `angle` eighths of a turn, in thousandths.
fn direction(angle: i64) -> (d: (i64, i64))
    requires
        0 <= angle < 8,
    ensures
        d.0 == direction_x(angle as int),
        d.1 == direction_z(angle as int),
{
    if angle == 0 {
        (1000, 0)
    } else if angle == 1 {
        (707, 707)
    } else if angle == 2 {
        (0, 1000)
    } else if angle == 3 {
        (-707, 707)
    } else if angle == 4 {
        (-1000, 0)
    } else if angle == 5 {
        (-707, -707)
    } else if angle == 6 {
        (0, -1000)
    } else {
        (707, -707)
    }
}

/// A coordinate moved by an offset, kept within the range of `i64`.
fn shift(p: i64, d: i64) -> (r: i64)
    requires
        -20000 <= d <= 20000,
    ensures
        r == shifted(p as int, d as int),
{
    if d > 0 && p > 9223372036854775807 - d {
        9223372036854775807
    } else if d < 0 && p < -9223372036854775807 - 1 - d {
        -9223372036854775807 - 1
    } else {
        p + d
    }
}

impl World {
    /// The place in the search of the first candidate, from place `from`
    /// on, whose standing height is acceptable; the number of candidates
    /// where there is none.
    pub open spec fn first_safe(&self, x: int, z: int, from: int) -> int
        decreases 80 - from,
    {
        if from >= 80 {
            80
        } else {
            let at = candidate(x, z, from);
            if acceptable(self.spec_config(), self.surface_at(at.0, at.1)) {
                from
            } else {
                self.first_safe(x, z, from + 1)
            }
        }
    }

    /// Where the search ends for a preferred point: at the preferred point,
    /// where its standing height is acceptable; else at the first candidate
    /// whose standing height is; else at the fallback position.
    pub open spec fn spawn_point(&self, x: int, z: int) -> WorldPosition {
        let here = self.surface_at(x, z);
        let k = self.first_safe(x, z, 0);
        if acceptable(self.spec_config(), here) {
            WorldPosition { x: x as i64, y: here as i64, z: z as i64 }
        } else if k < 80 {
            let at = candidate(x, z, k);
            WorldPosition { x: at.0 as i64, y: self.surface_at(at.0, at.1) as i64, z: at.1 as i64 }
        } else {
            fallback_spawn(self.spec_config(), x, z)
        }
    }

    /// Whether a standing height is fit to spawn at in this world.
    pub fn is_acceptable(&self, height: i64) -> (b: bool)
        ensures
            b == acceptable(self.spec_config(), height as int),
    {
        let config = self.config();
        height > config.sea_level as i64 * UNITS_PER_BLOCK && height < (config.chunk_height as i64
            - 5) * UNITS_PER_BLOCK
    }

    /// Searches the chunks that are loaded for a place to stand near a
    /// preferred point. The result is never under water or near the top of
    /// the world, unless it is the fallback position.
    pub fn spawn_position(&self, preferred_x: i64, preferred_z: i64) -> (p: WorldPosition)
        requires
            self.wf(),
        ensures
            p == self.spawn_point(preferred_x as int, preferred_z as int),
            acceptable(self.spec_config(), p.y as int) || p == fallback_spawn(
                self.spec_config(),
                preferred_x as int,
                preferred_z as int,
            ),
    {
        let config = self.config();
        let here = self.get_surface_height(preferred_x, preferred_z);
        if self.is_acceptable(here) {
            return WorldPosition { x: preferred_x, y: here, z: preferred_z };
        }
        let mut radius: i64 = 1;
        while radius <= SEARCH_RADIUS
            invariant
                1 <= radius <= 11,
                self.wf(),
                config == self.spec_config(),
                !acceptable(
                    self.spec_config(),
                    self.surface_at(preferred_x as int, preferred_z as int),
                ),
                self.first_safe(preferred_x as int, preferred_z as int, 0) == self.first_safe(
                    preferred_x as int,
                    preferred_z as int,
                    (radius - 1) * 8,
                ),
            decreases 11 - radius,
        {
            let mut angle: i64 = 0;
            while angle < SEARCH_ANGLES
                invariant
                    1 <= radius <= 10,
                    0 <= angle <= 8,
                    self.wf(),
                    config == self.spec_config(),
                    !acceptable(
                        self.spec_config(),
                        self.surface_at(preferred_x as int, preferred_z as int),
                    ),
                    self.first_safe(preferred_x as int, preferred_z as int, 0) == self.first_safe(
                        preferred_x as int,
                        preferred_z as int,
                        (radius - 1) * 8 + angle,
                    ),
                decreases 8 - angle,
            {
                let toward = direction(angle);
                let search_x = shift(preferred_x, toward.0 * radius * 2);
                let search_z = shift(preferred_z, toward.1 * radius * 2);
                let found = self.get_surface_height(search_x, search_z);
                proof {
                    let k = (radius - 1) * 8 + angle;
                    assert(k / 8 + 1 == radius && k % 8 == angle);
                    assert(candidate(preferred_x as int, preferred_z as int, k) == (
                        search_x as int,
                        search_z as int,
                    ));
                }
                if self.is_acceptable(found) {
                    return WorldPosition { x: search_x, y: found, z: search_z };
                }
                angle += 1;
            }
            radius += 1;
        }
        WorldPosition {
            x: preferred_x,
            y: (config.sea_level as i64 + 10) * UNITS_PER_BLOCK,
            z: preferred_z,
        }
    }

    /// Finds a place to stand near a preferred point. First the chunks
    /// round the chunk of the preferred point, three by three, are loaded
    /// from the samples offered, as `load_offered` does; then the loaded
    /// chunks are searched, as `spawn_position` does.
    pub fn find_safe_spawn_position(
        &mut self,
        preferred_x: i64,
        preferred_z: i64,
        terrain: &Vec<ChunkSamples>,
    ) -> (p: WorldPosition)
        requires
            old(self).wf(),
        ensures
            final(self).wf(),
            final(self).spec_config() == old(self).spec_config(),
            final(self).spec_seed() == old(self).spec_seed(),
            ({
                let cfg = old(self).spec_config();
                let center = chunk_of(cfg, preferred_x as int, preferred_z as int);
                &&& final(self).spec_loaded_chunks() == loaded_after(
                    old(self).spec_loaded_chunks(),
                    terrain@,
                    cfg,
                    center,
                    1,
                )
                &&& forall|c: ChunkCoord|
                    #![trigger final(self).loaded(c)]
                    final(self).loaded(c) <==> old(self).loaded(c) || (chebyshev(c, center) <= 1
                        && first_offer(terrain@, cfg, c) is Some)
                &&& forall|c: ChunkCoord|
                    #![trigger final(self)@[c]]
                    old(self).loaded(c) ==> final(self)@[c] == old(self)@[c]
                &&& forall|c: ChunkCoord|
                    #![trigger final(self)@[c]]
                    final(self).loaded(c) && !old(self).loaded(c) ==> final(self)@[c]@
                        == terrain_of(cfg, first_offer(terrain@, cfg, c)->Some_0)
            }),
            p == final(self).spawn_point(preferred_x as int, preferred_z as int),
            acceptable(old(self).spec_config(), p.y as int) || p == fallback_spawn(
                old(self).spec_config(),
                preferred_x as int,
                preferred_z as int,
            ),
    {
        let config = self.config();
        let spawn_chunk = ChunkCoord::containing(preferred_x, preferred_z, config.chunk_size);
        self.load_offered(spawn_chunk, 1, terrain);
        self.spawn_position(preferred_x, preferred_z)
    }
}

} // verus!
