//! Fixed-point world positions and the horizontal grid of chunks.

use vstd::prelude::*;

verus! {

/// Fixed-point units in one block: a position is counted in thousandths.
pub const UNITS_PER_BLOCK: i64 = 1000;

/// Side length of a chunk, in blocks, where no other is configured.
pub const CHUNK_SIZE: usize = 8;

/// A point in the world, each coordinate in thousandths of a block.
#[derive(Debug, Clone, Copy, PartialEq, Eq, Structural)]
pub struct WorldPosition {
    pub x: i64,
    pub y: i64,
    pub z: i64,
}

/// The position of a chunk in the horizontal grid of chunks.
#[derive(Debug, Clone, Copy, PartialEq, Eq, Structural, Hash)]
pub struct ChunkCoord {
    pub x: i32,
    pub z: i32,
}

/// The block that holds a fixed-point coordinate: the floor of the
/// coordinate in blocks.
pub open spec fn block_of(world: int) -> int {
    world / 1000
}

/// The quotient of `a` by `b`, rounded towards minus infinity.
pub open spec fn floor_quotient(a: int, b: int) -> int
    recommends
        b > 0,
{
    a / b
}

/// A grid index brought into the range of `i32`.
pub open spec fn saturate(v: int) -> int {
    if v < i32::MIN as int {
        i32::MIN as int
    } else if v > i32::MAX as int {
        i32::MAX as int
    } else {
        v
    }
}

/// The grid index of the chunk that holds a fixed-point coordinate, for
/// chunks of `chunk_size` blocks: the floor of the block coordinate divided
/// by the side length, kept within `i32`.
pub open spec fn chunk_index(world: int, chunk_size: int) -> int
    recommends
        chunk_size > 0,
{
    saturate(block_of(world) / chunk_size)
}

/// The absolute value of an integer.
pub open spec fn abs(v: int) -> int {
    if v < 0 {
        -v
    } else {
        v
    }
}

/// Chebyshev distance between two chunk coordinates, in chunks.
pub open spec fn chebyshev(a: ChunkCoord, b: ChunkCoord) -> int {
    let dx = abs(a.x - b.x);
    let dz = abs(a.z - b.z);
    if dx >= dz {
        dx
    } else {
        dz
    }
}

/// Division rounded towards minus infinity.
pub fn floor_div(a: i64, b: i64) -> (q: i64)
    requires
        b > 0,
    ensures
        q == floor_quotient(a as int, b as int),
{
    if a >= 0 {
        a / b
    } else {
        let n: i64 = -(a + 1);
        proof {
            lemma_floor_of_negative(a as int, b as int);
        }
        -(n / b) - 1
    }
}

/// For a negative dividend, the floor quotient is one less than the
/// negated quotient of `-(a + 1)`.
proof fn lemma_floor_of_negative(a: int, b: int)
    requires
        a < 0,
        b > 0,
    ensures
        a / b == -((-(a + 1)) / b) - 1,
        0 <= (-(a + 1)) / b <= -(a + 1),
{
    let n = -(a + 1);
    let q = n / b;
    let r = n % b;
    vstd::arithmetic::div_mod::lemma_fundamental_div_mod(n, b);
    vstd::arithmetic::div_mod::lemma_div_pos_is_pos(n, b);
    vstd::arithmetic::div_mod::lemma_div_is_ordered_by_denominator(n, 1, b);
    vstd::arithmetic::div_mod::lemma_div_basics(n);
    vstd::arithmetic::div_mod::lemma_mod_bound(n, b);
    // a = -n - 1 = b * (-q - 1) + (b - 1 - r), with 0 <= b - 1 - r < b
    assert(a == b * (-q - 1) + (b - 1 - r)) by (nonlinear_arith)
        requires
            n == b * q + r,
            a == -n - 1,
    ;
    vstd::arithmetic::div_mod::lemma_fundamental_div_mod_converse(a, b, -q - 1, b - 1 - r);
}

impl ChunkCoord {
    /// The coordinate with the given grid indices.
    pub fn new(x: i32, z: i32) -> (c: Self)
        ensures
            c.x == x,
            c.z == z,
    {
        Self { x, z }
    }

    /// The chunk that holds a fixed-point position, for chunks of
    /// `chunk_size` blocks.
    pub fn containing(world_x: i64, world_z: i64, chunk_size: usize) -> (c: Self)
        requires
            0 < chunk_size,
        ensures
            c.x == chunk_index(world_x as int, chunk_size as int),
            c.z == chunk_index(world_z as int, chunk_size as int),
    {
        Self {
            x: grid_index(world_x, chunk_size),
            z: grid_index(world_z, chunk_size),
        }
    }

    /// The chunk that holds a fixed-point position, for chunks of
    /// `CHUNK_SIZE` blocks.
    pub fn from_world_pos(world_x: i64, world_z: i64) -> (c: Self)
        ensures
            c.x == chunk_index(world_x as int, CHUNK_SIZE as int),
            c.z == chunk_index(world_z as int, CHUNK_SIZE as int),
    {
        Self::containing(world_x, world_z, CHUNK_SIZE)
    }

    /// Chebyshev distance to another chunk coordinate.
    pub fn distance(&self, other: &ChunkCoord) -> (d: i64)
        ensures
            d == chebyshev(*self, *other),
            0 <= d <= 4294967295,
    {
        let dx: i64 = self.x as i64 - other.x as i64;
        let dz: i64 = self.z as i64 - other.z as i64;
        let ax: i64 = if dx < 0 { -dx } else { dx };
        let az: i64 = if dz < 0 { -dz } else { dz };
        if ax >= az {
            ax
        } else {
            az
        }
    }

    /// The key under which a chunk is stored: both indices, shifted to
    /// be non-negative, side by side in one integer.
    pub open spec fn spec_key(self) -> u64 {
        ((self.x + 2147483648) * 4294967296 + (self.z + 2147483648)) as u64
    }

    /// The storage key of this coordinate; distinct coordinates have
    /// distinct keys.
    pub fn key(&self) -> (k: u64)
        ensures
            k == self.spec_key(),
    {
        let hi: u64 = (self.x as i64 + 2147483648) as u64;
        let lo: u64 = (self.z as i64 + 2147483648) as u64;
        hi * 4294967296 + lo
    }
}

/// The grid index of the chunk that holds one fixed-point coordinate.
fn grid_index(world: i64, chunk_size: usize) -> (i: i32)
    requires
        0 < chunk_size,
    ensures
        i == chunk_index(world as int, chunk_size as int),
{
    let block: i64 = floor_div(world, UNITS_PER_BLOCK);
    let wide: u64 = chunk_size as u64;
    if wide > 4611686018427387904 {
        // a chunk wider than the range of positions: every block lies in
        // the chunk at 0 or in the one before it
        proof {
            if block >= 0 {
                vstd::arithmetic::div_mod::lemma_fundamental_div_mod_converse(
                    block as int,
                    chunk_size as int,
                    0,
                    block as int,
                );
            } else {
                vstd::arithmetic::div_mod::lemma_fundamental_div_mod_converse(
                    block as int,
                    chunk_size as int,
                    -1,
                    block + chunk_size,
                );
            }
        }
        return if block >= 0 { 0 } else { -1 };
    }
    let index: i64 = floor_div(block, wide as i64);
    if index < -2147483648 {
        -2147483648
    } else if index > 2147483647 {
        2147483647
    } else {
        index as i32
    }
}

/// Distinct chunk coordinates have distinct storage keys.
pub proof fn lemma_key_injective(a: ChunkCoord, b: ChunkCoord)
    ensures
        a.spec_key() == b.spec_key() <==> a == b,
{
}

} // verus!
