//! Noise samples: what the terrain rules read of the three noise fields.
//!
//! A sample is a value of a noise field as a fixed-point number in
//! millionths. The height and biome fields are sampled once for each column
//! of a chunk, the cave field once for each cell.

use crate::config::{MAX_CHUNK_HEIGHT, MAX_CHUNK_SIZE};
use crate::coord::ChunkCoord;
use vstd::prelude::*;

verus! {

/// Fixed-point units in one whole of a noise value.
pub const NOISE_UNIT: i32 = 1000000;

/// The height field is sampled at a column's world coordinates divided by
/// this number.
pub const HEIGHT_SCALE_DIVISOR: i32 = 100;

/// The biome field is sampled at a column's world coordinates divided by
/// this number.
pub const BIOME_SCALE_DIVISOR: i32 = 200;

/// The cave field is sampled at a cell's world coordinates divided by this
/// number.
pub const CAVE_SCALE_DIVISOR: i32 = 20;

/// The samples of one column: one of the height field, one of the biome
/// field, and one of the cave field for each level from the bottom up.
#[derive(Debug)]
pub struct ColumnSamples {
    pub height: i32,
    pub biome: i32,
    pub caves: Vec<i32>,
}

/// The samples of every column of one chunk, the column at local index
/// `(x, z)` at place `x * size + z`.
pub struct ChunkSamples {
    coord: ChunkCoord,
    size: usize,
    height: usize,
    columns: Vec<ColumnSamples>,
}

/// Whether `columns` holds samples for every cell of a chunk of the given
/// dimensions.
pub open spec fn covers(columns: Seq<ColumnSamples>, size: int, height: int) -> bool {
    &&& 1 <= size <= MAX_CHUNK_SIZE
    &&& 1 <= height <= MAX_CHUNK_HEIGHT
    &&& columns.len() == size * size
    &&& forall|i: int| 0 <= i < columns.len() ==> (#[trigger] columns[i]).caves@.len() == height
}

impl ChunkSamples {
    #[verifier::type_invariant]
    closed spec fn inv(self) -> bool {
        covers(self.columns@, self.size as int, self.height as int)
    }

    /// The chunk that the samples were drawn for.
    pub closed spec fn spec_coord(&self) -> ChunkCoord {
        self.coord
    }

    /// Side length, in blocks, of the chunk that the samples cover.
    pub closed spec fn spec_size(&self) -> usize {
        self.size
    }

    /// Height, in blocks, of the chunk that the samples cover.
    pub closed spec fn spec_height(&self) -> usize {
        self.height
    }

    /// The columns as they were handed in.
    pub closed spec fn columns(&self) -> Seq<ColumnSamples> {
        self.columns@
    }

    /// The sample of the height field for the column at `(x, z)`.
    pub open spec fn height_noise(&self, x: int, z: int) -> int {
        self.columns()[x * self.spec_size() + z].height as int
    }

    /// The sample of the biome field for the column at `(x, z)`.
    pub open spec fn biome_noise(&self, x: int, z: int) -> int {
        self.columns()[x * self.spec_size() + z].biome as int
    }

    /// The sample of the cave field for the cell at `(x, y, z)`.
    pub open spec fn cave_noise(&self, x: int, y: int, z: int) -> int {
        self.columns()[x * self.spec_size() + z].caves@[y] as int
    }

    /// Takes the samples of a chunk, where the dimensions are in range and
    /// `columns` has one column for each `(x, z)` and, in each, one cave
    /// sample for each level.
    pub fn new(coord: ChunkCoord, size: usize, height: usize, columns: Vec<ColumnSamples>) -> (r:
        Option<Self>)
        ensures
            r is Some <==> covers(columns@, size as int, height as int),
            r is Some ==> {
                let s = r->Some_0;
                &&& s.spec_coord() == coord
                &&& s.spec_size() == size
                &&& s.spec_height() == height
                &&& s.columns() == columns@
            },
    {
        if size < 1 || size > MAX_CHUNK_SIZE || height < 1 || height > MAX_CHUNK_HEIGHT {
            return None;
        }
        assert(size * size <= 1024 * 1024) by (nonlinear_arith)
            requires
                1 <= size <= 1024,
        ;
        if columns.len() != size * size {
            return None;
        }
        let mut i: usize = 0;
        while i < columns.len()
            invariant
                i <= columns.len(),
                forall|j: int| 0 <= j < i ==> (#[trigger] columns@[j]).caves@.len() == height,
            decreases columns.len() - i,
        {
            if columns[i].caves.len() != height {
                return None;
            }
            i += 1;
        }
        Some(Self { coord, size, height, columns })
    }

    #[verifier::when_used_as_spec(spec_coord)]
    pub fn coord(&self) -> (c: ChunkCoord)
        ensures
            c == self.spec_coord(),
    {
        self.coord
    }

    #[verifier::when_used_as_spec(spec_size)]
    pub fn size(&self) -> (s: usize)
        ensures
            s == self.spec_size(),
    {
        self.size
    }

    #[verifier::when_used_as_spec(spec_height)]
    pub fn height(&self) -> (h: usize)
        ensures
            h == self.spec_height(),
    {
        self.height
    }

    /// The samples of the column at local index `(x, z)`.
    pub fn column(&self, x: usize, z: usize) -> (c: &ColumnSamples)
        requires
            x < self.spec_size(),
            z < self.spec_size(),
        ensures
            covers(self.columns(), self.spec_size() as int, self.spec_height() as int),
            0 <= x * self.spec_size() + z < self.columns().len(),
            *c == self.columns()[x * self.spec_size() + z],
            c.caves@.len() == self.spec_height(),
    {
        proof {
            use_type_invariant(self);
            lemma_column_index(x as int, z as int, self.size as int);
            assert(self.size * self.size <= 1024 * 1024) by (nonlinear_arith)
                requires
                    1 <= self.size <= 1024,
            ;
        }
        &self.columns[x * self.size + z]
    }
}

/// The place of a column lies within the columns of its chunk.
pub proof fn lemma_column_index(x: int, z: int, size: int)
    requires
        0 <= x < size,
        0 <= z < size,
    ensures
        0 <= x * size + z < size * size,
        0 <= x * size <= size * size - size,
{
    assert(x * size <= (size - 1) * size) by (nonlinear_arith)
        requires
            0 <= x <= size - 1,
            size > 0,
    ;
    assert((size - 1) * size == size * size - size) by (nonlinear_arith);
    assert(0 <= x * size) by (nonlinear_arith)
        requires
            0 <= x,
            0 < size,
    ;
}

} // verus!
