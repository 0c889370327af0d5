//! A chunk: a fixed-size grid of blocks in sparse storage.

use crate::block::{solid, BlockType};
use crate::config::{CHUNK_HEIGHT, MAX_CHUNK_HEIGHT, MAX_CHUNK_SIZE};
use crate::coord::{floor_div, ChunkCoord, CHUNK_SIZE, UNITS_PER_BLOCK};
use crate::fnv_map::{fnv_map_get, fnv_map_insert, fnv_map_new, fnv_map_remove};
use fnv::FnvHashMap;
use vstd::prelude::*;

verus! {

/// A stored block.
#[derive(Debug, Clone, Copy, PartialEq, Eq, Structural)]
pub struct Block {
    pub block_type: BlockType,
}

impl Block {
    /// A block of the given kind.
    pub fn new(block_type: BlockType) -> (b: Self)
        ensures
            b.block_type == block_type,
    {
        Self { block_type }
    }
}

/// The storage key of a local index: the three indices side by side.
#[verifier::opaque]
spec fn pack(x: int, y: int, z: int) -> u64 {
    (x + 65536 * y + 4294967296 * z) as u64
}

/// The first index held in a storage key.
#[verifier::opaque]
spec fn key_x(k: u64) -> int {
    k as int % 65536
}

/// The second index held in a storage key.
#[verifier::opaque]
spec fn key_y(k: u64) -> int {
    (k as int / 65536) % 65536
}

/// The third index held in a storage key.
#[verifier::opaque]
spec fn key_z(k: u64) -> int {
    k as int / 4294967296
}

/// A storage key gives back the indices it was made of.
proof fn lemma_key_of_pack(x: int, y: int, z: int)
    requires
        0 <= x < 65536,
        0 <= y < 65536,
        0 <= z < 65536,
    ensures
        key_x(pack(x, y, z)) == x,
        key_y(pack(x, y, z)) == y,
        key_z(pack(x, y, z)) == z,
        pack(x, y, z) == x + 65536 * y + 4294967296 * z,
{
    reveal(pack);
    reveal(key_x);
    reveal(key_y);
    reveal(key_z);
}

/// Distinct indices have distinct storage keys.
proof fn lemma_pack_injective(x: int, y: int, z: int, u: int, v: int, w: int)
    requires
        0 <= x < 65536,
        0 <= y < 65536,
        0 <= z < 65536,
        0 <= u < 65536,
        0 <= v < 65536,
        0 <= w < 65536,
        pack(x, y, z) == pack(u, v, w),
    ensures
        x == u,
        y == v,
        z == w,
{
    lemma_key_of_pack(x, y, z);
    lemma_key_of_pack(u, v, w);
}

/// The local index of a fixed-point coordinate within the chunk at grid
/// index `chunk_index`: the block's offset from the chunk's origin, brought
/// into `[0, size)`.
pub open spec fn local_index(world: int, chunk_index: int, size: int) -> int {
    let offset = crate::coord::block_of(world) - chunk_index * size;
    if offset < 0 {
        0
    } else if offset > size - 1 {
        size - 1
    } else {
        offset
    }
}

/// The level of the topmost solid block below level `below` in the column
/// at local index `(x, z)` of a chunk, or -1 where the column holds none.
pub open spec fn top_solid(chunk: Chunk, x: int, z: int, below: int) -> int
    decreases below,
{
    if below <= 0 {
        -1
    } else if solid(chunk.block_at(x, below - 1, z)) {
        below - 1
    } else {
        top_solid(chunk, x, z, below - 1)
    }
}

/// The topmost solid block of a column is solid, lies within the levels
/// searched, and has no solid block above it.
pub proof fn lemma_top_solid(chunk: Chunk, x: int, z: int, below: int)
    ensures
        -1 <= top_solid(chunk, x, z, below),
        top_solid(chunk, x, z, below) >= 0 ==> top_solid(chunk, x, z, below) < below && solid(
            chunk.block_at(x, top_solid(chunk, x, z, below), z),
        ),
        forall|y: int|
            top_solid(chunk, x, z, below) < y < below ==> !solid(#[trigger] chunk.block_at(x, y, z)),
    decreases below,
{
    if below > 0 && !solid(chunk.block_at(x, below - 1, z)) {
        lemma_top_solid(chunk, x, z, below - 1);
    }
}

/// The local index of a listed block.
pub open spec fn cell_of(entry: ((usize, usize, usize), BlockType)) -> (int, int, int) {
    (entry.0.0 as int, entry.0.1 as int, entry.0.2 as int)
}

/// The order in which the blocks of a chunk are listed: by `x`, then by
/// `y`, then by `z`.
pub open spec fn cell_before(a: (int, int, int), b: (int, int, int)) -> bool {
    a.0 < b.0 || (a.0 == b.0 && a.1 < b.1) || (a.0 == b.0 && a.1 == b.1 && a.2 < b.2)
}

/// A rectangular column of the voxel grid. Only blocks other than `Air` are
/// stored: an index without an entry holds `Air`.
pub struct Chunk {
    coord: ChunkCoord,
    size: usize,
    height: usize,
    blocks: FnvHashMap<u64, Block>,
    is_generated: bool,
    is_meshed: bool,
}

impl View for Chunk {
    type V = Map<(int, int, int), BlockType>;

    /// The stored entries: each local index that holds a block, with its kind.
    closed spec fn view(&self) -> Map<(int, int, int), BlockType> {
        Map::new(
            |p: (int, int, int)|
                self.in_bounds(p.0, p.1, p.2) && self.blocks@.contains_key(pack(p.0, p.1, p.2)),
            |p: (int, int, int)| self.blocks@[pack(p.0, p.1, p.2)].block_type,
        )
    }
}

impl Chunk {
    pub closed spec fn spec_coord(&self) -> ChunkCoord {
        self.coord
    }

    pub closed spec fn spec_size(&self) -> usize {
        self.size
    }

    pub closed spec fn spec_height(&self) -> usize {
        self.height
    }

    pub closed spec fn spec_is_generated(&self) -> bool {
        self.is_generated
    }

    pub closed spec fn spec_is_meshed(&self) -> bool {
        self.is_meshed
    }

    /// Whether a local index lies within the chunk.
    pub open spec fn in_bounds(&self, x: int, y: int, z: int) -> bool {
        &&& 0 <= x < self.spec_size()
        &&& 0 <= y < self.spec_height()
        &&& 0 <= z < self.spec_size()
    }

    /// The chunk's invariant: its dimensions are in range, every stored
    /// index lies within the chunk, and no stored block is `Air`.
    pub closed spec fn wf(&self) -> bool {
        &&& 1 <= self.size <= MAX_CHUNK_SIZE
        &&& 1 <= self.height <= MAX_CHUNK_HEIGHT
        &&& forall|k: u64| #[trigger]
            self.blocks@.contains_key(k) ==> {
                &&& self.in_bounds(key_x(k), key_y(k), key_z(k))
                &&& self.blocks@[k].block_type != BlockType::Air
            }
    }

    /// The kind of block at a local index: the stored kind, or `Air` where
    /// nothing is stored or the index lies outside the chunk.
    pub open spec fn block_at(&self, x: int, y: int, z: int) -> BlockType {
        if self@.contains_key((x, y, z)) {
            self@[(x, y, z)]
        } else {
            BlockType::Air
        }
    }

    /// In a well-formed chunk the dimensions are in range, and every entry
    /// lies within the chunk and holds a kind other than `Air`.
    pub proof fn lemma_wf(&self)
        requires
            self.wf(),
        ensures
            1 <= self.spec_size() <= MAX_CHUNK_SIZE,
            1 <= self.spec_height() <= MAX_CHUNK_HEIGHT,
            forall|x: int, y: int, z: int| #[trigger]
                self@.contains_key((x, y, z)) ==> self.in_bounds(x, y, z) && self@[(x, y, z)]
                    != BlockType::Air,
    {
    }

    /// An empty chunk of the default dimensions.
    pub fn new(coord: ChunkCoord) -> (c: Self)
        ensures
            c.wf(),
            c@ == (Map::<(int, int, int), BlockType>::empty()),
            c.spec_coord() == coord,
            c.spec_size() == CHUNK_SIZE,
            c.spec_height() == CHUNK_HEIGHT,
            !c.spec_is_generated(),
            !c.spec_is_meshed(),
    {
        let c = Self {
            coord,
            size: CHUNK_SIZE,
            height: CHUNK_HEIGHT,
            blocks: fnv_map_new(),
            is_generated: false,
            is_meshed: false,
        };
        assert(c@ =~= Map::<(int, int, int), BlockType>::empty());
        c
    }

    /// An empty chunk of the given dimensions, where they are in range.
    pub fn with_dimensions(coord: ChunkCoord, size: usize, height: usize) -> (r: Option<Self>)
        ensures
            r is Some <==> 1 <= size <= MAX_CHUNK_SIZE && 1 <= height <= MAX_CHUNK_HEIGHT,
            r is Some ==> {
                let c = r->Some_0;
                &&& c.wf()
                &&& c@ == Map::<(int, int, int), BlockType>::empty()
                &&& c.spec_coord() == coord
                &&& c.spec_size() == size
                &&& c.spec_height() == height
                &&& !c.spec_is_generated()
                &&& !c.spec_is_meshed()
            },
    {
        if size < 1 || size > MAX_CHUNK_SIZE || height < 1 || height > MAX_CHUNK_HEIGHT {
            return None;
        }
        let c = Self {
            coord,
            size,
            height,
            blocks: fnv_map_new(),
            is_generated: false,
            is_meshed: false,
        };
        assert(c@ =~= Map::<(int, int, int), BlockType>::empty());
        Some(c)
    }

    #[verifier::when_used_as_spec(spec_coord)]
    pub fn coord(&self) -> (c: ChunkCoord)
        ensures
            c == self.spec_coord(),
    {
        self.coord
    }

    /// Side length in blocks.
    #[verifier::when_used_as_spec(spec_size)]
    pub fn size(&self) -> (s: usize)
        ensures
            s == self.spec_size(),
    {
        self.size
    }

    /// Height in blocks.
    #[verifier::when_used_as_spec(spec_height)]
    pub fn height(&self) -> (h: usize)
        ensures
            h == self.spec_height(),
    {
        self.height
    }

    /// Whether the terrain rules have filled this chunk.
    #[verifier::when_used_as_spec(spec_is_generated)]
    pub fn is_generated(&self) -> (g: bool)
        ensures
            g == self.spec_is_generated(),
    {
        self.is_generated
    }

    /// Whether a mesh has been built for this chunk.
    #[verifier::when_used_as_spec(spec_is_meshed)]
    pub fn is_meshed(&self) -> (g: bool)
        ensures
            g == self.spec_is_meshed(),
    {
        self.is_meshed
    }

    /// Records that the terrain rules have filled this chunk.
    pub fn mark_generated(&mut self)
        ensures
            final(self)@ == old(self)@,
            final(self).wf() == old(self).wf(),
            final(self).spec_coord() == old(self).spec_coord(),
            final(self).spec_size() == old(self).spec_size(),
            final(self).spec_height() == old(self).spec_height(),
            final(self).spec_is_meshed() == old(self).spec_is_meshed(),
            final(self).spec_is_generated(),
    {
        self.is_generated = true;
    }

    /// The stored block at a local index, if the index lies within the
    /// chunk and holds one.
    pub fn get_block(&self, x: usize, y: usize, z: usize) -> (r: Option<&Block>)
        requires
            self.wf(),
        ensures
            r is Some <==> self@.contains_key((x as int, y as int, z as int)),
            r is Some ==> r->Some_0.block_type == self@[(x as int, y as int, z as int)],
    {
        if x < self.size && y < self.height && z < self.size {
            let key: u64 = x as u64 + 65536 * (y as u64) + 4294967296 * (z as u64);
            proof {
                lemma_key_of_pack(x as int, y as int, z as int);
            }
            fnv_map_get(&self.blocks, key)
        } else {
            None
        }
    }

    /// The kind of block at a local index; `Air` where nothing is stored or
    /// the index lies outside the chunk.
    pub fn get_block_type(&self, x: usize, y: usize, z: usize) -> (kind: BlockType)
        requires
            self.wf(),
        ensures
            kind == self.block_at(x as int, y as int, z as int),
    {
        match self.get_block(x, y, z) {
            Some(block) => block.block_type,
            None => BlockType::Air,
        }
    }

    /// Sets the kind of block at a local index. Setting `Air` removes the
    /// entry; an index outside the chunk changes nothing.
    pub fn set_block(&mut self, x: usize, y: usize, z: usize, block_type: BlockType)
        requires
            old(self).wf(),
        ensures
            final(self).wf(),
            final(self).spec_coord() == old(self).spec_coord(),
            final(self).spec_size() == old(self).spec_size(),
            final(self).spec_height() == old(self).spec_height(),
            final(self).spec_is_generated() == old(self).spec_is_generated(),
            final(self).spec_is_meshed() == old(self).spec_is_meshed(),
            final(self)@ == (if !old(self).in_bounds(x as int, y as int, z as int) {
                old(self)@
            } else if block_type == BlockType::Air {
                old(self)@.remove((x as int, y as int, z as int))
            } else {
                old(self)@.insert((x as int, y as int, z as int), block_type)
            }),
    {
        if x < self.size && y < self.height && z < self.size {
            let key: u64 = x as u64 + 65536 * (y as u64) + 4294967296 * (z as u64);
            let ghost here = (x as int, y as int, z as int);
            proof {
                lemma_key_of_pack(x as int, y as int, z as int);
                assert forall|p: (int, int, int)|
                    old(self).in_bounds(p.0, p.1, p.2) && p != here implies #[trigger] pack(
                    p.0,
                    p.1,
                    p.2,
                ) != key by {
                    if pack(p.0, p.1, p.2) == key {
                        lemma_pack_injective(p.0, p.1, p.2, x as int, y as int, z as int);
                    }
                }
            }
            if block_type == BlockType::Air {
                let _ = fnv_map_remove(&mut self.blocks, key);
                assert(self@ =~= old(self)@.remove(here));
            } else {
                let _ = fnv_map_insert(&mut self.blocks, key, Block::new(block_type));
                assert(self@ =~= old(self)@.insert(here, block_type));
            }
        }
    }

    /// The level of the topmost solid block of the column at local index
    /// `(x, z)`, searched from the top of the chunk down.
    pub fn top_solid_level(&self, x: usize, z: usize) -> (r: Option<usize>)
        requires
            self.wf(),
        ensures
            match r {
                Some(y) => y == top_solid(*self, x as int, z as int, self.spec_height() as int),
                None => top_solid(*self, x as int, z as int, self.spec_height() as int) == -1,
            },
    {
        let mut y: usize = self.height;
        while y > 0
            invariant
                self.wf(),
                y <= self.spec_height(),
                top_solid(*self, x as int, z as int, self.spec_height() as int) == top_solid(
                    *self,
                    x as int,
                    z as int,
                    y as int,
                ),
            decreases y,
        {
            y -= 1;
            if self.get_block_type(x, y, z).is_solid() {
                return Some(y);
            }
        }
        None
    }

    /// The stored blocks, each with its local index, in ascending order of
    /// `x`, then `y`, then `z`. Every entry is listed once; `Air` is not
    /// stored and so not listed.
    pub fn blocks(&self) -> (v: Vec<((usize, usize, usize), BlockType)>)
        requires
            self.wf(),
        ensures
            forall|i: int|
                0 <= i < v@.len() ==> self@.contains_key(cell_of(#[trigger] v@[i])) && self@[cell_of(
                    v@[i],
                )] == v@[i].1,
            forall|p: (int, int, int)|
                self@.contains_key(p) ==> exists|i: int|
                    0 <= i < v@.len() && cell_of(#[trigger] v@[i]) == p,
            forall|i: int, j: int|
                0 <= i < j < v@.len() ==> cell_before(
                    cell_of(#[trigger] v@[i]),
                    cell_of(#[trigger] v@[j]),
                ),
    {
        let mut v: Vec<((usize, usize, usize), BlockType)> = Vec::new();
        proof {
            self.lemma_wf();
        }
        let mut x: usize = 0;
        while x < self.size
            invariant
                self.wf(),
                x <= self.size,
                forall|i: int|
                    0 <= i < v@.len() ==> self@.contains_key(cell_of(#[trigger] v@[i]))
                        && self@[cell_of(v@[i])] == v@[i].1 && cell_before(
                        cell_of(v@[i]),
                        (x as int, 0, 0),
                    ),
                forall|p: (int, int, int)|
                    self@.contains_key(p) && cell_before(p, (x as int, 0, 0)) ==> exists|i: int|
                        0 <= i < v@.len() && cell_of(#[trigger] v@[i]) == p,
                forall|i: int, j: int|
                    0 <= i < j < v@.len() ==> cell_before(
                        cell_of(#[trigger] v@[i]),
                        cell_of(#[trigger] v@[j]),
                    ),
            decreases self.size - x,
        {
            let mut y: usize = 0;
            while y < self.height
                invariant
                    self.wf(),
                    x < self.size,
                    y <= self.height,
                    forall|i: int|
                        0 <= i < v@.len() ==> self@.contains_key(cell_of(#[trigger] v@[i]))
                            && self@[cell_of(v@[i])] == v@[i].1 && cell_before(
                            cell_of(v@[i]),
                            (x as int, y as int, 0),
                        ),
                    forall|p: (int, int, int)|
                        self@.contains_key(p) && cell_before(p, (x as int, y as int, 0))
                            ==> exists|i: int|
                            0 <= i < v@.len() && cell_of(#[trigger] v@[i]) == p,
                    forall|i: int, j: int|
                        0 <= i < j < v@.len() ==> cell_before(
                            cell_of(#[trigger] v@[i]),
                            cell_of(#[trigger] v@[j]),
                        ),
                decreases self.height - y,
            {
                let mut z: usize = 0;
                while z < self.size
                    invariant
                        self.wf(),
                        x < self.size,
                        y < self.height,
                        z <= self.size,
                        forall|i: int|
                            0 <= i < v@.len() ==> self@.contains_key(cell_of(#[trigger] v@[i]))
                                && self@[cell_of(v@[i])] == v@[i].1 && cell_before(
                                cell_of(v@[i]),
                                (x as int, y as int, z as int),
                            ),
                        forall|p: (int, int, int)|
                            self@.contains_key(p) && cell_before(p, (x as int, y as int, z as int))
                                ==> exists|i: int|
                                0 <= i < v@.len() && cell_of(#[trigger] v@[i]) == p,
                        forall|i: int, j: int|
                            0 <= i < j < v@.len() ==> cell_before(
                                cell_of(#[trigger] v@[i]),
                                cell_of(#[trigger] v@[j]),
                            ),
                    decreases self.size - z,
                {
                    let ghost shorter = v@;
                    let ghost here = (x as int, y as int, z as int);
                    match self.get_block(x, y, z) {
                        Some(block) => {
                            v.push(((x, y, z), block.block_type));
                            proof {
                                assert(cell_of(v@[shorter.len() as int]) == here);
                                assert forall|i: int| 0 <= i < shorter.len() implies v@[i]
                                    == shorter[i] by {}
                                assert forall|p: (int, int, int)|
                                    self@.contains_key(p) && cell_before(
                                        p,
                                        (x as int, y as int, z + 1),
                                    ) implies exists|i: int|
                                    0 <= i < v@.len() && cell_of(#[trigger] v@[i]) == p by {
                                    if p == here {
                                        assert(cell_of(v@[shorter.len() as int]) == p);
                                    } else {
                                        let i = choose|i: int|
                                            0 <= i < shorter.len() && cell_of(
                                                #[trigger] shorter[i],
                                            ) == p;
                                        assert(cell_of(v@[i]) == p);
                                    }
                                }
                            }
                        },
                        None => {
                            proof {
                                assert forall|p: (int, int, int)|
                                    self@.contains_key(p) && cell_before(
                                        p,
                                        (x as int, y as int, z + 1),
                                    ) implies exists|i: int|
                                    0 <= i < v@.len() && cell_of(#[trigger] v@[i]) == p by {
                                    assert(p != here);
                                    assert(cell_before(p, here));
                                }
                            }
                        },
                    }
                    z += 1;
                }
                proof {
                    self.lemma_wf();
                    assert forall|p: (int, int, int)|
                        self@.contains_key(p) && cell_before(
                            p,
                            (x as int, y + 1, 0),
                        ) implies cell_before(p, (x as int, y as int, z as int)) by {}
                }
                y += 1;
            }
            proof {
                self.lemma_wf();
                assert forall|p: (int, int, int)|
                    self@.contains_key(p) && cell_before(p, (x + 1, 0, 0)) implies cell_before(
                    p,
                    (x as int, y as int, 0),
                ) by {}
            }
            x += 1;
        }
        proof {
            self.lemma_wf();
            assert forall|p: (int, int, int)| self@.contains_key(p) implies cell_before(
                p,
                (x as int, 0, 0),
            ) by {}
        }
        v
    }

    /// The local horizontal index of a fixed-point position: its block's
    /// offset from the chunk's origin, brought into the chunk.
    pub fn world_to_local(&self, world_x: i64, world_z: i64) -> (r: (usize, usize))
        requires
            self.wf(),
        ensures
            r.0 == local_index(world_x as int, self.spec_coord().x as int, self.spec_size() as int),
            r.1 == local_index(world_z as int, self.spec_coord().z as int, self.spec_size() as int),
            r.0 < self.spec_size(),
            r.1 < self.spec_size(),
    {
        (
            local_offset(world_x, self.coord.x, self.size),
            local_offset(world_z, self.coord.z, self.size),
        )
    }
}

/// The local index of one fixed-point coordinate.
fn local_offset(world: i64, chunk_index: i32, size: usize) -> (r: usize)
    requires
        1 <= size <= MAX_CHUNK_SIZE,
    ensures
        r == local_index(world as int, chunk_index as int, size as int),
        r < size,
{
    let block: i64 = floor_div(world, UNITS_PER_BLOCK);
    assert(-2147483648 * 1024 <= chunk_index * size <= 2147483648 * 1024) by (nonlinear_arith)
        requires
            -2147483648 <= chunk_index <= 2147483647,
            1 <= size <= 1024,
    ;
    let origin: i64 = chunk_index as i64 * size as i64;
    let offset: i64 = block - origin;
    if offset < 0 {
        0
    } else if offset > size as i64 - 1 {
        size - 1
    } else {
        offset as usize
    }
}

} // verus!
