//! Which blocks of a chunk a renderer has to draw.

use crate::block::BlockType;
use crate::chunk::{cell_before, cell_of, Chunk};
use crate::coord::{chebyshev, ChunkCoord};
use crate::world::{comes_before, kept_within, World};
use vstd::prelude::*;

verus! {

/// Above this level the quick test draws every block.
pub const ALWAYS_DRAWN_ABOVE: usize = 50;

/// Whether the cell at `(x, y, z)` reads as `Air`: it holds none, or it lies
/// outside the chunk.
pub open spec fn open_cell(chunk: Chunk, x: int, y: int, z: int) -> bool {
    chunk.block_at(x, y, z) == BlockType::Air
}

/// Whether a face of the cell at `(x, y, z)` is exposed: one of its six
/// neighbours holds `Air` or lies outside the chunk.
pub open spec fn exposed(chunk: Chunk, x: int, y: int, z: int) -> bool {
    ||| open_cell(chunk, x, y + 1, z)
    ||| open_cell(chunk, x, y - 1, z)
    ||| open_cell(chunk, x + 1, y, z)
    ||| open_cell(chunk, x - 1, y, z)
    ||| open_cell(chunk, x, y, z + 1)
    ||| open_cell(chunk, x, y, z - 1)
}

/// The quick test: every cell above level 50 counts as exposed, and below
/// that the neighbour underneath is not looked at.
pub open spec fn exposed_quick(chunk: Chunk, x: int, y: int, z: int) -> bool {
    ||| y > 50
    ||| open_cell(chunk, x, y + 1, z)
    ||| open_cell(chunk, x + 1, y, z)
    ||| open_cell(chunk, x - 1, y, z)
    ||| open_cell(chunk, x, y, z + 1)
    ||| open_cell(chunk, x, y, z - 1)
}

/// Whether the cell after `(x, y, z)` in one direction reads as `Air`; the
/// direction is given by the index that is raised by one.
fn open_after(chunk: &Chunk, x: usize, y: usize, z: usize, axis: u8) -> (r: bool)
    requires
        chunk.wf(),
        axis < 3,
    ensures
        r == open_cell(
            *chunk,
            x + (if axis == 0 { 1int } else { 0int }),
            y + (if axis == 1 { 1int } else { 0int }),
            z + (if axis == 2 { 1int } else { 0int }),
        ),
{
    proof {
        chunk.lemma_wf();
    }
    if axis == 0 {
        x == usize::MAX || chunk.get_block_type(x + 1, y, z) == BlockType::Air
    } else if axis == 1 {
        y == usize::MAX || chunk.get_block_type(x, y + 1, z) == BlockType::Air
    } else {
        z == usize::MAX || chunk.get_block_type(x, y, z + 1) == BlockType::Air
    }
}

/// Whether the cell before `(x, y, z)` in one direction reads as `Air`; the
/// direction is given by the index that is lowered by one.
fn open_before(chunk: &Chunk, x: usize, y: usize, z: usize, axis: u8) -> (r: bool)
    requires
        chunk.wf(),
        axis < 3,
    ensures
        r == open_cell(
            *chunk,
            x - (if axis == 0 { 1int } else { 0int }),
            y - (if axis == 1 { 1int } else { 0int }),
            z - (if axis == 2 { 1int } else { 0int }),
        ),
{
    proof {
        chunk.lemma_wf();
    }
    if axis == 0 {
        x == 0 || chunk.get_block_type(x - 1, y, z) == BlockType::Air
    } else if axis == 1 {
        y == 0 || chunk.get_block_type(x, y - 1, z) == BlockType::Air
    } else {
        z == 0 || chunk.get_block_type(x, y, z - 1) == BlockType::Air
    }
}

/// Whether the block at a local index has to be drawn: whether one of its
/// faces is exposed. A face on the edge of the chunk counts as exposed.
pub fn should_render_block(chunk: &Chunk, x: usize, y: usize, z: usize) -> (r: bool)
    requires
        chunk.wf(),
    ensures
        r == exposed(*chunk, x as int, y as int, z as int),
{
    open_after(chunk, x, y, z, 1) || open_before(chunk, x, y, z, 1) || open_after(chunk, x, y, z, 0)
        || open_before(chunk, x, y, z, 0) || open_after(chunk, x, y, z, 2) || open_before(
        chunk,
        x,
        y,
        z,
        2,
    )
}

/// The quick form of `should_render_block`: every block above level 50 is
/// drawn, and below that the face underneath is not looked at.
pub fn should_render_block_optimized(chunk: &Chunk, x: usize, y: usize, z: usize) -> (r: bool)
    requires
        chunk.wf(),
    ensures
        r == exposed_quick(*chunk, x as int, y as int, z as int),
{
    if y > ALWAYS_DRAWN_ABOVE {
        return true;
    }
    open_after(chunk, x, y, z, 1) || open_after(chunk, x, y, z, 0) || open_before(chunk, x, y, z, 0)
        || open_after(chunk, x, y, z, 2) || open_before(chunk, x, y, z, 2)
}

/// The quick test draws no block at this level or above.
pub const DRAWN_BELOW: usize = 80;

/// The quick test draws at most this many blocks of one chunk.
pub const MOST_DRAWN: usize = 1001;

/// Whether a stored block is drawn: by the full test, whether a face of it
/// is exposed; by the quick test, whether it lies below level 80 and the
/// quick test finds it exposed.
pub open spec fn drawn(chunk: Chunk, cell: (int, int, int), quick: bool) -> bool {
    if quick {
        cell.1 < 80 && exposed_quick(chunk, cell.0, cell.1, cell.2)
    } else {
        exposed(chunk, cell.0, cell.1, cell.2)
    }
}

/// Whether `list` holds the first `most` of the stored blocks of `chunk`
/// that are drawn, in ascending order of `x`, then `y`, then `z`: every
/// entry is a stored block that is drawn, the entries rise in that order,
/// and a stored block that is drawn and not listed comes after all of a
/// full list.
pub open spec fn lists_drawn(
    list: Seq<((usize, usize, usize), BlockType)>,
    chunk: Chunk,
    quick: bool,
    most: int,
) -> bool {
    &&& list.len() <= most
    &&& forall|i: int|
        0 <= i < list.len() ==> {
            &&& chunk@.contains_key(cell_of(#[trigger] list[i]))
            &&& chunk@[cell_of(list[i])] == list[i].1
            &&& drawn(chunk, cell_of(list[i]), quick)
        }
    &&& forall|i: int, j: int|
        0 <= i < j < list.len() ==> cell_before(cell_of(#[trigger] list[i]), cell_of(#[trigger] list[j]))
    &&& forall|p: (int, int, int)|
        chunk@.contains_key(p) && drawn(chunk, p, quick) ==> (exists|i: int|
            0 <= i < list.len() && cell_of(#[trigger] list[i]) == p) || (list.len() == most
            && forall|i: int| 0 <= i < list.len() ==> cell_before(cell_of(#[trigger] list[i]), p))
}

/// The first `most` stored blocks of a chunk that are drawn.
fn select_drawn(chunk: &Chunk, quick: bool, most: usize) -> (v: Vec<((usize, usize, usize), BlockType)>)
    requires
        chunk.wf(),
    ensures
        lists_drawn(v@, *chunk, quick, most as int),
{
    let all = chunk.blocks();
    let mut v: Vec<((usize, usize, usize), BlockType)> = Vec::new();
    let ghost mut picked: Seq<int> = Seq::empty();
    let mut i: usize = 0;
    while i < all.len() && v.len() < most
        invariant
            chunk.wf(),
            i <= all@.len(),
            v@.len() <= most,
            picked.len() == v@.len(),
            forall|k: int| 0 <= k < picked.len() ==> 0 <= #[trigger] picked[k] < i,
            forall|k: int, l: int|
                0 <= k < l < picked.len() ==> #[trigger] picked[k] < #[trigger] picked[l],
            forall|k: int| 0 <= k < picked.len() ==> #[trigger] v@[k] == all@[picked[k]],
            forall|k: int| 0 <= k < v@.len() ==> drawn(*chunk, cell_of(#[trigger] v@[k]), quick),
            forall|j: int|
                0 <= j < i && drawn(*chunk, cell_of(#[trigger] all@[j]), quick) ==> exists|k: int|
                    0 <= k < picked.len() && #[trigger] picked[k] == j,
            forall|j: int|
                0 <= j < all@.len() ==> chunk@.contains_key(cell_of(#[trigger] all@[j]))
                    && chunk@[cell_of(all@[j])] == all@[j].1,
            forall|p: (int, int, int)|
                chunk@.contains_key(p) ==> exists|j: int|
                    0 <= j < all@.len() && cell_of(#[trigger] all@[j]) == p,
            forall|j: int, l: int|
                0 <= j < l < all@.len() ==> cell_before(
                    cell_of(#[trigger] all@[j]),
                    cell_of(#[trigger] all@[l]),
                ),
        decreases all@.len() - i,
    {
        let entry = all[i];
        let (x, y, z) = entry.0;
        let wanted = if quick {
            y < DRAWN_BELOW && should_render_block_optimized(chunk, x, y, z)
        } else {
            should_render_block(chunk, x, y, z)
        };
        if wanted {
            let ghost shorter = picked;
            v.push(entry);
            proof {
                picked = picked.push(i as int);
                assert forall|j: int|
                    0 <= j < i + 1 && drawn(
                        *chunk,
                        cell_of(#[trigger] all@[j]),
                        quick,
                    ) implies exists|k: int| 0 <= k < picked.len() && #[trigger] picked[k] == j by {
                    if j < i {
                        let k = choose|k: int| 0 <= k < shorter.len() && #[trigger] shorter[k] == j;
                        assert(picked[k] == j);
                    } else {
                        assert(picked[shorter.len() as int] == j);
                    }
                }
            }
        }
        i += 1;
    }
    proof {
        assert forall|k: int, l: int| 0 <= k < l < v@.len() implies cell_before(
            cell_of(#[trigger] v@[k]),
            cell_of(#[trigger] v@[l]),
        ) by {
            assert(picked[k] < picked[l]);
            assert(v@[k] == all@[picked[k]] && v@[l] == all@[picked[l]]);
        }
        assert forall|k: int| 0 <= k < v@.len() implies {
            &&& chunk@.contains_key(cell_of(#[trigger] v@[k]))
            &&& chunk@[cell_of(v@[k])] == v@[k].1
            &&& drawn(*chunk, cell_of(v@[k]), quick)
        } by {
            assert(v@[k] == all@[picked[k]]);
        }
        assert forall|p: (int, int, int)|
            chunk@.contains_key(p) && drawn(*chunk, p, quick) implies (exists|k: int|
            0 <= k < v@.len() && cell_of(#[trigger] v@[k]) == p) || (v@.len() == most
            && forall|k: int| 0 <= k < v@.len() ==> cell_before(cell_of(#[trigger] v@[k]), p)) by {
            let j = choose|j: int| 0 <= j < all@.len() && cell_of(#[trigger] all@[j]) == p;
            if j < i {
                let k = choose|k: int| 0 <= k < picked.len() && #[trigger] picked[k] == j;
                assert(v@[k] == all@[picked[k]]);
                assert(cell_of(v@[k]) == p);
            } else {
                assert forall|k: int| 0 <= k < v@.len() implies cell_before(
                    cell_of(#[trigger] v@[k]),
                    p,
                ) by {
                    assert(v@[k] == all@[picked[k]]);
                    assert(picked[k] < j);
                }
            }
        }
    }
    v
}

/// The stored blocks of a chunk that have to be drawn by the full test,
/// each with its local index, in ascending order of `x`, then `y`, then `z`;
/// all of them, as far as a list can hold them.
pub fn blocks_to_render(chunk: &Chunk) -> (v: Vec<((usize, usize, usize), BlockType)>)
    requires
        chunk.wf(),
    ensures
        lists_drawn(v@, *chunk, false, usize::MAX as int),
{
    select_drawn(chunk, false, usize::MAX)
}

/// The stored blocks of a chunk that have to be drawn by the quick test:
/// the first 1001, in ascending order of `x`, then `y`, then `z`, of those
/// below level 80 that the quick test finds exposed.
pub fn blocks_to_render_optimized(chunk: &Chunk) -> (v: Vec<((usize, usize, usize), BlockType)>)
    requires
        chunk.wf(),
    ensures
        lists_drawn(v@, *chunk, true, 1001),
{
    select_drawn(chunk, true, MOST_DRAWN)
}

/// The coordinates of `rendered` further than `keep` from `center`, in
/// their order.
pub open spec fn dropped_beyond(rendered: Seq<ChunkCoord>, center: ChunkCoord, keep: int) -> Seq<
    ChunkCoord,
>
    decreases rendered.len(),
{
    if rendered.len() == 0 {
        rendered
    } else {
        let earlier = dropped_beyond(rendered.drop_last(), center, keep);
        if chebyshev(rendered.last(), center) > keep {
            earlier.push(rendered.last())
        } else {
            earlier
        }
    }
}

/// Parts the chunks that are drawn into those that stay, which are no
/// further than `keep` chunks from `center`, and those to drop; each part
/// keeps the order of the list.
pub fn split_by_distance(rendered: &Vec<ChunkCoord>, center: ChunkCoord, keep: i64) -> (parts: (
    Vec<ChunkCoord>,
    Vec<ChunkCoord>,
))
    ensures
        parts.0@ == kept_within(rendered@, center, keep as int),
        parts.1@ == dropped_beyond(rendered@, center, keep as int),
{
    let mut kept: Vec<ChunkCoord> = Vec::new();
    let mut dropped: Vec<ChunkCoord> = Vec::new();
    let mut i: usize = 0;
    assert(rendered@.take(0) =~= Seq::<ChunkCoord>::empty());
    while i < rendered.len()
        invariant
            i <= rendered@.len(),
            kept@ == kept_within(rendered@.take(i as int), center, keep as int),
            dropped@ == dropped_beyond(rendered@.take(i as int), center, keep as int),
        decreases rendered@.len() - i,
    {
        let coord = rendered[i];
        proof {
            assert(rendered@.take(i + 1).drop_last() =~= rendered@.take(i as int));
            assert(rendered@.take(i + 1).last() == coord);
        }
        if coord.distance(&center) > keep {
            dropped.push(coord);
        } else {
            kept.push(coord);
        }
        i += 1;
    }
    assert(rendered@.take(rendered@.len() as int) =~= rendered@);
    (kept, dropped)
}

/// Whether a list of coordinates names `coord`.
fn names(list: &Vec<ChunkCoord>, coord: ChunkCoord) -> (found: bool)
    ensures
        found == list@.contains(coord),
{
    let mut i: usize = 0;
    while i < list.len()
        invariant
            i <= list@.len(),
            forall|j: int| 0 <= j < i ==> list@[j] != coord,
        decreases list@.len() - i,
    {
        if list[i].x == coord.x && list[i].z == coord.z {
            return true;
        }
        i += 1;
    }
    false
}

/// The chunks to draw next: those within `distance` chunks of `center`
/// that are loaded and not among `rendered`, in ascending order of `x` and,
/// within one `x`, of `z`.
pub fn chunks_to_render(
    world: &World,
    rendered: &Vec<ChunkCoord>,
    center: ChunkCoord,
    distance: i32,
) -> (v: Vec<ChunkCoord>)
    ensures
        forall|c: ChunkCoord|
            #![trigger v@.contains(c)]
            v@.contains(c) <==> chebyshev(c, center) <= distance && world.loaded(c)
                && !rendered@.contains(c),
        forall|i: int, j: int|
            0 <= i < j < v@.len() ==> comes_before(#[trigger] v@[i], #[trigger] v@[j]),
{
    let mut v: Vec<ChunkCoord> = Vec::new();
    if distance < 0 {
        return v;
    }
    let reach: i64 = distance as i64;
    let lo_x: i64 = if center.x as i64 - reach < -2147483648 {
        -2147483648
    } else {
        center.x as i64 - reach
    };
    let hi_x: i64 = if center.x as i64 + reach > 2147483647 {
        2147483647
    } else {
        center.x as i64 + reach
    };
    let lo_z: i64 = if center.z as i64 - reach < -2147483648 {
        -2147483648
    } else {
        center.z as i64 - reach
    };
    let hi_z: i64 = if center.z as i64 + reach > 2147483647 {
        2147483647
    } else {
        center.z as i64 + reach
    };
    assert forall|c: ChunkCoord| chebyshev(c, center) <= distance <==> lo_x <= c.x <= hi_x && lo_z
        <= c.z <= hi_z by {}
    let mut x: i64 = lo_x;
    while x <= hi_x
        invariant
            -2147483648 <= lo_x <= x <= hi_x + 1 <= 2147483648,
            -2147483648 <= lo_z <= hi_z <= 2147483647,
            forall|c: ChunkCoord|
                chebyshev(c, center) <= distance <==> lo_x <= c.x <= hi_x && lo_z <= c.z <= hi_z,
            forall|c: ChunkCoord|
                #![trigger v@.contains(c)]
                v@.contains(c) <==> chebyshev(c, center) <= distance && world.loaded(c)
                    && !rendered@.contains(c) && c.x < x,
            forall|i: int, j: int|
                0 <= i < j < v@.len() ==> comes_before(#[trigger] v@[i], #[trigger] v@[j]),
        decreases hi_x + 1 - x,
    {
        let mut z: i64 = lo_z;
        while z <= hi_z
            invariant
                -2147483648 <= lo_x <= x <= hi_x <= 2147483647,
                -2147483648 <= lo_z <= z <= hi_z + 1 <= 2147483648,
                forall|c: ChunkCoord|
                    chebyshev(c, center) <= distance <==> lo_x <= c.x <= hi_x && lo_z <= c.z
                        <= hi_z,
                forall|c: ChunkCoord|
                    #![trigger v@.contains(c)]
                    v@.contains(c) <==> chebyshev(c, center) <= distance && world.loaded(c)
                        && !rendered@.contains(c) && (c.x < x || (c.x == x && c.z < z)),
                forall|i: int, j: int|
                    0 <= i < j < v@.len() ==> comes_before(#[trigger] v@[i], #[trigger] v@[j]),
            decreases hi_z + 1 - z,
        {
            let coord = ChunkCoord::new(x as i32, z as i32);
            if world.is_loaded(coord) && !names(rendered, coord) {
                let ghost shorter = v@;
                v.push(coord);
                proof {
                    assert(v@[shorter.len() as int] == coord);
                    assert forall|c: ChunkCoord|
                        #![trigger v@.contains(c)]
                        v@.contains(c) <==> c == coord || shorter.contains(c) by {
                        if shorter.contains(c) {
                            let j = choose|j: int| 0 <= j < shorter.len() && shorter[j] == c;
                            assert(v@[j] == c);
                        }
                        if v@.contains(c) {
                            let j = choose|j: int| 0 <= j < v@.len() && v@[j] == c;
                            if j < shorter.len() {
                                assert(shorter[j] == c);
                            }
                        }
                    }
                    assert forall|i: int, j: int| 0 <= i < j < v@.len() implies comes_before(
                        #[trigger] v@[i],
                        #[trigger] v@[j],
                    ) by {
                        if j == shorter.len() {
                            assert(shorter[i] == v@[i]);
                            assert(shorter.contains(v@[i]));
                        } else {
                            assert(shorter[i] == v@[i] && shorter[j] == v@[j]);
                        }
                    }
                }
            }
            z += 1;
        }
        x += 1;
    }
    v
}

} // verus!
