//! Bookkeeping of objects: a pool of reusable boxes, an object with a count
//! of references, and a record of allocations that were not given back.

use crate::clock::{duration_exceeds, instant_elapsed, instant_now};
use std::collections::VecDeque;
use std::time::{Duration, Instant};
use vstd::prelude::*;

verus! {

/// A counter raised by one, wrapping round to zero past the largest `usize`.
pub open spec fn next_count(n: usize) -> usize {
    if n == usize::MAX {
        0
    } else {
        (n + 1) as usize
    }
}

/// A counter lowered by one, wrapping round to the largest `usize` below zero.
pub open spec fn previous_count(n: usize) -> usize {
    if n == 0 {
        usize::MAX
    } else {
        (n - 1) as usize
    }
}

/// A number raised by one, wrapping round to zero past the largest `u64`.
pub open spec fn next_number(n: u64) -> u64 {
    if n == u64::MAX {
        0
    } else {
        (n + 1) as u64
    }
}

/// A counter raised by one, wrapping round.
fn raise(n: usize) -> (r: usize)
    ensures
        r == next_count(n),
{
    if n == usize::MAX {
        0
    } else {
        n + 1
    }
}

/// A counter lowered by one, wrapping round.
fn lower(n: usize) -> (r: usize)
    ensures
        r == previous_count(n),
{
    if n == 0 {
        usize::MAX
    } else {
        n - 1
    }
}

/// A number raised by one, wrapping round.
fn advance(n: u64) -> (r: u64)
    ensures
        r == next_number(n),
{
    if n == u64::MAX {
        0
    } else {
        n + 1
    }
}

/// A pool that hands out boxes and takes them back for reuse, up to a
/// limit.
pub struct MemoryPool<T> {
    pool: VecDeque<Box<T>>,
    max_size: usize,
    allocated_count: usize,
    total_allocations: u64,
}

impl<T> MemoryPool<T> {
    /// The boxes that wait to be handed out again, the next one first.
    pub closed spec fn free(&self) -> Seq<Box<T>> {
        self.pool@
    }

    /// The limit on the boxes handed out and on the boxes kept.
    pub closed spec fn limit(&self) -> usize {
        self.max_size
    }

    /// How many boxes are handed out.
    pub closed spec fn in_use(&self) -> usize {
        self.allocated_count
    }

    /// How many boxes the pool has made.
    pub closed spec fn made(&self) -> u64 {
        self.total_allocations
    }

    /// An empty pool with the given limit.
    pub fn new(max_size: usize) -> (p: Self)
        ensures
            p.free() == Seq::<Box<T>>::empty(),
            p.limit() == max_size,
            p.in_use() == 0,
            p.made() == 0,
    {
        Self { pool: VecDeque::new(), max_size, allocated_count: 0, total_allocations: 0 }
    }

    /// Hands out a box: the first that waits, if one does; else a new one
    /// with the default value, while fewer boxes are handed out than the
    /// limit; else none.
    pub fn allocate(&mut self) -> (r: Option<Box<T>>) where T: Default
        ensures
            final(self).limit() == old(self).limit(),
            old(self).free().len() > 0 ==> {
                &&& r == Some(old(self).free()[0])
                &&& final(self).free() == old(self).free().subrange(
                    1,
                    old(self).free().len() as int,
                )
                &&& final(self).in_use() == next_count(old(self).in_use())
                &&& final(self).made() == old(self).made()
            },
            old(self).free().len() == 0 && old(self).in_use() < old(self).limit() ==> {
                &&& r is Some
                &&& final(self).free() == old(self).free()
                &&& final(self).in_use() == next_count(old(self).in_use())
                &&& final(self).made() == next_number(old(self).made())
            },
            old(self).free().len() == 0 && old(self).in_use() >= old(self).limit() ==> {
                &&& r is None
                &&& final(self).free() == old(self).free()
                &&& final(self).in_use() == old(self).in_use()
                &&& final(self).made() == old(self).made()
            },
    {
        match self.pool.pop_front() {
            Some(obj) => {
                self.allocated_count = raise(self.allocated_count);
                Some(obj)
            },
            None => {
                if self.allocated_count < self.max_size {
                    self.allocated_count = raise(self.allocated_count);
                    self.total_allocations = advance(self.total_allocations);
                    Some(Box::new(T::default()))
                } else {
                    None
                }
            },
        }
    }

    /// Takes a box back. It waits to be handed out again, last in line,
    /// unless as many boxes wait as the limit allows; then it is dropped.
    pub fn deallocate(&mut self, obj: Box<T>)
        ensures
            final(self).limit() == old(self).limit(),
            final(self).made() == old(self).made(),
            final(self).in_use() == previous_count(old(self).in_use()),
            final(self).free() == (if old(self).free().len() < old(self).limit() {
                old(self).free().push(obj)
            } else {
                old(self).free()
            }),
    {
        if self.pool.len() < self.max_size {
            self.pool.push_back(obj);
        }
        self.allocated_count = lower(self.allocated_count);
    }

    /// How many boxes wait, how many are handed out, and how many were made.
    pub fn get_stats(&self) -> (s: (usize, usize, u64))
        ensures
            s.0 == self.free().len(),
            s.1 == self.in_use(),
            s.2 == self.made(),
    {
        (self.pool.len(), self.allocated_count, self.total_allocations)
    }
}

/// A value with an identity, a count of the references to it, and a mark
/// for deletion.
pub struct ManagedObject<T> {
    pub data: T,
    pub id: u64,
    pub created_at: Instant,
    pub last_accessed: Instant,
    pub reference_count: usize,
    pub marked_for_deletion: bool,
}

impl<T> ManagedObject<T> {
    /// A new object with one reference and no mark, made now.
    pub fn new(data: T, id: u64) -> (o: Self)
        ensures
            o.data == data,
            o.id == id,
            o.reference_count == 1,
            !o.marked_for_deletion,
    {
        let now = instant_now();
        Self {
            data,
            id,
            created_at: now,
            last_accessed: now,
            reference_count: 1,
            marked_for_deletion: false,
        }
    }

    /// The value held.
    pub fn access(&self) -> (r: &T)
        ensures
            *r == self.data,
    {
        &self.data
    }

    /// Counts one reference more.
    pub fn add_reference(&mut self)
        ensures
            final(self).reference_count == next_count(old(self).reference_count),
            final(self).data == old(self).data,
            final(self).id == old(self).id,
            final(self).created_at == old(self).created_at,
            final(self).last_accessed == old(self).last_accessed,
            final(self).marked_for_deletion == old(self).marked_for_deletion,
    {
        self.reference_count = raise(self.reference_count);
    }

    /// Counts one reference less, and says whether that was the last one.
    pub fn remove_reference(&mut self) -> (last: bool)
        ensures
            last == (old(self).reference_count <= 1),
            final(self).reference_count == previous_count(old(self).reference_count),
            final(self).data == old(self).data,
            final(self).id == old(self).id,
            final(self).created_at == old(self).created_at,
            final(self).last_accessed == old(self).last_accessed,
            final(self).marked_for_deletion == old(self).marked_for_deletion,
    {
        let prev_count = self.reference_count;
        self.reference_count = lower(self.reference_count);
        prev_count <= 1
    }

    /// Marks the object for deletion.
    pub fn mark_for_deletion(&mut self)
        ensures
            final(self).marked_for_deletion,
            final(self).reference_count == old(self).reference_count,
            final(self).data == old(self).data,
            final(self).id == old(self).id,
            final(self).created_at == old(self).created_at,
            final(self).last_accessed == old(self).last_accessed,
    {
        self.marked_for_deletion = true;
    }

    /// Whether the object is marked for deletion.
    pub fn is_marked_for_deletion(&self) -> (b: bool)
        ensures
            b == self.marked_for_deletion,
    {
        self.marked_for_deletion
    }

    /// The time since the object was made: one reading of the machine's
    /// clock, taken against the moment of making. Nothing is promised of it,
    /// as two readings may differ in any way.
    pub fn get_age(&self) -> Duration {
        instant_elapsed(&self.created_at)
    }

    /// The time since the object was last used: one reading of the
    /// machine's clock, taken against the moment of last use. Nothing is
    /// promised of it, as two readings may differ in any way.
    pub fn get_idle_time(&self) -> Duration {
        instant_elapsed(&self.last_accessed)
    }
}

/// What is recorded of one allocation.
pub struct AllocationInfo {
    pub id: u64,
    pub size: usize,
    pub allocated_at: Instant,
    pub stack_trace: String,
    pub object_type: String,
}

/// The decimal digits of a number, without leading zeros.
pub open spec fn decimal(n: nat) -> Seq<char>
    decreases n,
{
    if n < 10 {
        seq![((48 + n) as u8) as char]
    } else {
        decimal(n / 10).push(((48 + n % 10) as u8) as char)
    }
}

/// The label of an allocation: the words `Allocation #` and its number.
pub open spec fn allocation_label(id: u64) -> Seq<char> {
    "Allocation #"@ + decimal(id as nat)
}

/// `format!` with one number in decimal: the label of an allocation.
#[verifier::external_body]
fn label_allocation(id: u64) -> (label: String)
    ensures
        label@ == allocation_label(id),
{
    format!("Allocation #{}", id)
}

/// The records whose number is not `id`, in their order.
pub open spec fn without(records: Seq<AllocationInfo>, id: u64) -> Seq<AllocationInfo>
    decreases records.len(),
{
    if records.len() == 0 {
        records
    } else if records.last().id == id {
        without(records.drop_last(), id)
    } else {
        without(records.drop_last(), id).push(records.last())
    }
}

/// The sizes of the records, added up.
pub open spec fn total_size(records: Seq<AllocationInfo>) -> int
    decreases records.len(),
{
    if records.len() == 0 {
        0
    } else {
        total_size(records.drop_last()) + records.last().size
    }
}

/// Whether no two records have the same number.
pub open spec fn distinct_ids(records: Seq<AllocationInfo>) -> bool {
    forall|i: int, j: int|
        0 <= i < j < records.len() ==> (#[trigger] records[i]).id != (#[trigger] records[j]).id
}

/// Whether one record holds what another holds.
pub open spec fn same_record(a: AllocationInfo, b: AllocationInfo) -> bool {
    &&& a.id == b.id
    &&& a.size == b.size
    &&& a.allocated_at == b.allocated_at
    &&& a.stack_trace@ == b.stack_trace@
    &&& a.object_type@ == b.object_type@
}

/// Whether `leaks` holds what `records` hold at the places `picked`, which
/// rise from one to the next.
pub open spec fn picks(leaks: Seq<AllocationInfo>, records: Seq<AllocationInfo>, picked: Seq<int>) -> bool {
    &&& picked.len() == leaks.len()
    &&& forall|i: int| 0 <= i < picked.len() ==> 0 <= #[trigger] picked[i] < records.len()
    &&& forall|i: int, j: int|
        0 <= i < j < picked.len() ==> #[trigger] picked[i] < #[trigger] picked[j]
    &&& forall|i: int|
        0 <= i < picked.len() ==> same_record(#[trigger] leaks[i], records[picked[i]])
}

/// Records in which no number occurs are left as they are.
proof fn lemma_without_absent(records: Seq<AllocationInfo>, id: u64)
    requires
        forall|i: int| 0 <= i < records.len() ==> (#[trigger] records[i]).id != id,
    ensures
        without(records, id) == records,
    decreases records.len(),
{
    if records.len() > 0 {
        lemma_without_absent(records.drop_last(), id);
        assert(records.drop_last().push(records.last()) =~= records);
    }
}

/// Among records with distinct numbers, leaving out a number removes the
/// one record that has it.
proof fn lemma_without_present(records: Seq<AllocationInfo>, id: u64, at: int)
    requires
        distinct_ids(records),
        0 <= at < records.len(),
        records[at].id == id,
    ensures
        without(records, id) == records.remove(at),
    decreases records.len(),
{
    let shorter = records.drop_last();
    if at == records.len() - 1 {
        assert forall|i: int| 0 <= i < shorter.len() implies (#[trigger] shorter[i]).id != id by {
            assert(shorter[i] == records[i]);
        }
        lemma_without_absent(shorter, id);
        assert(records.remove(at) =~= shorter);
    } else {
        assert(records.last() == records[records.len() - 1]);
        assert(shorter[at] == records[at]);
        assert(distinct_ids(shorter)) by {
            assert forall|i: int, j: int| 0 <= i < j < shorter.len() implies (
            #[trigger] shorter[i]).id != (#[trigger] shorter[j]).id by {
                assert(shorter[i] == records[i] && shorter[j] == records[j]);
            }
        }
        lemma_without_present(shorter, id, at);
        assert(shorter.remove(at).push(records.last()) =~= records.remove(at));
    }
}

/// Leaving out a number keeps the numbers distinct and leaves no record
/// with that number.
proof fn lemma_without_distinct(records: Seq<AllocationInfo>, id: u64)
    requires
        distinct_ids(records),
    ensures
        distinct_ids(without(records, id)),
        forall|i: int|
            0 <= i < without(records, id).len() ==> (#[trigger] without(records, id)[i]).id != id,
        forall|i: int|
            0 <= i < without(records, id).len() ==> exists|j: int|
                0 <= j < records.len() && records[j] == #[trigger] without(records, id)[i],
    decreases records.len(),
{
    if records.len() > 0 {
        let shorter = records.drop_last();
        assert(distinct_ids(shorter)) by {
            assert forall|i: int, j: int| 0 <= i < j < shorter.len() implies (
            #[trigger] shorter[i]).id != (#[trigger] shorter[j]).id by {
                assert(shorter[i] == records[i] && shorter[j] == records[j]);
            }
        }
        lemma_without_distinct(shorter, id);
        let rest = without(shorter, id);
        let out = without(records, id);
        assert forall|i: int| 0 <= i < out.len() implies exists|j: int|
            0 <= j < records.len() && records[j] == #[trigger] out[i] by {
            if i < rest.len() {
                let j = choose|j: int| 0 <= j < shorter.len() && shorter[j] == rest[i];
                assert(records[j] == out[i]);
            } else {
                assert(records[records.len() - 1] == out[i]);
            }
        }
        if records.last().id != id {
            assert forall|i: int, j: int| 0 <= i < j < out.len() implies (#[trigger] out[i]).id
                != (#[trigger] out[j]).id by {
                if j == rest.len() {
                    let k = choose|k: int| 0 <= k < shorter.len() && shorter[k] == rest[i];
                    assert(records[k] == out[i]);
                    assert(records[records.len() - 1] == out[j]);
                }
            }
        }
    }
}

/// A record of the allocations that were made and not given back, in the
/// order in which they were made.
pub struct LeakDetector {
    allocations: Vec<AllocationInfo>,
    next_allocation_id: u64,
    enabled: bool,
}

impl LeakDetector {
    /// The allocations on record, the oldest first.
    pub closed spec fn records(&self) -> Seq<AllocationInfo> {
        self.allocations@
    }

    /// The number that the next allocation gets.
    pub closed spec fn next_id(&self) -> u64 {
        self.next_allocation_id
    }

    /// Whether anything is recorded at all.
    pub closed spec fn is_enabled(&self) -> bool {
        self.enabled
    }

    /// The detector's invariant: no two records have the same number.
    pub open spec fn wf(&self) -> bool {
        distinct_ids(self.records())
    }

    /// A detector with nothing on record, whose first allocation gets the
    /// number 1.
    pub fn new(enabled: bool) -> (d: Self)
        ensures
            d.wf(),
            d.records() == Seq::<AllocationInfo>::empty(),
            d.next_id() == 1,
            d.is_enabled() == enabled,
    {
        Self { allocations: Vec::new(), next_allocation_id: 1, enabled }
    }

    /// Records an allocation made now, and returns its number. A record
    /// that had the same number is replaced. A detector that is not enabled
    /// records nothing and returns 0.
    pub fn track_allocation(&mut self, size: usize, object_type: &str) -> (id: u64)
        requires
            old(self).wf(),
        ensures
            final(self).wf(),
            final(self).is_enabled() == old(self).is_enabled(),
            !old(self).is_enabled() ==> {
                &&& id == 0
                &&& final(self).records() == old(self).records()
                &&& final(self).next_id() == old(self).next_id()
            },
            old(self).is_enabled() ==> {
                &&& id == old(self).next_id()
                &&& final(self).next_id() == next_number(old(self).next_id())
                &&& final(self).records().len() == without(old(self).records(), id).len() + 1
                &&& final(self).records().drop_last() == without(old(self).records(), id)
                &&& final(self).records().last().id == id
                &&& final(self).records().last().size == size
                &&& final(self).records().last().object_type@ == object_type@
                &&& final(self).records().last().stack_trace@ == allocation_label(id)
            },
    {
        if !self.enabled {
            return 0;
        }
        let id = self.next_allocation_id;
        self.next_allocation_id = advance(self.next_allocation_id);
        let info = AllocationInfo {
            id,
            size,
            allocated_at: instant_now(),
            stack_trace: label_allocation(id),
            object_type: object_type.to_owned(),
        };
        self.forget(id);
        let ghost rest = self.allocations@;
        self.allocations.push(info);
        proof {
            assert(self.allocations@.drop_last() =~= rest);
            lemma_without_distinct(old(self).records(), id);
            assert forall|i: int, j: int| 0 <= i < j < self.allocations@.len() implies (
            #[trigger] self.allocations@[i]).id != (#[trigger] self.allocations@[j]).id by {
                assert(self.allocations@[i] == rest[i]);
                if j < rest.len() {
                    assert(self.allocations@[j] == rest[j]);
                }
            }
        }
        id
    }

    /// Takes the record with a number off the record, if there is one.
    fn forget(&mut self, id: u64)
        requires
            distinct_ids(old(self).allocations@),
        ensures
            final(self).allocations@ == without(old(self).allocations@, id),
            final(self).next_allocation_id == old(self).next_allocation_id,
            final(self).enabled == old(self).enabled,
    {
        let mut i: usize = 0;
        while i < self.allocations.len()
            invariant
                i <= self.allocations@.len(),
                self.allocations@ == old(self).allocations@,
                self.next_allocation_id == old(self).next_allocation_id,
                self.enabled == old(self).enabled,
                distinct_ids(self.allocations@),
                forall|j: int| 0 <= j < i ==> (#[trigger] self.allocations@[j]).id != id,
            decreases self.allocations@.len() - i,
        {
            if self.allocations[i].id == id {
                proof {
                    lemma_without_present(self.allocations@, id, i as int);
                }
                let _ = self.allocations.remove(i);
                return;
            }
            i += 1;
        }
        proof {
            lemma_without_absent(self.allocations@, id);
        }
    }

    /// Takes the allocation with a number off the record. The number 0,
    /// which stands for no allocation, and a detector that is not enabled
    /// change nothing.
    pub fn track_deallocation(&mut self, id: u64)
        requires
            old(self).wf(),
        ensures
            final(self).wf(),
            final(self).is_enabled() == old(self).is_enabled(),
            final(self).next_id() == old(self).next_id(),
            final(self).records() == (if old(self).is_enabled() && id != 0 {
                without(old(self).records(), id)
            } else {
                old(self).records()
            }),
    {
        if !self.enabled || id == 0 {
            return;
        }
        proof {
            lemma_without_distinct(self.allocations@, id);
        }
        self.forget(id);
    }

    /// The allocations on record that the clock finds older than `max_age`,
    /// in the order in which they were made. Which they are depends on the
    /// clock alone. A detector that is not enabled reports none.
    pub fn detect_leaks(&self, max_age: Duration) -> (leaks: Vec<AllocationInfo>)
        ensures
            !self.is_enabled() ==> leaks@.len() == 0,
            leaks@.len() <= self.records().len(),
            exists|picked: Seq<int>| #[trigger] picks(leaks@, self.records(), picked),
    {
        let mut leaks: Vec<AllocationInfo> = Vec::new();
        let ghost mut picked: Seq<int> = Seq::empty();
        if !self.enabled {
            assert(picks(leaks@, self.records(), picked));
            return leaks;
        }
        let mut i: usize = 0;
        while i < self.allocations.len()
            invariant
                i <= self.allocations@.len(),
                picked.len() == leaks@.len(),
                leaks@.len() <= i,
                forall|k: int| 0 <= k < picked.len() ==> 0 <= #[trigger] picked[k] < i,
                forall|k: int, l: int|
                    0 <= k < l < picked.len() ==> #[trigger] picked[k] < #[trigger] picked[l],
                forall|k: int|
                    0 <= k < picked.len() ==> same_record(
                        #[trigger] leaks@[k],
                        self.allocations@[picked[k]],
                    ),
            decreases self.allocations@.len() - i,
        {
            let info = &self.allocations[i];
            let age = instant_elapsed(&info.allocated_at);
            if duration_exceeds(&age, &max_age) {
                let copy = AllocationInfo {
                    id: info.id,
                    size: info.size,
                    allocated_at: info.allocated_at,
                    stack_trace: info.stack_trace.clone(),
                    object_type: info.object_type.clone(),
                };
                leaks.push(copy);
                proof {
                    picked = picked.push(i as int);
                }
            }
            i += 1;
        }
        assert(picks(leaks@, self.records(), picked));
        leaks
    }

    /// How many allocations are on record.
    pub fn get_allocation_count(&self) -> (n: usize)
        ensures
            n == self.records().len(),
    {
        self.allocations.len()
    }

    /// The sizes of the allocations on record, added up; past the largest
    /// `usize` the sum wraps round.
    pub fn get_total_allocated_size(&self) -> (total: usize)
        ensures
            total as int == total_size(self.records()) % (usize::MAX as int + 1),
            total_size(self.records()) <= usize::MAX ==> total == total_size(self.records()),
    {
        let mut total: usize = 0;
        let mut i: usize = 0;
        assert(self.allocations@.take(0) =~= Seq::<AllocationInfo>::empty());
        while i < self.allocations.len()
            invariant
                i <= self.allocations@.len(),
                0 <= total_size(self.allocations@.take(i as int)),
                total as int == total_size(self.allocations@.take(i as int)) % (usize::MAX as int
                    + 1),
            decreases self.allocations@.len() - i,
        {
            let size = self.allocations[i].size;
            proof {
                let seen = self.allocations@.take(i as int);
                let next = self.allocations@.take(i + 1);
                assert(next.drop_last() =~= seen);
                assert(next.last().size == size);
                vstd::arithmetic::div_mod::lemma_add_mod_noop(
                    total_size(seen),
                    size as int,
                    usize::MAX as int + 1,
                );
                vstd::arithmetic::div_mod::lemma_small_mod(size as nat, (usize::MAX as int + 1) as nat);
                vstd::arithmetic::div_mod::lemma_mod_bound(
                    total as int + size as int,
                    usize::MAX as int + 1,
                );
            }
            total = if size > usize::MAX - total {
                proof {
                    vstd::arithmetic::div_mod::lemma_mod_sub_multiples_vanish(
                        total as int + size as int,
                        usize::MAX as int + 1,
                    );
                    vstd::arithmetic::div_mod::lemma_small_mod(
                        (total as int + size as int - (usize::MAX as int + 1)) as nat,
                        (usize::MAX as int + 1) as nat,
                    );
                }
                size - (usize::MAX - total) - 1
            } else {
                proof {
                    vstd::arithmetic::div_mod::lemma_small_mod(
                        (total as int + size as int) as nat,
                        (usize::MAX as int + 1) as nat,
                    );
                }
                total + size
            };
            i += 1;
        }
        proof {
            assert(self.allocations@.take(self.allocations@.len() as int) =~= self.allocations@);
            if total_size(self.records()) <= usize::MAX {
                vstd::arithmetic::div_mod::lemma_small_mod(
                    total_size(self.records()) as nat,
                    (usize::MAX as int + 1) as nat,
                );
            }
        }
        total
    }
}

} // verus!
