//! The transposition cache: a fixed-size, direct-mapped table from position
//! hashes to search results, with an always-replace policy.

use vstd::prelude::*;

verus! {

/// A cached search result: the value of the position to move, computed to
/// at least `depth` plies, in centipawns.
#[derive(Debug, Clone, Copy, PartialEq, Eq, Structural)]
pub struct TranspEntry {
    pub depth: u8,
    pub value: i64,
}

/// A direct-mapped table of `size` slots indexed by `hash % size`. A lookup
/// hits only when the stored key equals the probe; an insert overwrites its
/// slot unconditionally.
pub struct TranspTable {
    table: Vec<Option<(u64, TranspEntry)>>,
    size: usize,
    occupancy: usize,
}

impl TranspTable {
    pub closed spec fn wf(self) -> bool {
        &&& self.table@.len() == self.size
        &&& self.size > 0
    }

    /// How many slots the table has.
    pub closed spec fn capacity(self) -> int {
        self.size as int
    }

    /// The slot a hash maps to.
    pub closed spec fn slot(self, hash: u64) -> Option<(u64, TranspEntry)> {
        self.table@[hash as int % self.size as int]
    }

    /// How many slots hold an entry.
    pub closed spec fn occupancy_spec(self) -> int {
        self.occupancy as int
    }

    pub fn new(size: usize) -> (r: TranspTable)
        requires
            size > 0,
        ensures
            r.wf(),
            r.capacity() == size,
            r.occupancy_spec() == 0,
            forall|h: u64| #[trigger] r.slot(h) is None,
    {
        let mut table: Vec<Option<(u64, TranspEntry)>> = Vec::new();
        let mut i: usize = 0;
        while i < size
            invariant
                i <= size,
                table@.len() == i,
                forall|j: int| 0 <= j < i ==> table@[j] is None,
            decreases size - i,
        {
            table.push(None);
            i = i + 1;
        }
        TranspTable { table, size, occupancy: 0 }
    }

    /// Looks the hash up: the stored entry when this exact key was the last
    /// one written to its slot, and nothing otherwise.
    pub fn get(&self, hash: u64) -> (r: Option<&TranspEntry>)
        requires
            self.wf(),
        ensures
            match r {
                Some(e) => self.slot(hash) == Some((hash, *e)),
                None => self.slot(hash) matches Some((k, _)) ==> k != hash,
            },
    {
        let index = (hash % self.size as u64) as usize;
        proof {
            assert(index < self.size) by (nonlinear_arith)
                requires
                    self.size > 0,
                    index == hash as int % self.size as int,
            ;
        }
        if let Some((stored_hash, value)) = &self.table[index] {
            if *stored_hash == hash {
                return Some(value);
            }
        }
        None
    }

    /// Stores the entry under the hash, overwriting whatever shared its
    /// slot and touching no other slot, and keeps the occupancy count.
    pub fn put(&mut self, hash: u64, value: TranspEntry)
        requires
            old(self).wf(),
        ensures
            final(self).wf(),
            final(self).capacity() == old(self).capacity(),
            final(self).slot(hash) == Some((hash, value)),
            forall|h: u64| h as int % old(self).capacity() != hash as int % old(self).capacity()
                ==> #[trigger] final(self).slot(h) == old(self).slot(h),
            (old(self).slot(hash) is None && old(self).occupancy_spec() < usize::MAX)
                ==> final(self).occupancy_spec() == old(self).occupancy_spec() + 1,
            old(self).slot(hash) is Some ==> final(self).occupancy_spec()
                == old(self).occupancy_spec(),
    {
        let index = (hash % self.size as u64) as usize;
        proof {
            assert(index < self.size) by (nonlinear_arith)
                requires
                    self.size > 0,
                    index == hash as int % self.size as int,
            ;
        }
        if self.table[index].is_none() {
            if self.occupancy < usize::MAX {
                self.occupancy = self.occupancy + 1;
            }
        }
        self.table[index] = Some((hash, value));
    }

    /// Keys with the same residue share a slot: inserting under one key
    /// evicts any entry whose key collides with it, so a later lookup with
    /// the evicted key misses.
    pub proof fn lemma_slot_shared(self, h1: u64, h2: u64)
        requires
            self.wf(),
            h1 as int % self.capacity() == h2 as int % self.capacity(),
        ensures
            self.slot(h1) == self.slot(h2),
    {
    }

    /// The filled and total slot counts, for an occupancy report.
    pub fn occupancy_counts(&self) -> (r: (usize, usize))
        ensures
            r.0 as int == self.occupancy_spec(),
            r.1 as int == self.capacity(),
    {
        (self.occupancy, self.size)
    }
}

} // verus!
