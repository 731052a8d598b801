//! Resolution of typed values from a foreign process's memory through
//! ordered chains of offsets.
//!
//! The memory that was observed is modelled as a snapshot: a partial map
//! from address to the machine word stored there. Resolution walks the
//! chain hop by hop; a hop whose address is unmapped (or whose address
//! computation leaves the address space) makes the whole resolution fail,
//! regardless of whether later hops would have been valid. Resolution is
//! idempotent and side-effect-free: it only reads the snapshot.

use vstd::prelude::*;

verus! {

/// A snapshot of the observed cells of a foreign process's memory:
/// a list of (address, stored word) pairs with no address bound twice.
pub struct MemorySnapshot {
    pub cells: Vec<(u64, u64)>,
}

/// The partial map a cell list denotes.
pub open spec fn map_of_cells(cells: Seq<(u64, u64)>) -> Map<u64, u64>
    decreases cells.len(),
{
    if cells.len() == 0 {
        Map::empty()
    } else {
        map_of_cells(cells.drop_last()).insert(cells.last().0, cells.last().1)
    }
}

/// An address is in the map exactly when some cell carries it.
proof fn lemma_map_of_cells_key(cells: Seq<(u64, u64)>, addr: u64)
    ensures
        map_of_cells(cells).contains_key(addr) <==> exists|i: int|
            0 <= i < cells.len() && (#[trigger] cells[i]).0 == addr,
    decreases cells.len(),
{
    if cells.len() > 0 {
        let prefix = cells.drop_last();
        lemma_map_of_cells_key(prefix, addr);
        if cells.last().0 == addr {
            assert((cells[cells.len() - 1]).0 == addr);
        } else {
            if map_of_cells(cells).contains_key(addr) {
                let i = choose|i: int| 0 <= i < prefix.len() && (#[trigger] prefix[i]).0 == addr;
                assert((cells[i]).0 == addr);
            }
            if exists|i: int| 0 <= i < cells.len() && (#[trigger] cells[i]).0 == addr {
                let i = choose|i: int| 0 <= i < cells.len() && (#[trigger] cells[i]).0 == addr;
                assert(i != cells.len() - 1);
                assert((prefix[i]).0 == addr);
            }
        }
    }
}

/// With no duplicate addresses, the cell at index `i` gives the map's value.
proof fn lemma_map_of_cells_value(cells: Seq<(u64, u64)>, i: int)
    requires
        forall|p: int, q: int|
            0 <= p < q < cells.len() ==> (#[trigger] cells[p]).0 != (#[trigger] cells[q]).0,
        0 <= i < cells.len(),
    ensures
        map_of_cells(cells).contains_key(cells[i].0),
        map_of_cells(cells)[cells[i].0] == cells[i].1,
    decreases cells.len(),
{
    if i == cells.len() - 1 {
    } else {
        lemma_map_of_cells_value(cells.drop_last(), i);
        assert(cells.drop_last()[i] == cells[i]);
        assert(cells.last().0 != cells[i].0);
    }
}

impl MemorySnapshot {
    /// The partial map this snapshot denotes.
    pub open spec fn as_map(&self) -> Map<u64, u64> {
        map_of_cells(self.cells@)
    }

    /// No address is bound twice.
    pub open spec fn wf(&self) -> bool {
        forall|i: int, j: int|
            0 <= i < j < self.cells@.len() ==> (#[trigger] self.cells@[i]).0 != (
            #[trigger] self.cells@[j]).0
    }

    /// An empty snapshot: every read fails.
    pub fn new() -> (r: Self)
        ensures
            r.wf(),
            r.as_map() == Map::<u64, u64>::empty(),
    {
        MemorySnapshot { cells: Vec::new() }
    }

    /// Whether the snapshot maps this address.
    pub fn contains(&self, addr: u64) -> (r: bool)
        ensures
            r == self.as_map().contains_key(addr),
    {
        let mut i: usize = 0;
        while i < self.cells.len()
            invariant
                0 <= i <= self.cells@.len(),
                forall|j: int| 0 <= j < i ==> (#[trigger] self.cells@[j]).0 != addr,
            decreases self.cells@.len() - i,
        {
            if self.cells[i].0 == addr {
                proof {
                    lemma_map_of_cells_key(self.cells@, addr);
                    assert((self.cells@[i as int]).0 == addr);
                }
                return true;
            }
            i += 1;
        }
        proof {
            lemma_map_of_cells_key(self.cells@, addr);
        }
        false
    }

    /// Record the word observed at a fresh address.
    pub fn record(&mut self, addr: u64, value: u64)
        requires
            old(self).wf(),
            !old(self).as_map().contains_key(addr),
        ensures
            final(self).wf(),
            final(self).as_map() == old(self).as_map().insert(addr, value),
    {
        proof {
            lemma_map_of_cells_key(self.cells@, addr);
        }
        self.cells.push((addr, value));
        proof {
            assert(self.cells@.drop_last() =~= old(self).cells@);
        }
    }

    /// Read the word at an address: the mapped value, or nothing when the
    /// address is not part of the snapshot.
    pub fn read(&self, addr: u64) -> (r: Option<u64>)
        requires
            self.wf(),
        ensures
            self.as_map().contains_key(addr) ==> r == Some(self.as_map()[addr]),
            !self.as_map().contains_key(addr) ==> r is None,
    {
        let mut i: usize = 0;
        while i < self.cells.len()
            invariant
                self.wf(),
                0 <= i <= self.cells@.len(),
                forall|j: int| 0 <= j < i ==> (#[trigger] self.cells@[j]).0 != addr,
            decreases self.cells@.len() - i,
        {
            if self.cells[i].0 == addr {
                proof {
                    lemma_map_of_cells_value(self.cells@, i as int);
                }
                return Some(self.cells[i].1);
            }
            i += 1;
        }
        proof {
            lemma_map_of_cells_key(self.cells@, addr);
        }
        None
    }
}

/// The address a hop reads: the current address plus the hop's offset,
/// if the sum stays inside the address space.
pub open spec fn hop_sum(addr: u64, offset: u64) -> Option<u64> {
    if addr + offset <= u64::MAX {
        Some((addr + offset) as u64)
    } else {
        None
    }
}

/// The value a chain denotes in a memory snapshot. At each hop the word at
/// (current address + this hop's offset) is read; intermediate words are
/// followed as pointers and the last hop's word is the result. A failed hop
/// fails the whole resolution, whatever later hops would have given.
pub open spec fn chain_value(m: Map<u64, u64>, addr: u64, offsets: Seq<u64>) -> Option<u64>
    decreases offsets.len(),
{
    if offsets.len() == 0 {
        None
    } else {
        match hop_sum(addr, offsets[0]) {
            None => None,
            Some(a) => if !m.contains_key(a) {
                None
            } else if offsets.len() == 1 {
                Some(m[a])
            } else {
                chain_value(m, m[a], offsets.skip(1))
            },
        }
    }
}

/// The address hop `k` reads, when every hop before it resolved.
pub open spec fn hop_addr(m: Map<u64, u64>, base: u64, offsets: Seq<u64>, k: int) -> Option<u64>
    recommends
        0 <= k < offsets.len(),
    decreases k,
{
    if k <= 0 {
        hop_sum(base, offsets[0])
    } else {
        match hop_addr(m, base, offsets, k - 1) {
            None => None,
            Some(a) => if m.contains_key(a) {
                hop_sum(m[a], offsets[k])
            } else {
                None
            },
        }
    }
}

/// Hop `k` resolves: its address exists and the snapshot maps it.
pub open spec fn hop_ok(m: Map<u64, u64>, base: u64, offsets: Seq<u64>, k: int) -> bool {
    hop_addr(m, base, offsets, k) matches Some(a) && m.contains_key(a)
}

/// Shifting the chain one resolved hop forward renames the hop addresses.
proof fn lemma_hop_addr_shift(m: Map<u64, u64>, base: u64, offsets: Seq<u64>, k: int)
    requires
        offsets.len() >= 2,
        1 <= k < offsets.len(),
        hop_ok(m, base, offsets, 0),
    ensures
        hop_addr(m, base, offsets, k) == hop_addr(
            m,
            m[hop_addr(m, base, offsets, 0)->0],
            offsets.skip(1),
            k - 1,
        ),
    decreases k,
{
    if k > 1 {
        lemma_hop_addr_shift(m, base, offsets, k - 1);
    }
    assert(offsets.skip(1)[k - 1] == offsets[k]);
}

/// When every hop resolves, the chain's value is exactly the word present
/// at the last hop's address.
pub proof fn lemma_resolve_complete(m: Map<u64, u64>, base: u64, offsets: Seq<u64>)
    requires
        offsets.len() >= 1,
        forall|k: int| 0 <= k < offsets.len() ==> hop_ok(m, base, offsets, k),
    ensures
        hop_addr(m, base, offsets, offsets.len() - 1) is Some,
        chain_value(m, base, offsets) == Some(m[hop_addr(m, base, offsets, offsets.len() - 1)->0]),
    decreases offsets.len(),
{
    assert(hop_ok(m, base, offsets, 0));
    if offsets.len() == 1 {
    } else {
        let a0 = hop_addr(m, base, offsets, 0)->0;
        let rest = offsets.skip(1);
        assert forall|k: int| 0 <= k < rest.len() implies hop_ok(m, m[a0], rest, k) by {
            assert(hop_ok(m, base, offsets, k + 1));
            lemma_hop_addr_shift(m, base, offsets, k + 1);
        }
        lemma_resolve_complete(m, m[a0], rest);
        lemma_hop_addr_shift(m, base, offsets, offsets.len() - 1);
    }
}

/// When some hop fails — its address leaves the address space or is not
/// mapped — the chain resolves to nothing, regardless of later hops.
pub proof fn lemma_resolve_hop_failure(m: Map<u64, u64>, base: u64, offsets: Seq<u64>, k: int)
    requires
        0 <= k < offsets.len(),
        forall|j: int| 0 <= j < k ==> hop_ok(m, base, offsets, j),
        !hop_ok(m, base, offsets, k),
    ensures
        chain_value(m, base, offsets) is None,
    decreases offsets.len(),
{
    if k == 0 {
        if offsets.len() > 1 && (hop_sum(base, offsets[0]) matches Some(a) && m.contains_key(a)) {
            assert(false);
        }
    } else {
        assert(hop_ok(m, base, offsets, 0));
        let a0 = hop_addr(m, base, offsets, 0)->0;
        let rest = offsets.skip(1);
        assert forall|j: int| 0 <= j < k - 1 implies hop_ok(m, m[a0], rest, j) by {
            assert(hop_ok(m, base, offsets, j + 1));
            lemma_hop_addr_shift(m, base, offsets, j + 1);
        }
        lemma_hop_addr_shift(m, base, offsets, k);
        assert(!hop_ok(m, m[a0], rest, k - 1));
        lemma_resolve_hop_failure(m, m[a0], rest, k - 1);
    }
}

/// An ordered pointer chain: a base address plus the offset applied at each
/// hop. Reconstructed once at engine start; never mutated afterwards.
pub struct PointerChain {
    pub base: u64,
    pub offsets: Vec<u64>,
}

impl PointerChain {
    pub fn new(base: u64, offsets: Vec<u64>) -> (r: Self)
        ensures
            r.base == base,
            r.offsets@ == offsets@,
    {
        PointerChain { base, offsets }
    }

    /// Walk the chain against a memory snapshot. Returns the word at the
    /// final address when every hop resolves, and nothing as soon as one
    /// hop fails; never faults, never retries.
    pub fn resolve(&self, mem: &MemorySnapshot) -> (r: Option<u64>)
        requires
            mem.wf(),
        ensures
            r == chain_value(mem.as_map(), self.base, self.offsets@),
    {
        if self.offsets.len() == 0 {
            return None;
        }
        let mut addr: u64 = self.base;
        let mut i: usize = 0;
        proof {
            assert(self.offsets@.skip(0) =~= self.offsets@);
        }
        loop
            invariant
                mem.wf(),
                0 <= i < self.offsets@.len(),
                chain_value(mem.as_map(), self.base, self.offsets@) == chain_value(
                    mem.as_map(),
                    addr,
                    self.offsets@.skip(i as int),
                ),
            decreases self.offsets@.len() - i,
        {
            proof {
                assert(self.offsets@.skip(i as int)[0] == self.offsets@[i as int]);
            }
            let off = self.offsets[i];
            if off > u64::MAX - addr {
                return None;
            }
            let a = addr + off;
            match mem.read(a) {
                None => {
                    return None;
                },
                Some(v) => {
                    if i == self.offsets.len() - 1 {
                        return Some(v);
                    }
                    proof {
                        assert(self.offsets@.skip(i as int).skip(1) =~= self.offsets@.skip(
                            i as int + 1,
                        ));
                    }
                    addr = v;
                    i += 1;
                },
            }
        }
    }
}

} // verus!
