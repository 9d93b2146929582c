//! The guest physical memory imported from the target: a sorted,
//! non-overlapping table of memslots, each mapping a guest physical range
//! onto the host-virtual range the target itself uses for it, and a byte
//! store reached through that table.
//!
//! Device DMA goes through this table only: an address is translated to at
//! most one slot, and accesses that cross a slot boundary are split.

use vstd::prelude::*;

use crate::proc::Mapping;
use crate::result::Error;

verus! {

/// One KVM memslot: `len` bytes of guest physical space starting at
/// `gpa_start`, backed in the target at host-virtual `hva_start`.
#[derive(Clone, Copy, Debug)]
pub struct Memslot {
    pub gpa_start: u64,
    pub len: u64,
    pub hva_start: u64,
}

impl Memslot {
    /// Nonempty, and neither end of the slot wraps the 64-bit space.
    pub open spec fn wf(&self) -> bool {
        &&& self.len > 0
        &&& self.gpa_start + self.len <= u64::MAX + 1
        &&& self.hva_start + self.len <= u64::MAX + 1
    }

    /// One past the slot's last guest physical address.
    pub open spec fn gpa_end(&self) -> int {
        self.gpa_start + self.len
    }

    /// Does the slot hold this guest physical address?
    pub open spec fn contains_gpa(&self, gpa: int) -> bool {
        self.gpa_start <= gpa < self.gpa_end()
    }
}

/// The imported guest memory map: memslots sorted by guest physical address,
/// pairwise disjoint.
#[derive(Debug)]
pub struct MemslotTable {
    pub slots: Vec<Memslot>,
}

/// Every slot is well-formed and each ends no later than the next begins.
pub open spec fn slots_wf(s: Seq<Memslot>) -> bool {
    &&& forall|i: int| 0 <= i < s.len() ==> s[i].wf()
    &&& forall|i: int| 0 <= i && i + 1 < s.len() ==> s[i].gpa_end() <= s[i + 1].gpa_start
}

impl MemslotTable {
    /// Every slot is well-formed and each ends no later than the next begins.
    pub open spec fn wf(&self) -> bool {
        slots_wf(self.slots@)
    }

    /// In a sorted table every earlier slot ends before a later one begins.
    pub proof fn lemma_slots_disjoint(&self, i: int, j: int)
        requires
            self.wf(),
            0 <= i < j < self.slots@.len(),
        ensures
            self.slots@[i].gpa_end() <= self.slots@[j].gpa_start,
        decreases j - i,
    {
        if i + 1 < j {
            self.lemma_slots_disjoint(i + 1, j);
        }
    }

    /// Law: the table partitions the used guest physical space — an address
    /// lies in at most one slot.
    pub proof fn lemma_translate_unique(&self, gpa: int, i: int, j: int)
        requires
            self.wf(),
            0 <= i < self.slots@.len(),
            0 <= j < self.slots@.len(),
            self.slots@[i].contains_gpa(gpa),
            self.slots@[j].contains_gpa(gpa),
        ensures
            i == j,
    {
        if i < j {
            self.lemma_slots_disjoint(i, j);
        } else if j < i {
            self.lemma_slots_disjoint(j, i);
        }
    }

    /// Index of the slot holding `gpa`, when one does.
    pub fn find_slot(&self, gpa: u64) -> (r: Option<usize>)
        requires
            self.wf(),
        ensures
            match r {
                Some(k) => k < self.slots@.len() && self.slots@[k as int].contains_gpa(gpa as int),
                None => forall|k: int|
                    0 <= k < self.slots@.len() ==> !self.slots@[k].contains_gpa(gpa as int),
            },
    {
        let mut k: usize = 0;
        while k < self.slots.len()
            invariant
                0 <= k <= self.slots@.len(),
                forall|j: int| 0 <= j < k ==> !self.slots@[j].contains_gpa(gpa as int),
            decreases self.slots@.len() - k,
        {
            let s = self.slots[k];
            if gpa >= s.gpa_start && gpa - s.gpa_start < s.len {
                return Some(k);
            }
            k = k + 1;
        }
        None
    }

    /// Can `[gpa, gpa + len)` be served by a single slot `k`?
    pub open spec fn slot_covers(&self, k: int, gpa: int, len: int) -> bool {
        &&& self.slots@[k].contains_gpa(gpa)
        &&& gpa + len <= self.slots@[k].gpa_end()
    }

    /// Translates `len` contiguous guest physical bytes at `gpa` to the
    /// host-virtual address the target uses for them. `Some` exactly when one
    /// slot covers the whole range; an access that would cross a slot
    /// boundary (or touch unmapped space) is not translated here — it must
    /// be split.
    pub fn translate(&self, gpa: u64, len: u64) -> (r: Option<u64>)
        requires
            self.wf(),
            len >= 1,
        ensures
            match r {
                Some(hva) => exists|k: int|
                    0 <= k < self.slots@.len() && self.slot_covers(k, gpa as int, len as int)
                        && hva == self.slots@[k].hva_start + (gpa - self.slots@[k].gpa_start),
                None => forall|k: int|
                    0 <= k < self.slots@.len() ==> !self.slot_covers(k, gpa as int, len as int),
            },
    {
        match self.find_slot(gpa) {
            Some(k) => {
                let s = self.slots[k];
                let off = gpa - s.gpa_start;
                if len <= s.len - off {
                    proof {
                        assert(self.slots@[k as int].wf());
                    }
                    let hva = s.hva_start + off;
                    proof {
                        assert(self.slot_covers(k as int, gpa as int, len as int));
                    }
                    return Some(hva);
                }
                proof {
                    assert forall|j: int|
                        0 <= j < self.slots@.len() implies !self.slot_covers(
                        j,
                        gpa as int,
                        len as int,
                    ) by {
                        if self.slots@[j].contains_gpa(gpa as int) {
                            self.lemma_translate_unique(gpa as int, j, k as int);
                        }
                    }
                }
                None
            },
            None => None,
        }
    }
}

} // verus!

verus! {

/// A mapping becomes a memslot when KVM registered it as guest RAM and it is
/// nonempty.
pub open spec fn eligible(m: Mapping) -> bool {
    m.phys_addr is Some && m.start < m.end
}

/// The memslot a guest-RAM mapping stands for: same length, guest physical
/// base from KVM, host-virtual base as mapped in the target.
pub open spec fn slot_of_mapping(m: Mapping) -> Memslot {
    Memslot { gpa_start: m.phys_addr->0, len: (m.end - m.start) as u64, hva_start: m.start }
}

/// The mapping has a backing file. Coherent DMA rests on re-mapping the
/// same file bytes that back the guest's RAM; a guest-RAM region without a
/// file cannot be shared and is rejected by the importer.
pub open spec fn file_backed(m: Mapping) -> bool {
    m.pathname@.len() > 0
}

/// The mapping claims guest physical space beyond the 64-bit boundary.
pub open spec fn gpa_wraps(m: Mapping) -> bool {
    m.phys_addr->0 + (m.end - m.start) > u64::MAX + 1
}

/// Two slots claim a common guest physical address.
pub open spec fn slots_overlap(a: Memslot, b: Memslot) -> bool {
    a.gpa_start < b.gpa_end() && b.gpa_start < a.gpa_end()
}

/// Slot `k` stems from one of the first `n` mappings.
pub open spec fn slot_from_prefix(slots: Seq<Memslot>, mappings: Seq<Mapping>, n: int, k: int) -> bool {
    exists|j: int| 0 <= j < n && eligible(mappings[j]) && slots[k] == slot_of_mapping(mappings[j])
}

proof fn lemma_insert_keeps_element<T>(s: Seq<T>, pos: int, v: T, x: T)
    requires
        0 <= pos <= s.len(),
        s.contains(x),
    ensures
        s.insert(pos, v).contains(x),
{
    let j = choose|j: int| 0 <= j < s.len() && s[j] == x;
    if j < pos {
        assert(s.insert(pos, v)[j] == x);
    } else {
        assert(s.insert(pos, v)[j + 1] == x);
    }
}

impl MemslotTable {
    /// Imports the target's guest memory map: every guest-RAM mapping
    /// becomes a memslot, sorted by guest physical address. Fails exactly
    /// when a guest-RAM mapping has no backing file (nothing to re-map for
    /// coherent DMA), when its guest physical range wraps the 64-bit space,
    /// or when two guest-RAM mappings overlap in guest physical space; the
    /// resulting table holds precisely the eligible mappings.
    #[verifier::loop_isolation(false)]
    pub fn from_mappings(mappings: &Vec<Mapping>) -> (r: Result<MemslotTable, Error>)
        ensures
            match r {
                Ok(t) => {
                    &&& t.wf()
                    &&& forall|j: int|
                        0 <= j < mappings@.len() && eligible(mappings@[j]) ==> t.slots@.contains(
                            slot_of_mapping(mappings@[j]))
                    &&& forall|k: int|
                        0 <= k < t.slots@.len() ==> #[trigger] slot_from_prefix(
                            t.slots@,
                            mappings@,
                            mappings@.len() as int,
                            k,
                        )
                    &&& forall|j: int|
                        0 <= j < mappings@.len() && eligible(mappings@[j]) ==> !gpa_wraps(
                            mappings@[j])
                    &&& forall|j: int|
                        0 <= j < mappings@.len() && eligible(mappings@[j]) ==> file_backed(
                            mappings@[j])
                },
                Err(e) => {
                    &&& (exists|j: int|
                        0 <= j < mappings@.len() && eligible(mappings@[j]) && !file_backed(
                            mappings@[j])) || (exists|j: int|
                        0 <= j < mappings@.len() && eligible(mappings@[j]) && gpa_wraps(
                            mappings@[j])) || (exists|p: int, q: int|
                        0 <= p < q < mappings@.len() && eligible(mappings@[p]) && eligible(
                            mappings@[q]) && slots_overlap(
                            slot_of_mapping(mappings@[p]),
                            slot_of_mapping(mappings@[q]),
                        ))
                    &&& e matches Error::Discovery(_)
                },
            },
    {
        let mut slots: Vec<Memslot> = Vec::new();
        let mut i: usize = 0;
        while i < mappings.len()
            invariant
                0 <= i <= mappings@.len(),
                slots_wf(slots@),
                forall|j: int|
                    0 <= j < i && eligible(mappings@[j]) ==> slots@.contains(
                        slot_of_mapping(mappings@[j])),
                forall|k: int|
                    0 <= k < slots@.len() ==> #[trigger] slot_from_prefix(
                        slots@,
                        mappings@,
                        i as int,
                        k,
                    ),
                forall|j: int| 0 <= j < i && eligible(mappings@[j]) ==> !gpa_wraps(mappings@[j]),
                forall|j: int|
                    0 <= j < i && eligible(mappings@[j]) ==> file_backed(mappings@[j]),
            decreases mappings@.len() - i,
        {
            let m = &mappings[i];
            let skip = match m.phys_addr {
                Some(_) => m.start >= m.end,
                None => true,
            };
            if !skip {
                if m.pathname.as_str().is_empty() {
                    proof {
                        assert(eligible(mappings@[i as int]) && !file_backed(mappings@[i as int]));
                    }
                    return Err(Error::Discovery(String::from_str(
                        "a guest-RAM mapping has no backing file to re-map for coherent DMA",
                    )));
                }
                let phys = match m.phys_addr {
                    Some(p) => p,
                    None => 0,  // unreachable: skip is false
                };
                let size = m.end - m.start;
                if phys > (u64::MAX - size) + 1 {
                    proof {
                        assert(eligible(mappings@[i as int]) && gpa_wraps(mappings@[i as int]));
                    }
                    return Err(Error::Discovery(String::from_str(
                        "a guest-RAM mapping wraps the 64-bit guest physical space",
                    )));
                }
                let new_slot = Memslot { gpa_start: phys, len: size, hva_start: m.start };
                proof {
                    assert(new_slot == slot_of_mapping(mappings@[i as int]));
                    assert(new_slot.wf());
                }
                // Find the insertion point: the first slot starting after
                // the new one.
                let mut pos: usize = 0;
                while pos < slots.len() && slots[pos].gpa_start <= new_slot.gpa_start
                    invariant
                        0 <= pos <= slots@.len(),
                        forall|j: int| 0 <= j < pos ==> slots@[j].gpa_start <= new_slot.gpa_start,
                    decreases slots@.len() - pos,
                {
                    pos = pos + 1;
                }
                // Reject overlap with the neighbours; disjointness with all
                // other slots follows from sortedness.
                // The previous slot must end at or before the new one, and
                // the new one at or before the next; `pos > 0` guards the
                // first check, and the previous slot's end is compared
                // without overflow by excluding an end past u64::MAX first.
                let prev_overlap = pos > 0 && (slots[pos - 1].gpa_start > u64::MAX
                    - slots[pos - 1].len || slots[pos - 1].gpa_start + slots[pos - 1].len
                    > new_slot.gpa_start);
                // The next slot starts strictly after the new one, so the
                // difference does not underflow.
                let next_overlap = pos < slots.len() && new_slot.len > slots[pos].gpa_start
                    - new_slot.gpa_start;
                if prev_overlap || next_overlap {
                    proof {
                        let neighbour: int = if prev_overlap {
                            pos - 1
                        } else {
                            pos as int
                        };
                        assert(slots_overlap(slots@[neighbour], new_slot)) by {
                            assert(slots@[neighbour].wf());
                            if prev_overlap {
                                assert(slots@[neighbour].gpa_start <= new_slot.gpa_start);
                                assert(slots@[neighbour].gpa_end() > new_slot.gpa_start);
                            } else {
                                assert(new_slot.gpa_start <= slots@[neighbour].gpa_start);
                                assert(new_slot.gpa_start + new_slot.len
                                    > slots@[neighbour].gpa_start);
                            }
                        }
                        assert(slot_from_prefix(slots@, mappings@, i as int, neighbour));
                        let j = choose|j: int|
                            0 <= j < i && eligible(mappings@[j]) && slots@[neighbour]
                                == slot_of_mapping(mappings@[j]);
                        assert(slots_overlap(
                            slot_of_mapping(mappings@[j]),
                            slot_of_mapping(mappings@[i as int]),
                        ));
                    }
                    return Err(Error::Discovery(String::from_str(
                        "two guest-RAM mappings overlap in guest physical space",
                    )));
                }
                let ghost old_slots = slots@;
                proof {
                    assert(forall|k: int| 0 <= k < old_slots.len() ==> old_slots[k].wf());
                    assert(forall|k: int|
                        0 <= k && k + 1 < old_slots.len() ==> old_slots[k].gpa_end()
                            <= old_slots[k + 1].gpa_start);
                    if pos > 0 {
                        assert(old_slots[pos - 1].gpa_end() <= new_slot.gpa_start);
                    }
                    if pos < old_slots.len() {
                        assert(new_slot.gpa_end() <= old_slots[pos as int].gpa_start);
                    }
                }
                slots.insert(pos, new_slot);
                proof {
                    assert(slots@ == old_slots.insert(pos as int, new_slot));
                    assert(forall|k: int| 0 <= k < pos ==> slots@[k] == old_slots[k]);
                    assert(slots@[pos as int] == new_slot);
                    assert(forall|k: int|
                        pos < k < slots@.len() ==> slots@[k] == old_slots[k - 1]);
                    assert forall|k: int| 0 <= k < slots@.len() implies slots@[k].wf() by {
                        if k < pos {
                            assert(old_slots[k].wf());
                        } else if k > pos {
                            assert(old_slots[k - 1].wf());
                        }
                    }
                    assert forall|k: int|
                        0 <= k && k + 1 < slots@.len() implies slots@[k].gpa_end()
                        <= slots@[k + 1].gpa_start by {
                        if k + 1 < pos {
                            assert(slots@[k] == old_slots[k]);
                            assert(slots@[k + 1] == old_slots[k + 1]);
                            assert(old_slots[k].gpa_end() <= old_slots[k + 1].gpa_start);
                        } else if k + 1 == pos {
                            // the previous slot ends at or before the new one
                            assert(slots@[k] == old_slots[k]);
                            assert(slots@[k + 1] == new_slot);
                            assert(old_slots[k].gpa_end() <= new_slot.gpa_start);
                        } else if k == pos {
                            // the new slot ends at or before the next one
                            assert(slots@[k] == new_slot);
                            assert(slots@[k + 1] == old_slots[k]);
                            assert(new_slot.gpa_end() <= old_slots[k].gpa_start);
                        } else {
                            assert(slots@[k] == old_slots[k - 1]);
                            assert(slots@[k + 1] == old_slots[k]);
                            assert(old_slots[k - 1].gpa_end() <= old_slots[k].gpa_start);
                        }
                    }
                    assert(slots_wf(slots@));
                    assert forall|j: int|
                        0 <= j < i + 1 && eligible(mappings@[j]) implies slots@.contains(
                        slot_of_mapping(mappings@[j])) by {
                        if j < i {
                            lemma_insert_keeps_element(
                                old_slots,
                                pos as int,
                                new_slot,
                                slot_of_mapping(mappings@[j]),
                            );
                        } else {
                            assert(slots@[pos as int] == slot_of_mapping(mappings@[j]));
                        }
                    }
                    assert forall|k: int|
                        0 <= k < slots@.len() implies #[trigger] slot_from_prefix(
                        slots@,
                        mappings@,
                        i as int + 1,
                        k,
                    ) by {
                        if k < pos {
                            assert(slot_from_prefix(old_slots, mappings@, i as int, k));
                            let j = choose|j: int|
                                0 <= j < i && eligible(mappings@[j]) && old_slots[k]
                                    == slot_of_mapping(mappings@[j]);
                            assert(slots@[k] == old_slots[k]);
                            assert(0 <= j < i + 1 && eligible(mappings@[j]) && slots@[k]
                                == slot_of_mapping(mappings@[j]));
                        } else if k == pos {
                            assert(slots@[k] == slot_of_mapping(mappings@[i as int]));
                        } else {
                            assert(slot_from_prefix(old_slots, mappings@, i as int, k - 1));
                            let j = choose|j: int|
                                0 <= j < i && eligible(mappings@[j]) && old_slots[k - 1]
                                    == slot_of_mapping(mappings@[j]);
                            assert(slots@[k] == old_slots[k - 1]);
                            assert(0 <= j < i + 1 && eligible(mappings@[j]) && slots@[k]
                                == slot_of_mapping(mappings@[j]));
                        }
                    }
                }
            } else {
                proof {
                    assert forall|k: int|
                        0 <= k < slots@.len() implies #[trigger] slot_from_prefix(
                        slots@,
                        mappings@,
                        i as int + 1,
                        k,
                    ) by {
                        assert(slot_from_prefix(slots@, mappings@, i as int, k));
                        let j = choose|j: int|
                            0 <= j < i && eligible(mappings@[j]) && slots@[k]
                                == slot_of_mapping(mappings@[j]);
                        assert(0 <= j < i + 1 && eligible(mappings@[j]) && slots@[k]
                            == slot_of_mapping(mappings@[j]));
                    }
                }
            }
            i = i + 1;
        }
        Ok(MemslotTable { slots })
    }
}

} // verus!

verus! {

/// Guest memory as the controller sees it: the imported memslot table plus
/// the bytes of each slot. In the running system the bytes live in the
/// target's address space and are moved by cross-process I/O; the store here
/// is the controller's coherent view of them, held slot by slot.
#[derive(Debug)]
pub struct GuestMem {
    pub table: MemslotTable,
    pub store: Vec<Vec<u8>>,
}

impl GuestMem {
    /// The table is well-formed and each slot's byte row has exactly the
    /// slot's length.
    pub open spec fn wf(&self) -> bool {
        &&& self.table.wf()
        &&& self.store@.len() == self.table.slots@.len()
        &&& forall|k: int|
            0 <= k < self.store@.len() ==> self.store@[k]@.len() == self.table.slots@[k].len
    }

    /// Is the guest physical address backed by some slot?
    pub open spec fn covered(&self, gpa: int) -> bool {
        exists|k: int|
            0 <= k < self.table.slots@.len() && self.table.slots@[k].contains_gpa(gpa)
    }

    /// The slot holding `gpa` (unique when covered).
    pub open spec fn slot_idx(&self, gpa: int) -> int {
        choose|k: int|
            0 <= k < self.table.slots@.len() && self.table.slots@[k].contains_gpa(gpa)
    }

    /// The byte stored at a covered guest physical address.
    pub open spec fn byte_at(&self, gpa: int) -> u8 {
        self.store@[self.slot_idx(gpa)]@[gpa - self.table.slots@[self.slot_idx(gpa)].gpa_start]
    }

    /// A fresh view of the table's guest space, all bytes zero. `None` when
    /// a slot is too large to back with one allocation.
    pub fn new(table: MemslotTable) -> (r: Option<GuestMem>)
        requires
            table.wf(),
        ensures
            match r {
                Some(g) => {
                    &&& g.wf()
                    &&& g.table == table
                    &&& forall|gpa: int| g.covered(gpa) ==> g.byte_at(gpa) == 0u8
                },
                None => exists|k: int|
                    0 <= k < table.slots@.len() && table.slots@[k].len > usize::MAX,
            },
    {
        let mut store: Vec<Vec<u8>> = Vec::new();
        let mut k: usize = 0;
        while k < table.slots.len()
            invariant
                0 <= k <= table.slots@.len(),
                store@.len() == k,
                table.wf(),
                forall|j: int| 0 <= j < k ==> store@[j]@.len() == table.slots@[j].len,
                forall|j: int, o: int|
                    0 <= j < k && 0 <= o < store@[j]@.len() ==> store@[j]@[o] == 0u8,
            decreases table.slots@.len() - k,
        {
            let n64 = table.slots[k].len;
            if n64 > usize::MAX as u64 {
                return None;
            }
            let n = n64 as usize;
            let row: Vec<u8> = vec![0u8; n];
            store.push(row);
            k = k + 1;
        }
        let g = GuestMem { table, store };
        proof {
            assert forall|gpa: int| g.covered(gpa) implies g.byte_at(gpa) == 0u8 by {
                let j = g.slot_idx(gpa);
                assert(0 <= j < g.table.slots@.len() && g.table.slots@[j].contains_gpa(gpa));
            }
        }
        Some(g)
    }

    /// Reads one guest physical byte; `Some` exactly on covered addresses.
    pub fn read_byte(&self, gpa: u64) -> (r: Option<u8>)
        requires
            self.wf(),
        ensures
            r is Some <==> self.covered(gpa as int),
            r matches Some(b) ==> b == self.byte_at(gpa as int),
    {
        match self.table.find_slot(gpa) {
            Some(k) => {
                let s = self.table.slots[k];
                let off64 = gpa - s.gpa_start;
                let row_len = self.store[k].len();
                let off = off64 as usize;
                let b = self.store[k][off];
                proof {
                    let j = self.slot_idx(gpa as int);
                    self.table.lemma_translate_unique(gpa as int, j, k as int);
                }
                Some(b)
            },
            None => None,
        }
    }

    /// Writes one guest physical byte; `true` exactly on covered addresses.
    /// On success only that byte changes; on failure nothing does.
    pub fn write_byte(&mut self, gpa: u64, b: u8) -> (ok: bool)
        requires
            old(self).wf(),
        ensures
            final(self).wf(),
            final(self).table == old(self).table,
            ok <==> old(self).covered(gpa as int),
            ok ==> final(self).byte_at(gpa as int) == b,
            ok ==> forall|g: int|
                old(self).covered(g) && g != gpa as int ==> final(self).byte_at(g)
                    == old(self).byte_at(g),
            !ok ==> *final(self) == *old(self),
    {
        match self.table.find_slot(gpa) {
            Some(k) => {
                let s = self.table.slots[k];
                let off64 = gpa - s.gpa_start;
                let row_len = self.store[k].len();
                let off = off64 as usize;
                self.store[k][off] = b;
                proof {
                    let j = final(self).slot_idx(gpa as int);
                    self.table.lemma_translate_unique(gpa as int, j, k as int);
                    assert(final(self).byte_at(gpa as int) == b);
                    assert forall|g: int|
                        old(self).covered(g) && g != gpa as int implies final(self).byte_at(g)
                            == old(self).byte_at(g) by {
                        let jg = old(self).slot_idx(g);
                        assert(0 <= jg < self.table.slots@.len()
                            && self.table.slots@[jg].contains_gpa(g));
                        assert(final(self).slot_idx(g) == jg) by {
                            let jf = final(self).slot_idx(g);
                            self.table.lemma_translate_unique(g, jf, jg);
                        }
                        if jg == k as int {
                            assert(g - self.table.slots@[jg].gpa_start != off64 as int);
                        }
                    }
                }
                true
            },
            None => false,
        }
    }

    /// Coverage is a property of the table alone: two views over the same
    /// table back the same addresses.
    pub proof fn lemma_covered_same_table(a: GuestMem, b: GuestMem, gpa: int)
        requires
            a.table == b.table,
            a.covered(gpa),
        ensures
            b.covered(gpa),
    {
        let k = choose|k: int|
            0 <= k < a.table.slots@.len() && a.table.slots@[k].contains_gpa(gpa);
        assert(b.table.slots@[k].contains_gpa(gpa));
    }

    pub proof fn lemma_range_covered_same_table(a: GuestMem, b: GuestMem, gpa: int, len: int)
        requires
            a.table == b.table,
            a.range_covered(gpa, len),
        ensures
            b.range_covered(gpa, len),
    {
        assert forall|o: int| 0 <= o < len implies #[trigger] b.covered(gpa + o) by {
            assert(a.covered(gpa + o));
            GuestMem::lemma_covered_same_table(a, b, gpa + o);
        }
    }

    /// Is the whole range `[gpa, gpa + len)` backed by slots?
    pub open spec fn range_covered(&self, gpa: int, len: int) -> bool {
        forall|o: int| 0 <= o < len ==> #[trigger] self.covered(gpa + o)
    }

    /// Reads `len` guest physical bytes, splitting across slot boundaries.
    /// `Some` exactly when the whole range is backed.
    pub fn read_bytes(&self, gpa: u64, len: usize) -> (r: Option<Vec<u8>>)
        requires
            self.wf(),
        ensures
            r is Some <==> self.range_covered(gpa as int, len as int),
            r matches Some(v) ==> v@.len() == len && forall|o: int|
                0 <= o < len ==> v@[o] == self.byte_at(gpa + o),
    {
        let mut v: Vec<u8> = Vec::new();
        let mut o: usize = 0;
        while o < len
            invariant
                self.wf(),
                0 <= o <= len,
                v@.len() == o,
                gpa + o <= u64::MAX + 1,
                forall|j: int| 0 <= j < o ==> #[trigger] self.covered(gpa + j),
                forall|j: int| 0 <= j < o ==> v@[j] == self.byte_at(gpa + j),
            decreases len - o,
        {
            if gpa > u64::MAX - (o as u64) {
                // The address would pass the top of the 64-bit space, which
                // no slot reaches.
                proof {
                    assert(!self.covered(gpa + o));
                }
                return None;
            }
            let addr = gpa + (o as u64);
            match self.read_byte(addr) {
                Some(b) => {
                    v.push(b);
                },
                None => {
                    return None;
                },
            }
            o = o + 1;
        }
        Some(v)
    }

    /// Writes bytes at `gpa`, splitting across slot boundaries. `true`
    /// exactly when the whole range is backed; then exactly those bytes
    /// change, and on failure nothing does.
    pub fn write_bytes(&mut self, gpa: u64, data: &Vec<u8>) -> (ok: bool)
        requires
            old(self).wf(),
        ensures
            final(self).wf(),
            final(self).table == old(self).table,
            ok <==> old(self).range_covered(gpa as int, data@.len() as int),
            ok ==> forall|o: int|
                0 <= o < data@.len() ==> final(self).byte_at(gpa + o) == data@[o],
            ok ==> forall|g: int|
                old(self).covered(g) && !(gpa <= g < gpa + data@.len()) ==> final(self).byte_at(g)
                    == old(self).byte_at(g),
            !ok ==> *final(self) == *old(self),
    {
        // Check coverage first so that a failing write leaves the view
        // untouched.
        let mut o: usize = 0;
        while o < data.len()
            invariant
                self.wf(),
                0 <= o <= data@.len(),
                gpa + o <= u64::MAX + 1,
                forall|j: int| 0 <= j < o ==> #[trigger] self.covered(gpa + j),
            decreases data@.len() - o,
        {
            if gpa > u64::MAX - (o as u64) {
                proof {
                    assert(!self.covered(gpa + o));
                }
                return false;
            }
            let addr = gpa + (o as u64);
            match self.table.find_slot(addr) {
                Some(_) => {},
                None => {
                    proof {
                        assert(!self.covered(gpa + o));
                    }
                    return false;
                },
            }
            o = o + 1;
        }
        let ghost orig = *self;
        let mut o: usize = 0;
        while o < data.len()
            invariant
                self.wf(),
                0 <= o <= data@.len(),
                self.table == orig.table,
                orig.wf(),
                forall|j: int| 0 <= j < data@.len() ==> #[trigger] orig.covered(gpa + j),
                gpa + data@.len() <= u64::MAX + 1,
                forall|j: int| 0 <= j < o ==> self.byte_at(gpa + j) == data@[j],
                forall|g: int|
                    orig.covered(g) && !(gpa <= g < gpa + o) ==> self.byte_at(g) == orig.byte_at(
                        g),
            decreases data@.len() - o,
        {
            let addr = gpa + (o as u64);
            let ghost before = *self;
            let ok = self.write_byte(addr, data[o]);
            proof {
                assert(before.covered(addr as int) == orig.covered(addr as int));
                assert(ok);
                assert forall|j: int| 0 <= j < o + 1 implies self.byte_at(gpa + j) == data@[j] by {
                    if j < o {
                        assert(before.byte_at(gpa + j) == data@[j]);
                        assert(orig.covered(gpa + j));
                    }
                }
                assert forall|g: int|
                    orig.covered(g) && !(gpa <= g < gpa + o + 1) implies self.byte_at(g)
                        == orig.byte_at(g) by {
                    assert(before.byte_at(g) == orig.byte_at(g));
                }
            }
            o = o + 1;
        }
        true
    }
}

} // verus!
