//! The MMIO bus: a non-overlapping set of guest physical address ranges,
//! each bound to a registered device. An intercepted MMIO exit is routed to
//! the one device whose range holds the address, or reported unserviced so
//! the target's own handler sees it untouched.

use vstd::prelude::*;

use crate::result::Error;

verus! {

/// A guest physical address window `[base, base + len)` claimed by a device.
#[derive(Clone, Copy, Debug)]
pub struct MmioRange {
    pub base: u64,
    pub len: u64,
}

impl MmioRange {
    /// Nonempty and not wrapping the 64-bit space.
    pub open spec fn wf(&self) -> bool {
        self.len > 0 && self.base + self.len <= u64::MAX + 1
    }

    pub open spec fn end(&self) -> int {
        self.base + self.len
    }

    pub open spec fn contains(&self, addr: int) -> bool {
        self.base <= addr < self.end()
    }
}

/// Two ranges claim a common address.
pub open spec fn ranges_overlap(a: MmioRange, b: MmioRange) -> bool {
    a.base < b.end() && b.base < a.end()
}

/// One registration: a range and the registry index of the device behind it.
#[derive(Clone, Copy, Debug)]
pub struct MmioBinding {
    pub range: MmioRange,
    pub device: usize,
}

/// Where the bus sends an exit.
#[derive(Clone, Copy, Debug, PartialEq, Eq, Structural)]
pub enum Routing {
    /// The device at this registry index serves the access, at this offset
    /// into its register window.
    Device { device: usize, offset: u64 },
    /// No registered range holds the address; the access is handed back to
    /// the target untouched.
    Unserviced,
}

/// The device registry keyed by MMIO range, in registration order.
#[derive(Debug)]
pub struct MmioBus {
    pub bindings: Vec<MmioBinding>,
}

impl MmioBus {
    /// Every range is well-formed and no two overlap.
    pub open spec fn wf(&self) -> bool {
        &&& forall|i: int| 0 <= i < self.bindings@.len() ==> self.bindings@[i].range.wf()
        &&& forall|i: int, j: int|
            0 <= i < j < self.bindings@.len() ==> !ranges_overlap(
                self.bindings@[i].range,
                self.bindings@[j].range,
            )
    }

    /// An empty bus.
    pub fn new() -> (r: MmioBus)
        ensures
            r.wf(),
            r.bindings@.len() == 0,
    {
        MmioBus { bindings: Vec::new() }
    }

    /// Law: an address lies in the range of at most one binding.
    pub proof fn lemma_route_unique(&self, addr: int, i: int, j: int)
        requires
            self.wf(),
            0 <= i < self.bindings@.len(),
            0 <= j < self.bindings@.len(),
            self.bindings@[i].range.contains(addr),
            self.bindings@[j].range.contains(addr),
        ensures
            i == j,
    {
        if i < j {
            assert(!ranges_overlap(self.bindings@[i].range, self.bindings@[j].range));
        } else if j < i {
            assert(!ranges_overlap(self.bindings@[j].range, self.bindings@[i].range));
        }
    }

    /// Binds a range to a device. Succeeds exactly when the range is
    /// well-formed and disjoint from every registered range; on failure the
    /// bus is unchanged.
    #[verifier::loop_isolation(false)]
    pub fn register(&mut self, range: MmioRange, device: usize) -> (r: Result<(), Error>)
        requires
            old(self).wf(),
        ensures
            final(self).wf(),
            match r {
                Ok(()) => {
                    &&& range.wf()
                    &&& forall|i: int|
                        0 <= i < old(self).bindings@.len() ==> !ranges_overlap(
                            old(self).bindings@[i].range,
                            range,
                        )
                    &&& final(self).bindings@ == old(self).bindings@.push(
                        MmioBinding { range, device },
                    )
                },
                Err(e) => {
                    &&& !range.wf() || exists|i: int|
                        0 <= i < old(self).bindings@.len() && ranges_overlap(
                            #[trigger] old(self).bindings@[i].range,
                            range,
                        )
                    &&& *final(self) == *old(self)
                    &&& e matches Error::Protocol(_)
                },
            },
    {
        if range.len == 0 || range.base > (u64::MAX - range.len) + 1 {
            return Err(Error::Protocol(String::from_str(
                "mmio range is empty or wraps the 64-bit space",
            )));
        }
        let mut i: usize = 0;
        while i < self.bindings.len()
            invariant
                0 <= i <= self.bindings@.len(),
                forall|j: int|
                    0 <= j < i ==> !ranges_overlap(
                        #[trigger] self.bindings@[j].range,
                        range,
                    ),
            decreases self.bindings@.len() - i,
        {
            let b = self.bindings[i].range;
            // Both ranges are well-formed here, so the comparisons cannot
            // wrap: compare ends via subtraction.
            let disjoint = if b.base >= range.base {
                b.base - range.base >= range.len
            } else {
                range.base - b.base >= b.len
            };
            if !disjoint {
                proof {
                    assert(self.bindings@[i as int].range.wf());
                    assert(ranges_overlap(self.bindings@[i as int].range, range));
                }
                return Err(Error::Protocol(String::from_str(
                    "mmio range overlaps an already registered device",
                )));
            }
            i = i + 1;
        }
        self.bindings.push(MmioBinding { range, device });
        proof {
            let n = self.bindings@.len() - 1;
            assert forall|p: int, q: int|
                0 <= p < q < self.bindings@.len() implies !ranges_overlap(
                self.bindings@[p].range,
                self.bindings@[q].range,
            ) by {
                if q == n {
                    assert(!ranges_overlap(self.bindings@[p].range, range));
                }
            }
        }
        Ok(())
    }

    /// Removes the binding whose range starts at `base`; `true` when one was
    /// there. Bindings keep their relative order.
    #[verifier::loop_isolation(false)]
    pub fn unregister(&mut self, base: u64) -> (r: bool)
        requires
            old(self).wf(),
        ensures
            final(self).wf(),
            r <==> exists|i: int|
                0 <= i < old(self).bindings@.len() && #[trigger] old(self).bindings@[i].range.base
                    == base,
            r ==> exists|i: int|
                0 <= i < old(self).bindings@.len() && old(self).bindings@[i].range.base == base
                    && final(self).bindings@ == old(self).bindings@.remove(i),
            !r ==> *final(self) == *old(self),
    {
        let mut i: usize = 0;
        while i < self.bindings.len()
            invariant
                old(self) == self,
                0 <= i <= self.bindings@.len(),
                forall|j: int| 0 <= j < i ==> #[trigger] self.bindings@[j].range.base != base,
            decreases self.bindings@.len() - i,
        {
            if self.bindings[i].range.base == base {
                let ghost old_b = self.bindings@;
                self.bindings.remove(i);
                proof {
                    assert(final(self).bindings@ == old_b.remove(i as int));
                    assert forall|p: int, q: int|
                        0 <= p < q < self.bindings@.len() implies !ranges_overlap(
                        self.bindings@[p].range,
                        self.bindings@[q].range,
                    ) by {
                        let p0: int = if p < i { p } else { p + 1 };
                        let q0: int = if q < i { q } else { q + 1 };
                        assert(self.bindings@[p] == old_b[p0]);
                        assert(self.bindings@[q] == old_b[q0]);
                        assert(!ranges_overlap(old_b[p0].range, old_b[q0].range));
                    }
                    assert forall|k: int| 0 <= k < self.bindings@.len() implies self.bindings@[k].range.wf()
                        by {
                        let k0: int = if k < i { k } else { k + 1 };
                        assert(self.bindings@[k] == old_b[k0]);
                    }
                }
                return true;
            }
            i = i + 1;
        }
        false
    }

    /// Routes a guest physical address: the unique device whose range holds
    /// it and the offset inside that range, or unserviced when no range
    /// does — never a device whose range misses the address.
    #[verifier::loop_isolation(false)]
    pub fn dispatch(&self, addr: u64) -> (r: Routing)
        requires
            self.wf(),
        ensures
            match r {
                Routing::Device { device, offset } => exists|k: int|
                    0 <= k < self.bindings@.len() && (#[trigger] self.bindings@[k].range).contains(
                        addr as int,
                    ) && device == self.bindings@[k].device && offset == addr
                        - self.bindings@[k].range.base,
                Routing::Unserviced => forall|k: int|
                    0 <= k < self.bindings@.len() ==> !(#[trigger] self.bindings@[k].range).contains(
                        addr as int,
                    ),
            },
    {
        let mut i: usize = 0;
        while i < self.bindings.len()
            invariant
                self.wf(),
                0 <= i <= self.bindings@.len(),
                forall|j: int|
                    0 <= j < i ==> !(#[trigger] self.bindings@[j].range).contains(addr as int),
            decreases self.bindings@.len() - i,
        {
            let b = self.bindings[i];
            if addr >= b.range.base && addr - b.range.base < b.range.len {
                return Routing::Device { device: b.device, offset: addr - b.range.base };
            }
            i = i + 1;
        }
        Routing::Unserviced
    }
}

} // verus!
