//! The injected virtio-mmio block device: its register file, its single
//! virtqueue, and the block backend the queue engine serves.
//!
//! The device lives entirely on plain values: guest memory is reached
//! through [`crate::memslots::GuestMem`] and the backing store is a byte
//! vector whose file I/O happens outside the library.

use vstd::prelude::*;

use crate::bus::MmioBus;
use crate::bus::MmioRange;
use crate::memslots::GuestMem;
use crate::result::Error;

verus! {

/// Bytes per block-device sector.
pub const SECTOR_SIZE: u64 = 512;

/// The start of the guest physical area reserved for injected MMIO devices.
pub const MMIO_MEM_START: u64 = 0xC000_0000;

/// Size of the device's register window.
pub const MMIO_WINDOW: u64 = 0x1000;

/// The guest interrupt line the device raises.
pub const MMIO_IRQ: u32 = 5;

/// Little-endian value of two bytes.
pub open spec fn le16_of(b: Seq<u8>) -> int {
    b[0] + 0x100 * b[1]
}

/// Little-endian value of four bytes.
pub open spec fn le32_of(b: Seq<u8>) -> int {
    b[0] + 0x100 * b[1] + 0x1_0000 * b[2] + 0x100_0000 * b[3]
}

/// Little-endian value of eight bytes.
pub open spec fn le64_of(b: Seq<u8>) -> int {
    le32_of(b.subrange(0, 4)) + 0x1_0000_0000 * le32_of(b.subrange(4, 8))
}

/// Reads a 16-bit little-endian value.
pub fn le16(v: &Vec<u8>, at: usize) -> (r: u16)
    requires
        at + 2 <= v@.len(),
    ensures
        r == le16_of(v@.subrange(at as int, at + 2)),
{
    let n = v.len();  // binds the length, so the index arithmetic is known to fit
    (v[at] as u16) + 0x100 * (v[at + 1] as u16)
}

/// Reads a 32-bit little-endian value.
pub fn le32(v: &Vec<u8>, at: usize) -> (r: u32)
    requires
        at + 4 <= v@.len(),
    ensures
        r == le32_of(v@.subrange(at as int, at + 4)),
{
    let n = v.len();  // binds the length, so the index arithmetic is known to fit
    (v[at] as u32) + 0x100 * (v[at + 1] as u32) + 0x1_0000 * (v[at + 2] as u32) + 0x100_0000 * (
    v[at + 3] as u32)
}

/// Reads a 64-bit little-endian value.
pub fn le64(v: &Vec<u8>, at: usize) -> (r: u64)
    requires
        at + 8 <= v@.len(),
    ensures
        r == le64_of(v@.subrange(at as int, at + 8)),
{
    let n = v.len();  // binds the length, so the index arithmetic is known to fit
    let lo = le32(v, at);
    let hi = le32(v, at + 4);
    proof {
        assert(v@.subrange(at as int, at + 8).subrange(0, 4) =~= v@.subrange(at as int, at + 4));
        assert(v@.subrange(at as int, at + 8).subrange(4, 8) =~= v@.subrange(at + 4, at + 8));
    }
    (lo as u64) + 0x1_0000_0000 * (hi as u64)
}

/// The two little-endian bytes of a 16-bit value.
pub fn le16_bytes(x: u16) -> (r: Vec<u8>)
    ensures
        r@.len() == 2,
        le16_of(r@) == x,
{
    let mut r: Vec<u8> = Vec::new();
    r.push((x % 0x100) as u8);
    r.push((x / 0x100) as u8);
    r
}

/// The four little-endian bytes of a 32-bit value.
pub fn le32_bytes(x: u32) -> (r: Vec<u8>)
    ensures
        r@.len() == 4,
        le32_of(r@) == x,
{
    let mut r: Vec<u8> = Vec::new();
    r.push((x % 0x100) as u8);
    r.push((x / 0x100 % 0x100) as u8);
    r.push((x / 0x1_0000 % 0x100) as u8);
    r.push((x / 0x100_0000) as u8);
    r
}

/// The disk bytes after writing `buf` at byte offset `off`.
pub open spec fn disk_write_spec(d: Seq<u8>, off: int, buf: Seq<u8>) -> Seq<u8> {
    d.subrange(0, off) + buf + d.subrange(off + buf.len(), d.len() as int)
}

/// The disk bytes read from byte offset `off`, `n` bytes long.
pub open spec fn disk_read_spec(d: Seq<u8>, off: int, n: int) -> Seq<u8> {
    d.subrange(off, off + n)
}

/// Law: a block write followed by a read of the same sectors yields exactly
/// the bytes written, and bytes outside the written range keep their value.
pub proof fn lemma_write_read_roundtrip(d: Seq<u8>, off: int, buf: Seq<u8>)
    requires
        0 <= off,
        off + buf.len() <= d.len(),
    ensures
        disk_read_spec(disk_write_spec(d, off, buf), off, buf.len() as int) == buf,
        disk_write_spec(d, off, buf).len() == d.len(),
        forall|i: int|
            0 <= i < d.len() && !(off <= i < off + buf.len()) ==> disk_write_spec(d, off, buf)[i]
                == d[i],
{
    assert(disk_read_spec(disk_write_spec(d, off, buf), off, buf.len() as int) =~= buf);
}

/// The block backend: the device's view of the backing store, sector
/// granular. Loading it from the backing file and flushing it back are the
/// caller's I/O.
#[derive(Debug)]
pub struct BlockBackend {
    pub data: Vec<u8>,
}

impl BlockBackend {
    /// The store is a whole number of sectors.
    pub open spec fn wf(&self) -> bool {
        self.data@.len() as int % SECTOR_SIZE as int == 0
    }

    /// Number of sectors the device reports in its configuration space.
    pub fn capacity_sectors(&self) -> (r: u64)
        ensures
            r == self.data@.len() as int / SECTOR_SIZE as int,
    {
        (self.data.len() / SECTOR_SIZE as usize) as u64
    }

    /// Reads `len` bytes at byte offset `sector * 512`. `Some` exactly when
    /// the range lies inside the store.
    #[verifier::loop_isolation(false)]
    pub fn read_at(&self, sector: u64, len: usize) -> (r: Option<Vec<u8>>)
        ensures
            match r {
                Some(v) => sector * SECTOR_SIZE + len <= self.data@.len() && v@ == disk_read_spec(
                    self.data@,
                    sector * SECTOR_SIZE,
                    len as int,
                ),
                None => sector * SECTOR_SIZE + len > self.data@.len(),
            },
    {
        let dlen = self.data.len();
        if sector > u64::MAX / SECTOR_SIZE {
            proof {
                assert(sector * SECTOR_SIZE > u64::MAX) by (nonlinear_arith)
                    requires sector > u64::MAX / SECTOR_SIZE;
            }
            return None;
        }
        let off64 = sector * SECTOR_SIZE;
        if off64 > usize::MAX as u64 || (off64 as usize) > self.data.len() || len > self.data.len()
            - (off64 as usize) {
            return None;
        }
        let off = off64 as usize;
        let mut v: Vec<u8> = Vec::new();
        let mut i: usize = 0;
        while i < len
            invariant
                off + len <= self.data@.len(),
                0 <= i <= len,
                v@ =~= self.data@.subrange(off as int, off + i),
            decreases len - i,
        {
            v.push(self.data[off + i]);
            proof {
                assert(v@ =~= self.data@.subrange(off as int, off + i + 1));
            }
            i = i + 1;
        }
        Some(v)
    }

    /// Writes `buf` at byte offset `sector * 512`. `true` exactly when the
    /// range lies inside the store; on failure nothing changes.
    #[verifier::loop_isolation(false)]
    pub fn write_at(&mut self, sector: u64, buf: &Vec<u8>) -> (ok: bool)
        ensures
            ok <==> sector * SECTOR_SIZE + buf@.len() <= old(self).data@.len(),
            ok ==> final(self).data@ == disk_write_spec(
                old(self).data@,
                sector * SECTOR_SIZE,
                buf@,
            ),
            !ok ==> *final(self) == *old(self),
            final(self).data@.len() == old(self).data@.len(),
    {
        let dlen = self.data.len();
        if sector > u64::MAX / SECTOR_SIZE {
            proof {
                assert(sector * SECTOR_SIZE > u64::MAX) by (nonlinear_arith)
                    requires sector > u64::MAX / SECTOR_SIZE;
            }
            return false;
        }
        let off64 = sector * SECTOR_SIZE;
        if off64 > usize::MAX as u64 || (off64 as usize) > self.data.len() || buf.len()
            > self.data.len() - (off64 as usize) {
            return false;
        }
        let off = off64 as usize;
        let ghost d0 = self.data@;
        let mut i: usize = 0;
        while i < buf.len()
            invariant
                off + buf@.len() <= self.data@.len(),
                0 <= i <= buf@.len(),
                self.data@.len() == d0.len(),
                forall|j: int| 0 <= j < i ==> self.data@[off + j] == buf@[j],
                forall|j: int|
                    0 <= j < d0.len() && !(off <= j < off + i) ==> self.data@[j] == d0[j],
            decreases buf@.len() - i,
        {
            self.data[off + i] = buf[i];
            i = i + 1;
        }
        proof {
            assert(self.data@ =~= disk_write_spec(d0, off as int, buf@));
        }
        true
    }
}

} // verus!

verus! {

/// virtio-mmio register offsets (virtio 1.x layout).
pub const REG_MAGIC: u64 = 0x00;
pub const REG_VERSION: u64 = 0x04;
pub const REG_DEVICE_ID: u64 = 0x08;
pub const REG_VENDOR_ID: u64 = 0x0c;
pub const REG_DEVICE_FEATURES: u64 = 0x10;
pub const REG_DEVICE_FEATURES_SEL: u64 = 0x14;
pub const REG_DRIVER_FEATURES: u64 = 0x20;
pub const REG_DRIVER_FEATURES_SEL: u64 = 0x24;
pub const REG_QUEUE_SEL: u64 = 0x30;
pub const REG_QUEUE_NUM_MAX: u64 = 0x34;
pub const REG_QUEUE_NUM: u64 = 0x38;
pub const REG_QUEUE_READY: u64 = 0x44;
pub const REG_QUEUE_NOTIFY: u64 = 0x50;
pub const REG_INTERRUPT_STATUS: u64 = 0x60;
pub const REG_INTERRUPT_ACK: u64 = 0x64;
pub const REG_STATUS: u64 = 0x70;
pub const REG_QUEUE_DESC_LOW: u64 = 0x80;
pub const REG_QUEUE_DESC_HIGH: u64 = 0x84;
pub const REG_QUEUE_AVAIL_LOW: u64 = 0x90;
pub const REG_QUEUE_AVAIL_HIGH: u64 = 0x94;
pub const REG_QUEUE_USED_LOW: u64 = 0xa0;
pub const REG_QUEUE_USED_HIGH: u64 = 0xa4;
pub const REG_CONFIG: u64 = 0x100;

/// "virt", the magic the driver looks for.
pub const VIRTIO_MMIO_MAGIC: u32 = 0x74726976;
/// Device id of a block device.
pub const VIRTIO_ID_BLOCK: u32 = 2;
pub const VENDOR_ID: u32 = 0x564d5348;
pub const QUEUE_NUM_MAX: u32 = 256;

/// Device status bits, in the order the driver sets them.
pub const STATUS_ACKNOWLEDGE: u32 = 1;
pub const STATUS_DRIVER: u32 = 2;
pub const STATUS_DRIVER_OK: u32 = 4;
pub const STATUS_FEATURES_OK: u32 = 8;
pub const STATUS_FAILED: u32 = 128;

/// Feature words the device offers: `VIRTIO_BLK_F_RO` (bit 5) when the
/// backing store is read-only, `VIRTIO_BLK_F_FLUSH` (bit 9) when configured,
/// and `VIRTIO_F_VERSION_1` (bit 32, in the high word).
pub const FEATURE_RO: u32 = 32;
pub const FEATURE_FLUSH: u32 = 512;
pub const FEATURE_VERSION_1_HI: u32 = 1;

/// Block request types.
pub const VIRTIO_BLK_T_IN: u32 = 0;
pub const VIRTIO_BLK_T_OUT: u32 = 1;
pub const VIRTIO_BLK_T_FLUSH: u32 = 4;

/// Used-ring status bytes.
pub const VIRTIO_BLK_S_OK: u8 = 0;
pub const VIRTIO_BLK_S_IOERR: u8 = 1;
pub const VIRTIO_BLK_S_UNSUPP: u8 = 2;

/// The single virtqueue's configuration and progress.
#[derive(Clone, Copy, Debug, PartialEq, Eq, Structural)]
pub struct Virtqueue {
    pub size: u16,
    pub ready: bool,
    pub desc_addr: u64,
    pub avail_addr: u64,
    pub used_addr: u64,
    /// Next avail-ring slot the device will look at.
    pub last_avail: u16,
    /// Next used-ring slot the device will fill.
    pub next_used: u16,
}

impl Virtqueue {
    pub open spec fn reset_spec() -> Virtqueue {
        Virtqueue {
            size: 0,
            ready: false,
            desc_addr: 0,
            avail_addr: 0,
            used_addr: 0,
            last_avail: 0,
            next_used: 0,
        }
    }
}

/// The virtio-mmio block device's register state.
#[derive(Clone, Copy, Debug, PartialEq, Eq, Structural)]
pub struct VirtioBlock {
    pub status: u32,
    pub device_features_sel: u32,
    pub driver_features_sel: u32,
    pub driver_features_lo: u32,
    pub driver_features_hi: u32,
    pub queue_sel: u32,
    pub queue: Virtqueue,
    /// Bit 0: a used buffer was published.
    pub interrupt_status: u32,
    /// Sectors the configuration space reports.
    pub capacity: u64,
    pub read_only: bool,
    pub advertise_flush: bool,
    /// The device is the guest's root disk; the marker is consumed by the
    /// payload staged into the guest, not by the register file.
    pub root_device: bool,
}

impl VirtioBlock {
    pub open spec fn new_spec(capacity: u64, read_only: bool, advertise_flush: bool,
        root_device: bool) -> VirtioBlock {
        VirtioBlock {
            status: 0,
            device_features_sel: 0,
            driver_features_sel: 0,
            driver_features_lo: 0,
            driver_features_hi: 0,
            queue_sel: 0,
            queue: Virtqueue::reset_spec(),
            interrupt_status: 0,
            capacity,
            read_only,
            advertise_flush,
            root_device,
        }
    }

    /// A device fresh out of reset.
    pub fn new(capacity: u64, read_only: bool, advertise_flush: bool, root_device: bool) -> (r:
        VirtioBlock)
        ensures
            r == VirtioBlock::new_spec(capacity, read_only, advertise_flush, root_device),
    {
        VirtioBlock {
            status: 0,
            device_features_sel: 0,
            driver_features_sel: 0,
            driver_features_lo: 0,
            driver_features_hi: 0,
            queue_sel: 0,
            queue: Virtqueue {
                size: 0,
                ready: false,
                desc_addr: 0,
                avail_addr: 0,
                used_addr: 0,
                last_avail: 0,
                next_used: 0,
            },
            interrupt_status: 0,
            capacity,
            read_only,
            advertise_flush,
            root_device,
        }
    }

    /// The low feature word the device offers.
    pub open spec fn features_lo(&self) -> u32 {
        ((if self.read_only {
            FEATURE_RO as int
        } else {
            0
        }) + (if self.advertise_flush {
            FEATURE_FLUSH as int
        } else {
            0
        })) as u32
    }

    /// What a 32-bit read of the register at `offset` returns.
    pub open spec fn reg_read_spec(&self, offset: u64) -> u32 {
        if offset == REG_MAGIC {
            VIRTIO_MMIO_MAGIC
        } else if offset == REG_VERSION {
            2u32
        } else if offset == REG_DEVICE_ID {
            VIRTIO_ID_BLOCK
        } else if offset == REG_VENDOR_ID {
            VENDOR_ID
        } else if offset == REG_DEVICE_FEATURES {
            if self.device_features_sel == 0 {
                self.features_lo()
            } else if self.device_features_sel == 1 {
                FEATURE_VERSION_1_HI
            } else {
                0u32
            }
        } else if offset == REG_QUEUE_NUM_MAX {
            if self.queue_sel == 0 {
                QUEUE_NUM_MAX
            } else {
                0u32
            }
        } else if offset == REG_QUEUE_READY {
            if self.queue.ready {
                1u32
            } else {
                0u32
            }
        } else if offset == REG_INTERRUPT_STATUS {
            self.interrupt_status
        } else if offset == REG_STATUS {
            self.status
        } else if offset == REG_CONFIG {
            (self.capacity % 0x1_0000_0000) as u32
        } else if offset == REG_CONFIG + 4 {
            (self.capacity / 0x1_0000_0000) as u32
        } else {
            0u32
        }
    }

    /// Serves a 32-bit register read, bit-exact to the virtio-mmio layout:
    /// magic, version 2, block device id, feature words by selector, queue
    /// limits and state, interrupt and device status, and the capacity (in
    /// sectors) in configuration space.
    pub fn read_reg(&self, offset: u64) -> (r: u32)
        ensures
            r == self.reg_read_spec(offset),
    {
        if offset == REG_MAGIC {
            VIRTIO_MMIO_MAGIC
        } else if offset == REG_VERSION {
            2
        } else if offset == REG_DEVICE_ID {
            VIRTIO_ID_BLOCK
        } else if offset == REG_VENDOR_ID {
            VENDOR_ID
        } else if offset == REG_DEVICE_FEATURES {
            if self.device_features_sel == 0 {
                let ro: u32 = if self.read_only {
                    FEATURE_RO
                } else {
                    0
                };
                let fl: u32 = if self.advertise_flush {
                    FEATURE_FLUSH
                } else {
                    0
                };
                ro + fl
            } else if self.device_features_sel == 1 {
                FEATURE_VERSION_1_HI
            } else {
                0
            }
        } else if offset == REG_QUEUE_NUM_MAX {
            if self.queue_sel == 0 {
                QUEUE_NUM_MAX
            } else {
                0
            }
        } else if offset == REG_QUEUE_READY {
            if self.queue.ready {
                1
            } else {
                0
            }
        } else if offset == REG_INTERRUPT_STATUS {
            self.interrupt_status
        } else if offset == REG_STATUS {
            self.status
        } else if offset == REG_CONFIG {
            (self.capacity % 0x1_0000_0000) as u32
        } else if offset == REG_CONFIG + 4 {
            (self.capacity / 0x1_0000_0000) as u32
        } else {
            0
        }
    }

    /// The device status after the driver writes `v`: zero resets, the
    /// virtio bring-up order RESET → ACKNOWLEDGE → +DRIVER → +FEATURES_OK →
    /// +DRIVER_OK is followed, rewriting the current value is allowed, and
    /// any other write marks the device FAILED (terminal).
    pub open spec fn status_after(cur: u32, v: u32) -> u32 {
        if v == 0 {
            0u32
        } else if v == cur {
            cur
        } else if cur == 0 && v == STATUS_ACKNOWLEDGE {
            v
        } else if cur == STATUS_ACKNOWLEDGE && v == STATUS_ACKNOWLEDGE + STATUS_DRIVER {
            v
        } else if cur == STATUS_ACKNOWLEDGE + STATUS_DRIVER && v == STATUS_ACKNOWLEDGE
            + STATUS_DRIVER + STATUS_FEATURES_OK {
            v
        } else if cur == STATUS_ACKNOWLEDGE + STATUS_DRIVER + STATUS_FEATURES_OK && v
            == STATUS_ACKNOWLEDGE + STATUS_DRIVER + STATUS_FEATURES_OK + STATUS_DRIVER_OK {
            v
        } else if cur >= STATUS_FAILED {
            cur
        } else {
            (cur + STATUS_FAILED) as u32
        }
    }

    /// The device after a 32-bit register write.
    pub open spec fn reg_write_spec(&self, offset: u64, v: u32) -> VirtioBlock {
        if offset == REG_DEVICE_FEATURES_SEL {
            VirtioBlock { device_features_sel: v, ..*self }
        } else if offset == REG_DRIVER_FEATURES_SEL {
            VirtioBlock { driver_features_sel: v, ..*self }
        } else if offset == REG_DRIVER_FEATURES {
            if self.driver_features_sel == 0 {
                VirtioBlock { driver_features_lo: v, ..*self }
            } else if self.driver_features_sel == 1 {
                VirtioBlock { driver_features_hi: v, ..*self }
            } else {
                *self
            }
        } else if offset == REG_QUEUE_SEL {
            VirtioBlock { queue_sel: v, ..*self }
        } else if offset == REG_QUEUE_NUM {
            if self.queue_sel == 0 && 1 <= v <= QUEUE_NUM_MAX {
                VirtioBlock { queue: Virtqueue { size: v as u16, ..self.queue }, ..*self }
            } else {
                *self
            }
        } else if offset == REG_QUEUE_READY {
            if self.queue_sel == 0 {
                VirtioBlock { queue: Virtqueue { ready: v == 1, ..self.queue }, ..*self }
            } else {
                *self
            }
        } else if offset == REG_INTERRUPT_ACK {
            if v % 2 == 1 {
                VirtioBlock { interrupt_status: 0u32, ..*self }
            } else {
                *self
            }
        } else if offset == REG_STATUS {
            if v == 0 {
                // a full device reset also resets the queue
                VirtioBlock { status: 0u32, queue: Virtqueue::reset_spec(), ..*self }
            } else {
                VirtioBlock { status: VirtioBlock::status_after(self.status, v), ..*self }
            }
        } else if offset == REG_QUEUE_DESC_LOW {
            if self.queue_sel == 0 {
                VirtioBlock {
                    queue: Virtqueue {
                        desc_addr: (self.queue.desc_addr / 0x1_0000_0000 * 0x1_0000_0000 + v) as u64,
                        ..self.queue
                    },
                    ..*self
                }
            } else {
                *self
            }
        } else if offset == REG_QUEUE_DESC_HIGH {
            if self.queue_sel == 0 {
                VirtioBlock {
                    queue: Virtqueue {
                        desc_addr: (self.queue.desc_addr % 0x1_0000_0000 + (v as int)
                            * 0x1_0000_0000) as u64,
                        ..self.queue
                    },
                    ..*self
                }
            } else {
                *self
            }
        } else if offset == REG_QUEUE_AVAIL_LOW {
            if self.queue_sel == 0 {
                VirtioBlock {
                    queue: Virtqueue {
                        avail_addr: (self.queue.avail_addr / 0x1_0000_0000 * 0x1_0000_0000
                            + v) as u64,
                        ..self.queue
                    },
                    ..*self
                }
            } else {
                *self
            }
        } else if offset == REG_QUEUE_AVAIL_HIGH {
            if self.queue_sel == 0 {
                VirtioBlock {
                    queue: Virtqueue {
                        avail_addr: (self.queue.avail_addr % 0x1_0000_0000 + (v as int)
                            * 0x1_0000_0000) as u64,
                        ..self.queue
                    },
                    ..*self
                }
            } else {
                *self
            }
        } else if offset == REG_QUEUE_USED_LOW {
            if self.queue_sel == 0 {
                VirtioBlock {
                    queue: Virtqueue {
                        used_addr: (self.queue.used_addr / 0x1_0000_0000 * 0x1_0000_0000 + v) as u64,
                        ..self.queue
                    },
                    ..*self
                }
            } else {
                *self
            }
        } else if offset == REG_QUEUE_USED_HIGH {
            if self.queue_sel == 0 {
                VirtioBlock {
                    queue: Virtqueue {
                        used_addr: (self.queue.used_addr % 0x1_0000_0000 + (v as int)
                            * 0x1_0000_0000) as u64,
                        ..self.queue
                    },
                    ..*self
                }
            } else {
                *self
            }
        } else {
            *self
        }
    }

    /// Serves a 32-bit register write: feature negotiation, queue setup
    /// (size, ready, ring addresses split low/high), interrupt
    /// acknowledgement, and the status bring-up machine. Returns whether the
    /// driver kicked the queue (a write to queue-notify), which the caller
    /// answers by draining the queue.
    pub fn write_reg(&mut self, offset: u64, v: u32) -> (notify: bool)
        ensures
            *final(self) == old(self).reg_write_spec(offset, v),
            notify == (offset == REG_QUEUE_NOTIFY),
    {
        if offset == REG_DEVICE_FEATURES_SEL {
            self.device_features_sel = v;
        } else if offset == REG_DRIVER_FEATURES_SEL {
            self.driver_features_sel = v;
        } else if offset == REG_DRIVER_FEATURES {
            if self.driver_features_sel == 0 {
                self.driver_features_lo = v;
            } else if self.driver_features_sel == 1 {
                self.driver_features_hi = v;
            }
        } else if offset == REG_QUEUE_SEL {
            self.queue_sel = v;
        } else if offset == REG_QUEUE_NUM {
            if self.queue_sel == 0 && 1 <= v && v <= QUEUE_NUM_MAX {
                self.queue.size = v as u16;
            }
        } else if offset == REG_QUEUE_READY {
            if self.queue_sel == 0 {
                self.queue.ready = v == 1;
            }
        } else if offset == REG_INTERRUPT_ACK {
            if v % 2 == 1 {
                self.interrupt_status = 0;
            }
        } else if offset == REG_STATUS {
            if v == 0 {
                self.status = 0;
                self.queue = Virtqueue {
                    size: 0,
                    ready: false,
                    desc_addr: 0,
                    avail_addr: 0,
                    used_addr: 0,
                    last_avail: 0,
                    next_used: 0,
                };
            } else if v == self.status {
            } else if self.status == 0 && v == STATUS_ACKNOWLEDGE {
                self.status = v;
            } else if self.status == STATUS_ACKNOWLEDGE && v == STATUS_ACKNOWLEDGE
                + STATUS_DRIVER {
                self.status = v;
            } else if self.status == STATUS_ACKNOWLEDGE + STATUS_DRIVER && v == STATUS_ACKNOWLEDGE
                + STATUS_DRIVER + STATUS_FEATURES_OK {
                self.status = v;
            } else if self.status == STATUS_ACKNOWLEDGE + STATUS_DRIVER + STATUS_FEATURES_OK && v
                == STATUS_ACKNOWLEDGE + STATUS_DRIVER + STATUS_FEATURES_OK + STATUS_DRIVER_OK {
                self.status = v;
            } else if self.status >= STATUS_FAILED {
            } else {
                self.status = self.status + STATUS_FAILED;
            }
        } else if offset == REG_QUEUE_DESC_LOW {
            if self.queue_sel == 0 {
                self.queue.desc_addr = self.queue.desc_addr / 0x1_0000_0000 * 0x1_0000_0000 + (
                v as u64);
            }
        } else if offset == REG_QUEUE_DESC_HIGH {
            if self.queue_sel == 0 {
                self.queue.desc_addr = self.queue.desc_addr % 0x1_0000_0000 + (v as u64)
                    * 0x1_0000_0000;
            }
        } else if offset == REG_QUEUE_AVAIL_LOW {
            if self.queue_sel == 0 {
                self.queue.avail_addr = self.queue.avail_addr / 0x1_0000_0000 * 0x1_0000_0000 + (
                v as u64);
            }
        } else if offset == REG_QUEUE_AVAIL_HIGH {
            if self.queue_sel == 0 {
                self.queue.avail_addr = self.queue.avail_addr % 0x1_0000_0000 + (v as u64)
                    * 0x1_0000_0000;
            }
        } else if offset == REG_QUEUE_USED_LOW {
            if self.queue_sel == 0 {
                self.queue.used_addr = self.queue.used_addr / 0x1_0000_0000 * 0x1_0000_0000 + (
                v as u64);
            }
        } else if offset == REG_QUEUE_USED_HIGH {
            if self.queue_sel == 0 {
                self.queue.used_addr = self.queue.used_addr % 0x1_0000_0000 + (v as u64)
                    * 0x1_0000_0000;
            }
        }
        offset == REG_QUEUE_NOTIFY
    }
}

} // verus!

verus! {

/// Descriptor flags: bit 0 chains to `next`, bit 1 marks a device-writable
/// buffer.
pub const DESC_F_NEXT: u16 = 1;
pub const DESC_F_WRITE: u16 = 2;

/// One entry of the descriptor table, as laid out in guest memory: a buffer
/// address, its length, flags, and the index of the next entry in the chain.
#[derive(Clone, Copy, Debug, PartialEq, Eq, Structural)]
pub struct DescEntry {
    pub addr: u64,
    pub len: u32,
    pub flags: u16,
    pub next: u16,
}

/// The `n` guest memory bytes from `gpa` on (meaningful when covered).
pub open spec fn mem_bytes(mem: GuestMem, gpa: int, n: int) -> Seq<u8> {
    Seq::new(n as nat, |i: int| mem.byte_at(gpa + i))
}

/// The descriptor at table slot `idx`: the 16 bytes at
/// `desc_addr + 16 * idx` decoded little-endian, or `None` when they are not
/// all backed by guest memory.
pub open spec fn desc_at(mem: GuestMem, desc_addr: u64, idx: u16) -> Option<DescEntry> {
    let base = desc_addr + 16 * idx;
    if base + 16 <= u64::MAX + 1 && mem.range_covered(base, 16) {
        let b = mem_bytes(mem, base, 16);
        Some(
            DescEntry {
                addr: le64_of(b.subrange(0, 8)) as u64,
                len: le32_of(b.subrange(8, 12)) as u32,
                flags: le16_of(b.subrange(12, 14)) as u16,
                next: le16_of(b.subrange(14, 16)) as u16,
            },
        )
    } else {
        None
    }
}

/// Reads one descriptor out of guest memory.
pub fn read_desc(mem: &GuestMem, desc_addr: u64, idx: u16) -> (r: Option<DescEntry>)
    requires
        mem.wf(),
    ensures
        r == desc_at(*mem, desc_addr, idx),
{
    let off = (idx as u64) * 16;
    if desc_addr > u64::MAX - off {
        return None;
    }
    let base = desc_addr + off;
    if base > u64::MAX - 15 {
        // the 16 descriptor bytes would pass the top of the address space
        proof {
            assert(!(desc_addr + 16 * idx + 16 <= u64::MAX + 1));
        }
        return None;
    }
    match mem.read_bytes(base, 16) {
        Some(v) => {
            let addr = le64(&v, 0);
            let len = le32(&v, 8);
            let flags = le16(&v, 12);
            let next = le16(&v, 14);
            proof {
                let b = mem_bytes(*mem, base as int, 16);
                assert(v@ =~= b);
                assert(v@.subrange(0, 8) =~= b.subrange(0, 8));
                assert(v@.subrange(8, 12) =~= b.subrange(8, 12));
                assert(v@.subrange(12, 14) =~= b.subrange(12, 14));
                assert(v@.subrange(14, 16) =~= b.subrange(14, 16));
            }
            Some(DescEntry { addr, len, flags, next })
        },
        None => None,
    }
}

/// The descriptor chain starting at slot `head`: each entry whose flags have
/// the NEXT bit continues at its `next` slot. `None` when a slot is out of
/// range, its bytes are unmapped, or the chain is longer than `budget`
/// (a cycle).
pub open spec fn chain_spec(mem: GuestMem, desc_addr: u64, size: u16, head: u16, budget: nat)
    -> Option<Seq<DescEntry>>
    decreases budget,
{
    if budget == 0 {
        None
    } else if head >= size {
        None
    } else {
        match desc_at(mem, desc_addr, head) {
            None => None,
            Some(d) => {
                if d.flags % 2 == 1 {
                    match chain_spec(mem, desc_addr, size, d.next, (budget - 1) as nat) {
                        None => None,
                        Some(rest) => Some(seq![d] + rest),
                    }
                } else {
                    Some(seq![d])
                }
            },
        }
    }
}

/// Walks a descriptor chain out of guest memory.
pub fn parse_chain(mem: &GuestMem, desc_addr: u64, size: u16, head: u16, budget: u16) -> (r:
    Option<Vec<DescEntry>>)
    requires
        mem.wf(),
    ensures
        match r {
            Some(v) => chain_spec(*mem, desc_addr, size, head, budget as nat) == Some(v@),
            None => chain_spec(*mem, desc_addr, size, head, budget as nat) is None,
        },
    decreases budget,
{
    if budget == 0 {
        return None;
    }
    if head >= size {
        return None;
    }
    match read_desc(mem, desc_addr, head) {
        None => None,
        Some(d) => {
            if d.flags % 2 == 1 {
                match parse_chain(mem, desc_addr, size, d.next, budget - 1) {
                    None => None,
                    Some(rest) => {
                        let mut v: Vec<DescEntry> = Vec::new();
                        v.push(d);
                        let mut rest = rest;
                        let ghost rv = rest@;
                        v.append(&mut rest);
                        proof {
                            assert(v@ =~= seq![d] + rv);
                        }
                        Some(v)
                    },
                }
            } else {
                let mut v: Vec<DescEntry> = Vec::new();
                v.push(d);
                proof {
                    assert(v@ =~= seq![d]);
                }
                Some(v)
            }
        },
    }
}

/// One block request, read out of a descriptor chain: the 16-byte header
/// gives the type and sector, an optional single data descriptor carries the
/// payload, and the final descriptor receives the status byte.
#[derive(Clone, Copy, Debug, PartialEq, Eq, Structural)]
pub struct BlockRequest {
    pub rtype: u32,
    pub sector: u64,
    pub data: Option<DescEntry>,
    pub status_addr: u64,
}

/// The request a chain describes: the chain has two descriptors (header,
/// status) or three (header, one data descriptor, status), the 16-byte
/// header is backed by guest memory, and the status descriptor has room for
/// its byte. The device serves single-segment payloads; longer chains are
/// answered unsupported by the engine.
pub open spec fn request_spec(mem: GuestMem, chain: Seq<DescEntry>) -> Option<BlockRequest> {
    if (chain.len() == 2 || chain.len() == 3) && chain[0].len >= 16 && chain[0].addr + 16
        <= u64::MAX + 1 && mem.range_covered(chain[0].addr as int, 16) && chain[chain.len()
        - 1].len >= 1 {
        let h = mem_bytes(mem, chain[0].addr as int, 16);
        Some(
            BlockRequest {
                rtype: le32_of(h.subrange(0, 4)) as u32,
                sector: le64_of(h.subrange(8, 16)) as u64,
                data: if chain.len() == 3 {
                    Some(chain[1])
                } else {
                    None
                },
                status_addr: chain[chain.len() - 1].addr,
            },
        )
    } else {
        None
    }
}

/// Interprets a parsed chain as a block request.
pub fn parse_request(mem: &GuestMem, chain: &Vec<DescEntry>) -> (r: Option<BlockRequest>)
    requires
        mem.wf(),
    ensures
        r == request_spec(*mem, chain@),
{
    if !(chain.len() == 2 || chain.len() == 3) {
        return None;
    }
    let head = chain[0];
    let tail = chain[chain.len() - 1];
    if head.len < 16 || tail.len < 1 {
        return None;
    }
    if head.addr > u64::MAX - 16 + 1 {
        proof {
            assert(!(chain@[0].addr + 16 <= u64::MAX + 1));
        }
        return None;
    }
    match mem.read_bytes(head.addr, 16) {
        None => None,
        Some(h) => {
            let rtype = le32(&h, 0);
            let sector = le64(&h, 8);
            proof {
                let b = mem_bytes(*mem, head.addr as int, 16);
                assert(h@ =~= b);
                assert(h@.subrange(0, 4) =~= b.subrange(0, 4));
                assert(h@.subrange(8, 16) =~= b.subrange(8, 16));
            }
            let data = if chain.len() == 3 {
                Some(chain[1])
            } else {
                None
            };
            Some(BlockRequest { rtype, sector, data, status_addr: tail.addr })
        },
    }
}

} // verus!

verus! {

/// Guest address of the avail-ring entry that names chain `i` of a drain:
/// the ring follows the 16-bit flags and index fields.
pub open spec fn avail_entry_addr(q: Virtqueue, i: int) -> int {
    q.avail_addr + 4 + 2 * ((q.last_avail + i) % (q.size as int))
}

/// Guest address of the used-ring element the drain fills for chain `i`.
pub open spec fn used_elem_addr(q: Virtqueue, i: int) -> int {
    q.used_addr + 4 + 8 * ((q.next_used + i) % (q.size as int))
}

/// The avail index the driver has published.
pub open spec fn avail_idx_of(mem: GuestMem, q: Virtqueue) -> int {
    le16_of(mem_bytes(mem, q.avail_addr + 2, 2))
}

/// How many chains the driver has published and the device not yet served
/// (16-bit ring arithmetic).
pub open spec fn pending_of(mem: GuestMem, q: Virtqueue) -> int {
    (avail_idx_of(mem, q) - q.last_avail) % 0x10000
}

/// The head descriptor index of chain `i`.
pub open spec fn head_of(mem: GuestMem, q: Virtqueue, i: int) -> int {
    le16_of(mem_bytes(mem, avail_entry_addr(q, i), 2))
}

/// The descriptor chain the driver published as chain `i`.
pub open spec fn chain_of(mem: GuestMem, q: Virtqueue, i: int) -> Option<Seq<DescEntry>> {
    chain_spec(mem, q.desc_addr, q.size, head_of(mem, q, i) as u16, q.size as nat)
}

/// The block request chain `i` describes.
pub open spec fn request_of(mem: GuestMem, q: Virtqueue, i: int) -> Option<BlockRequest> {
    match chain_of(mem, q, i) {
        Some(c) => request_spec(mem, c),
        None => None,
    }
}

/// Chain `i` can be served: its ring entry is backed, it walks to a block
/// request, and the status byte and used-ring element it completes into are
/// backed as well.
pub open spec fn chain_ok(mem: GuestMem, q: Virtqueue, i: int) -> bool {
    &&& mem.range_covered(avail_entry_addr(q, i), 2)
    &&& chain_of(mem, q, i) is Some
    &&& request_of(mem, q, i) is Some
    &&& mem.covered(request_of(mem, q, i)->0.status_addr as int)
    &&& mem.range_covered(used_elem_addr(q, i), 8)
}

/// The status byte a request earns, fixed by the pre-drain state: reads and
/// writes succeed exactly when they fit the disk and their buffer is backed
/// (writes also need a writable store), flushes always succeed, anything
/// else is unsupported.
pub open spec fn expected_status(mem: GuestMem, disk: Seq<u8>, read_only: bool,
    req: BlockRequest) -> u8 {
    if req.rtype == VIRTIO_BLK_T_IN {
        match req.data {
            Some(d) => if req.sector * SECTOR_SIZE + d.len <= disk.len() && mem.range_covered(
                d.addr as int,
                d.len as int,
            ) {
                VIRTIO_BLK_S_OK
            } else {
                VIRTIO_BLK_S_IOERR
            },
            None => VIRTIO_BLK_S_UNSUPP,
        }
    } else if req.rtype == VIRTIO_BLK_T_OUT {
        match req.data {
            Some(d) => if !read_only && req.sector * SECTOR_SIZE + d.len <= disk.len()
                && mem.range_covered(d.addr as int, d.len as int) {
                VIRTIO_BLK_S_OK
            } else {
                VIRTIO_BLK_S_IOERR
            },
            None => VIRTIO_BLK_S_UNSUPP,
        }
    } else if req.rtype == VIRTIO_BLK_T_FLUSH {
        VIRTIO_BLK_S_OK
    } else {
        VIRTIO_BLK_S_UNSUPP
    }
}

/// How many bytes the device writes into the request's buffer: the payload
/// of a successful read, nothing otherwise.
pub open spec fn expected_written(mem: GuestMem, disk: Seq<u8>, read_only: bool,
    req: BlockRequest) -> u32 {
    if req.rtype == VIRTIO_BLK_T_IN && req.data is Some && expected_status(mem, disk, read_only,
        req) == VIRTIO_BLK_S_OK {
        req.data->0.len
    } else {
        0u32
    }
}

/// What serving a drain of exactly one chain leaves behind, relative to the
/// pre-drain guest memory `mem0` and disk `disk0`: the used-ring element
/// names the chain head and the bytes written, the status byte and a
/// successful read's payload land at their addresses (except where one of
/// the drain's own later writes — the used element or the used index —
/// overwrites them), and the disk changes exactly by a successful write's
/// payload.
pub open spec fn single_chain_served(mem0: GuestMem, mem: GuestMem, disk0: Seq<u8>,
    disk: Seq<u8>, q: Virtqueue, ro: bool) -> bool {
    let req = request_of(mem0, q, 0)->0;
    let st = expected_status(mem0, disk0, ro, req);
    let elem = used_elem_addr(q, 0);
    let ua = q.used_addr;
    &&& le32_of(mem_bytes(mem, elem, 4)) == head_of(mem0, q, 0)
    &&& le32_of(mem_bytes(mem, elem + 4, 4)) == expected_written(mem0, disk0, ro, req)
    &&& (!(elem <= req.status_addr < elem + 8) && !(ua + 2 <= req.status_addr < ua + 4)
        ==> mem.byte_at(req.status_addr as int) == st)
    &&& (req.rtype == VIRTIO_BLK_T_IN && st == VIRTIO_BLK_S_OK && req.data is Some
        ==> forall|o: int|
        0 <= o < req.data->0.len && req.data->0.addr + o != req.status_addr && !(elem
            <= req.data->0.addr + o < elem + 8) && !(ua + 2 <= req.data->0.addr + o < ua + 4)
            ==> #[trigger] mem.byte_at(req.data->0.addr + o) == disk0[req.sector * SECTOR_SIZE
            + o])
    &&& (req.rtype == VIRTIO_BLK_T_OUT && st == VIRTIO_BLK_S_OK && req.data is Some ==> disk
        == disk_write_spec(
        disk0,
        req.sector * SECTOR_SIZE,
        mem_bytes(mem0, req.data->0.addr as int, req.data->0.len as int),
    ))
    &&& (!(req.rtype == VIRTIO_BLK_T_OUT && st == VIRTIO_BLK_S_OK && req.data is Some) ==> disk
        == disk0)
}

/// Like [`single_chain_served`], but before the used index is published:
/// only the used element can have overwritten the earlier writes.
pub open spec fn served_pre_publish(mem0: GuestMem, mem: GuestMem, disk0: Seq<u8>, disk: Seq<u8>,
    q: Virtqueue, ro: bool) -> bool {
    let req = request_of(mem0, q, 0)->0;
    let st = expected_status(mem0, disk0, ro, req);
    let elem = used_elem_addr(q, 0);
    &&& le32_of(mem_bytes(mem, elem, 4)) == head_of(mem0, q, 0)
    &&& le32_of(mem_bytes(mem, elem + 4, 4)) == expected_written(mem0, disk0, ro, req)
    &&& (!(elem <= req.status_addr < elem + 8) ==> mem.byte_at(req.status_addr as int) == st)
    &&& (req.rtype == VIRTIO_BLK_T_IN && st == VIRTIO_BLK_S_OK && req.data is Some
        ==> forall|o: int|
        0 <= o < req.data->0.len && req.data->0.addr + o != req.status_addr && !(elem
            <= req.data->0.addr + o < elem + 8) ==> #[trigger] mem.byte_at(req.data->0.addr + o)
            == disk0[req.sector * SECTOR_SIZE + o])
    &&& (req.rtype == VIRTIO_BLK_T_OUT && st == VIRTIO_BLK_S_OK && req.data is Some ==> disk
        == disk_write_spec(
        disk0,
        req.sector * SECTOR_SIZE,
        mem_bytes(mem0, req.data->0.addr as int, req.data->0.len as int),
    ))
    &&& (!(req.rtype == VIRTIO_BLK_T_OUT && st == VIRTIO_BLK_S_OK && req.data is Some) ==> disk
        == disk0)
}

/// Chains the contracts of one chain's three writes (payload, status byte,
/// used element) into the pre-publish statement.
proof fn lemma_one_chain_pre_publish(mem0: GuestMem, m1: GuestMem, m2: GuestMem, m3: GuestMem,
    disk0: Seq<u8>, disk1: Seq<u8>, q: Virtqueue, ro: bool, req: BlockRequest, status: u8,
    written: u32, elem_seq: Seq<u8>)
    requires
        chain_ok(mem0, q, 0),
        Some(req) == request_of(mem0, q, 0),
        m1.table == mem0.table,
        m2.table == mem0.table,
        m3.table == mem0.table,
        status == expected_status(mem0, disk0, ro, req),
        written == expected_written(mem0, disk0, ro, req),
        req.rtype == VIRTIO_BLK_T_IN && status == VIRTIO_BLK_S_OK && req.data is Some
            ==> mem0.range_covered(req.data->0.addr as int, req.data->0.len as int)
            && forall|o: int|
            0 <= o < req.data->0.len ==> #[trigger] m1.byte_at(req.data->0.addr + o) == disk0[
                req.sector * SECTOR_SIZE + o],
        req.rtype == VIRTIO_BLK_T_OUT && status == VIRTIO_BLK_S_OK && req.data is Some ==> disk1
            == disk_write_spec(
            disk0,
            req.sector * SECTOR_SIZE,
            mem_bytes(mem0, req.data->0.addr as int, req.data->0.len as int),
        ),
        !(req.rtype == VIRTIO_BLK_T_OUT && status == VIRTIO_BLK_S_OK && req.data is Some)
            ==> disk1 == disk0,
        m2.byte_at(req.status_addr as int) == status,
        forall|g: int|
            m1.covered(g) && g != req.status_addr as int ==> #[trigger] m2.byte_at(g)
                == m1.byte_at(g),
        elem_seq.len() == 8,
        le32_of(elem_seq.subrange(0, 4)) == head_of(mem0, q, 0),
        le32_of(elem_seq.subrange(4, 8)) == written,
        forall|o: int|
            0 <= o < 8 ==> #[trigger] m3.byte_at(used_elem_addr(q, 0) + o) == elem_seq[o],
        forall|g: int|
            m2.covered(g) && !(used_elem_addr(q, 0) <= g < used_elem_addr(q, 0) + 8)
                ==> #[trigger] m3.byte_at(g) == m2.byte_at(g),
    ensures
        served_pre_publish(mem0, m3, disk0, disk1, q, ro),
{
    let e0 = used_elem_addr(q, 0);
    assert(mem_bytes(m3, e0, 4) =~= elem_seq.subrange(0, 4));
    assert forall|o: int| 0 <= o < 4 implies #[trigger] mem_bytes(m3, e0 + 4, 4)[o]
        == elem_seq.subrange(4, 8)[o] by {
        assert(m3.byte_at(e0 + (4 + o)) == elem_seq[4 + o]);
    }
    assert(mem_bytes(m3, e0 + 4, 4) =~= elem_seq.subrange(4, 8));
    if !(e0 <= req.status_addr < e0 + 8) {
        GuestMem::lemma_covered_same_table(mem0, m2, req.status_addr as int);
        assert(m3.byte_at(req.status_addr as int) == status);
    }
    if req.rtype == VIRTIO_BLK_T_IN && status == VIRTIO_BLK_S_OK && req.data is Some {
        let d = req.data->0;
        assert forall|o: int|
            0 <= o < d.len && d.addr + o != req.status_addr && !(e0 <= d.addr + o < e0 + 8)
                implies #[trigger] m3.byte_at(d.addr + o) == disk0[req.sector * SECTOR_SIZE
            + o] by {
            assert(mem0.covered(d.addr + o));
            GuestMem::lemma_covered_same_table(mem0, m1, d.addr + o);
            GuestMem::lemma_covered_same_table(mem0, m2, d.addr + o);
            assert(m2.byte_at(d.addr + o) == m1.byte_at(d.addr + o));
            assert(m3.byte_at(d.addr + o) == m2.byte_at(d.addr + o));
        }
    }
}

/// The published used index sits below the ring's elements, so the one
/// served chain's records survive it.
proof fn lemma_one_chain_publish(mem0: GuestMem, m_pre: GuestMem, m_post: GuestMem,
    disk0: Seq<u8>, disk1: Seq<u8>, q: Virtqueue, ro: bool)
    requires
        chain_ok(mem0, q, 0),
        m_pre.table == mem0.table,
        m_post.table == mem0.table,
        served_pre_publish(mem0, m_pre, disk0, disk1, q, ro),
        forall|g: int|
            m_pre.covered(g) && !(q.used_addr + 2 <= g < q.used_addr + 4)
                ==> #[trigger] m_post.byte_at(g) == m_pre.byte_at(g),
    ensures
        single_chain_served(mem0, m_post, disk0, disk1, q, ro),
{
    let req = request_of(mem0, q, 0)->0;
    let st = expected_status(mem0, disk0, ro, req);
    let e0 = used_elem_addr(q, 0);
    assert(e0 >= q.used_addr + 4);
    assert forall|o: int| 0 <= o < 8 implies #[trigger] m_post.byte_at(e0 + o) == m_pre.byte_at(
        e0 + o,
    ) by {
        assert(mem0.range_covered(e0, 8));
        assert(mem0.covered(e0 + o));
        GuestMem::lemma_covered_same_table(mem0, m_pre, e0 + o);
    }
    assert(mem_bytes(m_post, e0, 4) =~= mem_bytes(m_pre, e0, 4));
    assert forall|o: int| 0 <= o < 4 implies #[trigger] mem_bytes(m_post, e0 + 4, 4)[o]
        == mem_bytes(m_pre, e0 + 4, 4)[o] by {
        assert(m_post.byte_at(e0 + (4 + o)) == m_pre.byte_at(e0 + (4 + o)));
    }
    assert(mem_bytes(m_post, e0 + 4, 4) =~= mem_bytes(m_pre, e0 + 4, 4));
    if !(e0 <= req.status_addr < e0 + 8) && !(q.used_addr + 2 <= req.status_addr < q.used_addr
        + 4) {
        GuestMem::lemma_covered_same_table(mem0, m_pre, req.status_addr as int);
        assert(m_post.byte_at(req.status_addr as int) == st);
    }
    if req.rtype == VIRTIO_BLK_T_IN && st == VIRTIO_BLK_S_OK && req.data is Some {
        let d = req.data->0;
        assert forall|o: int|
            0 <= o < d.len && d.addr + o != req.status_addr && !(e0 <= d.addr + o < e0 + 8) && !(
            q.used_addr + 2 <= d.addr + o < q.used_addr + 4) implies #[trigger] m_post.byte_at(
            d.addr + o,
        ) == disk0[req.sector * SECTOR_SIZE + o] by {
            assert(m_pre.byte_at(d.addr + o) == disk0[req.sector * SECTOR_SIZE + o]);
            assert(mem0.covered(d.addr + o));
            GuestMem::lemma_covered_same_table(mem0, m_pre, d.addr + o);
        }
    }
}

/// The whole drain can be served out of this guest memory: both rings fit
/// the address space and are backed, the published count fits the queue,
/// and every pending chain can be served.
pub open spec fn drain_ready(mem: GuestMem, q: Virtqueue) -> bool {
    &&& q.avail_addr + 4 + 2 * (q.size as int) <= u64::MAX + 1
    &&& q.used_addr + 4 + 8 * (q.size as int) <= u64::MAX + 1
    &&& mem.range_covered(q.avail_addr + 2, 2)
    &&& mem.range_covered(q.used_addr + 2, 2)
    &&& pending_of(mem, q) <= q.size
    &&& forall|i: int| 0 <= i < pending_of(mem, q) ==> #[trigger] chain_ok(mem, q, i)
}

} // verus!

verus! {

/// Carries out one block request against the disk and guest memory, and
/// reports the status byte for the used ring plus the number of bytes the
/// device wrote into guest memory.
///
/// A read moves disk bytes at `sector * 512` into the data descriptor's
/// buffer; a write moves the buffer onto the disk (unless the device is
/// read-only); a flush is complete as soon as it is acknowledged, since the
/// store model holds no volatile cache. A request that steps outside the
/// disk or outside mapped guest memory reports an I/O error and changes
/// nothing; a request without exactly one data descriptor (or of an unknown
/// type) is unsupported and changes nothing.
pub fn execute_request(req: &BlockRequest, read_only: bool, mem: &mut GuestMem, disk: &mut
    BlockBackend) -> (r: (u8, u32))
    requires
        old(mem).wf(),
        old(disk).wf(),
    ensures
        final(mem).wf(),
        final(mem).table == old(mem).table,
        final(disk).wf(),
        final(disk).data@.len() == old(disk).data@.len(),
        r.0 != VIRTIO_BLK_S_OK ==> *final(mem) == *old(mem) && *final(disk) == *old(disk) && r.1
            == 0,
        req.rtype == VIRTIO_BLK_T_IN ==> match req.data {
            Some(d) => {
                &&& (r.0 == VIRTIO_BLK_S_OK <==> req.sector * SECTOR_SIZE + d.len <= old(
                    disk,
                ).data@.len() && old(mem).range_covered(d.addr as int, d.len as int))
                &&& (r.0 == VIRTIO_BLK_S_OK ==> {
                    &&& *final(disk) == *old(disk)
                    &&& r.1 == d.len
                    &&& forall|o: int|
                        0 <= o < d.len ==> #[trigger] final(mem).byte_at(d.addr + o) == old(
                            disk,
                        ).data@[req.sector * SECTOR_SIZE + o]
                    &&& forall|g: int|
                        old(mem).covered(g) && !(d.addr <= g < d.addr + d.len)
                            ==> final(mem).byte_at(g) == old(mem).byte_at(g)
                })
                &&& (r.0 == VIRTIO_BLK_S_OK || r.0 == VIRTIO_BLK_S_IOERR)
            },
            None => r.0 == VIRTIO_BLK_S_UNSUPP,
        },
        req.rtype == VIRTIO_BLK_T_OUT ==> match req.data {
            Some(d) => {
                &&& (r.0 == VIRTIO_BLK_S_OK <==> !read_only && req.sector * SECTOR_SIZE + d.len
                    <= old(disk).data@.len() && old(mem).range_covered(d.addr as int, d.len as int))
                &&& (r.0 == VIRTIO_BLK_S_OK ==> {
                    &&& *final(mem) == *old(mem)
                    &&& r.1 == 0
                    &&& final(disk).data@ == disk_write_spec(
                        old(disk).data@,
                        req.sector * SECTOR_SIZE,
                        mem_bytes(*old(mem), d.addr as int, d.len as int),
                    )
                })
                &&& (r.0 == VIRTIO_BLK_S_OK || r.0 == VIRTIO_BLK_S_IOERR)
            },
            None => r.0 == VIRTIO_BLK_S_UNSUPP,
        },
        req.rtype == VIRTIO_BLK_T_FLUSH ==> r.0 == VIRTIO_BLK_S_OK && *final(mem) == *old(mem)
            && *final(disk) == *old(disk) && r.1 == 0,
        req.rtype != VIRTIO_BLK_T_IN && req.rtype != VIRTIO_BLK_T_OUT && req.rtype
            != VIRTIO_BLK_T_FLUSH ==> r.0 == VIRTIO_BLK_S_UNSUPP,
{
    if req.rtype == VIRTIO_BLK_T_IN {
        match req.data {
            Some(d) => {
                match disk.read_at(req.sector, d.len as usize) {
                    Some(bytes) => {
                        if mem.write_bytes(d.addr, &bytes) {
                            proof {
                                assert(req.sector * SECTOR_SIZE + d.len <= disk.data@.len());
                                assert(old(mem).range_covered(d.addr as int, d.len as int));
                                assert forall|o: int|
                                    0 <= o < d.len implies #[trigger] mem.byte_at(d.addr + o)
                                        == disk.data@[req.sector * SECTOR_SIZE + o] by {
                                    assert(mem.byte_at(d.addr + o) == bytes@[o]);
                                    assert(bytes@[o] == disk.data@[req.sector * SECTOR_SIZE + o]);
                                }
                                assert(forall|g: int|
                                    old(mem).covered(g) && !(d.addr <= g < d.addr + d.len)
                                        ==> mem.byte_at(g) == old(mem).byte_at(g));
                            }
                            (VIRTIO_BLK_S_OK, d.len)
                        } else {
                            (VIRTIO_BLK_S_IOERR, 0)
                        }
                    },
                    None => (VIRTIO_BLK_S_IOERR, 0),
                }
            },
            None => (VIRTIO_BLK_S_UNSUPP, 0),
        }
    } else if req.rtype == VIRTIO_BLK_T_OUT {
        match req.data {
            Some(d) => {
                if read_only {
                    return (VIRTIO_BLK_S_IOERR, 0);
                }
                match mem.read_bytes(d.addr, d.len as usize) {
                    Some(bytes) => {
                        proof {
                            assert(bytes@ =~= mem_bytes(*mem, d.addr as int, d.len as int));
                        }
                        if disk.write_at(req.sector, &bytes) {
                            (VIRTIO_BLK_S_OK, 0)
                        } else {
                            (VIRTIO_BLK_S_IOERR, 0)
                        }
                    },
                    None => (VIRTIO_BLK_S_IOERR, 0),
                }
            },
            None => (VIRTIO_BLK_S_UNSUPP, 0),
        }
    } else if req.rtype == VIRTIO_BLK_T_FLUSH {
        (VIRTIO_BLK_S_OK, 0)
    } else {
        (VIRTIO_BLK_S_UNSUPP, 0)
    }
}

/// The injected device: its place on the guest physical bus, its interrupt
/// line, its virtio register state, and its block store.
#[derive(Debug)]
pub struct Device {
    pub mmio_start: u64,
    pub irq: u32,
    pub block: VirtioBlock,
    pub disk: BlockBackend,
}

impl Device {
    /// Builds the block device over `disk` and claims its register window
    /// `[MMIO_MEM_START, MMIO_MEM_START + MMIO_WINDOW)` on the bus, under
    /// the next registry index. Fails exactly when that window overlaps an
    /// already registered device; the bus is then unchanged.
    pub fn new(bus: &mut MmioBus, disk: BlockBackend, read_only: bool, advertise_flush: bool,
        root_device: bool) -> (r: Result<Device, Error>)
        requires
            old(bus).wf(),
            disk.wf(),
        ensures
            final(bus).wf(),
            match r {
                Ok(d) => {
                    &&& d.mmio_start == MMIO_MEM_START
                    &&& d.irq == MMIO_IRQ
                    &&& d.block == VirtioBlock::new_spec(
                        (disk.data@.len() as int / SECTOR_SIZE as int) as u64,
                        read_only,
                        advertise_flush,
                        root_device,
                    )
                    &&& d.disk == disk
                    &&& final(bus).bindings@ == old(bus).bindings@.push(
                        crate::bus::MmioBinding {
                            range: MmioRange { base: MMIO_MEM_START, len: MMIO_WINDOW },
                            device: old(bus).bindings@.len() as usize,
                        },
                    )
                },
                Err(_) => {
                    &&& *final(bus) == *old(bus)
                    &&& exists|i: int|
                        0 <= i < old(bus).bindings@.len() && crate::bus::ranges_overlap(
                            (#[trigger] old(bus).bindings@[i]).range,
                            MmioRange { base: MMIO_MEM_START, len: MMIO_WINDOW },
                        )
                },
            },
    {
        let range = MmioRange { base: MMIO_MEM_START, len: MMIO_WINDOW };
        let idx = bus.bindings.len();
        match bus.register(range, idx) {
            Ok(()) => {},
            Err(e) => {
                proof {
                    // The window itself is well-formed, so registration can
                    // only have failed on an overlap.
                    assert(range.wf());
                }
                return Err(e);
            },
        }
        let capacity = disk.capacity_sectors();
        let block = VirtioBlock::new(capacity, read_only, advertise_flush, root_device);
        Ok(Device { mmio_start: MMIO_MEM_START, irq: MMIO_IRQ, block, disk })
    }

    /// Drains the virtqueue after a queue-notify, in two phases: first every
    /// pending chain is read out of guest memory and interpreted as a block
    /// request — a ring or chain that is malformed or not backed by guest
    /// memory fails the whole drain with a protocol error and changes
    /// nothing. Then each request is executed in order, its status byte and
    /// used-ring element are written back, and finally the used index is
    /// published. Returns how many chains were served and whether an
    /// interrupt must be injected (exactly when at least one was). A queue
    /// that is not ready serves nothing.
    #[verifier::loop_isolation(false)]
    #[verifier::rlimit(100)]
    pub fn process_notify(&mut self, mem: &mut GuestMem) -> (r: Result<(u32, bool), Error>)
        requires
            old(mem).wf(),
            old(self).disk.wf(),
        ensures
            final(mem).wf(),
            final(mem).table == old(mem).table,
            final(self).disk.wf(),
            final(self).disk.data@.len() == old(self).disk.data@.len(),
            final(self).mmio_start == old(self).mmio_start,
            final(self).irq == old(self).irq,
            final(self).block.status == old(self).block.status,
            final(self).block.capacity == old(self).block.capacity,
            final(self).block.read_only == old(self).block.read_only,
            final(self).block.queue.size == old(self).block.queue.size,
            final(self).block.queue.ready == old(self).block.queue.ready,
            final(self).block.queue.desc_addr == old(self).block.queue.desc_addr,
            final(self).block.queue.avail_addr == old(self).block.queue.avail_addr,
            final(self).block.queue.used_addr == old(self).block.queue.used_addr,
            !(old(self).block.queue.ready && old(self).block.queue.size > 0) ==> (
            r matches Ok(p) && p == (0u32, false)) && *final(self) == *old(self) && *final(mem)
                == *old(mem),
            old(self).block.queue.ready && old(self).block.queue.size > 0 ==> match r {
                Ok(p) => {
                    &&& drain_ready(*old(mem), old(self).block.queue)
                    &&& p.0 == pending_of(*old(mem), old(self).block.queue)
                    &&& p.1 == (p.0 > 0)
                    &&& (p.0 > 0 ==> final(self).block.interrupt_status == 1)
                    &&& (p.0 == 0 ==> final(self).block.interrupt_status == old(
                        self,
                    ).block.interrupt_status)
                    &&& final(self).block.queue.last_avail == (old(self).block.queue.last_avail
                        + p.0) % 0x10000
                    &&& final(self).block.queue.next_used == (old(self).block.queue.next_used
                        + p.0) % 0x10000
                    &&& le16_of(
                        mem_bytes(*final(mem), old(self).block.queue.used_addr + 2, 2),
                    ) == (old(self).block.queue.next_used + p.0) % 0x10000
                    &&& (p.0 == 1 ==> single_chain_served(
                        *old(mem),
                        *final(mem),
                        old(self).disk.data@,
                        final(self).disk.data@,
                        old(self).block.queue,
                        old(self).block.read_only,
                    ))
                },
                Err(e) => {
                    &&& e is Protocol
                    &&& !drain_ready(*old(mem), old(self).block.queue)
                    &&& *final(self) == *old(self)
                    &&& *final(mem) == *old(mem)
                },
            },
    {
        if !self.block.queue.ready || self.block.queue.size == 0 {
            return Ok((0, false));
        }
        let q = self.block.queue;
        // Phase 1: read and interpret every pending chain against the
        // untouched guest memory; fail wholesale before anything changes.
        let avail_span: u64 = 4 + 2 * (q.size as u64);
        if q.avail_addr > (u64::MAX - avail_span) + 1 {
            return Err(Error::Protocol(String::from_str(
                "avail ring wraps the address space",
            )));
        }
        let used_span: u64 = 4 + 8 * (q.size as u64);
        if q.used_addr > (u64::MAX - used_span) + 1 {
            return Err(Error::Protocol(String::from_str(
                "used ring wraps the address space",
            )));
        }
        let avail_idx: u16 = match mem.read_bytes(q.avail_addr + 2, 2) {
            Some(v) => {
                let x = le16(&v, 0);
                proof {
                    assert(v@ =~= mem_bytes(*mem, q.avail_addr + 2, 2));
                }
                x
            },
            None => {
                return Err(Error::Protocol(String::from_str("avail ring is not mapped")));
            },
        };
        match mem.read_bytes(q.used_addr + 2, 2) {
            Some(_) => {},
            None => {
                return Err(Error::Protocol(String::from_str("used ring is not mapped")));
            },
        }
        let pending: u16 = if avail_idx >= q.last_avail {
            avail_idx - q.last_avail
        } else {
            (65535 - q.last_avail) + avail_idx + 1
        };
        proof {
            assert(pending == pending_of(*mem, q));
        }
        if pending > q.size {
            proof {
                assert(!drain_ready(*mem, q));
            }
            return Err(Error::Protocol(String::from_str(
                "the driver published more requests than the queue holds",
            )));
        }
        let mut staged: Vec<(u16, BlockRequest)> = Vec::new();
        let mut i: u16 = 0;
        while i < pending
            invariant
                0 <= i <= pending,
                staged@.len() == i,
                forall|j: int| 0 <= j < i ==> #[trigger] chain_ok(*mem, q, j),
                forall|j: int|
                    0 <= j < i ==> (#[trigger] staged@[j]).0 as int == head_of(*mem, q, j)
                        && Some(staged@[j].1) == request_of(*mem, q, j),
            decreases pending - i,
        {
            let slot: u16 = (((q.last_avail as u32) + (i as u32)) % (q.size as u32)) as u16;
            let entry_addr: u64 = q.avail_addr + 4 + 2 * (slot as u64);
            proof {
                assert(entry_addr == avail_entry_addr(q, i as int));
            }
            let head: u16 = match mem.read_bytes(entry_addr, 2) {
                Some(v) => {
                    let x = le16(&v, 0);
                    proof {
                        assert(v@ =~= mem_bytes(*mem, entry_addr as int, 2));
                    }
                    x
                },
                None => {
                    proof {
                        assert(!chain_ok(*mem, q, i as int));
                    }
                    return Err(Error::Protocol(String::from_str("avail ring is not mapped")));
                },
            };
            let chain = match parse_chain(mem, q.desc_addr, q.size, head, q.size) {
                Some(c) => c,
                None => {
                    proof {
                        assert(!chain_ok(*mem, q, i as int));
                    }
                    return Err(Error::Protocol(String::from_str(
                        "a descriptor chain is malformed or not mapped",
                    )));
                },
            };
            let req = match parse_request(mem, &chain) {
                Some(r) => r,
                None => {
                    proof {
                        assert(!chain_ok(*mem, q, i as int));
                    }
                    return Err(Error::Protocol(String::from_str(
                        "a descriptor chain is no block request",
                    )));
                },
            };
            match mem.read_byte(req.status_addr) {
                Some(_) => {},
                None => {
                    proof {
                        assert(!chain_ok(*mem, q, i as int));
                    }
                    return Err(Error::Protocol(String::from_str(
                        "a request's status byte is not mapped",
                    )));
                },
            }
            let used_slot: u16 = (((q.next_used as u32) + (i as u32)) % (q.size as u32)) as u16;
            let elem_addr: u64 = q.used_addr + 4 + 8 * (used_slot as u64);
            proof {
                assert(elem_addr == used_elem_addr(q, i as int));
            }
            match mem.read_bytes(elem_addr, 8) {
                Some(_) => {},
                None => {
                    proof {
                        assert(!chain_ok(*mem, q, i as int));
                    }
                    return Err(Error::Protocol(String::from_str("used ring is not mapped")));
                },
            }
            staged.push((head, req));
            i = i + 1;
        }
        proof {
            assert(drain_ready(*mem, q));
        }
        // Phase 2: the whole drain is mapped, so nothing below can fail.
        let ghost mem0 = *mem;
        let mut i: u16 = 0;
        while i < pending
            invariant
                0 <= i <= pending,
                mem.wf(),
                mem.table == mem0.table,
                self.disk.wf(),
                self.disk.data@.len() == old(self).disk.data@.len(),
                self.block == old(self).block,
                self.mmio_start == old(self).mmio_start,
                self.irq == old(self).irq,
                pending == 1 && i == 0 ==> *mem == mem0 && self.disk == old(self).disk,
                pending == 1 && i == 1 ==> served_pre_publish(
                    mem0,
                    *mem,
                    old(self).disk.data@,
                    self.disk.data@,
                    q,
                    old(self).block.read_only,
                ),
            decreases pending - i,
        {
            let (head, req) = staged[i as usize];
            proof {
                assert(chain_ok(mem0, q, i as int));
            }
            let ghost disk_before = self.disk.data@;
            let (status, written) = execute_request(&req, self.block.read_only, mem, &mut self.disk);
            let ghost m1 = *mem;
            proof {
                assert(mem0.covered(req.status_addr as int));
                GuestMem::lemma_covered_same_table(mem0, *mem, req.status_addr as int);
            }
            let ok = mem.write_byte(req.status_addr, status);
            let ghost m2 = *mem;
            proof {
                assert(ok);
            }
            let used_slot: u16 = (((q.next_used as u32) + (i as u32)) % (q.size as u32)) as u16;
            let elem_addr: u64 = q.used_addr + 4 + 8 * (used_slot as u64);
            let mut elem_bytes = le32_bytes(head as u32);
            let mut len_bytes = le32_bytes(written);
            let ghost head_half = elem_bytes@;
            let ghost written_half = len_bytes@;
            elem_bytes.append(&mut len_bytes);
            proof {
                assert(elem_addr == used_elem_addr(q, i as int));
                assert(mem0.range_covered(elem_addr as int, 8));
                GuestMem::lemma_range_covered_same_table(mem0, *mem, elem_addr as int, 8);
            }
            let ok = mem.write_bytes(elem_addr, &elem_bytes);
            proof {
                assert(ok);
            }
            if pending == 1 {
                proof {
                    // A one-chain drain: chain the three writes' contracts
                    // into the pre-publish statement.
                    let ro = old(self).block.read_only;
                    assert(head as int == head_of(mem0, q, 0));
                    assert(status == expected_status(mem0, disk_before, ro, req));
                    assert(written == expected_written(mem0, disk_before, ro, req));
                    assert(head_half + written_half =~= elem_bytes@);
                    assert(elem_bytes@.subrange(0, 4) =~= head_half);
                    assert(elem_bytes@.subrange(4, 8) =~= written_half);
                    lemma_one_chain_pre_publish(
                        mem0,
                        m1,
                        m2,
                        *mem,
                        disk_before,
                        self.disk.data@,
                        q,
                        ro,
                        req,
                        status,
                        written,
                        elem_bytes@,
                    );
                }
            }
            i = i + 1;
        }
        // Publish: the used index is the drain's last write.
        let new_next_used: u16 = (((q.next_used as u32) + (pending as u32)) % 0x1_0000) as u16;
        let new_last_avail: u16 = (((q.last_avail as u32) + (pending as u32)) % 0x1_0000) as u16;
        let idx_bytes = le16_bytes(new_next_used);
        proof {
            assert(mem0.range_covered(q.used_addr + 2, 2));
            GuestMem::lemma_range_covered_same_table(mem0, *mem, q.used_addr + 2, 2);
        }
        let ghost m_pre_publish = *mem;
        let ok = mem.write_bytes(q.used_addr + 2, &idx_bytes);
        proof {
            assert(ok);
            assert(mem_bytes(*mem, q.used_addr + 2, 2) =~= idx_bytes@);
            if pending == 1 {
                lemma_one_chain_publish(
                    mem0,
                    m_pre_publish,
                    *mem,
                    old(self).disk.data@,
                    self.disk.data@,
                    q,
                    old(self).block.read_only,
                );
            }
        }
        self.block.queue.last_avail = new_last_avail;
        self.block.queue.next_used = new_next_used;
        if pending > 0 {
            self.block.interrupt_status = 1;
        }
        Ok(((pending as u32), pending > 0))
    }
}

} // verus!
