//! The driver side of a split virtqueue: the wire data model shared by
//! both sides, the physical layout of the three ring structures, and the
//! `VirtQueue` type through which a driver issues descriptor chains and
//! reclaims completions.
//!
//! The queue owns the contents of the three rings as plain values, while
//! its layout records where in physical memory they live; the peer's writes
//! to the shared memory (the used ring, and tampering with the descriptor
//! table) enter through the `device_`-prefixed methods, so that everything
//! the driver concludes is proved against an arbitrary peer. All driver
//! decisions are taken from the private shadow table `desc_shadow`, never
//! from the live table the peer can write.

use vstd::prelude::*;

use crate::Error;
use crate::PAGE_SIZE;
use crate::align_up;
use crate::hal::BufferDirection;
use crate::hal::Dma;
use crate::hal::DmaMemory;
use crate::hal::Hal;
use crate::hal::PhysAddr;
use crate::pages;
use crate::transport::Transport;

verus! {

/// The descriptor flag marking a chained descriptor: `next` names its
/// successor.
pub const DESC_F_NEXT: u16 = 1;

/// The descriptor flag marking a device-writable buffer.
pub const DESC_F_WRITE: u16 = 2;

/// The descriptor flag marking an indirect descriptor: the buffer holds a
/// further descriptor table.
pub const DESC_F_INDIRECT: u16 = 4;

/// One descriptor of the wire format: 16 bytes, little-endian, naming a
/// buffer by physical address and length, with flags and a successor
/// index.
#[derive(Clone, Copy, Debug, Eq, PartialEq, Structural)]
pub struct Descriptor {
    /// The physical address of the buffer.
    pub addr: u64,
    /// The length of the buffer in bytes.
    pub len: u32,
    /// The flag bits `DESC_F_NEXT`, `DESC_F_WRITE`, `DESC_F_INDIRECT`.
    pub flags: u16,
    /// The index of the next descriptor in the chain, meaningful when
    /// `DESC_F_NEXT` is set.
    pub next: u16,
}

impl Descriptor {
    /// Sets the buffer address and length to 0, keeping flags and the
    /// chain link. Used when a descriptor is recycled.
    pub fn unset_buf(&mut self)
        ensures
            *final(self) == (Descriptor { addr: 0, len: 0, ..*old(self) }),
    {
        self.addr = 0;
        self.len = 0;
    }

    /// Returns the index of the next descriptor in the chain if the `NEXT`
    /// flag is set, or `None` if this descriptor ends the chain.
    pub fn next(&self) -> (r: Option<u16>)
        ensures
            r == if self.flags & DESC_F_NEXT != 0 {
                Some(self.next)
            } else {
                None::<u16>
            },
    {
        if self.flags & DESC_F_NEXT != 0 {
            Some(self.next)
        } else {
            None
        }
    }
}

/// The 16-byte little-endian wire image of a descriptor, as both sides
/// read it from the shared descriptor table.
pub open spec fn spec_descriptor_bytes(d: Descriptor) -> Seq<u8> {
    seq![
        (d.addr & 0xff) as u8,
        ((d.addr >> 8) & 0xff) as u8,
        ((d.addr >> 16) & 0xff) as u8,
        ((d.addr >> 24) & 0xff) as u8,
        ((d.addr >> 32) & 0xff) as u8,
        ((d.addr >> 40) & 0xff) as u8,
        ((d.addr >> 48) & 0xff) as u8,
        ((d.addr >> 56) & 0xff) as u8,
        (d.len & 0xff) as u8,
        ((d.len >> 8) & 0xff) as u8,
        ((d.len >> 16) & 0xff) as u8,
        ((d.len >> 24) & 0xff) as u8,
        (d.flags & 0xff) as u8,
        ((d.flags >> 8) & 0xff) as u8,
        (d.next & 0xff) as u8,
        ((d.next >> 8) & 0xff) as u8,
    ]
}

/// Appends the 16-byte little-endian wire image of `d` to `out`.
pub fn push_descriptor_bytes(out: &mut Vec<u8>, d: &Descriptor)
    ensures
        final(out)@ == old(out)@ + spec_descriptor_bytes(*d),
{
    let ghost pre = out@;
    out.push((d.addr & 0xff) as u8);
    out.push(((d.addr >> 8) & 0xff) as u8);
    out.push(((d.addr >> 16) & 0xff) as u8);
    out.push(((d.addr >> 24) & 0xff) as u8);
    out.push(((d.addr >> 32) & 0xff) as u8);
    out.push(((d.addr >> 40) & 0xff) as u8);
    out.push(((d.addr >> 48) & 0xff) as u8);
    out.push(((d.addr >> 56) & 0xff) as u8);
    out.push((d.len & 0xff) as u8);
    out.push(((d.len >> 8) & 0xff) as u8);
    out.push(((d.len >> 16) & 0xff) as u8);
    out.push(((d.len >> 24) & 0xff) as u8);
    out.push((d.flags & 0xff) as u8);
    out.push(((d.flags >> 8) & 0xff) as u8);
    out.push((d.next & 0xff) as u8);
    out.push(((d.next >> 8) & 0xff) as u8);
    proof {
        assert(out@ =~= pre + spec_descriptor_bytes(*d));
    }
}

/// Whether `s` names a well-linked descriptor chain in `descs`: each
/// element but the last carries the `NEXT` flag and points at its
/// successor, and the last does not.
pub open spec fn is_desc_chain(descs: Seq<Descriptor>, s: Seq<u16>) -> bool {
    &&& s.len() >= 1
    &&& forall|k: int| 0 <= k < s.len() ==> (#[trigger] s[k]) < descs.len()
    &&& forall|k: int|
        0 <= k < s.len() - 1 ==> (#[trigger] descs[s[k] as int].flags) & DESC_F_NEXT != 0
            && descs[s[k] as int].next == s[k + 1]
    &&& descs[s.last() as int].flags & DESC_F_NEXT == 0
}

/// The driver writes the available ring to offer chain heads; the device
/// only reads it. `idx` is a free-running 16-bit counter; the slot for
/// entry `n` is `ring[n mod SIZE]`. `used_event` is the driver's
/// notification-suppression hint when `EVENT_IDX` is negotiated.
pub struct AvailRing {
    /// The driver's suppression flag for used-buffer notifications.
    pub flags: u16,
    /// The free-running count of published entries.
    pub idx: u16,
    /// The chain heads, indexed by entry number modulo the queue size.
    pub ring: Vec<u16>,
    /// With `EVENT_IDX`: the used index up to which the driver needs no
    /// notification.
    pub used_event: u16,
}

/// One completion in the used ring: the head of a finished chain and how
/// many bytes the device wrote into its buffers.
#[derive(Clone, Copy, Debug, Eq, PartialEq, Structural)]
pub struct UsedElem {
    /// The head descriptor index of the completed chain.
    pub id: u32,
    /// The number of bytes the device claims to have written.
    pub len: u32,
}

/// The device writes the used ring to return completed chains; the driver
/// only reads it. Same indexing scheme as the available ring.
/// `avail_event` is the device's suppression hint when `EVENT_IDX` is
/// negotiated.
pub struct UsedRing {
    /// The device's suppression flag for available-buffer notifications.
    pub flags: u16,
    /// The free-running count of completions.
    pub idx: u16,
    /// The completions, indexed by entry number modulo the queue size.
    pub ring: Vec<UsedElem>,
    /// With `EVENT_IDX`: the available index up to which the device needs
    /// no notification.
    pub avail_event: u16,
}

/// Returns the size in bytes of the descriptor table, the available ring
/// and the used ring for a queue of `queue_size` entries.
pub fn queue_part_sizes(queue_size: u16) -> (r: (usize, usize, usize))
    ensures
        r.0 == 16 * queue_size as int,
        r.1 == 2 * (3 + queue_size as int),
        r.2 == 2 * 3 + 8 * queue_size as int,
{
    let queue_size = queue_size as usize;
    let desc = 16 * queue_size;
    let avail = 2 * (3 + queue_size);
    let used = 2 * 3 + 8 * queue_size;
    (desc, avail, used)
}

/// Whether `n` is a power of two.
pub open spec fn spec_is_power_of_two(n: int) -> bool
    decreases n,
{
    if n <= 0 {
        false
    } else if n == 1 {
        true
    } else {
        n % 2 == 0 && spec_is_power_of_two(n / 2)
    }
}

/// Whether `n` is a legal queue size: a power of two that fits the 16-bit
/// ring indices.
pub open spec fn spec_size_ok(n: int) -> bool {
    1 <= n <= 0x8000 && spec_is_power_of_two(n)
}

/// An in-flight indirect descriptor list: the descriptors describing the
/// real buffers, and the physical address under which the serialized list
/// itself was shared with the device. Owned by the sidecar slot of the
/// direct descriptor that points at it, and consumed when that chain is
/// reclaimed.
pub struct IndirectList {
    /// The descriptors describing the real buffers.
    pub descs: Vec<Descriptor>,
    /// The physical address of the shared list itself.
    pub paddr: PhysAddr,
}

/// The physical placement of one virtqueue's three parts.
///
/// In the legacy layout all three live in one region at prescribed
/// offsets; in the modern layout the driver-writable parts and the
/// device-writable used ring live in two separate regions.
pub enum VirtQueueLayout<D: DmaMemory> {
    /// All three parts in one region.
    Legacy {
        /// The single region.
        dma: D,
        /// The offset of the available ring within the region.
        avail_offset: usize,
        /// The offset of the used ring within the region.
        used_offset: usize,
    },
    /// Driver-writable and device-writable parts in separate regions.
    Modern {
        /// The region holding the descriptor table and the available ring.
        driver_to_device_dma: D,
        /// The region holding the used ring.
        device_to_driver_dma: D,
        /// The offset of the available ring within the first region.
        avail_offset: usize,
    },
}

impl<H: Hal> VirtQueueLayout<Dma<H>> {
    /// Allocates a single DMA region containing all three parts, in the
    /// layout required by legacy interfaces.
    pub fn allocate_legacy(queue_size: u16) -> (r: Result<Self, Error>)
        ensures
            match r {
                Ok(l) => l is Legacy,
                Err(e) => e == Error::DmaError,
            },
    {
        let (desc, avail, used) = queue_part_sizes(queue_size);
        let size = align_up(desc + avail) + align_up(used);
        // Allocate contiguous pages.
        let dma = match Dma::new(size / PAGE_SIZE, BufferDirection::Both) {
            Ok(d) => d,
            Err(e) => {
                return Err(e);
            },
        };
        Ok(Self::Legacy { dma, avail_offset: desc, used_offset: align_up(desc + avail) })
    }

    /// Allocates separate DMA regions for the driver-writable parts and
    /// the used ring, as supported by non-legacy interfaces. Preferred
    /// where possible: the HAL then knows each region's direction.
    pub fn allocate_flexible(queue_size: u16) -> (r: Result<Self, Error>)
        ensures
            match r {
                Ok(l) => l is Modern,
                Err(e) => e == Error::DmaError,
            },
    {
        let (desc, avail, used) = queue_part_sizes(queue_size);
        let driver_to_device_dma = match Dma::new(
            pages(desc + avail),
            BufferDirection::DriverToDevice,
        ) {
            Ok(d) => d,
            Err(e) => {
                return Err(e);
            },
        };
        let device_to_driver_dma = match Dma::new(pages(used), BufferDirection::DeviceToDriver) {
            Ok(d) => d,
            Err(e) => {
                return Err(e);
            },
        };
        Ok(Self::Modern { driver_to_device_dma, device_to_driver_dma, avail_offset: desc })
    }
}

impl<D: DmaMemory> VirtQueueLayout<D> {
    /// Returns the physical address of the descriptor table.
    pub fn descriptors_paddr(&self) -> (r: PhysAddr)
        ensures
            match self {
                Self::Legacy { dma, .. } => r == dma.spec_paddr(),
                Self::Modern { driver_to_device_dma, .. } => r
                    == driver_to_device_dma.spec_paddr(),
            },
    {
        match self {
            Self::Legacy { dma, .. } => dma.paddr(),
            Self::Modern { driver_to_device_dma, .. } => driver_to_device_dma.paddr(),
        }
    }

    /// Returns the physical address of the driver area (available ring):
    /// its region's base plus the ring's offset.
    pub fn driver_area_paddr(&self) -> (r: PhysAddr)
        ensures
            match self {
                Self::Legacy { dma, avail_offset, .. } => r
                    == vstd::wrapping::usize_specs::wrapping_add(dma.spec_paddr(), *avail_offset),
                Self::Modern { driver_to_device_dma, avail_offset, .. } => r
                    == vstd::wrapping::usize_specs::wrapping_add(
                    driver_to_device_dma.spec_paddr(),
                    *avail_offset,
                ),
            },
    {
        match self {
            Self::Legacy { dma, avail_offset, .. } => dma.paddr().wrapping_add(*avail_offset),
            Self::Modern { driver_to_device_dma, avail_offset, .. } => {
                driver_to_device_dma.paddr().wrapping_add(*avail_offset)
            },
        }
    }

    /// Returns the physical address of the device area (used ring).
    pub fn device_area_paddr(&self) -> (r: PhysAddr)
        ensures
            match self {
                Self::Legacy { dma, used_offset, .. } => r
                    == vstd::wrapping::usize_specs::wrapping_add(dma.spec_paddr(), *used_offset),
                Self::Modern { device_to_driver_dma, .. } => r
                    == device_to_driver_dma.spec_paddr(),
            },
    {
        match self {
            Self::Legacy { dma, used_offset, .. } => dma.paddr().wrapping_add(*used_offset),
            Self::Modern { device_to_driver_dma, .. } => device_to_driver_dma.paddr(),
        }
    }
}


/// One split virtqueue, driven from the guest side.
///
/// `SIZE` is both the number of descriptors and the number of slots in
/// each ring; it must be a power of two that fits in a `u16`.
///
/// The queue's DMA regions are released exactly once, by `release`, which
/// consumes the queue. A queue that is simply dropped leaks its regions:
/// tearing the queue down again is the caller's duty.
///
/// The queue carries two pieces of ghost state: the free list as the
/// sequence of free descriptor indices in link order, and the map from
/// each in-flight chain's head (its token) to the descriptor indices of
/// the chain. Together they pin down the accounting invariant: the free
/// list and the in-flight chains never overlap, and the number of
/// descriptors in use plus the length of the free list is always `SIZE`.
pub struct VirtQueue<H: Hal, const SIZE: usize> {
    /// Where the three parts live in physical memory.
    layout: VirtQueueLayout<Dma<H>>,
    /// The live descriptor table, visible to the device. The device may
    /// write it, even though it is not supposed to, so no decision is ever
    /// taken from it; it is only written, as a mirror of `desc_shadow`.
    desc: Vec<Descriptor>,
    /// The available ring, written by the driver and read by the device.
    avail: AvailRing,
    /// The used ring, written by the device; see the `device_`-prefixed
    /// methods.
    used: UsedRing,
    /// The index of this queue on its transport.
    queue_idx: u16,
    /// The number of descriptors currently in use.
    num_used: u16,
    /// The head of the free list.
    free_head: u16,
    /// The driver's private copy of the descriptor table, the only one it
    /// trusts.
    desc_shadow: Vec<Descriptor>,
    /// The driver's trusted copy of `avail.idx`.
    avail_idx: u16,
    /// The next used-ring entry to read.
    last_used_idx: u16,
    /// Whether the `EVENT_IDX` notification-suppression scheme was
    /// negotiated.
    event_idx: bool,
    /// Whether chains of more than one buffer go through an indirect
    /// descriptor list.
    indirect: bool,
    /// The owner of each in-flight indirect list, by head slot.
    indirect_lists: Vec<Option<IndirectList>>,
    /// The free descriptor indices, in link order.
    free_list: Ghost<Seq<u16>>,
    /// The slots of each in-flight chain, by head token.
    chains: Ghost<Map<u16, Seq<u16>>>,
}

impl<H: Hal, const SIZE: usize> VirtQueue<H, SIZE> {
    /// The number of descriptors currently in use.
    pub closed spec fn spec_num_used(&self) -> u16 {
        self.num_used
    }

    /// The free descriptor indices, in link order.
    pub closed spec fn spec_free(&self) -> Seq<u16> {
        self.free_list@
    }

    /// The in-flight chains: each head token maps to its chain's
    /// descriptor indices.
    pub closed spec fn spec_chains(&self) -> Map<u16, Seq<u16>> {
        self.chains@
    }

    /// The driver's private shadow of the descriptor table.
    pub closed spec fn spec_desc_shadow(&self) -> Seq<Descriptor> {
        self.desc_shadow@
    }

    /// The live descriptor table as the device sees it.
    pub closed spec fn spec_desc(&self) -> Seq<Descriptor> {
        self.desc@
    }

    /// The available ring's slots.
    pub closed spec fn spec_avail_ring(&self) -> Seq<u16> {
        self.avail.ring@
    }

    /// The available ring's published index.
    pub closed spec fn spec_avail_published_idx(&self) -> u16 {
        self.avail.idx
    }

    /// The available ring's suppression flag.
    pub closed spec fn spec_avail_flags(&self) -> u16 {
        self.avail.flags
    }

    /// The driver's suppression hint in the available ring.
    pub closed spec fn spec_used_event(&self) -> u16 {
        self.avail.used_event
    }

    /// The driver's trusted copy of the available index.
    pub closed spec fn spec_avail_idx(&self) -> u16 {
        self.avail_idx
    }

    /// The used ring's entries, as last written by the device.
    pub closed spec fn spec_used_ring(&self) -> Seq<UsedElem> {
        self.used.ring@
    }

    /// The used ring's index, as last written by the device.
    pub closed spec fn spec_used_idx(&self) -> u16 {
        self.used.idx
    }

    /// The used ring's suppression flag, as last written by the device.
    pub closed spec fn spec_used_flags(&self) -> u16 {
        self.used.flags
    }

    /// The device's suppression hint in the used ring.
    pub closed spec fn spec_avail_event(&self) -> u16 {
        self.used.avail_event
    }

    /// The next used-ring entry the driver will read.
    pub closed spec fn spec_last_used_idx(&self) -> u16 {
        self.last_used_idx
    }

    /// Whether `EVENT_IDX` was negotiated.
    pub closed spec fn spec_event_idx(&self) -> bool {
        self.event_idx
    }

    /// Whether indirect descriptors are in use.
    pub closed spec fn spec_indirect(&self) -> bool {
        self.indirect
    }

    /// The sidecar table of in-flight indirect lists.
    pub closed spec fn spec_indirect_lists(&self) -> Seq<Option<IndirectList>> {
        self.indirect_lists@
    }

    /// Well-formedness of the free list: all indices in range and
    /// distinct, the head field names its first element, and the shadow
    /// table's `next` fields link it in order.
    spec fn free_wf(&self) -> bool {
        &&& forall|k: int|
            0 <= k < self.free_list@.len() ==> (#[trigger] self.free_list@[k]) < SIZE
        &&& self.free_list@.no_duplicates()
        &&& self.free_list@.len() > 0 ==> self.free_head == self.free_list@[0]
        &&& forall|k: int|
            0 <= k < self.free_list@.len() - 1 ==> (#[trigger] self.desc_shadow@[self.free_list@[k] as int].next)
                == self.free_list@[k + 1]
    }

    /// Well-formedness of one in-flight chain: its slots are in range,
    /// distinct, disjoint from the free list, headed by the token, and
    /// linked through the shadow table; an indirect head owns its sidecar
    /// entry, a direct chain owns none.
    spec fn chain_wf(&self, t: u16) -> bool {
        let s = self.chains@[t];
        &&& s.len() >= 1
        &&& s[0] == t
        &&& forall|k: int| 0 <= k < s.len() ==> (#[trigger] s[k]) < SIZE
        &&& s.no_duplicates()
        &&& forall|k: int| 0 <= k < s.len() ==> !self.free_list@.contains(#[trigger] s[k])
        &&& if self.desc_shadow@[t as int].flags & DESC_F_INDIRECT != 0 {
            &&& s.len() == 1
            &&& self.desc_shadow@[t as int].flags & DESC_F_NEXT == 0
            &&& self.indirect_lists@[t as int].is_some()
        } else {
            &&& is_desc_chain(self.desc_shadow@, s)
            &&& self.indirect_lists@[t as int].is_none()
        }
    }

    /// No two in-flight chains share a descriptor.
    spec fn chains_disjoint(&self) -> bool {
        forall|t1: u16, t2: u16, k: int|
            self.chains@.contains_key(t1) && self.chains@.contains_key(t2) && t1 != t2 && 0 <= k
                < self.chains@[t1].len() ==> !(#[trigger] self.chains@[t2].contains(
                #[trigger] self.chains@[t1][k],
            ))
    }

    /// Well-formedness of the whole queue. In particular the descriptor
    /// accounting: the number of descriptors in use plus the length of the
    /// free list is always `SIZE`.
    pub closed spec fn wf(&self) -> bool {
        &&& spec_size_ok(SIZE as int)
        &&& self.desc@.len() == SIZE
        &&& self.desc_shadow@.len() == SIZE
        &&& self.avail.ring@.len() == SIZE
        &&& self.used.ring@.len() == SIZE
        &&& self.indirect_lists@.len() == SIZE
        &&& self.free_wf()
        &&& forall|t: u16| #[trigger] self.chains@.contains_key(t) ==> self.chain_wf(t)
        &&& self.chains_disjoint()
        &&& forall|i: int|
            0 <= i < SIZE && (#[trigger] self.indirect_lists@[i]).is_some()
                ==> self.chains@.contains_key(i as u16)
        &&& self.num_used as int + self.free_list@.len() == SIZE
    }

    /// The descriptor accounting law: in a well-formed queue the number of
    /// descriptors in use and the length of the free list always add up to
    /// the queue size, between any two operations.
    pub proof fn lemma_descriptor_accounting(&self)
        requires
            self.wf(),
        ensures
            self.spec_num_used() + self.spec_free().len() == SIZE,
    {
    }

    /// Every descriptor is either free or part of exactly one in-flight
    /// chain, never both: a slot is shared with the device exactly once,
    /// when its chain is issued, and unshared exactly once, when the chain
    /// is reclaimed.
    pub proof fn lemma_slot_owned_once(&self, t1: u16, t2: u16, slot: u16)
        requires
            self.wf(),
            self.spec_chains().contains_key(t1),
            self.spec_chains().contains_key(t2),
            self.spec_chains()[t1].contains(slot),
            self.spec_chains()[t2].contains(slot),
        ensures
            t1 == t2,
            !self.spec_free().contains(slot),
    {
        let k = choose|k: int| 0 <= k < self.spec_chains()[t1].len() && self.spec_chains()[t1][k] == slot;
        if t1 != t2 {
            assert(!self.chains@[t2].contains(self.chains@[t1][k]));
        }
        assert(!self.free_list@.contains(self.chains@[t1][k]));
    }

    /// Creates a new queue on queue slot `idx` of the transport.
    ///
    /// * `indirect`: whether chains of more than one buffer should use an
    ///   indirect descriptor list; set when `VIRTIO_F_INDIRECT_DESC` was
    ///   negotiated.
    /// * `event_idx`: whether the `used_event`/`avail_event` suppression
    ///   scheme is in force; set when `VIRTIO_F_EVENT_IDX` was negotiated.
    #[verifier::loop_isolation(false)]
    pub fn new<T: Transport>(transport: &mut T, idx: u16, indirect: bool, event_idx: bool) -> (r:
        Result<Self, Error>)
        requires
            spec_size_ok(SIZE as int),
        ensures
            match r {
                Ok(q) => {
                    &&& q.wf()
                    &&& q.spec_num_used() == 0
                    &&& q.spec_free() == Seq::new(SIZE as nat, |k: int| k as u16)
                    &&& q.spec_free().len() == SIZE
                    &&& q.spec_desc_shadow() == Seq::new(
                        SIZE as nat,
                        |k: int|
                            Descriptor {
                                addr: 0,
                                len: 0,
                                flags: 0,
                                next: if k < SIZE - 1 {
                                    (k + 1) as u16
                                } else {
                                    0
                                },
                            },
                    )
                    &&& q.spec_desc() == q.spec_desc_shadow()
                    &&& q.spec_chains() == Map::<u16, Seq<u16>>::empty()
                    &&& q.spec_avail_idx() == 0
                    &&& q.spec_avail_published_idx() == 0
                    &&& q.spec_avail_flags() == 0
                    &&& q.spec_last_used_idx() == 0
                    &&& q.spec_used_idx() == 0
                    &&& q.spec_used_flags() == 0
                    &&& q.spec_event_idx() == event_idx
                    &&& q.spec_indirect() == indirect
                    &&& q.spec_queue_idx() == idx
                },
                Err(e) => e == Error::AlreadyUsed || e == Error::InvalidParam || e
                    == Error::DmaError,
            },
    {
        if transport.queue_used(idx) {
            return Err(Error::AlreadyUsed);
        }
        if transport.max_queue_size(idx) < SIZE as u32 {
            return Err(Error::InvalidParam);
        }
        let size = SIZE as u16;

        let layout = if transport.requires_legacy_layout() {
            match VirtQueueLayout::allocate_legacy(size) {
                Ok(l) => l,
                Err(e) => {
                    return Err(e);
                },
            }
        } else {
            match VirtQueueLayout::allocate_flexible(size) {
                Ok(l) => l,
                Err(e) => {
                    return Err(e);
                },
            }
        };

        let driver_area_paddr = layout.driver_area_paddr();
        let device_area_paddr = layout.device_area_paddr();
        transport.queue_set(
            idx,
            SIZE as u32,
            layout.descriptors_paddr(),
            driver_area_paddr,
            device_area_paddr,
        );

        // Build the two descriptor tables, every entry free and linked to
        // its successor, and the two zeroed rings.
        let mut desc: Vec<Descriptor> = Vec::new();
        let mut desc_shadow: Vec<Descriptor> = Vec::new();
        let mut avail_ring: Vec<u16> = Vec::new();
        let mut used_ring: Vec<UsedElem> = Vec::new();
        let mut indirect_lists: Vec<Option<IndirectList>> = Vec::new();
        let mut i: usize = 0;
        while i < SIZE
            invariant
                i <= SIZE,
                desc@.len() == i,
                desc_shadow@.len() == i,
                avail_ring@.len() == i,
                used_ring@.len() == i,
                indirect_lists@.len() == i,
                forall|k: int|
                    0 <= k < i ==> (#[trigger] desc_shadow@[k]) == (Descriptor {
                        addr: 0,
                        len: 0,
                        flags: 0,
                        next: if k < SIZE - 1 {
                            (k + 1) as u16
                        } else {
                            0
                        },
                    }),
                forall|k: int| 0 <= k < i ==> (#[trigger] desc@[k]) == desc_shadow@[k],
                forall|k: int| 0 <= k < i ==> (#[trigger] indirect_lists@[k]).is_none(),
            decreases SIZE - i,
        {
            let next: u16 = if i < SIZE - 1 {
                (i + 1) as u16
            } else {
                0
            };
            let d = Descriptor { addr: 0, len: 0, flags: 0, next };
            desc.push(d);
            desc_shadow.push(d);
            avail_ring.push(0);
            used_ring.push(UsedElem { id: 0, len: 0 });
            indirect_lists.push(None);
            i = i + 1;
        }

        let ghost free_list = Seq::new(SIZE as nat, |k: int| k as u16);
        let q = VirtQueue {
            layout,
            desc,
            avail: AvailRing { flags: 0, idx: 0, ring: avail_ring, used_event: 0 },
            used: UsedRing { flags: 0, idx: 0, ring: used_ring, avail_event: 0 },
            queue_idx: idx,
            num_used: 0,
            free_head: 0,
            desc_shadow,
            avail_idx: 0,
            last_used_idx: 0,
            event_idx,
            indirect,
            indirect_lists,
            free_list: Ghost(free_list),
            chains: Ghost(Map::empty()),
        };
        proof {
            assert forall|a: int, b: int|
                0 <= a < free_list.len() && 0 <= b < free_list.len() && a != b implies free_list[a]
                != free_list[b] by {}
            assert(free_list.no_duplicates());
            assert(q.spec_desc_shadow() =~= Seq::new(
                SIZE as nat,
                |k: int|
                    Descriptor {
                        addr: 0,
                        len: 0,
                        flags: 0,
                        next: if k < SIZE - 1 {
                            (k + 1) as u16
                        } else {
                            0
                        },
                    },
            ));
            assert(q.spec_desc() =~= q.spec_desc_shadow());
        }
        Ok(q)
    }

    /// The index of this queue on its transport.
    pub closed spec fn spec_queue_idx(&self) -> u16 {
        self.queue_idx
    }

    /// Whether everything the device writes (the used ring and the live
    /// descriptor table) is the same in `post` as in `pre`.
    pub open spec fn device_side_unchanged(pre: Self, post: Self) -> bool {
        &&& post.spec_desc() == pre.spec_desc()
        &&& post.spec_used_ring() == pre.spec_used_ring()
        &&& post.spec_used_idx() == pre.spec_used_idx()
        &&& post.spec_used_flags() == pre.spec_used_flags()
        &&& post.spec_avail_event() == pre.spec_avail_event()
    }

    /// Whether everything the driver owns (the shadow table, the
    /// available ring, its counters, the free list, the in-flight chains
    /// and the indirect sidecar) is the same in `post` as in `pre`.
    pub open spec fn driver_side_unchanged(pre: Self, post: Self) -> bool {
        &&& post.spec_desc_shadow() == pre.spec_desc_shadow()
        &&& post.spec_avail_ring() == pre.spec_avail_ring()
        &&& post.spec_avail_published_idx() == pre.spec_avail_published_idx()
        &&& post.spec_avail_flags() == pre.spec_avail_flags()
        &&& post.spec_used_event() == pre.spec_used_event()
        &&& post.spec_avail_idx() == pre.spec_avail_idx()
        &&& post.spec_last_used_idx() == pre.spec_last_used_idx()
        &&& post.spec_num_used() == pre.spec_num_used()
        &&& post.spec_free() == pre.spec_free()
        &&& post.spec_chains() == pre.spec_chains()
        &&& post.spec_event_idx() == pre.spec_event_idx()
        &&& post.spec_indirect() == pre.spec_indirect()
        &&& post.spec_queue_idx() == pre.spec_queue_idx()
        &&& post.spec_indirect_lists() == pre.spec_indirect_lists()
    }

    /// Returns whether there is a completion that can be popped: the
    /// device has published a used index beyond what we have read.
    pub fn can_pop(&self) -> (r: bool)
        ensures
            r == (self.spec_last_used_idx() != self.spec_used_idx()),
    {
        self.last_used_idx != self.used.idx
    }

    /// Returns the token of the next completed chain without popping it,
    /// or `None` if the used ring is empty.
    pub fn peek_used(&self) -> (r: Option<u16>)
        requires
            self.wf(),
        ensures
            r == if self.spec_last_used_idx() != self.spec_used_idx() {
                Some(
                    self.spec_used_ring()[self.spec_last_used_idx() as int % SIZE as int].id as u16,
                )
            } else {
                None::<u16>
            },
    {
        if self.can_pop() {
            let last_used_slot = self.last_used_idx as usize % SIZE;
            Some(self.used.ring[last_used_slot].id as u16)
        } else {
            None
        }
    }

    /// Returns the number of buffers the queue can still take. With
    /// indirect descriptors each chain takes a single slot, so any number
    /// of buffers fits as long as one slot is free.
    pub fn available_desc(&self) -> (r: usize)
        requires
            self.wf(),
        ensures
            r == if self.spec_indirect() {
                if self.spec_num_used() as int == SIZE as int {
                    0int
                } else {
                    SIZE as int
                }
            } else {
                SIZE as int - self.spec_num_used() as int
            },
    {
        if self.indirect {
            return if self.num_used as usize == SIZE {
                0
            } else {
                SIZE
            };
        }
        SIZE - self.num_used as usize
    }

    /// Advises the device whether it must send used-buffer notifications.
    /// Only meaningful without `EVENT_IDX`; with it the hint in
    /// `used_event` rules.
    pub fn set_dev_notify(&mut self, enable: bool)
        requires
            old(self).wf(),
        ensures
            final(self).wf(),
            !old(self).spec_event_idx() ==> final(self).spec_avail_flags() == (if enable {
                0u16
            } else {
                1u16
            }),
            old(self).spec_event_idx() ==> final(self).spec_avail_flags() == old(
                self,
            ).spec_avail_flags(),
            Self::device_side_unchanged(*old(self), *final(self)),
            final(self).spec_desc_shadow() == old(self).spec_desc_shadow(),
            final(self).spec_avail_ring() == old(self).spec_avail_ring(),
            final(self).spec_avail_published_idx() == old(self).spec_avail_published_idx(),
            final(self).spec_used_event() == old(self).spec_used_event(),
            final(self).spec_avail_idx() == old(self).spec_avail_idx(),
            final(self).spec_last_used_idx() == old(self).spec_last_used_idx(),
            final(self).spec_num_used() == old(self).spec_num_used(),
            final(self).spec_free() == old(self).spec_free(),
            final(self).spec_chains() == old(self).spec_chains(),
            final(self).spec_event_idx() == old(self).spec_event_idx(),
            final(self).spec_indirect() == old(self).spec_indirect(),
            final(self).spec_queue_idx() == old(self).spec_queue_idx(),
            final(self).spec_indirect_lists() == old(self).spec_indirect_lists(),
    {
        let avail_ring_flags: u16 = if enable {
            0
        } else {
            1
        };
        if !self.event_idx {
            self.avail.flags = avail_ring_flags;
        }
    }

    /// What `should_notify` returns, as a function of the suppression
    /// state the device last published. Without `EVENT_IDX` the device's
    /// flag bit rules; with it, the driver notifies once its available
    /// index has passed the device's `avail_event` hint. The comparison is
    /// monotonic in the available index for a fixed hint.
    pub open spec fn spec_should_notify(
        event_idx: bool,
        avail_idx: u16,
        avail_event: u16,
        used_flags: u16,
    ) -> bool {
        if event_idx {
            avail_idx as int >= ((avail_event + 1) % 0x1_0000)
        } else {
            used_flags & 1 == 0
        }
    }

    /// Returns whether the driver should notify the device after adding a
    /// buffer, honouring whichever suppression scheme is in force.
    pub fn should_notify(&self) -> (r: bool)
        ensures
            r == Self::spec_should_notify(
                self.spec_event_idx(),
                self.spec_avail_idx(),
                self.spec_avail_event(),
                self.spec_used_flags(),
            ),
    {
        if self.event_idx {
            let avail_event = self.used.avail_event;
            self.avail_idx >= avail_event.wrapping_add(1)
        } else {
            self.used.flags & 1 == 0
        }
    }

    /// With `EVENT_IDX`, for a fixed `avail_event` hint, the notification
    /// decision is monotonic in the available index: once an index calls
    /// for a notification, every later index does too.
    pub proof fn lemma_should_notify_monotonic(a1: u16, a2: u16, avail_event: u16, used_flags: u16)
        requires
            a1 <= a2,
            Self::spec_should_notify(true, a1, avail_event, used_flags),
        ensures
            Self::spec_should_notify(true, a2, avail_event, used_flags),
    {
    }

    /// The device writes one completion into the used ring: the model of
    /// the peer publishing `{id, len}` at its current index and advancing
    /// it. Everything else the driver holds is untouched, whatever values
    /// the peer chooses.
    pub fn device_write_used(&mut self, id: u32, len: u32)
        requires
            old(self).wf(),
        ensures
            final(self).wf(),
            final(self).spec_used_ring() == old(self).spec_used_ring().update(
                old(self).spec_used_idx() as int % SIZE as int,
                UsedElem { id, len },
            ),
            final(self).spec_used_idx() == vstd::wrapping::u16_specs::wrapping_add(
                old(self).spec_used_idx(),
                1,
            ),
            Self::driver_side_unchanged(*old(self), *final(self)),
            final(self).spec_desc() == old(self).spec_desc(),
            final(self).spec_used_flags() == old(self).spec_used_flags(),
            final(self).spec_avail_event() == old(self).spec_avail_event(),
    {
        let slot = self.used.idx as usize % SIZE;
        self.used.ring.set(slot, UsedElem { id, len });
        self.used.idx = self.used.idx.wrapping_add(1);
    }

    /// The device suppresses or allows driver notifications by writing the
    /// used ring's flag word.
    pub fn device_set_used_flags(&mut self, flags: u16)
        requires
            old(self).wf(),
        ensures
            final(self).wf(),
            final(self).spec_used_flags() == flags,
            Self::driver_side_unchanged(*old(self), *final(self)),
            final(self).spec_desc() == old(self).spec_desc(),
            final(self).spec_used_ring() == old(self).spec_used_ring(),
            final(self).spec_used_idx() == old(self).spec_used_idx(),
            final(self).spec_avail_event() == old(self).spec_avail_event(),
    {
        self.used.flags = flags;
    }

    /// The device publishes its `avail_event` suppression hint.
    pub fn device_set_avail_event(&mut self, avail_event: u16)
        requires
            old(self).wf(),
        ensures
            final(self).wf(),
            final(self).spec_avail_event() == avail_event,
            Self::driver_side_unchanged(*old(self), *final(self)),
            final(self).spec_desc() == old(self).spec_desc(),
            final(self).spec_used_ring() == old(self).spec_used_ring(),
            final(self).spec_used_idx() == old(self).spec_used_idx(),
            final(self).spec_used_flags() == old(self).spec_used_flags(),
    {
        self.used.avail_event = avail_event;
    }

    /// The device reads one descriptor from the live table.
    pub fn device_read_desc(&self, i: usize) -> (r: Descriptor)
        requires
            self.wf(),
            i < SIZE,
        ensures
            r == self.spec_desc()[i as int],
    {
        self.desc[i]
    }

    /// The device writes one descriptor of the live table: the model of a
    /// misbehaving peer tampering with memory it should only read. The
    /// driver's shadow table and all its decisions are unaffected.
    pub fn device_write_desc(&mut self, i: usize, d: Descriptor)
        requires
            old(self).wf(),
            i < SIZE,
        ensures
            final(self).wf(),
            final(self).spec_desc() == old(self).spec_desc().update(i as int, d),
            Self::driver_side_unchanged(*old(self), *final(self)),
            final(self).spec_used_ring() == old(self).spec_used_ring(),
            final(self).spec_used_idx() == old(self).spec_used_idx(),
            final(self).spec_used_flags() == old(self).spec_used_flags(),
            final(self).spec_avail_event() == old(self).spec_avail_event(),
    {
        self.desc.set(i, d);
    }

    /// The device reads one slot of the available ring.
    pub fn device_read_avail(&self, slot: usize) -> (r: u16)
        requires
            self.wf(),
            slot < SIZE,
        ensures
            r == self.spec_avail_ring()[slot as int],
    {
        self.avail.ring[slot]
    }

    /// The device reads the published available index.
    pub fn device_read_avail_idx(&self) -> (r: u16)
        ensures
            r == self.spec_avail_published_idx(),
    {
        self.avail.idx
    }

    /// The device reads the available ring's flag word.
    pub fn device_read_avail_flags(&self) -> (r: u16)
        ensures
            r == self.spec_avail_flags(),
    {
        self.avail.flags
    }

    /// The device reads the driver's `used_event` suppression hint.
    pub fn device_read_used_event(&self) -> (r: u16)
        ensures
            r == self.spec_used_event(),
    {
        self.avail.used_event
    }
}


/// A descriptor whose flag word has no bit above `WRITE` set is neither
/// chained onward nor indirect.
proof fn lemma_low_flags(f: u16)
    requires
        f < 4,
    ensures
        f & DESC_F_INDIRECT == 0,
        f == 1 || f == 3 ==> f & DESC_F_NEXT != 0,
        f == 0 || f == 2 ==> f & DESC_F_NEXT == 0,
{
    assert(f < 4 ==> f & 4u16 == 0) by (bit_vector);
    assert(f == 1 || f == 3 ==> f & 1u16 != 0) by (bit_vector);
    assert(f == 0 || f == 2 ==> f & 1u16 == 0) by (bit_vector);
}

/// The bytes of buffer `k` of a chain built from `inputs` then `outputs`.
pub open spec fn spec_buf_at(inputs: Seq<Vec<u8>>, outputs: Seq<Vec<u8>>, k: int) -> Seq<u8> {
    if k < inputs.len() {
        inputs[k]@
    } else {
        outputs[k - inputs.len()]@
    }
}

/// The flag bits descriptor `k` of a chain of `needed` buffers gets, when
/// the first `n_inputs` buffers are device-readable: every descriptor but
/// the last links onward, and the output descriptors are device-writable.
pub open spec fn spec_chain_flags(k: int, n_inputs: int, needed: int) -> u16 {
    ((if k < needed - 1 {
        DESC_F_NEXT
    } else {
        0
    }) + (if k >= n_inputs {
        DESC_F_WRITE
    } else {
        0
    })) as u16
}

impl<H: Hal, const SIZE: usize> VirtQueue<H, SIZE> {
    /// Whether a chain for these buffers cannot be placed: with indirect
    /// descriptors a chain takes one slot but must itself fit the table;
    /// without them every buffer takes a slot.
    pub open spec fn spec_add_full(&self, needed: int) -> bool {
        if self.spec_indirect() {
            self.spec_num_used() + 1 > SIZE || needed > SIZE
        } else {
            self.spec_num_used() + needed > SIZE
        }
    }

    /// How many descriptor-table slots a chain of `needed` buffers takes:
    /// one when it goes through an indirect list, `needed` otherwise.
    pub open spec fn spec_slots_needed(&self, needed: int) -> int {
        if self.spec_indirect() && needed > 1 {
            1
        } else {
            needed
        }
    }

    /// What `add` did, besides publishing the head in the available ring:
    /// the first `k` free slots became the chain of `token`, the shadow
    /// table describes the buffers there, and the live table mirrors it.
    pub open spec fn spec_added_chain(
        pre: Self,
        post: Self,
        token: u16,
        inputs: Seq<Vec<u8>>,
        outputs: Seq<Vec<u8>>,
    ) -> bool {
        let needed = inputs.len() + outputs.len() as int;
        let k = pre.spec_slots_needed(needed as int);
        let s = pre.spec_free().take(k);
        &&& token == pre.spec_free()[0]
        &&& post.spec_free() == pre.spec_free().skip(k)
        &&& post.spec_num_used() == pre.spec_num_used() + k
        &&& post.spec_chains() == pre.spec_chains().insert(token, s)
        &&& post.chain_matches_bufs(token, inputs, outputs)
        &&& forall|i: int|
            0 <= i < SIZE && !s.contains(i as u16) ==> (#[trigger] post.spec_desc_shadow()[i])
                == pre.spec_desc_shadow()[i] && post.spec_desc()[i] == pre.spec_desc()[i]
        &&& forall|j: int|
            0 <= j < s.len() ==> (#[trigger] post.spec_desc()[s[j] as int])
                == post.spec_desc_shadow()[s[j] as int]
        &&& if pre.spec_indirect() && needed > 1 {
            &&& post.spec_desc_shadow()[token as int].flags == DESC_F_INDIRECT
            &&& post.spec_desc_shadow()[token as int].len == 16 * needed
            &&& forall|i: int|
                0 <= i < SIZE && i != token ==> (#[trigger] post.spec_indirect_lists()[i])
                    == pre.spec_indirect_lists()[i]
            &&& forall|j: int|
                0 <= j < needed ==> (
                #[trigger] post.spec_indirect_lists()[token as int].unwrap().descs@[j]).flags
                    == spec_chain_flags(j, inputs.len() as int, needed as int)
            &&& forall|j: int|
                0 <= j < needed - 1 ==> (
                #[trigger] post.spec_indirect_lists()[token as int].unwrap().descs@[j]).next == j
                    + 1
        } else {
            &&& forall|j: int|
                0 <= j < s.len() ==> (#[trigger] post.spec_desc_shadow()[s[j] as int]).flags
                    == spec_chain_flags(j, inputs.len() as int, needed as int)
            &&& forall|j: int|
                0 <= j < s.len() - 1 ==> (#[trigger] post.spec_desc_shadow()[s[j] as int]).next
                    == s[j + 1]
            &&& post.spec_indirect_lists() == pre.spec_indirect_lists()
        }
    }

    /// Whether the buffers handed back for reclaiming are the ones the
    /// chain of `token` was built from: same count and, descriptor by
    /// descriptor, the same lengths.
    pub open spec fn chain_matches_bufs(
        &self,
        token: u16,
        inputs: Seq<Vec<u8>>,
        outputs: Seq<Vec<u8>>,
    ) -> bool {
        let s = self.spec_chains()[token];
        let total = inputs.len() + outputs.len() as int;
        if self.spec_desc_shadow()[token as int].flags & DESC_F_INDIRECT != 0 {
            &&& total >= 2
            &&& self.spec_indirect_lists()[token as int].is_some()
            &&& self.spec_indirect_lists()[token as int].unwrap().descs@.len() == total
            &&& forall|j: int|
                0 <= j < total ==> (
                #[trigger] self.spec_indirect_lists()[token as int].unwrap().descs@[j]).len
                    == spec_buf_at(inputs, outputs, j).len()
        } else {
            &&& s.len() == total
            &&& forall|j: int|
                0 <= j < total ==> (#[trigger] self.spec_desc_shadow()[s[j] as int]).len
                    == spec_buf_at(inputs, outputs, j).len()
        }
    }

    /// Places the buffers as a chain of direct descriptors taken from the
    /// front of the free list, sharing each buffer with the device, and
    /// returns the head slot.
    #[verifier::loop_isolation(false)]
    #[verifier::rlimit(100)]
    #[verifier::spinoff_prover]
    fn add_direct(&mut self, inputs: &[Vec<u8>], outputs: &[Vec<u8>]) -> (head: u16)
        requires
            old(self).wf(),
            inputs@.len() + outputs@.len() >= 1,
            old(self).spec_num_used() + inputs@.len() + outputs@.len() <= SIZE,
            forall|k: int| 0 <= k < inputs@.len() ==> 0 < (#[trigger] inputs@[k])@.len() <= u32::MAX,
            forall|k: int|
                0 <= k < outputs@.len() ==> 0 < (#[trigger] outputs@[k])@.len() <= u32::MAX,
            !(old(self).spec_indirect() && inputs@.len() + outputs@.len() > 1),
        ensures
            final(self).wf(),
            Self::spec_added_chain(*old(self), *final(self), head, inputs@, outputs@),
            final(self).spec_chains().contains_key(head),
            Self::device_side_unchanged_but_desc(*old(self), *final(self)),
            final(self).spec_avail_ring() == old(self).spec_avail_ring(),
            final(self).spec_avail_published_idx() == old(self).spec_avail_published_idx(),
            final(self).spec_avail_flags() == old(self).spec_avail_flags(),
            final(self).spec_used_event() == old(self).spec_used_event(),
            final(self).spec_avail_idx() == old(self).spec_avail_idx(),
            final(self).spec_last_used_idx() == old(self).spec_last_used_idx(),
            final(self).spec_event_idx() == old(self).spec_event_idx(),
            final(self).spec_indirect() == old(self).spec_indirect(),
            final(self).spec_queue_idx() == old(self).spec_queue_idx(),
    {
        let total = inputs.len() + outputs.len();
        let ghost s = old(self).free_list@.take(total as int);
        let head = self.free_head;
        let mut last = self.free_head;
        proof {
            assert(old(self).free_list@.len() >= total);
        }
        let mut k: usize = 0;
        while k < total
            invariant
                k <= total,
                self.desc@.len() == SIZE,
                self.desc_shadow@.len() == SIZE,
                self.free_list@ == old(self).free_list@,
                self.chains@ == old(self).chains@,
                self.num_used == old(self).num_used,
                self.avail == old(self).avail,
                self.used == old(self).used,
                self.avail_idx == old(self).avail_idx,
                self.last_used_idx == old(self).last_used_idx,
                self.indirect_lists@ == old(self).indirect_lists@,
                self.queue_idx == old(self).queue_idx,
                self.event_idx == old(self).event_idx,
                self.indirect == old(self).indirect,
                k < old(self).free_list@.len() ==> self.free_head == old(self).free_list@[k as int],
                k > 0 ==> last == s[k - 1],
                forall|j: int|
                    0 <= j < k ==> (#[trigger] self.desc_shadow@[s[j] as int]).len
                        == spec_buf_at(inputs@, outputs@, j).len(),
                forall|j: int|
                    0 <= j < k ==> (#[trigger] self.desc_shadow@[s[j] as int]).flags == (
                    DESC_F_NEXT + (if j >= inputs@.len() {
                        DESC_F_WRITE
                    } else {
                        0
                    })) as u16,
                forall|j: int|
                    0 <= j < k ==> (#[trigger] self.desc_shadow@[s[j] as int]).next == old(
                        self,
                    ).desc_shadow@[s[j] as int].next,
                forall|j: int|
                    0 <= j < k ==> (#[trigger] self.desc@[s[j] as int])
                        == self.desc_shadow@[s[j] as int],
                forall|i: int|
                    0 <= i < SIZE && !s.take(k as int).contains(i as u16) ==> (
                    #[trigger] self.desc_shadow@[i]) == old(self).desc_shadow@[i] && self.desc@[i]
                        == old(self).desc@[i],
            decreases total - k,
        {
            let ghost at_entry = *self;
            proof {
                assert(s[k as int] == old(self).free_list@[k as int]);
            }
            let write: bool = k >= inputs.len();
            let paddr: PhysAddr = if write {
                H::share(outputs[k - inputs.len()].as_slice(), BufferDirection::DeviceToDriver)
            } else {
                H::share(inputs[k].as_slice(), BufferDirection::DriverToDevice)
            };
            let buf_len: usize = if write {
                outputs[k - inputs.len()].len()
            } else {
                inputs[k].len()
            };
            let slot = self.free_head;
            let old_d = self.desc_shadow[slot as usize];
            let flags: u16 = if write {
                DESC_F_NEXT + DESC_F_WRITE
            } else {
                DESC_F_NEXT
            };
            let d = Descriptor { addr: paddr as u64, len: buf_len as u32, flags, next: old_d.next };
            self.desc_shadow.set(slot as usize, d);
            self.desc.set(slot as usize, d);
            last = slot;
            self.free_head = d.next;
            k = k + 1;
            proof {
                assert(s.take(k as int) =~= s.take(k - 1).push(slot));
                assert forall|i: int|
                    0 <= i < SIZE && !s.take(k as int).contains(i as u16) implies (
                #[trigger] self.desc_shadow@[i]) == old(self).desc_shadow@[i] && self.desc@[i]
                    == old(self).desc@[i] by {
                    assert(!s.take(k - 1).contains(i as u16)) by {
                        if s.take(k - 1).contains(i as u16) {
                            let j = choose|j: int|
                                0 <= j < k - 1 && #[trigger] s.take(k - 1)[j] == i as u16;
                            assert(s.take(k as int)[j] == i as u16);
                        }
                    }
                    assert(i != slot) by {
                        if i == slot {
                            assert(s.take(k as int)[k - 1] == slot);
                        }
                    }
                    assert(at_entry.desc_shadow@[i] == old(self).desc_shadow@[i]);
                    assert(at_entry.desc@[i] == old(self).desc@[i]);
                }
                assert forall|j: int| 0 <= j < k implies (#[trigger] self.desc_shadow@[s[j] as int]).next
                    == old(self).desc_shadow@[s[j] as int].next by {
                    if j < k - 1 {
                        assert(s[j] != slot) by {
                            assert(old(self).free_list@.no_duplicates());
                        }
                    }
                }
            }
        }
        // The last descriptor of the chain does not link onward.
        let ghost mid = *self;
        let last_d = self.desc_shadow[last as usize];
        let fixed = Descriptor { flags: last_d.flags - DESC_F_NEXT, ..last_d };
        self.desc_shadow.set(last as usize, fixed);
        self.desc.set(last as usize, fixed);
        self.num_used = self.num_used + total as u16;
        proof {
            self.free_list@ = old(self).free_list@.skip(total as int);
            self.chains@ = old(self).chains@.insert(head, s);
        }
        proof {
            let pre = *old(self);
            let post = *self;
            assert(s[total - 1] == last);
            assert(s[0] == head);
            assert(s.no_duplicates()) by {
                assert(pre.free_list@.no_duplicates());
            }
            // Where each written descriptor ended up: the loop's value, or
            // the fixed-up one for the last chain element.
            assert forall|j: int| 0 <= j < s.len() implies (#[trigger] post.desc_shadow@[s[j] as int]).flags
                == spec_chain_flags(j, inputs@.len() as int, total as int)
                && post.desc_shadow@[s[j] as int].len == spec_buf_at(inputs@, outputs@, j).len()
                && post.desc_shadow@[s[j] as int].next == pre.desc_shadow@[s[j] as int].next
                && post.desc@[s[j] as int] == post.desc_shadow@[s[j] as int] by {
                if j < total - 1 {
                    assert(s[j] != last);
                    assert(post.desc_shadow@[s[j] as int] == mid.desc_shadow@[s[j] as int]);
                } else {
                    assert(s[j] == last);
                    assert(mid.desc_shadow@[last as int].flags == (DESC_F_NEXT + (if j
                        >= inputs@.len() {
                        DESC_F_WRITE
                    } else {
                        0
                    })) as u16);
                }
            }
            assert forall|i: int|
                0 <= i < SIZE && !s.contains(i as u16) implies (#[trigger] post.desc_shadow@[i])
                == pre.desc_shadow@[i] && post.desc@[i] == pre.desc@[i] by {
                assert(!s.take(total as int).contains(i as u16)) by {
                    assert(s.take(total as int) =~= s);
                }
                assert(i != last) by {
                    if i == last {
                        assert(s[total - 1] == i as u16);
                    }
                }
                assert(mid.desc_shadow@[i] == pre.desc_shadow@[i]);
                assert(mid.desc@[i] == pre.desc@[i]);
            }
            // The chain's slots left the free list and no other slot moved.
            assert forall|j: int| 0 <= j < s.len() implies !post.free_list@.contains(
                #[trigger] s[j],
            ) by {
                if post.free_list@.contains(s[j]) {
                    let m = choose|m: int|
                        0 <= m < post.free_list@.len() && post.free_list@[m] == s[j];
                    assert(pre.free_list@[m + total] == s[j]);
                    assert(pre.free_list@[j] == s[j]);
                }
            }
            // Existing chains are untouched: their slots were never free.
            assert forall|t: u16| #[trigger] post.chains@.contains_key(t) implies post.chain_wf(
                t,
            ) by {
                if t == head {
                    assert(post.chain_wf(head)) by {
                        assert(is_desc_chain(post.desc_shadow@, s)) by {
                            assert forall|j: int| 0 <= j < s.len() - 1 implies (
                            #[trigger] post.desc_shadow@[s[j] as int].flags) & DESC_F_NEXT != 0
                                && post.desc_shadow@[s[j] as int].next == s[j + 1] by {
                                assert(post.desc_shadow@[s[j] as int].flags == (DESC_F_NEXT + (
                                if j >= inputs@.len() {
                                    DESC_F_WRITE
                                } else {
                                    0
                                })) as u16);
                                assert((1u16) & 1 != 0 && (3u16) & 1 != 0) by (bit_vector);
                                assert(pre.desc_shadow@[s[j] as int].next == pre.free_list@[j + 1]);
                            }
                            assert(post.desc_shadow@[s.last() as int].flags & DESC_F_NEXT == 0) by {
                                assert((0u16) & 1 == 0 && (2u16) & 1 == 0) by (bit_vector);
                            }
                        }
                        assert(post.desc_shadow@[head as int].flags & DESC_F_INDIRECT == 0) by {
                            assert(post.desc_shadow@[s[0] as int].flags == spec_chain_flags(
                                0,
                                inputs@.len() as int,
                                total as int,
                            ));
                            lemma_low_flags(post.desc_shadow@[head as int].flags);
                        }
                        assert(post.indirect_lists@[head as int].is_none()) by {
                            if pre.indirect_lists@[head as int].is_some() {
                                assert(pre.chains@.contains_key(head));
                                assert(pre.chain_wf(head));
                                assert(pre.chains@[head][0] == head);
                                assert(!pre.free_list@.contains(head));
                                assert(pre.free_list@[0] == head);
                            }
                        }
                    }
                } else {
                    assert(pre.chains@.contains_key(t));
                    assert(pre.chain_wf(t));
                    let c = pre.chains@[t];
                    assert forall|j: int| 0 <= j < c.len() implies (#[trigger] post.desc_shadow@[c[j] as int])
                        == pre.desc_shadow@[c[j] as int] by {
                        assert(!s.contains(c[j])) by {
                            if s.contains(c[j]) {
                                let m = choose|m: int| 0 <= m < s.len() && s[m] == c[j];
                                assert(pre.free_list@[m] == c[j]);
                                assert(pre.free_list@.contains(c[j]));
                            }
                        }
                    }
                    assert forall|j: int| 0 <= j < c.len() implies !post.free_list@.contains(
                        #[trigger] c[j],
                    ) by {
                        if post.free_list@.contains(c[j]) {
                            let m = choose|m: int|
                                0 <= m < post.free_list@.len() && post.free_list@[m] == c[j];
                            assert(pre.free_list@[m + total] == c[j]);
                            assert(pre.free_list@.contains(c[j]));
                        }
                    }
                    assert(t != head);
                    assert(post.desc_shadow@[t as int] == pre.desc_shadow@[t as int]) by {
                        assert(c[0] == t);
                        assert(!s.contains(t));
                    }
                    assert(post.indirect_lists@[t as int] == pre.indirect_lists@[t as int]);
                    assert(post.chain_wf(t));
                }
            }
            assert(post.chains_disjoint()) by {
                assert forall|t1: u16, t2: u16, j: int|
                    post.chains@.contains_key(t1) && post.chains@.contains_key(t2) && t1 != t2 && 0
                        <= j < post.chains@[t1].len() implies !(#[trigger] post.chains@[t2].contains(
                    #[trigger] post.chains@[t1][j],
                )) by {
                    let x = post.chains@[t1][j];
                    if post.chains@[t2].contains(x) {
                        let m = choose|m: int|
                            0 <= m < post.chains@[t2].len() && post.chains@[t2][m] == x;
                        if t1 == head {
                            // x is a freshly taken slot, so it was free; but
                            // it also lies in the old chain of t2.
                            assert(pre.free_list@[j] == x);
                            assert(pre.free_list@.contains(x));
                            assert(pre.chains@.contains_key(t2));
                            assert(pre.chain_wf(t2));
                            assert(!pre.free_list@.contains(post.chains@[t2][m]));
                        } else if t2 == head {
                            assert(pre.free_list@[m] == x);
                            assert(pre.free_list@.contains(x));
                            assert(pre.chains@.contains_key(t1));
                            assert(pre.chain_wf(t1));
                            assert(!pre.free_list@.contains(pre.chains@[t1][j]));
                        } else {
                            assert(!pre.chains@[t2].contains(pre.chains@[t1][j]));
                        }
                    }
                }
            }
            assert forall|i: int|
                0 <= i < SIZE && (#[trigger] post.indirect_lists@[i]).is_some() implies post.chains@.contains_key(
                i as u16,
            ) by {
                assert(pre.indirect_lists@[i].is_some());
            }
            assert(post.free_wf()) by {
                assert(pre.free_list@.skip(total as int).no_duplicates());
                assert forall|j: int|
                    0 <= j < post.free_list@.len() - 1 implies (
                #[trigger] post.desc_shadow@[post.free_list@[j] as int].next)
                    == post.free_list@[j + 1] by {
                    assert(post.free_list@[j] == pre.free_list@[j + total]);
                    assert(post.free_list@[j + 1] == pre.free_list@[j + total + 1]);
                    assert(!s.contains(pre.free_list@[j + total])) by {
                        if s.contains(pre.free_list@[j + total]) {
                            let m = choose|m: int|
                                0 <= m < s.len() && s[m] == pre.free_list@[j + total];
                            assert(pre.free_list@[m] == pre.free_list@[j + total]);
                            assert(pre.free_list@.no_duplicates());
                        }
                    }
                }
                if post.free_list@.len() > 0 {
                    assert(self.free_head == pre.free_list@[total as int]);
                }
            }
            assert(Self::spec_added_chain(pre, post, head, inputs@, outputs@)) by {
                assert(post.chain_matches_bufs(head, inputs@, outputs@)) by {
                    assert(post.desc_shadow@[head as int].flags & DESC_F_INDIRECT == 0) by {
                        assert(post.desc_shadow@[s[0] as int].flags == spec_chain_flags(
                            0,
                            inputs@.len() as int,
                            total as int,
                        ));
                        lemma_low_flags(post.desc_shadow@[head as int].flags);
                    }
                }
            }
        }
        head
    }

    /// Whether everything the device writes except the live descriptor
    /// table is the same in `post` as in `pre`.
    pub open spec fn device_side_unchanged_but_desc(pre: Self, post: Self) -> bool {
        &&& post.spec_used_ring() == pre.spec_used_ring()
        &&& post.spec_used_idx() == pre.spec_used_idx()
        &&& post.spec_used_flags() == pre.spec_used_flags()
        &&& post.spec_avail_event() == pre.spec_avail_event()
    }
}


impl<H: Hal, const SIZE: usize> VirtQueue<H, SIZE> {
    /// Places the buffers behind a single direct slot pointing at a
    /// freshly built indirect descriptor list, sharing each buffer and the
    /// serialized list itself, and returns the slot.
    #[verifier::loop_isolation(false)]
    #[verifier::rlimit(100)]
    #[verifier::spinoff_prover]
    fn add_indirect(&mut self, inputs: &[Vec<u8>], outputs: &[Vec<u8>]) -> (head: u16)
        requires
            old(self).wf(),
            old(self).spec_indirect(),
            inputs@.len() + outputs@.len() >= 2,
            inputs@.len() + outputs@.len() <= SIZE,
            old(self).spec_num_used() + 1 <= SIZE,
            forall|k: int| 0 <= k < inputs@.len() ==> 0 < (#[trigger] inputs@[k])@.len() <= u32::MAX,
            forall|k: int|
                0 <= k < outputs@.len() ==> 0 < (#[trigger] outputs@[k])@.len() <= u32::MAX,
        ensures
            final(self).wf(),
            Self::spec_added_chain(*old(self), *final(self), head, inputs@, outputs@),
            final(self).spec_chains().contains_key(head),
            Self::device_side_unchanged_but_desc(*old(self), *final(self)),
            final(self).spec_avail_ring() == old(self).spec_avail_ring(),
            final(self).spec_avail_published_idx() == old(self).spec_avail_published_idx(),
            final(self).spec_avail_flags() == old(self).spec_avail_flags(),
            final(self).spec_used_event() == old(self).spec_used_event(),
            final(self).spec_avail_idx() == old(self).spec_avail_idx(),
            final(self).spec_last_used_idx() == old(self).spec_last_used_idx(),
            final(self).spec_event_idx() == old(self).spec_event_idx(),
            final(self).spec_indirect() == old(self).spec_indirect(),
            final(self).spec_queue_idx() == old(self).spec_queue_idx(),
    {
        let total = inputs.len() + outputs.len();
        let head = self.free_head;
        let ghost s = old(self).free_list@.take(1);
        proof {
            assert(old(self).free_list@.len() >= 1);
            assert(s[0] == head);
        }
        // Build the indirect list: one descriptor per buffer, linked in
        // order.
        let mut list: Vec<Descriptor> = Vec::new();
        let mut k: usize = 0;
        while k < total
            invariant
                k <= total,
                list@.len() == k,
                forall|j: int|
                    0 <= j < k ==> (#[trigger] list@[j]).len == spec_buf_at(
                        inputs@,
                        outputs@,
                        j,
                    ).len() && list@[j].flags == (DESC_F_NEXT + (if j >= inputs@.len() {
                        DESC_F_WRITE
                    } else {
                        0
                    })) as u16 && list@[j].next == j + 1,
            decreases total - k,
        {
            let write: bool = k >= inputs.len();
            let paddr: PhysAddr = if write {
                H::share(outputs[k - inputs.len()].as_slice(), BufferDirection::DeviceToDriver)
            } else {
                H::share(inputs[k].as_slice(), BufferDirection::DriverToDevice)
            };
            let buf_len: usize = if write {
                outputs[k - inputs.len()].len()
            } else {
                inputs[k].len()
            };
            let flags: u16 = if write {
                DESC_F_NEXT + DESC_F_WRITE
            } else {
                DESC_F_NEXT
            };
            list.push(
                Descriptor { addr: paddr as u64, len: buf_len as u32, flags, next: (k + 1) as u16 },
            );
            k = k + 1;
        }
        // The last descriptor of the list does not link onward.
        let last_d = list[total - 1];
        list.set(total - 1, Descriptor { flags: last_d.flags - DESC_F_NEXT, ..last_d });
        // Share the serialized list itself with the device; the direct
        // descriptor points at it.
        let mut bytes: Vec<u8> = Vec::new();
        let mut k2: usize = 0;
        while k2 < total
            invariant
                k2 <= total,
                list@.len() == total,
                bytes@.len() == 16 * k2,
            decreases total - k2,
        {
            push_descriptor_bytes(&mut bytes, &list[k2]);
            k2 = k2 + 1;
        }
        let list_paddr = H::share(bytes.as_slice(), BufferDirection::DriverToDevice);
        let old_d = self.desc_shadow[head as usize];
        let d = Descriptor {
            addr: list_paddr as u64,
            len: (16 * total) as u32,
            flags: DESC_F_INDIRECT,
            next: old_d.next,
        };
        self.desc_shadow.set(head as usize, d);
        self.desc.set(head as usize, d);
        self.free_head = old_d.next;
        self.indirect_lists.set(head as usize, Some(IndirectList { descs: list, paddr: list_paddr }));
        self.num_used = self.num_used + 1;
        proof {
            self.free_list@ = old(self).free_list@.skip(1);
            self.chains@ = old(self).chains@.insert(head, s);
        }
        proof {
            let pre = *old(self);
            let post = *self;
            assert((4u16) & 4 != 0 && (4u16) & 1 == 0) by (bit_vector);
            assert forall|j: int| 0 <= j < s.len() implies !post.free_list@.contains(
                #[trigger] s[j],
            ) by {
                if post.free_list@.contains(s[j]) {
                    let m = choose|m: int|
                        0 <= m < post.free_list@.len() && post.free_list@[m] == s[j];
                    assert(pre.free_list@[m + 1] == s[j]);
                    assert(pre.free_list@[0] == s[j]);
                    assert(pre.free_list@.no_duplicates());
                }
            }
            assert forall|t: u16| #[trigger] post.chains@.contains_key(t) implies post.chain_wf(
                t,
            ) by {
                if t == head {
                    assert(post.indirect_lists@[head as int].is_some());
                } else {
                    assert(pre.chains@.contains_key(t));
                    assert(pre.chain_wf(t));
                    let c = pre.chains@[t];
                    assert forall|j: int| 0 <= j < c.len() implies (#[trigger] post.desc_shadow@[c[j] as int])
                        == pre.desc_shadow@[c[j] as int] by {
                        assert(c[j] != head) by {
                            if c[j] == head {
                                assert(pre.free_list@[0] == head);
                                assert(pre.free_list@.contains(c[j]));
                            }
                        }
                    }
                    assert forall|j: int| 0 <= j < c.len() implies !post.free_list@.contains(
                        #[trigger] c[j],
                    ) by {
                        if post.free_list@.contains(c[j]) {
                            let m = choose|m: int|
                                0 <= m < post.free_list@.len() && post.free_list@[m] == c[j];
                            assert(pre.free_list@[m + 1] == c[j]);
                            assert(pre.free_list@.contains(c[j]));
                        }
                    }
                    assert(t != head);
                    assert(post.desc_shadow@[t as int] == pre.desc_shadow@[t as int]) by {
                        assert(c[0] == t);
                    }
                    assert(post.indirect_lists@[t as int] == pre.indirect_lists@[t as int]);
                    assert(post.chain_wf(t));
                }
            }
            assert(post.chains_disjoint()) by {
                assert forall|t1: u16, t2: u16, j: int|
                    post.chains@.contains_key(t1) && post.chains@.contains_key(t2) && t1 != t2 && 0
                        <= j < post.chains@[t1].len() implies !(#[trigger] post.chains@[t2].contains(
                    #[trigger] post.chains@[t1][j],
                )) by {
                    let x = post.chains@[t1][j];
                    if post.chains@[t2].contains(x) {
                        let m = choose|m: int|
                            0 <= m < post.chains@[t2].len() && post.chains@[t2][m] == x;
                        if t1 == head {
                            assert(x == head);
                            assert(pre.free_list@[0] == head);
                            assert(pre.chains@.contains_key(t2));
                            assert(pre.chain_wf(t2));
                            assert(!pre.free_list@.contains(post.chains@[t2][m]));
                            assert(pre.free_list@.contains(head));
                        } else if t2 == head {
                            assert(x == head);
                            assert(pre.free_list@[0] == head);
                            assert(pre.chains@.contains_key(t1));
                            assert(pre.chain_wf(t1));
                            assert(!pre.free_list@.contains(pre.chains@[t1][j]));
                            assert(pre.free_list@.contains(head));
                        } else {
                            assert(!pre.chains@[t2].contains(pre.chains@[t1][j]));
                        }
                    }
                }
            }
            assert forall|i: int|
                0 <= i < SIZE && (#[trigger] post.indirect_lists@[i]).is_some() implies post.chains@.contains_key(
                i as u16,
            ) by {
                if i != head {
                    assert(pre.indirect_lists@[i].is_some());
                }
            }
            assert(post.free_wf()) by {
                assert(pre.free_list@.skip(1).no_duplicates());
                assert forall|j: int|
                    0 <= j < post.free_list@.len() - 1 implies (
                #[trigger] post.desc_shadow@[post.free_list@[j] as int].next)
                    == post.free_list@[j + 1] by {
                    assert(post.free_list@[j] == pre.free_list@[j + 1]);
                    assert(post.free_list@[j + 1] == pre.free_list@[j + 2]);
                    assert(pre.free_list@[j + 1] != head) by {
                        assert(pre.free_list@[0] == head);
                        assert(pre.free_list@.no_duplicates());
                    }
                }
                if post.free_list@.len() > 0 {
                    assert(pre.desc_shadow@[head as int].next == pre.free_list@[1]);
                }
            }
            assert(Self::spec_added_chain(pre, post, head, inputs@, outputs@)) by {
                assert(post.chain_matches_bufs(head, inputs@, outputs@)) by {
                    assert(post.desc_shadow@[head as int].flags & DESC_F_INDIRECT != 0);
                    assert(post.indirect_lists@[head as int].is_some());
                }
                let il = post.indirect_lists@[head as int].unwrap().descs@;
                assert forall|j: int|
                    0 <= j < total implies (#[trigger] il[j]).flags == spec_chain_flags(
                    j,
                    inputs@.len() as int,
                    total as int,
                ) by {
                    if j < total - 1 {
                        assert(il[j] == list@[j]);
                    }
                }
                assert forall|j: int| 0 <= j < total - 1 implies (#[trigger] il[j]).next == j
                    + 1 by {
                    assert(il[j] == list@[j]);
                }
                assert forall|i: int|
                    0 <= i < SIZE && !s.contains(i as u16) implies (
                #[trigger] post.desc_shadow@[i]) == pre.desc_shadow@[i] && post.desc@[i]
                    == pre.desc@[i] by {
                    assert(i != head) by {
                        if i == head {
                            assert(s[0] == i as u16);
                        }
                    }
                }
            }
        }
        head
    }

    /// `spec_added_chain` speaks only of the descriptor tables, the free
    /// list, the chains and the sidecar, so it carries over to any state
    /// that agrees with `a` on those.
    proof fn lemma_added_chain_frame(
        pre: Self,
        a: Self,
        b: Self,
        token: u16,
        inputs: Seq<Vec<u8>>,
        outputs: Seq<Vec<u8>>,
    )
        requires
            Self::spec_added_chain(pre, a, token, inputs, outputs),
            1 <= pre.spec_slots_needed(inputs.len() + outputs.len() as int),
            pre.spec_slots_needed(inputs.len() + outputs.len() as int) <= pre.spec_free().len(),
            b.spec_desc_shadow() == a.spec_desc_shadow(),
            b.spec_desc() == a.spec_desc(),
            b.spec_free() == a.spec_free(),
            b.spec_chains() == a.spec_chains(),
            b.spec_num_used() == a.spec_num_used(),
            b.spec_indirect_lists() == a.spec_indirect_lists(),
        ensures
            Self::spec_added_chain(pre, b, token, inputs, outputs),
    {
        let needed = inputs.len() + outputs.len() as int;
        let k = pre.spec_slots_needed(needed as int);
        let s = pre.spec_free().take(k);
        assert forall|i: int|
            0 <= i < SIZE && !s.contains(i as u16) implies (#[trigger] b.spec_desc_shadow()[i])
            == pre.spec_desc_shadow()[i] && b.spec_desc()[i] == pre.spec_desc()[i] by {
            assert(a.spec_desc_shadow()[i] == pre.spec_desc_shadow()[i]);
            assert(a.spec_desc()[i] == pre.spec_desc()[i]);
        }
        assert forall|j: int|
            0 <= j < s.len() implies (#[trigger] b.spec_desc()[s[j] as int])
            == b.spec_desc_shadow()[s[j] as int] by {
            assert(a.spec_desc()[s[j] as int] == a.spec_desc_shadow()[s[j] as int]);
        }
        if pre.spec_indirect() && needed > 1 {
            assert forall|i: int|
                0 <= i < SIZE && i != token implies (#[trigger] b.spec_indirect_lists()[i])
                == pre.spec_indirect_lists()[i] by {
                assert(a.spec_indirect_lists()[i] == pre.spec_indirect_lists()[i]);
            }
            assert(a.spec_desc_shadow()[token as int].flags & DESC_F_INDIRECT != 0) by {
                assert(a.spec_desc_shadow()[token as int].flags == DESC_F_INDIRECT);
                assert((4u16) & 4 != 0) by (bit_vector);
            }
            assert(b.chain_matches_bufs(token, inputs, outputs)) by {
                assert forall|j: int|
                    0 <= j < needed implies (
                #[trigger] b.spec_indirect_lists()[token as int].unwrap().descs@[j]).len
                    == spec_buf_at(inputs, outputs, j).len() by {
                    assert(a.spec_indirect_lists()[token as int].unwrap().descs@[j].len
                        == spec_buf_at(inputs, outputs, j).len());
                }
            }
            assert forall|j: int|
                0 <= j < needed implies (
            #[trigger] b.spec_indirect_lists()[token as int].unwrap().descs@[j]).flags
                == spec_chain_flags(j, inputs.len() as int, needed as int) by {
                assert(a.spec_indirect_lists()[token as int].unwrap().descs@[j].flags
                    == spec_chain_flags(j, inputs.len() as int, needed as int));
            }
            assert forall|j: int|
                0 <= j < needed - 1 implies (
            #[trigger] b.spec_indirect_lists()[token as int].unwrap().descs@[j]).next == j
                + 1 by {
                assert(a.spec_indirect_lists()[token as int].unwrap().descs@[j].next == j + 1);
            }
        } else {
            assert forall|j: int|
                0 <= j < s.len() implies (#[trigger] b.spec_desc_shadow()[s[j] as int]).flags
                == spec_chain_flags(j, inputs.len() as int, needed as int) by {
                assert(a.spec_desc_shadow()[s[j] as int].flags == spec_chain_flags(
                    j,
                    inputs.len() as int,
                    needed as int,
                ));
            }
            assert forall|j: int|
                0 <= j < s.len() - 1 implies (#[trigger] b.spec_desc_shadow()[s[j] as int]).next
                == s[j + 1] by {
                assert(a.spec_desc_shadow()[s[j] as int].next == s[j + 1]);
            }
            assert(a.spec_desc_shadow()[token as int].flags & DESC_F_INDIRECT == 0) by {
                assert(s[0] == token);
                assert(a.spec_desc_shadow()[s[0] as int].flags == spec_chain_flags(
                    0,
                    inputs.len() as int,
                    needed as int,
                ));
                lemma_low_flags(a.spec_desc_shadow()[token as int].flags);
            }
            assert(b.chain_matches_bufs(token, inputs, outputs)) by {
                assert forall|j: int|
                    0 <= j < needed implies (
                #[trigger] b.spec_desc_shadow()[b.spec_chains()[token][j] as int]).len
                    == spec_buf_at(inputs, outputs, j).len() by {
                    assert(a.spec_desc_shadow()[a.spec_chains()[token][j] as int].len
                        == spec_buf_at(inputs, outputs, j).len());
                }
            }
        }
    }

    /// What the device observes of an issued chain is exactly what the
    /// driver supplied: slot by slot and in order, the live descriptor
    /// table (or the indirect list the single live slot points at)
    /// records each buffer's length, links each descriptor to the next,
    /// and marks exactly the output buffers device-writable. The payload
    /// bytes themselves travel under the addresses the HAL's `share`
    /// returned for these same buffers, one call per buffer.
    pub proof fn lemma_chain_records_buffers(
        pre: Self,
        post: Self,
        token: u16,
        inputs: Seq<Vec<u8>>,
        outputs: Seq<Vec<u8>>,
        j: int,
    )
        requires
            Self::spec_added_chain(pre, post, token, inputs, outputs),
            1 <= pre.spec_slots_needed(inputs.len() + outputs.len() as int),
            pre.spec_slots_needed(inputs.len() + outputs.len() as int) <= pre.spec_free().len(),
            0 <= j < inputs.len() + outputs.len(),
        ensures
            ({
                let needed = inputs.len() + outputs.len() as int;
                let d = if pre.spec_indirect() && needed > 1 {
                    post.spec_indirect_lists()[token as int].unwrap().descs@[j]
                } else {
                    post.spec_desc()[pre.spec_free().take(needed as int)[j] as int]
                };
                &&& d.len == spec_buf_at(inputs, outputs, j).len()
                &&& d.flags == spec_chain_flags(j, inputs.len() as int, needed as int)
            }),
    {
        let needed = inputs.len() + outputs.len() as int;
        if !(pre.spec_indirect() && needed > 1) {
            let s = pre.spec_free().take(needed as int);
            let cs = post.spec_chains()[token];
            assert(cs == s);
            assert(post.spec_desc()[s[j] as int] == post.spec_desc_shadow()[s[j] as int]);
            assert(post.spec_desc_shadow()[token as int].flags & DESC_F_INDIRECT == 0) by {
                assert(s[0] == token);
                assert(post.spec_desc_shadow()[s[0] as int].flags == spec_chain_flags(
                    0,
                    inputs.len() as int,
                    needed as int,
                ));
                lemma_low_flags(post.spec_desc_shadow()[token as int].flags);
            }
            assert(post.spec_desc_shadow()[cs[j] as int].len == spec_buf_at(
                inputs,
                outputs,
                j,
            ).len());
        }
    }

    /// Adds the given buffers to the queue as one chain: first the
    /// device-readable `inputs`, then the device-writable `outputs`. Each
    /// buffer is shared with the device exactly once, the chain is written
    /// to the shadow table and mirrored into the live table, and its head
    /// is published in the available ring. Returns the head slot index,
    /// the token with which the chain is reclaimed after completion.
    pub fn add(&mut self, inputs: &[Vec<u8>], outputs: &[Vec<u8>]) -> (r: Result<u16, Error>)
        requires
            old(self).wf(),
            inputs@.len() + outputs@.len() <= usize::MAX,
            forall|k: int| 0 <= k < inputs@.len() ==> 0 < (#[trigger] inputs@[k])@.len() <= u32::MAX,
            forall|k: int|
                0 <= k < outputs@.len() ==> 0 < (#[trigger] outputs@[k])@.len() <= u32::MAX,
        ensures
            final(self).wf(),
            Self::device_side_unchanged_but_desc(*old(self), *final(self)),
            final(self).spec_avail_flags() == old(self).spec_avail_flags(),
            final(self).spec_used_event() == old(self).spec_used_event(),
            final(self).spec_last_used_idx() == old(self).spec_last_used_idx(),
            final(self).spec_event_idx() == old(self).spec_event_idx(),
            final(self).spec_indirect() == old(self).spec_indirect(),
            final(self).spec_queue_idx() == old(self).spec_queue_idx(),
            match r {
                Err(e) => *final(self) == *old(self) && (e == Error::InvalidParam || e
                    == Error::QueueFull) && (e == Error::InvalidParam <==> inputs@.len()
                    + outputs@.len() == 0) && (e == Error::QueueFull <==> inputs@.len()
                    + outputs@.len() > 0 && old(self).spec_add_full(
                    inputs@.len() + outputs@.len() as int,
                )),
                Ok(head) => {
                    &&& inputs@.len() + outputs@.len() > 0
                    &&& !old(self).spec_add_full(inputs@.len() + outputs@.len() as int)
                    &&& Self::spec_added_chain(*old(self), *final(self), head, inputs@, outputs@)
                    &&& final(self).spec_chains().contains_key(head)
                    &&& final(self).spec_avail_idx() == vstd::wrapping::u16_specs::wrapping_add(
                        old(self).spec_avail_idx(),
                        1,
                    )
                    &&& final(self).spec_avail_published_idx() == final(self).spec_avail_idx()
                    &&& final(self).spec_avail_ring() == old(self).spec_avail_ring().update(
                        old(self).spec_avail_idx() as int % SIZE as int,
                        head,
                    )
                },
            },
    {
        if inputs.len() == 0 && outputs.len() == 0 {
            return Err(Error::InvalidParam);
        }
        let descriptors_needed = inputs.len() + outputs.len();
        if self.indirect {
            if self.num_used as usize + 1 > SIZE || descriptors_needed > SIZE {
                return Err(Error::QueueFull);
            }
        } else {
            if descriptors_needed > SIZE - self.num_used as usize {
                return Err(Error::QueueFull);
            }
        }

        let head = if self.indirect && descriptors_needed > 1 {
            self.add_indirect(inputs, outputs)
        } else {
            self.add_direct(inputs, outputs)
        };
        let ghost mid = *self;

        let avail_slot = self.avail_idx as usize % SIZE;
        self.avail.ring.set(avail_slot, head);
        // On real shared memory a release barrier orders the descriptor
        // and ring writes before the index store.
        self.avail_idx = self.avail_idx.wrapping_add(1);
        self.avail.idx = self.avail_idx;
        proof {
            assert(self.wf());
            assert(old(self).spec_free().len() == SIZE - old(self).spec_num_used());
            Self::lemma_added_chain_frame(*old(self), mid, *self, head, inputs@, outputs@);
            assert(Self::spec_added_chain(*old(self), *self, head, inputs@, outputs@));
            assert(self.spec_chains().contains_key(head));
            assert(self.spec_avail_ring() == old(self).spec_avail_ring().update(
                old(self).spec_avail_idx() as int % SIZE as int,
                head,
            ));
            assert(!old(self).spec_add_full(inputs@.len() + outputs@.len() as int));
        }
        Ok(head)
    }
}


/// Pigeonhole: a duplicate-free sequence of values below `n` has at most
/// `n` elements.
proof fn lemma_no_dup_bounded_len(s: Seq<u16>, n: int)
    requires
        s.no_duplicates(),
        forall|k: int| 0 <= k < s.len() ==> (#[trigger] s[k]) < n,
        n >= 0,
    ensures
        s.len() <= n,
    decreases n,
{
    if s.len() == 0 {
    } else if n == 0 {
        assert(s[0] < 0);
    } else {
        if exists|k: int| 0 <= k < s.len() && (#[trigger] s[k]) == n - 1 {
            let k = choose|k: int| 0 <= k < s.len() && (#[trigger] s[k]) == n - 1;
            let s2 = s.remove(k);
            assert(s2.no_duplicates());
            assert(forall|j: int| 0 <= j < s2.len() ==> (#[trigger] s2[j]) < n - 1);
            lemma_no_dup_bounded_len(s2, n - 1);
        } else {
            assert(forall|k: int| 0 <= k < s.len() ==> (#[trigger] s[k]) < n - 1);
            lemma_no_dup_bounded_len(s, n - 1);
        }
    }
}

impl<H: Hal, const SIZE: usize> VirtQueue<H, SIZE> {
    /// In a well-formed queue an in-flight chain never holds more
    /// descriptors than are in use.
    proof fn lemma_chain_len_le_num_used(&self, token: u16)
        requires
            self.wf(),
            self.spec_chains().contains_key(token),
        ensures
            self.spec_chains()[token].len() <= self.spec_num_used(),
    {
        let s = self.chains@[token];
        let c = s + self.free_list@;
        vstd::seq_lib::lemma_no_dup_in_concat(s, self.free_list@);
        assert forall|i: int, j: int|
            0 <= i < s.len() && 0 <= j < self.free_list@.len() implies s[i] != self.free_list@[j] by {
            if s[i] == self.free_list@[j] {
                assert(self.free_list@.contains(s[i]));
            }
        }
        assert(c.no_duplicates());
        assert forall|k: int| 0 <= k < c.len() implies (#[trigger] c[k]) < SIZE by {
            if k < s.len() {
                assert(c[k] == s[k]);
            } else {
                assert(c[k] == self.free_list@[k - s.len()]);
            }
        }
        lemma_no_dup_bounded_len(c, SIZE as int);
    }

    /// Reclaims the chain that starts at `head`: unshares every buffer
    /// (returning the device-written contents of the writable ones into
    /// `outputs`), frees an indirect list if the chain used one, and links
    /// all freed descriptors at the front of the free list.
    #[verifier::loop_isolation(false)]
    #[verifier::rlimit(100)]
    #[verifier::spinoff_prover]
    fn recycle_descriptors(&mut self, head: u16, inputs: &[Vec<u8>], outputs: &mut Vec<Vec<u8>>)
        requires
            old(self).wf(),
            old(self).spec_chains().contains_key(head),
            old(self).chain_matches_bufs(head, inputs@, old(outputs)@),
            1 <= inputs@.len() + old(outputs)@.len() <= SIZE,
        ensures
            final(self).wf(),
            final(self).spec_free() == old(self).spec_chains()[head] + old(self).spec_free(),
            final(self).spec_chains() == old(self).spec_chains().remove(head),
            final(self).spec_num_used() == old(self).spec_num_used() - old(
                self,
            ).spec_chains()[head].len(),
            forall|j: int|
                #![trigger old(self).spec_chains()[head][j]]
                0 <= j < old(self).spec_chains()[head].len() ==> {
                    let slot = old(self).spec_chains()[head][j] as int;
                    &&& final(self).spec_desc_shadow()[slot].addr == 0
                    &&& final(self).spec_desc_shadow()[slot].len == 0
                    &&& final(self).spec_desc()[slot] == final(self).spec_desc_shadow()[slot]
                },
            forall|i: int|
                0 <= i < SIZE && !old(self).spec_chains()[head].contains(i as u16) ==> (
                #[trigger] final(self).spec_desc_shadow()[i]) == old(self).spec_desc_shadow()[i]
                    && final(self).spec_desc()[i] == old(self).spec_desc()[i],
            forall|i: int|
                0 <= i < SIZE && i != head ==> (#[trigger] final(self).spec_indirect_lists()[i])
                    == old(self).spec_indirect_lists()[i],
            final(self).spec_indirect_lists()[head as int] is None,
            final(outputs)@.len() == old(outputs)@.len(),
            forall|j: int|
                0 <= j < old(outputs)@.len() ==> (#[trigger] final(outputs)@[j])@.len() == old(
                    outputs,
                )@[j]@.len(),
            final(self).spec_avail_ring() == old(self).spec_avail_ring(),
            final(self).spec_avail_published_idx() == old(self).spec_avail_published_idx(),
            final(self).spec_avail_flags() == old(self).spec_avail_flags(),
            final(self).spec_used_event() == old(self).spec_used_event(),
            final(self).spec_avail_idx() == old(self).spec_avail_idx(),
            final(self).spec_last_used_idx() == old(self).spec_last_used_idx(),
            final(self).spec_used_ring() == old(self).spec_used_ring(),
            final(self).spec_used_idx() == old(self).spec_used_idx(),
            final(self).spec_used_flags() == old(self).spec_used_flags(),
            final(self).spec_avail_event() == old(self).spec_avail_event(),
            final(self).spec_event_idx() == old(self).spec_event_idx(),
            final(self).spec_indirect() == old(self).spec_indirect(),
            final(self).spec_queue_idx() == old(self).spec_queue_idx(),
    {
        let ghost s = old(self).chains@[head];
        let total = inputs.len() + outputs.len();
        let original_free_head = self.free_head;
        self.free_head = head;
        proof {
            assert(old(self).chain_wf(head));
            old(self).lemma_chain_len_le_num_used(head);
        }
        let head_desc = self.desc_shadow[head as usize];
        if head_desc.flags & DESC_F_INDIRECT != 0 {
            // The chain went through an indirect list: unshare the list
            // itself, then every buffer it described, and free the single
            // direct slot.
            let list_len: usize;
            let list_paddr: PhysAddr;
            match &self.indirect_lists[head as usize] {
                Some(il) => {
                    list_len = il.descs.len();
                    list_paddr = il.paddr;
                },
                None => {
                    proof {
                        assert(false);
                    }
                    list_len = 0;
                    list_paddr = 0;
                },
            }
            let ghost outs_pre = outputs@;
            let _ = H::unshare(list_paddr, 16 * list_len, BufferDirection::DriverToDevice);
            let mut k: usize = 0;
            while k < total
                invariant
                    k <= total,
                    *self == old(self).with_free_head(head),
                    outputs@.len() == outs_pre.len(),
                    forall|j: int|
                        0 <= j < outputs@.len() ==> (#[trigger] outputs@[j])@.len()
                            == outs_pre[j]@.len(),
                decreases total - k,
            {
                let desc_addr: u64;
                let desc_len: u32;
                match &self.indirect_lists[head as usize] {
                    Some(il) => {
                        desc_addr = il.descs[k].addr;
                        desc_len = il.descs[k].len;
                    },
                    None => {
                        proof {
                            assert(false);
                        }
                        desc_addr = 0;
                        desc_len = 0;
                    },
                }
                let contents = if k < inputs.len() {
                    H::unshare(desc_addr as usize, desc_len as usize, BufferDirection::DriverToDevice)
                } else {
                    H::unshare(desc_addr as usize, desc_len as usize, BufferDirection::DeviceToDriver)
                };
                if k >= inputs.len() {
                    outputs.set(k - inputs.len(), contents);
                }
                k = k + 1;
            }
            let d2 = Descriptor { addr: 0, len: 0, flags: head_desc.flags, next: original_free_head };
            self.desc_shadow.set(head as usize, d2);
            self.desc.set(head as usize, d2);
            self.num_used = self.num_used - 1;
            self.indirect_lists.set(head as usize, None);
            proof {
                self.free_list@ = s + old(self).free_list@;
                self.chains@ = old(self).chains@.remove(head);
                assert(s =~= seq![head]);
            }
        } else {
            // A chain of direct descriptors: walk it, unsharing each
            // buffer and freeing each slot.
            let ghost outs_pre = outputs@;
            let mut next_slot: u16 = head;
            let mut k: usize = 0;
            while k < total
                invariant
                    k <= total,
                    s.len() == total,
                    k < total ==> next_slot == s[k as int],
                    self.desc_shadow@.len() == SIZE,
                    self.desc@.len() == SIZE,
                    self.free_head == head,
                    self.free_list@ == old(self).free_list@,
                    self.chains@ == old(self).chains@,
                    self.num_used == old(self).num_used,
                    self.avail == old(self).avail,
                    self.used == old(self).used,
                    self.avail_idx == old(self).avail_idx,
                    self.last_used_idx == old(self).last_used_idx,
                    self.indirect_lists@ == old(self).indirect_lists@,
                    self.queue_idx == old(self).queue_idx,
                    self.event_idx == old(self).event_idx,
                    self.indirect == old(self).indirect,
                    outputs@.len() == outs_pre.len(),
                    forall|j: int|
                        0 <= j < outputs@.len() ==> (#[trigger] outputs@[j])@.len()
                            == outs_pre[j]@.len(),
                    forall|j: int|
                        0 <= j < k ==> (#[trigger] self.desc_shadow@[s[j] as int]) == (Descriptor {
                            addr: 0,
                            len: 0,
                            flags: old(self).desc_shadow@[s[j] as int].flags,
                            next: if j == total - 1 {
                                original_free_head
                            } else {
                                old(self).desc_shadow@[s[j] as int].next
                            },
                        }),
                    forall|j: int|
                        0 <= j < k ==> (#[trigger] self.desc@[s[j] as int])
                            == self.desc_shadow@[s[j] as int],
                    forall|i: int|
                        0 <= i < SIZE && !s.take(k as int).contains(i as u16) ==> (
                        #[trigger] self.desc_shadow@[i]) == old(self).desc_shadow@[i]
                            && self.desc@[i] == old(self).desc@[i],
                decreases total - k,
            {
                let ghost at_entry = *self;
                let slot = next_slot;
                proof {
                    assert(slot == s[k as int]);
                    assert(slot < SIZE);
                    assert(!s.take(k as int).contains(slot)) by {
                        if s.take(k as int).contains(slot) {
                            let m = choose|m: int|
                                0 <= m < k && #[trigger] s.take(k as int)[m] == slot;
                            assert(s[m] == s[k as int]);
                            assert(s.no_duplicates());
                        }
                    }
                    assert(self.desc_shadow@[slot as int] == old(self).desc_shadow@[slot as int]);
                }
                let d = self.desc_shadow[slot as usize];
                let has_next = k + 1 < total;
                let new_next: u16 = if has_next {
                    proof {
                        assert(is_desc_chain(old(self).desc_shadow@, s));
                        assert(old(self).desc_shadow@[s[k as int] as int].next == s[k + 1]);
                    }
                    next_slot = d.next;
                    d.next
                } else {
                    original_free_head
                };
                let d2 = Descriptor { addr: 0, len: 0, flags: d.flags, next: new_next };
                self.desc_shadow.set(slot as usize, d2);
                self.desc.set(slot as usize, d2);
                let contents = if k < inputs.len() {
                    H::unshare(d.addr as usize, d.len as usize, BufferDirection::DriverToDevice)
                } else {
                    H::unshare(d.addr as usize, d.len as usize, BufferDirection::DeviceToDriver)
                };
                if k >= inputs.len() {
                    outputs.set(k - inputs.len(), contents);
                }
                k = k + 1;
                proof {
                    assert(s.take(k as int) =~= s.take(k - 1).push(slot));
                    assert forall|i: int|
                        0 <= i < SIZE && !s.take(k as int).contains(i as u16) implies (
                    #[trigger] self.desc_shadow@[i]) == old(self).desc_shadow@[i] && self.desc@[i]
                        == old(self).desc@[i] by {
                        assert(!s.take(k - 1).contains(i as u16)) by {
                            if s.take(k - 1).contains(i as u16) {
                                let j = choose|j: int|
                                    0 <= j < k - 1 && #[trigger] s.take(k - 1)[j] == i as u16;
                                assert(s.take(k as int)[j] == i as u16);
                            }
                        }
                        assert(i != slot) by {
                            if i == slot {
                                assert(s.take(k as int)[k - 1] == slot);
                            }
                        }
                        assert(at_entry.desc_shadow@[i] == old(self).desc_shadow@[i]);
                        assert(at_entry.desc@[i] == old(self).desc@[i]);
                    }
                    assert forall|j: int| 0 <= j < k implies (#[trigger] self.desc_shadow@[s[j] as int])
                        == (Descriptor {
                        addr: 0,
                        len: 0,
                        flags: old(self).desc_shadow@[s[j] as int].flags,
                        next: if j == total - 1 {
                            original_free_head
                        } else {
                            old(self).desc_shadow@[s[j] as int].next
                        },
                    }) by {
                        if j < k - 1 {
                            assert(s[j] != slot) by {
                                assert(s.no_duplicates());
                            }
                            assert(at_entry.desc_shadow@[s[j] as int]
                                == self.desc_shadow@[s[j] as int]);
                        }
                    }
                }
            }
            self.num_used = self.num_used - total as u16;
            proof {
                self.free_list@ = s + old(self).free_list@;
                self.chains@ = old(self).chains@.remove(head);
            }
        }
        proof {
            let pre = *old(self);
            let post = *self;
            assert(pre.chain_wf(head));
            assert(s[0] == head);
            // The freed chain joins the free list without duplicates.
            assert(post.free_list@.no_duplicates()) by {
                assert forall|i: int, j: int|
                    0 <= i < s.len() && 0 <= j < pre.free_list@.len() implies s[i]
                    != pre.free_list@[j] by {
                    if s[i] == pre.free_list@[j] {
                        assert(pre.free_list@.contains(s[i]));
                    }
                }
                vstd::seq_lib::lemma_no_dup_in_concat(s, pre.free_list@);
            }
            assert forall|k2: int|
                0 <= k2 < post.free_list@.len() implies (#[trigger] post.free_list@[k2])
                < SIZE by {
                if k2 < s.len() {
                    assert(post.free_list@[k2] == s[k2]);
                } else {
                    assert(post.free_list@[k2] == pre.free_list@[k2 - s.len()]);
                }
            }
            // The shadow table links the new free list in order.
            assert forall|j: int|
                0 <= j < post.free_list@.len() - 1 implies (
            #[trigger] post.desc_shadow@[post.free_list@[j] as int].next) == post.free_list@[j
                + 1] by {
                if j < s.len() - 1 {
                    assert(post.free_list@[j] == s[j]);
                    assert(post.free_list@[j + 1] == s[j + 1]);
                } else if j == s.len() - 1 {
                    assert(post.free_list@[j] == s[j]);
                    assert(post.free_list@[j + 1] == pre.free_list@[0]);
                    assert(post.desc_shadow@[s[j] as int].next == original_free_head);
                } else {
                    assert(post.free_list@[j] == pre.free_list@[j - s.len()]);
                    assert(post.free_list@[j + 1] == pre.free_list@[j - s.len() + 1]);
                    assert(!s.contains(pre.free_list@[j - s.len()])) by {
                        if s.contains(pre.free_list@[j - s.len()]) {
                            let m = choose|m: int|
                                0 <= m < s.len() && s[m] == pre.free_list@[j - s.len()];
                            assert(!pre.free_list@.contains(s[m]));
                            assert(pre.free_list@.contains(pre.free_list@[j - s.len()]));
                        }
                    }
                    assert(!s.take(s.len() as int).contains(pre.free_list@[j - s.len()])) by {
                        assert(s.take(s.len() as int) =~= s);
                    }
                    assert(post.desc_shadow@[pre.free_list@[j - s.len()] as int]
                        == pre.desc_shadow@[pre.free_list@[j - s.len()] as int]);
                }
            }
            // Remaining chains are untouched.
            assert forall|t: u16| #[trigger] post.chains@.contains_key(t) implies post.chain_wf(
                t,
            ) by {
                assert(t != head);
                assert(pre.chains@.contains_key(t));
                assert(pre.chain_wf(t));
                let c = pre.chains@[t];
                assert forall|j: int| 0 <= j < c.len() implies (#[trigger] post.desc_shadow@[c[j] as int])
                    == pre.desc_shadow@[c[j] as int] by {
                    assert(!s.contains(c[j])) by {
                        if s.contains(c[j]) {
                            let m = choose|m: int| 0 <= m < s.len() && s[m] == c[j];
                            pre.lemma_slot_owned_once(t, head, c[j]);
                        }
                    }
                    assert(!s.take(s.len() as int).contains(c[j])) by {
                        assert(s.take(s.len() as int) =~= s);
                    }
                }
                assert forall|j: int| 0 <= j < c.len() implies !post.free_list@.contains(
                    #[trigger] c[j],
                ) by {
                    if post.free_list@.contains(c[j]) {
                        let m = choose|m: int|
                            0 <= m < post.free_list@.len() && post.free_list@[m] == c[j];
                        if m < s.len() {
                            assert(s[m] == c[j]);
                            pre.lemma_slot_owned_once(t, head, c[j]);
                        } else {
                            assert(pre.free_list@[m - s.len()] == c[j]);
                            assert(pre.free_list@.contains(c[j]));
                        }
                    }
                }
                assert(post.desc_shadow@[t as int] == pre.desc_shadow@[t as int]) by {
                    assert(c[0] == t);
                }
                assert(post.indirect_lists@[t as int] == pre.indirect_lists@[t as int]) by {
                    assert(t != head);
                }
                assert(post.chain_wf(t));
            }
            assert(post.chains_disjoint()) by {
                assert forall|t1: u16, t2: u16, j: int|
                    post.chains@.contains_key(t1) && post.chains@.contains_key(t2) && t1 != t2 && 0
                        <= j < post.chains@[t1].len() implies !(#[trigger] post.chains@[t2].contains(
                    #[trigger] post.chains@[t1][j],
                )) by {
                    assert(!pre.chains@[t2].contains(pre.chains@[t1][j]));
                }
            }
            assert forall|i: int|
                0 <= i < SIZE && (#[trigger] post.indirect_lists@[i]).is_some() implies post.chains@.contains_key(
                i as u16,
            ) by {
                assert(i != head);
                assert(pre.indirect_lists@[i].is_some());
                assert(pre.chains@.contains_key(i as u16));
            }
            assert(post.free_wf());
            assert(post.wf());
            // Reclaim hygiene: the freed slots were cleared in both
            // tables, and every other slot kept its descriptor.
            assert(s.take(s.len() as int) =~= s);
            assert forall|j: int|
                0 <= j < s.len() implies (#[trigger] post.desc_shadow@[s[j] as int]).addr == 0
                && post.desc_shadow@[s[j] as int].len == 0 && post.desc@[s[j] as int]
                == post.desc_shadow@[s[j] as int] by {
                if pre.desc_shadow@[head as int].flags & DESC_F_INDIRECT != 0 {
                    assert(s[j] == head);
                }
            }
            assert forall|i: int|
                0 <= i < SIZE && !s.contains(i as u16) implies (
            #[trigger] post.desc_shadow@[i]) == pre.desc_shadow@[i] && post.desc@[i]
                == pre.desc@[i] by {
                if pre.desc_shadow@[head as int].flags & DESC_F_INDIRECT != 0 {
                    assert(s[0] == head);
                    assert(i != head);
                }
            }
        }
    }

    /// A copy of the queue with only the free-list head changed; used to
    /// frame loop invariants.
    spec fn with_free_head(self, head: u16) -> Self {
        VirtQueue { free_head: head, ..self }
    }
}


impl<H: Hal, const SIZE: usize> VirtQueue<H, SIZE> {
    /// If the completion at the head of the used ring is for `token`, pops
    /// it: reclaims the chain's descriptors, unshares its buffers (the
    /// device-written contents of the writable ones replace `outputs`),
    /// and returns the byte count the device claims to have written.
    ///
    /// `inputs` and `outputs` must be the buffers the chain was built from
    /// when `add` returned this token.
    pub fn pop_used(&mut self, token: u16, inputs: &[Vec<u8>], outputs: &mut Vec<Vec<u8>>) -> (r:
        Result<u32, Error>)
        requires
            old(self).wf(),
            old(self).spec_chains().contains_key(token),
            old(self).chain_matches_bufs(token, inputs@, old(outputs)@),
            1 <= inputs@.len() + old(outputs)@.len() <= SIZE,
        ensures
            final(self).wf(),
            final(outputs)@.len() == old(outputs)@.len(),
            forall|j: int|
                0 <= j < old(outputs)@.len() ==> (#[trigger] final(outputs)@[j])@.len() == old(
                    outputs,
                )@[j]@.len(),
            match r {
                Err(e) => {
                    &&& *final(self) == *old(self)
                    &&& final(outputs)@ == old(outputs)@
                    &&& (e == Error::NotReady || e == Error::WrongToken)
                    &&& (e == Error::NotReady <==> old(self).spec_last_used_idx() == old(
                        self,
                    ).spec_used_idx())
                    &&& e == Error::WrongToken ==> old(
                        self,
                    ).spec_used_ring()[old(self).spec_last_used_idx() as int % SIZE as int].id
                        != token as u32
                },
                Ok(len) => {
                    &&& old(self).spec_last_used_idx() != old(self).spec_used_idx()
                    &&& old(self).spec_used_ring()[old(self).spec_last_used_idx() as int
                        % SIZE as int].id == token as u32
                    &&& len == old(self).spec_used_ring()[old(self).spec_last_used_idx() as int
                        % SIZE as int].len
                    &&& final(self).spec_free() == old(self).spec_chains()[token] + old(
                        self,
                    ).spec_free()
                    &&& final(self).spec_chains() == old(self).spec_chains().remove(token)
                    &&& final(self).spec_num_used() == old(self).spec_num_used() - old(
                        self,
                    ).spec_chains()[token].len()
                    &&& forall|j: int|
                        #![trigger old(self).spec_chains()[token][j]]
                        0 <= j < old(self).spec_chains()[token].len() ==> {
                            let slot = old(self).spec_chains()[token][j] as int;
                            &&& final(self).spec_desc_shadow()[slot].addr == 0
                            &&& final(self).spec_desc_shadow()[slot].len == 0
                            &&& final(self).spec_desc()[slot]
                                == final(self).spec_desc_shadow()[slot]
                        }
                    &&& forall|i: int|
                        0 <= i < SIZE && !old(self).spec_chains()[token].contains(i as u16)
                            ==> (#[trigger] final(self).spec_desc_shadow()[i]) == old(
                            self,
                        ).spec_desc_shadow()[i] && final(self).spec_desc()[i] == old(
                            self,
                        ).spec_desc()[i]
                    &&& forall|i: int|
                        0 <= i < SIZE && i != token ==> (
                        #[trigger] final(self).spec_indirect_lists()[i]) == old(
                            self,
                        ).spec_indirect_lists()[i]
                    &&& final(self).spec_indirect_lists()[token as int] is None
                    &&& final(self).spec_last_used_idx()
                        == vstd::wrapping::u16_specs::wrapping_add(
                        old(self).spec_last_used_idx(),
                        1,
                    )
                    &&& final(self).spec_used_event() == (if old(self).spec_event_idx() {
                        final(self).spec_last_used_idx()
                    } else {
                        old(self).spec_used_event()
                    })
                    &&& final(self).spec_avail_ring() == old(self).spec_avail_ring()
                    &&& final(self).spec_avail_published_idx() == old(
                        self,
                    ).spec_avail_published_idx()
                    &&& final(self).spec_avail_flags() == old(self).spec_avail_flags()
                    &&& final(self).spec_avail_idx() == old(self).spec_avail_idx()
                    &&& final(self).spec_used_ring() == old(self).spec_used_ring()
                    &&& final(self).spec_used_idx() == old(self).spec_used_idx()
                    &&& final(self).spec_used_flags() == old(self).spec_used_flags()
                    &&& final(self).spec_avail_event() == old(self).spec_avail_event()
                    &&& final(self).spec_event_idx() == old(self).spec_event_idx()
                    &&& final(self).spec_indirect() == old(self).spec_indirect()
                    &&& final(self).spec_queue_idx() == old(self).spec_queue_idx()
                },
            },
    {
        if !self.can_pop() {
            return Err(Error::NotReady);
        }
        // Only the used ring's id and len are trusted, and only after the
        // acquire read of its index that `can_pop` stands for.
        let last_used_slot = self.last_used_idx as usize % SIZE;
        let index = self.used.ring[last_used_slot].id;
        let len = self.used.ring[last_used_slot].len;

        if index != token as u32 {
            // The device completed a different chain than the one the
            // caller expected.
            return Err(Error::WrongToken);
        }

        self.recycle_descriptors(token, inputs, outputs);
        self.last_used_idx = self.last_used_idx.wrapping_add(1);

        if self.event_idx {
            self.avail.used_event = self.last_used_idx;
        }

        Ok(len)
    }

    /// Adds the given buffers to the queue, notifies the device unless it
    /// suppressed notifications, spins until the device uses the chain,
    /// and pops it again. This assumes the device is not processing any
    /// other chain at the same time.
    #[verifier::loop_isolation(false)]
    pub fn add_notify_wait_pop<T: Transport>(
        &mut self,
        inputs: &[Vec<u8>],
        outputs: &mut Vec<Vec<u8>>,
        transport: &mut T,
    ) -> (r: Result<u32, Error>)
        requires
            old(self).wf(),
            inputs@.len() + old(outputs)@.len() <= SIZE,
            forall|k: int| 0 <= k < inputs@.len() ==> 0 < (#[trigger] inputs@[k])@.len() <= u32::MAX,
            forall|k: int|
                0 <= k < old(outputs)@.len() ==> 0 < (#[trigger] old(outputs)@[k])@.len()
                    <= u32::MAX,
        ensures
            final(self).wf(),
            final(outputs)@.len() == old(outputs)@.len(),
            forall|j: int|
                0 <= j < old(outputs)@.len() ==> (#[trigger] final(outputs)@[j])@.len() == old(
                    outputs,
                )@[j]@.len(),
            r is Ok ==> final(self).spec_free() == old(self).spec_free(),
            r is Ok ==> final(self).spec_chains() == old(self).spec_chains(),
            r is Ok ==> final(self).spec_num_used() == old(self).spec_num_used(),
            r == Err::<u32, Error>(Error::InvalidParam) <==> inputs@.len() + old(outputs)@.len()
                == 0,
            r == Err::<u32, Error>(Error::QueueFull) <==> inputs@.len() + old(outputs)@.len() > 0
                && old(self).spec_add_full(inputs@.len() + old(outputs)@.len() as int),
            (r == Err::<u32, Error>(Error::InvalidParam) || r == Err::<u32, Error>(
                Error::QueueFull,
            )) ==> *final(self) == *old(self) && final(outputs)@ == old(outputs)@,
            inputs@.len() + old(outputs)@.len() > 0 && !old(self).spec_add_full(
                inputs@.len() + old(outputs)@.len() as int,
            ) ==> {
                let token = old(self).spec_free()[0];
                let slot = old(self).spec_last_used_idx() as int % SIZE as int;
                &&& (r == Err::<u32, Error>(Error::NotReady) <==> old(self).spec_last_used_idx()
                    == old(self).spec_used_idx())
                &&& (r == Err::<u32, Error>(Error::WrongToken) <==> old(self).spec_last_used_idx()
                    != old(self).spec_used_idx() && old(self).spec_used_ring()[slot].id
                    != token as u32)
                &&& (r is Err ==> Self::spec_added_chain(
                    *old(self),
                    *final(self),
                    token,
                    inputs@,
                    old(outputs)@,
                ) && final(outputs)@ == old(outputs)@ && final(self).spec_last_used_idx() == old(
                    self,
                ).spec_last_used_idx())
                &&& (r is Ok ==> r == Ok::<u32, Error>(old(self).spec_used_ring()[slot].len)
                    && old(self).spec_used_ring()[slot].id == token as u32
                    && final(self).spec_last_used_idx()
                    == vstd::wrapping::u16_specs::wrapping_add(
                        old(self).spec_last_used_idx(),
                        1,
                    ))
                &&& final(self).spec_avail_idx() == vstd::wrapping::u16_specs::wrapping_add(
                    old(self).spec_avail_idx(),
                    1,
                )
                &&& final(self).spec_avail_ring() == old(self).spec_avail_ring().update(
                    old(self).spec_avail_idx() as int % SIZE as int,
                    token,
                )
            },
    {
        let token = match self.add(inputs, outputs.as_slice()) {
            Ok(t) => t,
            Err(e) => {
                return Err(e);
            },
        };
        let ghost added = *self;
        proof {
            assert(old(self).spec_free().take(
                old(self).spec_slots_needed(inputs@.len() + outputs@.len() as int),
            ).len() == old(self).spec_slots_needed(inputs@.len() + outputs@.len() as int));
        }

        // Notify the device.
        if self.should_notify() {
            transport.notify(self.queue_idx);
        }

        // Wait until there is at least one element in the used ring. The
        // spin is bounded only so that the loop has a variant; at any
        // realistic polling rate the bound is centuries away.
        let mut spins: u64 = u64::MAX;
        while spins > 0
            invariant
                inputs@.len() + outputs@.len() >= 1,
                self.wf(),
                *self == added,
                self.spec_chains().contains_key(token),
                self.chain_matches_bufs(token, inputs@, outputs@),
                outputs@ == old(outputs)@,
                // The loop only goes on while the used ring is empty.
                spins < u64::MAX ==> added.spec_last_used_idx() == added.spec_used_idx(),
            decreases spins,
        {
            if self.can_pop() {
                // These are the same buffers as were just added, so the
                // chain they describe matches them.
                let r = self.pop_used(token, inputs, outputs);
                proof {
                    let k = old(self).spec_slots_needed(inputs@.len() + old(outputs)@.len() as int);
                    if r is Ok {
                        assert(!old(self).spec_chains().contains_key(token)) by {
                            if old(self).spec_chains().contains_key(token) {
                                assert(old(self).chain_wf(token));
                                assert(old(self).spec_chains()[token][0] == token);
                                assert(!old(self).spec_free().contains(token));
                                assert(old(self).spec_free()[0] == token);
                            }
                        }
                        assert(self.spec_chains() =~= old(self).spec_chains());
                        assert(added.spec_chains()[token] == old(self).spec_free().take(k));
                        assert(self.spec_free() =~= old(self).spec_free()) by {
                            assert(old(self).spec_free().take(k) + old(self).spec_free().skip(k)
                                =~= old(self).spec_free());
                        }
                    }
                }
                return r;
            }
            spins = spins - 1;
        }
        Err(Error::NotReady)
    }
}


impl<H: Hal, const SIZE: usize> VirtQueue<H, SIZE> {
    /// Releases the queue's DMA regions through the HAL, exactly once,
    /// and consumes the queue; nothing else ever releases them. The
    /// caller should reclaim all in-flight chains first, so that no
    /// buffer stays shared. Returns the first nonzero HAL status, or 0
    /// when every region came back clean.
    pub fn release(self) -> (rc: i32) {
        let VirtQueue { layout, .. } = self;
        match layout {
            VirtQueueLayout::Legacy { dma, .. } => dma.dealloc(),
            VirtQueueLayout::Modern { driver_to_device_dma, device_to_driver_dma, .. } => {
                let rc1 = driver_to_device_dma.dealloc();
                let rc2 = device_to_driver_dma.dealloc();
                if rc1 != 0 {
                    rc1
                } else {
                    rc2
                }
            },
        }
    }
}

} // verus!
