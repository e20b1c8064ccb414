//! The device (host) side of a split virtqueue: the mirror of the driver
//! side that maps in the peer's shared memory, pops available chains and
//! writes completions.
//!
//! The queue owns the ring contents as plain values; the driver's writes
//! to them (publishing descriptors and available entries) enter through
//! the `driver_`-prefixed methods, so everything the device concludes is
//! proved against an arbitrary peer. A descriptor's buffer is never
//! cached across pops without checking that neither its physical address
//! nor its mapping changed: the driver may reuse a slot with a new buffer.

use vstd::prelude::*;

use crate::Error;
use crate::PAGE_SIZE;
use crate::hal::BufferDirection;
use crate::hal::DeviceDma;
use crate::hal::DeviceHal;
use crate::hal::DmaMemory;
use crate::hal::PhysAddr;
use crate::pages;
use crate::queue::AvailRing;
use crate::queue::DESC_F_INDIRECT;
use crate::queue::DESC_F_NEXT;
use crate::queue::DESC_F_WRITE;
use crate::queue::Descriptor;
use crate::queue::UsedElem;
use crate::queue::UsedRing;
use crate::queue::VirtQueueLayout;
use crate::queue::is_desc_chain;
use crate::queue::queue_part_sizes;
use crate::queue::spec_size_ok;
use crate::transport::DeviceTransport;

verus! {

impl<H: DeviceHal> VirtQueueLayout<DeviceDma<H>> {
    /// Maps in a queue laid out the legacy way: all three parts in one
    /// region starting at `paddr`.
    pub fn map_legacy(queue_size: u16, paddr: PhysAddr, client_id: u16) -> (r: Result<Self, Error>)
        ensures
            match r {
                Ok(l) => l is Legacy,
                Err(_) => true,
            },
    {
        let (desc, avail, used) = queue_part_sizes(queue_size);
        let size = crate::align_up(desc + avail) + crate::align_up(used);
        let dma = match DeviceDma::new(paddr, size / PAGE_SIZE, BufferDirection::Both, client_id) {
            Ok(d) => d,
            Err(e) => {
                return Err(e);
            },
        };
        Ok(Self::Legacy { dma, avail_offset: desc, used_offset: crate::align_up(desc + avail) })
    }

    /// Maps in a queue laid out the modern way: the descriptor table and
    /// available ring at `desc_avail_paddr`, the used ring at
    /// `used_paddr`.
    pub fn map_flexible(
        queue_size: u16,
        desc_avail_paddr: PhysAddr,
        used_paddr: PhysAddr,
        client_id: u16,
    ) -> (r: Result<Self, Error>)
        ensures
            match r {
                Ok(l) => l is Modern,
                Err(_) => true,
            },
    {
        let (desc, avail, used) = queue_part_sizes(queue_size);
        let driver_to_device_dma = match DeviceDma::new(
            desc_avail_paddr,
            pages(desc + avail),
            BufferDirection::DriverToDevice,
            client_id,
        ) {
            Ok(d) => d,
            Err(e) => {
                return Err(e);
            },
        };
        let device_to_driver_dma = match DeviceDma::new(
            used_paddr,
            pages(used),
            BufferDirection::DeviceToDriver,
            client_id,
        ) {
            Ok(d) => d,
            Err(e) => {
                return Err(e);
            },
        };
        Ok(Self::Modern { driver_to_device_dma, device_to_driver_dma, avail_offset: desc })
    }
}

/// One descriptor's buffer as currently mapped in: the descriptor as it
/// was read, and the mapping obtained for it. Kept so a pop need not map
/// the same unchanged buffer twice.
pub struct MappedDescriptor<H: DeviceHal> {
    /// The descriptor the mapping was made for.
    pub desc_copy: Descriptor,
    /// The mapping of its buffer.
    pub dma: DeviceDma<H>,
}

impl<H: DeviceHal> MappedDescriptor<H> {
    /// Maps in the buffer a descriptor names, in the direction its flags
    /// call for. A mapping the HAL refuses is reported as a DMA failure.
    fn map_buf(desc_copy: Descriptor, client_id: u16) -> (r: Result<Self, Error>)
        requires
            desc_copy.addr <= usize::MAX as u64,
            desc_copy.len as usize <= usize::MAX - PAGE_SIZE,
        ensures
            match r {
                Ok(m) => m.desc_copy == desc_copy && m.dma.spec_paddr() == desc_copy.addr,
                Err(e) => e == Error::DmaError,
            },
    {
        let direction = if desc_copy.flags & DESC_F_WRITE != 0 {
            BufferDirection::DeviceToDriver
        } else {
            BufferDirection::DriverToDevice
        };
        let dma = match DeviceDma::new(
            desc_copy.addr as usize,
            pages(desc_copy.len as usize),
            direction,
            client_id,
        ) {
            Ok(d) => d,
            Err(_) => {
                return Err(Error::DmaError);
            },
        };
        proof {
            assert(desc_copy.addr as usize as u64 == desc_copy.addr);
        }
        Ok(Self { desc_copy, dma })
    }

    /// Returns whether this mapping still stands for `desc`: the
    /// descriptor is unchanged and the buffer is mapped at the same
    /// addresses. Physical addresses alone do not suffice: a translated
    /// bus address may map to a different place even when the descriptor
    /// looks the same.
    fn still_maps(&self, desc: &Descriptor, other: &DeviceDma<H>) -> (r: bool)
        ensures
            r == (self.desc_copy == *desc && self.dma.spec_paddr() == other.spec_paddr()
                && self.dma.spec_vaddr() == other.spec_vaddr() && self.dma.spec_pages()
                == other.spec_pages()),
    {
        self.desc_copy == *desc && self.dma.same_mapping(other)
    }
}

/// A device-writable buffer of a popped chain, named by the address under
/// which this side has it mapped and its length in bytes.
pub struct WriteBuffer {
    /// Where this side can write the buffer.
    pub vaddr: usize,
    /// The buffer's length in bytes.
    pub len: usize,
}

/// One available chain as popped by the device: the contents of its
/// device-readable buffers, its device-writable buffers, and the head
/// token to return on the used ring.
pub struct DescriptorBuffers {
    /// The contents of the device-readable buffers, in chain order.
    pub read_data: Vec<Vec<u8>>,
    /// The device-writable buffers, in chain order.
    pub write_buffers: Vec<WriteBuffer>,
    /// The chain's head token.
    pub head: u16,
}

/// One split virtqueue, driven from the device (host) side.
///
/// The mapped-in queue regions are unmapped exactly once, by `release`,
/// which consumes the queue. A queue that is simply dropped leaks its
/// mappings: tearing the queue down again is the caller's duty.
pub struct DeviceVirtQueue<H: DeviceHal, const SIZE: usize> {
    /// Where the peer put the three parts, mapped in.
    layout: VirtQueueLayout<DeviceDma<H>>,
    /// The descriptor table, written by the driver; see the
    /// `driver_`-prefixed methods.
    desc: Vec<Descriptor>,
    /// The available ring, written by the driver.
    avail: AvailRing,
    /// The used ring, written by this side.
    used: UsedRing,
    /// The index of this queue on its transport.
    queue_idx: u16,
    /// This side's trusted copy of `avail.idx`: the next entry to pop.
    avail_idx: u16,
    /// The used index this side publishes.
    last_used_idx: u16,
    /// The buffer mappings cached per descriptor slot.
    desc_mapped: Vec<Option<MappedDescriptor<H>>>,
    /// The client id this queue's memory is mapped under.
    client_id: u16,
}

impl<H: DeviceHal, const SIZE: usize> DeviceVirtQueue<H, SIZE> {
    /// The descriptor table as last written by the driver.
    pub closed spec fn spec_desc(&self) -> Seq<Descriptor> {
        self.desc@
    }

    /// The available ring's slots.
    pub closed spec fn spec_avail_ring(&self) -> Seq<u16> {
        self.avail.ring@
    }

    /// The available index as last written by the driver.
    pub closed spec fn spec_avail_idx(&self) -> u16 {
        self.avail.idx
    }

    /// The available ring's suppression flag, as last written by the
    /// driver.
    pub closed spec fn spec_avail_flags(&self) -> u16 {
        self.avail.flags
    }

    /// This side's next entry to pop from the available ring.
    pub closed spec fn spec_next_avail_idx(&self) -> u16 {
        self.avail_idx
    }

    /// The used ring's entries, as written by this side.
    pub closed spec fn spec_used_ring(&self) -> Seq<UsedElem> {
        self.used.ring@
    }

    /// The used index this side publishes.
    pub closed spec fn spec_used_idx(&self) -> u16 {
        self.last_used_idx
    }

    /// The index of this queue on its transport.
    pub closed spec fn spec_queue_idx(&self) -> u16 {
        self.queue_idx
    }

    /// Well-formedness: a legal size and tables of that size.
    pub closed spec fn wf(&self) -> bool {
        &&& spec_size_ok(SIZE as int)
        &&& self.desc@.len() == SIZE
        &&& self.avail.ring@.len() == SIZE
        &&& self.used.ring@.len() == SIZE
        &&& self.desc_mapped@.len() == SIZE
        &&& self.used.idx == self.last_used_idx
    }

    /// Maps in the queue the driver set up on queue slot `idx` of the
    /// transport.
    #[verifier::loop_isolation(false)]
    pub fn new<T: DeviceTransport>(transport: &mut T, idx: u16) -> (r: Result<Self, Error>)
        requires
            spec_size_ok(SIZE as int),
        ensures
            match r {
                Ok(q) => {
                    &&& q.wf()
                    &&& q.spec_next_avail_idx() == 0
                    &&& q.spec_used_idx() == 0
                    &&& q.spec_queue_idx() == idx
                    &&& q.spec_desc() == Seq::new(
                        SIZE as nat,
                        |i: int| Descriptor { addr: 0, len: 0, flags: 0, next: 0 },
                    )
                    &&& q.spec_avail_idx() == 0
                },
                Err(_) => true,
            },
    {
        if transport.max_queue_size(idx) < SIZE as u32 {
            return Err(Error::InvalidParam);
        }
        let client_id = transport.get_client_id();
        let size = SIZE as u16;

        let (paddr, _driver_paddr, used_paddr) = transport.queue_get(idx);

        let layout = if transport.requires_legacy_layout() {
            match VirtQueueLayout::map_legacy(size, paddr, client_id) {
                Ok(l) => l,
                Err(e) => {
                    return Err(e);
                },
            }
        } else {
            match VirtQueueLayout::map_flexible(size, paddr, used_paddr, client_id) {
                Ok(l) => l,
                Err(e) => {
                    return Err(e);
                },
            }
        };

        let mut desc: Vec<Descriptor> = Vec::new();
        let mut avail_ring: Vec<u16> = Vec::new();
        let mut used_ring: Vec<UsedElem> = Vec::new();
        let mut desc_mapped: Vec<Option<MappedDescriptor<H>>> = Vec::new();
        let mut i: usize = 0;
        while i < SIZE
            invariant
                i <= SIZE,
                desc@.len() == i,
                avail_ring@.len() == i,
                used_ring@.len() == i,
                desc_mapped@.len() == i,
                forall|k: int|
                    0 <= k < i ==> (#[trigger] desc@[k]) == (Descriptor {
                        addr: 0,
                        len: 0,
                        flags: 0,
                        next: 0,
                    }),
            decreases SIZE - i,
        {
            desc.push(Descriptor { addr: 0, len: 0, flags: 0, next: 0 });
            avail_ring.push(0);
            used_ring.push(UsedElem { id: 0, len: 0 });
            desc_mapped.push(None);
            i = i + 1;
        }
        let q = DeviceVirtQueue {
            layout,
            desc,
            avail: AvailRing { flags: 0, idx: 0, ring: avail_ring, used_event: 0 },
            used: UsedRing { flags: 0, idx: 0, ring: used_ring, avail_event: 0 },
            queue_idx: idx,
            avail_idx: 0,
            last_used_idx: 0,
            desc_mapped,
            client_id,
        };
        proof {
            assert(q.spec_desc() =~= Seq::new(
                SIZE as nat,
                |k: int| Descriptor { addr: 0, len: 0, flags: 0, next: 0 },
            ));
        }
        Ok(q)
    }

    /// Returns whether the driver has published an entry this side has
    /// not popped yet.
    pub fn can_pop(&self) -> (r: bool)
        ensures
            r == (self.spec_next_avail_idx() != self.spec_avail_idx()),
    {
        self.avail_idx != self.avail.idx
    }

    /// Returns the head token of the next available chain without popping
    /// it, or `None` if the ring is empty.
    pub fn peek_avail(&self) -> (r: Option<u16>)
        requires
            self.wf(),
        ensures
            r == if self.spec_next_avail_idx() != self.spec_avail_idx() {
                Some(self.spec_avail_ring()[self.spec_next_avail_idx() as int % SIZE as int])
            } else {
                None::<u16>
            },
    {
        if self.can_pop() {
            let avail_slot = self.avail_idx as usize % SIZE;
            Some(self.avail.ring[avail_slot])
        } else {
            None
        }
    }

    /// Returns whether this side should notify the driver after returning
    /// a chain: the driver's flag bit rules on this side.
    pub fn should_notify(&self) -> (r: bool)
        ensures
            r == (self.spec_avail_flags() & 1 == 0),
    {
        self.avail.flags & 1 == 0
    }

    /// Writes one completion to the used ring: the chain at `head` is
    /// done and `head_len` bytes were written to its buffers. On real
    /// shared memory a barrier orders the entry before the index store.
    pub fn add_used(&mut self, head: u16, head_len: usize)
        requires
            old(self).wf(),
            head_len <= u32::MAX,
        ensures
            final(self).wf(),
            final(self).spec_used_ring() == old(self).spec_used_ring().update(
                old(self).spec_used_idx() as int % SIZE as int,
                UsedElem { id: head as u32, len: head_len as u32 },
            ),
            final(self).spec_used_idx() == vstd::wrapping::u16_specs::wrapping_add(
                old(self).spec_used_idx(),
                1,
            ),
            final(self).spec_desc() == old(self).spec_desc(),
            final(self).spec_avail_ring() == old(self).spec_avail_ring(),
            final(self).spec_avail_idx() == old(self).spec_avail_idx(),
            final(self).spec_avail_flags() == old(self).spec_avail_flags(),
            final(self).spec_next_avail_idx() == old(self).spec_next_avail_idx(),
            final(self).spec_queue_idx() == old(self).spec_queue_idx(),
    {
        let last_used_slot = self.last_used_idx as usize % SIZE;
        self.used.ring.set(last_used_slot, UsedElem { id: head as u32, len: head_len as u32 });
        self.last_used_idx = self.last_used_idx.wrapping_add(1);
        self.used.idx = self.last_used_idx;
    }

    /// The driver writes one descriptor of the table: the model of the
    /// peer publishing a buffer.
    pub fn driver_write_desc(&mut self, i: usize, d: Descriptor)
        requires
            old(self).wf(),
            i < SIZE,
        ensures
            final(self).wf(),
            final(self).spec_desc() == old(self).spec_desc().update(i as int, d),
            final(self).spec_avail_ring() == old(self).spec_avail_ring(),
            final(self).spec_avail_idx() == old(self).spec_avail_idx(),
            final(self).spec_avail_flags() == old(self).spec_avail_flags(),
            final(self).spec_next_avail_idx() == old(self).spec_next_avail_idx(),
            final(self).spec_used_ring() == old(self).spec_used_ring(),
            final(self).spec_used_idx() == old(self).spec_used_idx(),
            final(self).spec_queue_idx() == old(self).spec_queue_idx(),
    {
        self.desc.set(i, d);
    }

    /// The driver publishes a chain head in the available ring and
    /// advances the available index.
    pub fn driver_publish_avail(&mut self, head: u16)
        requires
            old(self).wf(),
        ensures
            final(self).wf(),
            final(self).spec_avail_ring() == old(self).spec_avail_ring().update(
                old(self).spec_avail_idx() as int % SIZE as int,
                head,
            ),
            final(self).spec_avail_idx() == vstd::wrapping::u16_specs::wrapping_add(
                old(self).spec_avail_idx(),
                1,
            ),
            final(self).spec_desc() == old(self).spec_desc(),
            final(self).spec_avail_flags() == old(self).spec_avail_flags(),
            final(self).spec_next_avail_idx() == old(self).spec_next_avail_idx(),
            final(self).spec_used_ring() == old(self).spec_used_ring(),
            final(self).spec_used_idx() == old(self).spec_used_idx(),
            final(self).spec_queue_idx() == old(self).spec_queue_idx(),
    {
        let slot = self.avail.idx as usize % SIZE;
        self.avail.ring.set(slot, head);
        self.avail.idx = self.avail.idx.wrapping_add(1);
    }

    /// The driver suppresses or allows device notifications by writing
    /// the available ring's flag word.
    pub fn driver_set_avail_flags(&mut self, flags: u16)
        requires
            old(self).wf(),
        ensures
            final(self).wf(),
            final(self).spec_avail_flags() == flags,
            final(self).spec_desc() == old(self).spec_desc(),
            final(self).spec_avail_ring() == old(self).spec_avail_ring(),
            final(self).spec_avail_idx() == old(self).spec_avail_idx(),
            final(self).spec_next_avail_idx() == old(self).spec_next_avail_idx(),
            final(self).spec_used_ring() == old(self).spec_used_ring(),
            final(self).spec_used_idx() == old(self).spec_used_idx(),
            final(self).spec_queue_idx() == old(self).spec_queue_idx(),
    {
        self.avail.flags = flags;
    }

    /// The driver reads one completion from the used ring.
    pub fn driver_read_used(&self, slot: usize) -> (r: UsedElem)
        requires
            self.wf(),
            slot < SIZE,
        ensures
            r == self.spec_used_ring()[slot as int],
    {
        self.used.ring[slot]
    }

    /// The driver reads the published used index.
    pub fn driver_read_used_idx(&self) -> (r: u16)
        requires
            self.wf(),
        ensures
            r == self.spec_used_idx(),
    {
        self.used.idx
    }
}


/// The first way the chain starting at `head` breaks the protocol, in
/// the order the walk meets it, or `None` for a well-formed chain: a
/// chain longer than the table (it must repeat a slot) or one naming an
/// indirect descriptor, a readable buffer after a writable one, or a
/// buffer too large to map is refused as an invalid descriptor; a link
/// outside the table as a wrong token. `seen_write` carries whether a
/// writable buffer came earlier; `fuel` is the table size at the top
/// call.
pub open spec fn first_flaw(
    descs: Seq<Descriptor>,
    head: u16,
    seen_write: bool,
    fuel: nat,
) -> Option<Error>
    decreases fuel,
{
    if fuel == 0 {
        Some(Error::InvalidDescriptor)
    } else if head >= descs.len() {
        Some(Error::WrongToken)
    } else {
        let d = descs[head as int];
        if d.flags & DESC_F_INDIRECT != 0 {
            Some(Error::InvalidDescriptor)
        } else if d.flags & DESC_F_WRITE == 0 && seen_write {
            Some(Error::InvalidDescriptor)
        } else if d.addr > usize::MAX as u64 || d.len as usize > usize::MAX - PAGE_SIZE {
            Some(Error::InvalidDescriptor)
        } else if d.flags & DESC_F_NEXT != 0 {
            first_flaw(descs, d.next, seen_write || d.flags & DESC_F_WRITE != 0, (fuel - 1) as nat)
        } else {
            None
        }
    }
}

/// The device-readable buffers read so far match the walked chain: their
/// descriptors are not device-writable and their contents have the
/// descriptors\' lengths.
pub open spec fn walk_reads_ok(descs: Seq<Descriptor>, s: Seq<u16>, reads: Seq<Vec<u8>>) -> bool {
    &&& forall|j: int|
        0 <= j < reads.len() ==> descs[(#[trigger] s[j]) as int].flags & DESC_F_WRITE == 0
    &&& forall|j: int|
        0 <= j < reads.len() ==> (#[trigger] reads[j])@.len() == descs[s[j] as int].len
}

/// The device-writable buffers collected so far match the walked chain:
/// their descriptors are device-writable and their lengths are the
/// descriptors\'.
pub open spec fn walk_writes_ok(
    descs: Seq<Descriptor>,
    s: Seq<u16>,
    nreads: int,
    writes: Seq<WriteBuffer>,
) -> bool {
    &&& forall|j: int|
        nreads <= j < nreads + writes.len() ==> descs[(#[trigger] s[j]) as int].flags
            & DESC_F_WRITE != 0
    &&& forall|j: int|
        0 <= j < writes.len() ==> (#[trigger] writes[j]).len == descs[s[nreads + j] as int].len
            && writes[j].len <= u32::MAX
}

/// What a successful pop handed out: some well-linked chain in the
/// table `descs`, starting at `db.head`, whose device-readable buffers
/// (all of which precede the device-writable ones) were read into
/// `read_data` and whose device-writable buffers are `write_buffers`,
/// with the lengths the descriptors gave.
pub open spec fn popped_chain(descs: Seq<Descriptor>, db: DescriptorBuffers) -> bool {
    exists|s: Seq<u16>|
        {
            &&& #[trigger] is_desc_chain(descs, s)
            &&& s[0] == db.head
            &&& s.len() == db.read_data@.len() + db.write_buffers@.len()
            &&& walk_reads_ok(descs, s, db.read_data@)
            &&& walk_writes_ok(descs, s, db.read_data@.len() as int, db.write_buffers@)
        }
}

/// The concatenation of a sequence of byte buffers, in order.
pub open spec fn spec_concat(bufs: Seq<Vec<u8>>) -> Seq<u8>
    decreases bufs.len(),
{
    if bufs.len() == 0 {
        Seq::<u8>::empty()
    } else {
        spec_concat(bufs.drop_last()) + bufs.last()@
    }
}

/// No prefix of a buffer sequence concatenates to more bytes than the
/// whole of it.
proof fn lemma_concat_prefix_le(bufs: Seq<Vec<u8>>, j: int)
    requires
        0 <= j <= bufs.len(),
    ensures
        spec_concat(bufs.take(j)).len() <= spec_concat(bufs).len(),
    decreases bufs.len() - j,
{
    if j == bufs.len() {
        assert(bufs.take(j) =~= bufs);
    } else {
        assert(bufs.take(j + 1).drop_last() =~= bufs.take(j));
        assert(bufs.take(j + 1).last() == bufs[j]);
        lemma_concat_prefix_le(bufs, j + 1);
    }
}

impl<H: DeviceHal, const SIZE: usize> DeviceVirtQueue<H, SIZE> {

    /// Pops one chain from the available ring, if the driver published
    /// one: walks it through the driver's descriptor table, maps each
    /// buffer in (reusing a cached mapping only when neither the
    /// descriptor nor the mapping changed), reads the device-readable
    /// buffers and hands the device-writable ones out.
    ///
    /// A chain that mixes reads after writes, marks a descriptor
    /// indirect, or runs longer than the table is a protocol violation
    /// and is refused as `InvalidDescriptor`; a link outside the table is
    /// refused as `WrongToken`.
    #[verifier::loop_isolation(false)]
    #[verifier::rlimit(100)]
    #[verifier::spinoff_prover]
    pub fn pop_avail(&mut self) -> (r: Result<Option<DescriptorBuffers>, Error>)
        requires
            old(self).wf(),
        ensures
            final(self).wf(),
            final(self).spec_desc() == old(self).spec_desc(),
            final(self).spec_avail_ring() == old(self).spec_avail_ring(),
            final(self).spec_avail_idx() == old(self).spec_avail_idx(),
            final(self).spec_avail_flags() == old(self).spec_avail_flags(),
            final(self).spec_used_ring() == old(self).spec_used_ring(),
            final(self).spec_used_idx() == old(self).spec_used_idx(),
            final(self).spec_queue_idx() == old(self).spec_queue_idx(),
            match r {
                Ok(Some(db)) => {
                    &&& old(self).spec_next_avail_idx() != old(self).spec_avail_idx()
                    &&& db.head == old(self).spec_avail_ring()[old(
                        self,
                    ).spec_next_avail_idx() as int % SIZE as int]
                    &&& final(self).spec_next_avail_idx()
                        == vstd::wrapping::u16_specs::wrapping_add(
                        old(self).spec_next_avail_idx(),
                        1,
                    )
                    &&& popped_chain(final(self).spec_desc(), db)
                    &&& forall|j: int|
                        0 <= j < db.write_buffers@.len() ==> (
                        #[trigger] db.write_buffers@[j]).len <= u32::MAX
                },
                Ok(None) => old(self).spec_next_avail_idx() == old(self).spec_avail_idx()
                    && final(self).spec_next_avail_idx() == old(self).spec_next_avail_idx(),
                Err(_) => final(self).spec_next_avail_idx() == old(self).spec_next_avail_idx(),
            },
            old(self).spec_next_avail_idx() == old(self).spec_avail_idx() ==> r == Ok::<
                Option<DescriptorBuffers>,
                Error,
            >(None),
            r is Err ==> r == Err::<Option<DescriptorBuffers>, Error>(Error::WrongToken) || r
                == Err::<Option<DescriptorBuffers>, Error>(Error::InvalidDescriptor) || r
                == Err::<Option<DescriptorBuffers>, Error>(Error::DmaError),
            old(self).spec_next_avail_idx() != old(self).spec_avail_idx() ==> match first_flaw(
                old(self).spec_desc(),
                old(self).spec_avail_ring()[old(self).spec_next_avail_idx() as int % SIZE as int],
                false,
                SIZE as nat,
            ) {
                Some(e) => r is Err && (r == Err::<Option<DescriptorBuffers>, Error>(e) || r
                    == Err::<Option<DescriptorBuffers>, Error>(Error::DmaError)),
                None => r matches Ok(Some(_)) || r == Err::<Option<DescriptorBuffers>, Error>(
                    Error::DmaError,
                ),
            },
    {
        let head = match self.peek_avail() {
            Some(h) => h,
            None => {
                return Ok(None);
            },
        };
        let mut read_data: Vec<Vec<u8>> = Vec::new();
        let mut write_buffers: Vec<WriteBuffer> = Vec::new();
        let ghost mut visited: Seq<u16> = Seq::empty();
        let mut next_token: Option<u16> = Some(head);
        let mut steps: usize = 0;
        while next_token.is_some()
            invariant
                steps <= SIZE,
                self.wf(),
                self.desc@ == old(self).desc@,
                self.avail == old(self).avail,
                self.used == old(self).used,
                self.queue_idx == old(self).queue_idx,
                self.client_id == old(self).client_id,
                self.avail_idx == old(self).avail_idx,
                self.last_used_idx == old(self).last_used_idx,
                visited.len() == read_data@.len() + write_buffers@.len(),
                visited.len() == steps,
                visited.len() > 0 ==> visited[0] == head,
                forall|k: int| 0 <= k < visited.len() ==> (#[trigger] visited[k]) < SIZE,
                forall|k: int|
                    0 <= k < visited.len() - 1 ==> (
                    #[trigger] old(self).desc@[visited[k] as int].flags) & DESC_F_NEXT != 0
                        && old(self).desc@[visited[k] as int].next == visited[k + 1],
                next_token is Some ==> (visited.len() == 0 ==> next_token == Some(head)),
                next_token is Some ==> (visited.len() > 0
                    ==> old(self).desc@[visited.last() as int].flags & DESC_F_NEXT != 0
                    && old(self).desc@[visited.last() as int].next == next_token.unwrap()),
                next_token is None ==> visited.len() > 0 && old(self).desc@[visited.last() as int].flags
                    & DESC_F_NEXT == 0,
                walk_reads_ok(old(self).desc@, visited, read_data@),
                walk_writes_ok(old(self).desc@, visited, read_data@.len() as int, write_buffers@),
                first_flaw(old(self).desc@, head, false, SIZE as nat) == (match next_token {
                    Some(t) => first_flaw(
                        old(self).desc@,
                        t,
                        write_buffers@.len() > 0,
                        (SIZE - steps) as nat,
                    ),
                    None => None::<Error>,
                }),
            decreases SIZE - steps,
        {
            let token = match next_token {
                Some(t) => t,
                None => {
                    proof {
                        assert(false);
                    }
                    0
                },
            };
            let ghost fuel = (SIZE - steps) as nat;
            if steps >= SIZE {
                // A chain longer than the table must repeat a slot: the
                // driver broke the protocol.
                return Err(Error::InvalidDescriptor);
            }
            if token as usize >= SIZE {
                return Err(Error::WrongToken);
            }
            let desc = self.desc[token as usize];
            if desc.flags & DESC_F_INDIRECT != 0 {
                // Indirect descriptors are not supported on this side.
                return Err(Error::InvalidDescriptor);
            }
            let write = desc.flags & DESC_F_WRITE != 0;
            // All device-readable buffers must precede the writable ones.
            if !write && write_buffers.len() > 0 {
                return Err(Error::InvalidDescriptor);
            }
            // A buffer the mapping arithmetic cannot even represent is a
            // protocol violation too.
            if desc.addr > usize::MAX as u64 {
                return Err(Error::InvalidDescriptor);
            }
            if desc.len as usize > usize::MAX - PAGE_SIZE {
                return Err(Error::InvalidDescriptor);
            }
            next_token = if desc.flags & DESC_F_NEXT != 0 {
                Some(desc.next)
            } else {
                None
            };
            // Map the buffer in, reusing the cached mapping only when
            // neither the descriptor nor the mapping changed.
            let new_mapping = match MappedDescriptor::map_buf(desc, self.client_id) {
                Ok(m) => m,
                Err(e) => {
                    return Err(e);
                },
            };
            let keep_old = match &self.desc_mapped[token as usize] {
                Some(prev) => prev.still_maps(&desc, &new_mapping.dma),
                None => false,
            };
            if !keep_old {
                self.desc_mapped.set(token as usize, Some(new_mapping));
            }
            let vaddr: usize;
            match &self.desc_mapped[token as usize] {
                Some(m) => {
                    vaddr = m.dma.vaddr();
                },
                None => {
                    proof {
                        assert(false);
                    }
                    vaddr = 0;
                },
            }
            let ghost visited_pre = visited;
            let ghost reads_pre = read_data@;
            let ghost writes_pre = write_buffers@;
            if write {
                write_buffers.push(WriteBuffer { vaddr, len: desc.len as usize });
            } else {
                read_data.push(H::read_mapped(vaddr, desc.len as usize));
            }
            proof {
                visited = visited.push(token);
                assert(visited.last() == token);
                assert(visited[visited.len() - 1] == token);
                assert(old(self).desc@[token as int] == desc);
                assert forall|k2: int|
                    0 <= k2 < visited.len() - 1 implies (
                #[trigger] old(self).desc@[visited[k2] as int].flags) & DESC_F_NEXT != 0
                    && old(self).desc@[visited[k2] as int].next == visited[k2 + 1] by {
                    assert(visited[k2] == visited_pre[k2]);
                    if k2 < visited_pre.len() - 1 {
                        assert(visited[k2 + 1] == visited_pre[k2 + 1]);
                    } else {
                        assert(visited[k2 + 1] == token);
                        assert(visited_pre.last() == visited_pre[k2]);
                    }
                }
                assert forall|j: int|
                    0 <= j < read_data@.len() implies old(self).desc@[(
                #[trigger] visited[j]) as int].flags & DESC_F_WRITE == 0 by {
                    if j < reads_pre.len() {
                        assert(visited[j] == visited_pre[j]);
                        assert(walk_reads_ok(old(self).desc@, visited_pre, reads_pre));
                        assert(old(self).desc@[visited_pre[j] as int].flags & DESC_F_WRITE == 0);
                    } else {
                        assert(!write);
                        assert(visited[j] == token);
                    }
                }
                assert forall|j: int|
                    0 <= j < read_data@.len() implies (#[trigger] read_data@[j])@.len() == old(
                    self,
                ).desc@[visited[j] as int].len by {
                    if j < reads_pre.len() {
                        assert(visited[j] == visited_pre[j]);
                        assert(read_data@[j] == reads_pre[j]);
                        assert(walk_reads_ok(old(self).desc@, visited_pre, reads_pre));
                        assert(reads_pre[j]@.len() == old(self).desc@[visited_pre[j] as int].len);
                    } else {
                        assert(!write);
                        assert(visited[j] == token);
                    }
                }
                assert(walk_reads_ok(old(self).desc@, visited, read_data@));
                assert forall|j: int|
                    read_data@.len() <= j < read_data@.len() + write_buffers@.len() implies old(
                    self,
                ).desc@[(#[trigger] visited[j]) as int].flags & DESC_F_WRITE != 0 by {
                    if j < visited_pre.len() {
                        assert(visited[j] == visited_pre[j]);
                        assert(walk_writes_ok(
                            old(self).desc@,
                            visited_pre,
                            reads_pre.len() as int,
                            writes_pre,
                        ));
                        assert(old(self).desc@[visited_pre[j] as int].flags & DESC_F_WRITE != 0);
                    } else {
                        assert(write);
                        assert(visited[j] == token);
                    }
                }
                assert forall|j: int|
                    0 <= j < write_buffers@.len() implies (#[trigger] write_buffers@[j]).len
                    == old(self).desc@[visited[read_data@.len() + j] as int].len
                    && write_buffers@[j].len <= u32::MAX by {
                    if j < writes_pre.len() {
                        assert(visited[read_data@.len() + j] == visited_pre[reads_pre.len() + j]);
                        assert(write_buffers@[j] == writes_pre[j]);
                        assert(walk_writes_ok(
                            old(self).desc@,
                            visited_pre,
                            reads_pre.len() as int,
                            writes_pre,
                        ));
                        assert(writes_pre[j].len == old(self).desc@[visited_pre[reads_pre.len()
                            + j] as int].len);
                    } else {
                        assert(write);
                        assert(read_data@.len() + j == visited.len() - 1);
                        assert(visited[read_data@.len() + j] == token);
                    }
                }
                assert(walk_writes_ok(
                    old(self).desc@,
                    visited,
                    read_data@.len() as int,
                    write_buffers@,
                ));
            }
            steps = steps + 1;
        }
        self.avail_idx = self.avail_idx.wrapping_add(1);
        let db = DescriptorBuffers { read_data, write_buffers, head };
        proof {
            assert(self.spec_desc() == old(self).desc@);
            assert(is_desc_chain(old(self).desc@, visited));
            assert(is_desc_chain(self.spec_desc(), visited));
            assert(visited[0] == head);
            assert(walk_reads_ok(old(self).desc@, visited, db.read_data@));
            assert(walk_reads_ok(self.spec_desc(), visited, db.read_data@));
            assert(walk_writes_ok(
                old(self).desc@,
                visited,
                db.read_data@.len() as int,
                db.write_buffers@,
            ));
            assert(walk_writes_ok(
                self.spec_desc(),
                visited,
                db.read_data@.len() as int,
                db.write_buffers@,
            ));
            assert(popped_chain(self.spec_desc(), db));
            assert forall|j: int|
                0 <= j < db.write_buffers@.len() implies (#[trigger] db.write_buffers@[j]).len
                <= u32::MAX by {
                assert(walk_writes_ok(
                    self.spec_desc(),
                    visited,
                    db.read_data@.len() as int,
                    db.write_buffers@,
                ));
            }
        }
        Ok(Some(db))
    }

}


impl<H: DeviceHal, const SIZE: usize> DeviceVirtQueue<H, SIZE> {
    /// Polls the available ring once: pops a chain of device-readable
    /// buffers, returns their concatenated contents, and completes the
    /// chain on the used ring with length zero. A chain with writable
    /// buffers is refused as `Unsupported`; mixed chains are a design
    /// limitation of this side.
    #[verifier::loop_isolation(false)]
    pub fn poll<T: DeviceTransport>(&mut self, transport: &mut T) -> (r: Result<
        Option<Vec<u8>>,
        Error,
    >)
        requires
            old(self).wf(),
        ensures
            final(self).wf(),
            final(self).spec_desc() == old(self).spec_desc(),
            final(self).spec_avail_ring() == old(self).spec_avail_ring(),
            final(self).spec_avail_idx() == old(self).spec_avail_idx(),
            final(self).spec_queue_idx() == old(self).spec_queue_idx(),
            match r {
                Ok(Some(data)) => {
                    &&& old(self).spec_next_avail_idx() != old(self).spec_avail_idx()
                    &&& final(self).spec_next_avail_idx()
                        == vstd::wrapping::u16_specs::wrapping_add(
                        old(self).spec_next_avail_idx(),
                        1,
                    )
                    &&& final(self).spec_used_ring() == old(self).spec_used_ring().update(
                        old(self).spec_used_idx() as int % SIZE as int,
                        UsedElem {
                            id: old(self).spec_avail_ring()[old(
                                self,
                            ).spec_next_avail_idx() as int % SIZE as int] as u32,
                            len: 0,
                        },
                    )
                    &&& final(self).spec_used_idx() == vstd::wrapping::u16_specs::wrapping_add(
                        old(self).spec_used_idx(),
                        1,
                    )
                },
                Ok(None) => old(self).spec_next_avail_idx() == old(self).spec_avail_idx()
                    && final(self).spec_used_ring() == old(self).spec_used_ring(),
                Err(_) => true,
            },
            old(self).spec_next_avail_idx() == old(self).spec_avail_idx() ==> r == Ok::<
                Option<Vec<u8>>,
                Error,
            >(None),
            r matches Ok(Some(data)) ==> exists|db: DescriptorBuffers|
                {
                    &&& #[trigger] popped_chain(final(self).spec_desc(), db)
                    &&& db.head == old(self).spec_avail_ring()[old(
                        self,
                    ).spec_next_avail_idx() as int % SIZE as int]
                    &&& db.write_buffers@.len() == 0
                    &&& data@ == spec_concat(db.read_data@)
                },
            r == Err::<Option<Vec<u8>>, Error>(Error::Unsupported) ==> exists|
                db: DescriptorBuffers,
            |
                {
                    &&& #[trigger] popped_chain(final(self).spec_desc(), db)
                    &&& db.head == old(self).spec_avail_ring()[old(
                        self,
                    ).spec_next_avail_idx() as int % SIZE as int]
                    &&& db.write_buffers@.len() > 0
                },
            r is Err ==> final(self).spec_used_ring() == old(self).spec_used_ring()
                && final(self).spec_used_idx() == old(self).spec_used_idx(),
            r is Err ==> r == Err::<Option<Vec<u8>>, Error>(Error::WrongToken) || r == Err::<
                Option<Vec<u8>>,
                Error,
            >(Error::InvalidDescriptor) || r == Err::<Option<Vec<u8>>, Error>(Error::DmaError)
                || r == Err::<Option<Vec<u8>>, Error>(Error::Unsupported),
    {
        let popped = match self.pop_avail() {
            Ok(Some(p)) => p,
            Ok(None) => {
                return Ok(None);
            },
            Err(e) => {
                return Err(e);
            },
        };
        let ghost gdb = popped;
        // A mix of read and write buffers is not supported here.
        if popped.write_buffers.len() > 0 {
            return Err(Error::Unsupported);
        }
        let mut tmp: Vec<u8> = Vec::new();
        let mut i: usize = 0;
        while i < popped.read_data.len()
            invariant
                i <= popped.read_data@.len(),
                tmp@ == spec_concat(popped.read_data@.take(i as int)),
            decreases popped.read_data@.len() - i,
        {
            tmp.extend_from_slice(popped.read_data[i].as_slice());
            i = i + 1;
            proof {
                assert(popped.read_data@.take(i as int).drop_last() =~= popped.read_data@.take(
                    i - 1,
                ));
                assert(popped.read_data@.take(i as int).last() == popped.read_data@[i - 1]);
            }
        }
        proof {
            assert(popped.read_data@.take(popped.read_data@.len() as int) =~= popped.read_data@);
        }
        self.add_used(popped.head, 0);
        if self.should_notify() {
            transport.notify(self.queue_idx);
        }
        proof {
            assert(popped_chain(self.spec_desc(), gdb));
        }
        Ok(Some(tmp))
    }

    /// Waits until the driver offers a chain of device-writable buffers,
    /// copies `inputs` into the first of them, and completes the chain on
    /// the used ring with the copied length. A chain without a writable
    /// buffer is refused as `NotReady`, one that also has readable
    /// buffers as `Unsupported`, and one whose first writable buffer is
    /// too small for `inputs` as `InvalidDescriptor`.
    #[verifier::loop_isolation(false)]
    pub fn wait_pop_add_notify<T: DeviceTransport>(
        &mut self,
        inputs: &[Vec<u8>],
        transport: &mut T,
    ) -> (r: Result<(), Error>)
        requires
            old(self).wf(),
        ensures
            final(self).wf(),
            final(self).spec_desc() == old(self).spec_desc(),
            final(self).spec_avail_ring() == old(self).spec_avail_ring(),
            final(self).spec_avail_idx() == old(self).spec_avail_idx(),
            final(self).spec_queue_idx() == old(self).spec_queue_idx(),
            r is Err ==> final(self).spec_used_ring() == old(self).spec_used_ring()
                && final(self).spec_used_idx() == old(self).spec_used_idx(),
            old(self).spec_next_avail_idx() == old(self).spec_avail_idx() ==> r == Err::<
                (),
                Error,
            >(Error::NotReady) && *final(self) == *old(self),
            old(self).spec_next_avail_idx() != old(self).spec_avail_idx() ==> match first_flaw(
                old(self).spec_desc(),
                old(self).spec_avail_ring()[old(self).spec_next_avail_idx() as int % SIZE as int],
                false,
                SIZE as nat,
            ) {
                Some(e) => r is Err && (r == Err::<(), Error>(e) || r == Err::<(), Error>(
                    Error::DmaError,
                )),
                None => r == Err::<(), Error>(Error::DmaError) || exists|db: DescriptorBuffers|
                    {
                        &&& #[trigger] popped_chain(old(self).spec_desc(), db)
                        &&& db.head == old(self).spec_avail_ring()[old(
                            self,
                        ).spec_next_avail_idx() as int % SIZE as int]
                        &&& final(self).spec_next_avail_idx()
                            == vstd::wrapping::u16_specs::wrapping_add(
                            old(self).spec_next_avail_idx(),
                            1,
                        )
                        &&& if db.write_buffers@.len() == 0 {
                            r == Err::<(), Error>(Error::NotReady)
                        } else if db.read_data@.len() > 0 {
                            r == Err::<(), Error>(Error::Unsupported)
                        } else if spec_concat(inputs@).len() > db.write_buffers@[0].len {
                            r == Err::<(), Error>(Error::InvalidDescriptor)
                        } else {
                            &&& r == Ok::<(), Error>(())
                            &&& final(self).spec_used_ring() == old(
                                self,
                            ).spec_used_ring().update(
                                old(self).spec_used_idx() as int % SIZE as int,
                                UsedElem {
                                    id: db.head as u32,
                                    len: spec_concat(inputs@).len() as u32,
                                },
                            )
                            &&& final(self).spec_used_idx()
                                == vstd::wrapping::u16_specs::wrapping_add(
                                old(self).spec_used_idx(),
                                1,
                            )
                        }
                    },
            },
    {
        // The spin is bounded only so that the loop has a variant; at any
        // realistic polling rate the bound is centuries away.
        let mut spins: u64 = u64::MAX;
        while spins > 0
            invariant
                *self == *old(self),
                // The loop only goes on while the available ring is
                // empty.
                spins < u64::MAX ==> old(self).spec_next_avail_idx() == old(
                    self,
                ).spec_avail_idx(),
            decreases spins,
        {
            if self.can_pop() {
                let popped = match self.pop_avail() {
                    Ok(Some(p)) => p,
                    Ok(None) => {
                        proof {
                            assert(false);
                        }
                        return Err(Error::NotReady);
                    },
                    Err(e) => {
                        return Err(e);
                    },
                };
                let ghost gdb = popped;
                proof {
                    assert(popped_chain(old(self).spec_desc(), gdb));
                }
                // If there is no write buffer, the peer is not ready to
                // receive.
                if popped.write_buffers.len() == 0 {
                    return Err(Error::NotReady);
                }
                // A mix of read and write buffers is not supported here.
                if popped.read_data.len() > 0 {
                    return Err(Error::Unsupported);
                }
                let out_vaddr = popped.write_buffers[0].vaddr;
                let out_len = popped.write_buffers[0].len;
                let mut copied: usize = 0;
                let mut i: usize = 0;
                while i < inputs.len()
                    invariant
                        copied <= out_len,
                        out_len <= u32::MAX,
                        i <= inputs@.len(),
                        copied == spec_concat(inputs@.take(i as int)).len(),
                    decreases inputs@.len() - i,
                {
                    let in_buf = &inputs[i];
                    proof {
                        assert(inputs@.take(i + 1).drop_last() =~= inputs@.take(i as int));
                        assert(inputs@.take(i + 1).last() == inputs@[i as int]);
                    }
                    if in_buf.len() > out_len - copied {
                        // The driver's buffer cannot take the message.
                        proof {
                            lemma_concat_prefix_le(inputs@, i + 1);
                        }
                        return Err(Error::InvalidDescriptor);
                    }
                    H::write_mapped(out_vaddr.wrapping_add(copied), in_buf.as_slice());
                    copied = copied + in_buf.len();
                    i = i + 1;
                }
                proof {
                    assert(inputs@.take(inputs@.len() as int) =~= inputs@);
                }
                // Return the chain by completing it with the copied
                // length.
                self.add_used(popped.head, copied);
                if self.should_notify() {
                    transport.notify(self.queue_idx);
                }
                return Ok(());
            }
            spins = spins - 1;
        }
        Err(Error::NotReady)
    }
}


impl<H: DeviceHal, const SIZE: usize> DeviceVirtQueue<H, SIZE> {
    /// Unmaps the queue's regions through the HAL, exactly once, and
    /// consumes the queue; nothing else ever unmaps them. Buffer mappings
    /// still cached per descriptor slot are the peer's memory and carry
    /// no allocation of ours. Returns the first nonzero HAL status, or 0
    /// when every region came back clean.
    pub fn release(self) -> (rc: i32) {
        let DeviceVirtQueue { layout, .. } = self;
        match layout {
            VirtQueueLayout::Legacy { dma, .. } => dma.unmap(),
            VirtQueueLayout::Modern { driver_to_device_dma, device_to_driver_dma, .. } => {
                let rc1 = driver_to_device_dma.unmap();
                let rc2 = device_to_driver_dma.unmap();
                if rc1 != 0 {
                    rc1
                } else {
                    rc2
                }
            },
        }
    }
}

} // verus!
