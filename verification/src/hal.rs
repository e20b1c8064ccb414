//! The hardware abstraction layer: DMA allocation on the driver side, DMA
//! mapping on the device side, and sharing of individual buffers.
//!
//! The traits here are implemented by the user of the crate for a concrete
//! platform. The verified queue code states its guarantees relative to the
//! few promises these traits make; everything a platform does beyond them
//! (address translation, bounce buffers, IOMMU programming) is its own
//! responsibility.

use vstd::prelude::*;

use crate::Error;

verus! {

/// A physical address as used for VirtIO.
pub type PhysAddr = usize;

/// The direction in which a buffer is passed.
#[derive(Copy, Clone, Debug, Eq, PartialEq, Structural)]
pub enum BufferDirection {
    /// The buffer may be read or written by the driver, but only read by the
    /// device.
    DriverToDevice,
    /// The buffer may be read or written by the device, but only read by the
    /// driver.
    DeviceToDriver,
    /// The buffer may be read or written by both the device and the driver.
    Both,
}

/// The platform services a VirtIO driver needs.
///
/// An implementation owns the machine's DMA memory and the mapping between
/// driver-visible buffers and device-visible physical addresses. The queue
/// code calls `share` exactly once for each buffer it places in a descriptor
/// and `unshare` exactly once when the chain is reclaimed.
pub trait Hal {
    /// Allocates the given number of zeroed, physically contiguous pages of
    /// DMA memory, returning the physical address the device can use to
    /// access them, or 0 if no memory could be found.
    fn dma_alloc(pages: usize, direction: BufferDirection) -> (paddr: PhysAddr);

    /// Releases pages previously allocated by `dma_alloc`, returning 0 on
    /// success.
    fn dma_dealloc(paddr: PhysAddr, pages: usize) -> (rc: i32);

    /// Shares the given buffer with the device and returns the physical
    /// address under which the device sees it.
    fn share(buffer: &[u8], direction: BufferDirection) -> (paddr: PhysAddr);

    /// Ends the sharing begun by the `share` call that returned `paddr` and
    /// returns the final contents of the shared region, `len` bytes long,
    /// including anything the device wrote to it.
    fn unshare(paddr: PhysAddr, len: usize, direction: BufferDirection) -> (contents: Vec<u8>)
        ensures
            contents@.len() == len,
    ;
}

/// The platform services a VirtIO device (the host side) needs: mapping in
/// memory that the driver shared, keyed by a client id for IOMMU routing.
pub trait DeviceHal {
    /// Maps in `pages` pages of memory shared by a driver starting at
    /// `paddr`, returning an address under which this side can access it.
    fn dma_map(paddr: PhysAddr, pages: usize, direction: BufferDirection, client_id: u16) -> (r:
        Result<usize, Error>);

    /// Unmaps memory previously mapped by `dma_map`, returning 0 on success.
    fn dma_unmap(paddr: PhysAddr, vaddr: usize, pages: usize) -> (rc: i32);

    /// Reads `len` bytes of a mapped region, starting at `vaddr`.
    fn read_mapped(vaddr: usize, len: usize) -> (contents: Vec<u8>)
        ensures
            contents@.len() == len,
    ;

    /// Writes the given bytes to a mapped region starting at `vaddr`.
    fn write_mapped(vaddr: usize, bytes: &[u8]);
}

/// A region of contiguous physical memory used for DMA, described by its
/// physical placement.
pub trait DmaMemory {
    /// The physical address of the start of the region.
    spec fn spec_paddr(&self) -> PhysAddr;

    /// The length of the region in pages.
    spec fn spec_pages(&self) -> usize;

    /// Returns the physical address of the start of the region, as seen by
    /// devices.
    fn paddr(&self) -> (r: PhysAddr)
        ensures
            r == self.spec_paddr(),
    ;

    /// Returns the length of the region in pages.
    fn pages(&self) -> (r: usize)
        ensures
            r == self.spec_pages(),
    ;
}

/// A DMA region owned by the driver: it was allocated locally through a
/// [`Hal`] and is released through the same.
pub struct Dma<H: Hal> {
    paddr: PhysAddr,
    pages: usize,
    hal: core::marker::PhantomData<H>,
}

impl<H: Hal> Dma<H> {
    /// Allocates the given number of pages of physically contiguous memory
    /// to be used for DMA in the given direction. The pages are zeroed.
    pub fn new(pages: usize, direction: BufferDirection) -> (r: Result<Self, Error>)
        ensures
            match r {
                Ok(dma) => dma.spec_pages() == pages && dma.spec_paddr() != 0,
                Err(e) => e == Error::DmaError,
            },
    {
        let paddr = H::dma_alloc(pages, direction);
        if paddr == 0 {
            return Err(Error::DmaError);
        }
        Ok(Self { paddr, pages, hal: core::marker::PhantomData })
    }

    /// Releases the region through the HAL, returning 0 on success. The
    /// region is consumed, so it can be released only once.
    pub fn dealloc(self) -> (rc: i32) {
        H::dma_dealloc(self.paddr, self.pages)
    }
}

impl<H: Hal> DmaMemory for Dma<H> {
    closed spec fn spec_paddr(&self) -> PhysAddr {
        self.paddr
    }

    closed spec fn spec_pages(&self) -> usize {
        self.pages
    }

    fn paddr(&self) -> PhysAddr {
        self.paddr
    }

    fn pages(&self) -> usize {
        self.pages
    }
}

/// A DMA region owned by the device side: memory a peer shared by physical
/// address, mapped in through a [`DeviceHal`] under a client id.
pub struct DeviceDma<H: DeviceHal> {
    paddr: PhysAddr,
    vaddr: usize,
    pages: usize,
    client_id: u16,
    hal: core::marker::PhantomData<H>,
}

impl<H: DeviceHal> DeviceDma<H> {
    /// Maps in the peer's memory at `paddr` for the given client.
    pub fn new(paddr: PhysAddr, pages: usize, direction: BufferDirection, client_id: u16) -> (r:
        Result<Self, Error>)
        ensures
            match r {
                Ok(dma) => dma.spec_paddr() == paddr && dma.spec_pages() == pages
                    && dma.spec_client_id() == client_id,
                Err(_) => true,
            },
    {
        match H::dma_map(paddr, pages, direction, client_id) {
            Ok(vaddr) => Ok(Self { paddr, vaddr, pages, client_id, hal: core::marker::PhantomData }),
            Err(e) => Err(e),
        }
    }

    /// The client id the region was mapped under.
    pub closed spec fn spec_client_id(&self) -> u16 {
        self.client_id
    }

    /// The address under which this side accesses the start of the region.
    pub closed spec fn spec_vaddr(&self) -> usize {
        self.vaddr
    }

    /// Returns the address under which this side accesses the start of the
    /// region.
    pub fn vaddr(&self) -> (r: usize)
        ensures
            r == self.spec_vaddr(),
    {
        self.vaddr
    }

    /// Returns whether two mapped regions describe the same mapping: same
    /// physical address, same local address, same page count.
    pub fn same_mapping(&self, other: &Self) -> (r: bool)
        ensures
            r == (self.spec_paddr() == other.spec_paddr() && self.spec_vaddr()
                == other.spec_vaddr() && self.spec_pages() == other.spec_pages()),
    {
        let paddrs_match = self.paddr == other.paddr;
        let vaddrs_match = self.vaddr == other.vaddr;
        let num_pages_match = self.pages == other.pages;
        paddrs_match && vaddrs_match && num_pages_match
    }

    /// Unmaps the region through the HAL, returning 0 on success. The region
    /// is consumed, so it can be unmapped only once.
    pub fn unmap(self) -> (rc: i32) {
        H::dma_unmap(self.paddr, self.vaddr, self.pages)
    }
}

impl<H: DeviceHal> DmaMemory for DeviceDma<H> {
    closed spec fn spec_paddr(&self) -> PhysAddr {
        self.paddr
    }

    closed spec fn spec_pages(&self) -> usize {
        self.pages
    }

    fn paddr(&self) -> PhysAddr {
        self.paddr
    }

    fn pages(&self) -> usize {
        self.pages
    }
}

} // verus!
