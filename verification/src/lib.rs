//! Core of a VirtIO split-virtqueue transport and a vsock connection manager.
//!
//! The crate has two layers. The lower layer manages one split virtqueue from
//! either end of the wire: `queue::VirtQueue` is the driver (guest) side,
//! which owns the ring layout, issues descriptor chains and reclaims
//! completions; `device_queue::DeviceVirtQueue` is the device (host) side,
//! which pops available chains and writes completions back. The upper layer,
//! `connectionmanager`, multiplexes many vsock streams over one pair of such
//! queues, with per-connection receive buffers and credit accounting.
//!
//! Platform services (DMA allocation, buffer sharing, transport doorbells)
//! are abstractions the user implements: see the traits in `hal` and
//! `transport`.

use vstd::prelude::*;

pub mod connectionmanager;
pub mod device_queue;
pub mod hal;
pub mod queue;
pub mod transport;
pub mod vsock;

verus! {

/// The size in bytes of one page of physically contiguous memory.
pub const PAGE_SIZE: usize = 0x1000;

/// The error type of this crate.
#[derive(Clone, Copy, Debug, PartialEq, Eq, Structural)]
pub enum Error {
    /// An invalid argument was given, such as an empty buffer chain or a
    /// queue size the transport cannot provide.
    InvalidParam,
    /// The requested virtqueue index is already in use.
    AlreadyUsed,
    /// The descriptor table has no room for the requested chain.
    QueueFull,
    /// The operation would block: there is nothing to pop yet.
    NotReady,
    /// The completion at the head of the used ring is for a different chain
    /// than the caller asked for.
    WrongToken,
    /// The peer published a descriptor chain that breaks the protocol rules.
    InvalidDescriptor,
    /// The request needs a capability this implementation does not provide.
    Unsupported,
    /// A DMA allocation or mapping failed.
    DmaError,
    /// A connection with the same peer and local port already exists.
    ConnectionExists,
    /// No connection matches the given peer and local port.
    NotConnected,
    /// A received datagram does not fit in the connection's buffer; the
    /// payload length is attached.
    OutputBufferTooShort(usize),
}

/// Rounds `size` up to the next multiple of [`PAGE_SIZE`].
pub fn align_up(size: usize) -> (r: usize)
    requires
        size + PAGE_SIZE <= usize::MAX,
    ensures
        r as int % PAGE_SIZE as int == 0,
        size <= r < size + PAGE_SIZE,
{
    ((size + PAGE_SIZE - 1) / PAGE_SIZE) * PAGE_SIZE
}

/// The number of pages needed to hold `size` bytes.
pub fn pages(size: usize) -> (r: usize)
    requires
        size + PAGE_SIZE <= usize::MAX,
    ensures
        r == (size + PAGE_SIZE - 1) / PAGE_SIZE as int,
        r * PAGE_SIZE >= size,
{
    let r = (size + PAGE_SIZE - 1) / PAGE_SIZE;
    proof {
        assert(r * PAGE_SIZE >= size) by (nonlinear_arith)
            requires
                r == (size + PAGE_SIZE - 1) as int / PAGE_SIZE as int,
                PAGE_SIZE == 0x1000,
                size + PAGE_SIZE <= usize::MAX,
        ;
    }
    r
}

} // verus!
