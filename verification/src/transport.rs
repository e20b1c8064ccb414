//! The transport abstraction: how a driver or a device reaches its peer's
//! configuration and doorbell. Discovery, feature negotiation and
//! configuration space belong to the user's implementation; the queue code
//! needs only the few methods here.

use vstd::prelude::*;

use crate::hal::PhysAddr;

verus! {

/// What a VirtIO driver needs from its transport.
pub trait Transport {
    /// Returns the largest queue size the device supports for queue `idx`,
    /// or 0 if the queue does not exist.
    fn max_queue_size(&mut self, idx: u16) -> u32;

    /// Returns whether queue `idx` is already set up.
    fn queue_used(&mut self, idx: u16) -> bool;

    /// Publishes the physical placement of queue `idx` to the device: its
    /// size, the descriptor table, the driver area (available ring) and the
    /// device area (used ring).
    fn queue_set(
        &mut self,
        idx: u16,
        size: u32,
        descriptors_paddr: PhysAddr,
        driver_area_paddr: PhysAddr,
        device_area_paddr: PhysAddr,
    );

    /// Whether the transport requires the legacy single-allocation queue
    /// layout.
    fn requires_legacy_layout(&mut self) -> bool;

    /// Rings the doorbell for queue `idx`.
    fn notify(&mut self, idx: u16);
}

/// What a VirtIO device (the host side) needs from its transport.
pub trait DeviceTransport {
    /// Returns the largest queue size this device supports for queue `idx`.
    fn max_queue_size(&mut self, idx: u16) -> u32;

    /// Returns the identifier of the client (driver) whose memory this
    /// device maps, for IOMMU routing.
    fn get_client_id(&mut self) -> u16;

    /// Returns the physical addresses the driver chose for queue `idx`:
    /// the descriptor table, the driver area and the device area.
    fn queue_get(&mut self, idx: u16) -> (PhysAddr, PhysAddr, PhysAddr);

    /// Whether the transport requires the legacy single-allocation queue
    /// layout.
    fn requires_legacy_layout(&mut self) -> bool;

    /// Rings the doorbell for queue `idx`.
    fn notify(&mut self, idx: u16);
}

} // verus!
