//! Types shared by the vsock connection manager and the lower-level vsock
//! transports it drives: endpoint addresses, connection state, and the
//! events a transport reports.

use vstd::prelude::*;

use crate::Error;

verus! {

/// A vsock endpoint: a 64-bit context id naming a machine and a 32-bit port.
#[derive(Copy, Clone, Debug, Eq, PartialEq, Structural)]
pub struct VsockAddr {
    /// The context id.
    pub cid: u64,
    /// The port number.
    pub port: u32,
}

/// The reason a peer gave for ending a connection.
#[derive(Copy, Clone, Debug, Eq, PartialEq, Structural)]
pub enum DisconnectReason {
    /// The peer aborted the connection with a reset.
    Reset,
    /// The peer asked to shut the connection down cleanly.
    Shutdown,
}

/// The peer's view of its receive buffer, carried on every event: how many
/// bytes it has set aside for this connection and how many it has consumed
/// so far.
#[derive(Copy, Clone, Debug, Eq, PartialEq, Structural)]
pub struct VsockBufferStatus {
    /// The number of bytes the peer has allocated for this connection.
    pub buffer_allocation: u32,
    /// The running count of bytes the peer has consumed.
    pub forward_count: u32,
}

/// What kind of event a vsock transport reported.
#[derive(Copy, Clone, Debug, Eq, PartialEq, Structural)]
pub enum VsockEventType {
    /// The peer requests to establish a connection with us.
    ConnectionRequest,
    /// The connection was accepted by the peer.
    Connected,
    /// The connection was closed.
    Disconnected {
        /// The reason the connection was closed.
        reason: DisconnectReason,
    },
    /// Data was received on the connection.
    Received {
        /// The length of the payload in bytes.
        length: usize,
    },
    /// The peer asks us for our current buffer status.
    CreditRequest,
    /// The peer tells us its current buffer status.
    CreditUpdate,
}

/// An event reported by a vsock transport.
#[derive(Copy, Clone, Debug, Eq, PartialEq, Structural)]
pub struct VsockEvent {
    /// The peer that sent the packet the event stems from.
    pub source: VsockAddr,
    /// The endpoint on our side the packet was addressed to.
    pub destination: VsockAddr,
    /// The kind of event.
    pub event_type: VsockEventType,
    /// The peer's buffer status as carried on the packet.
    pub buffer_status: VsockBufferStatus,
}

impl VsockEvent {
    /// Whether this event belongs to the connection described by `info`,
    /// seen from the endpoint whose context id is `guest_cid`: the event's
    /// source must be the connection's peer, and its destination must be our
    /// local port on our context id.
    pub open spec fn spec_matches_connection(self, info: ConnectionInfo, guest_cid: u64) -> bool {
        self.source == info.dst && self.destination.cid == guest_cid && self.destination.port
            == info.src_port
    }

    /// Returns whether this event belongs to the connection described by
    /// `info`, seen from the endpoint whose context id is `guest_cid`.
    pub fn matches_connection(&self, info: &ConnectionInfo, guest_cid: u64) -> (r: bool)
        ensures
            r == self.spec_matches_connection(*info, guest_cid),
    {
        self.source == info.dst && self.destination.cid == guest_cid && self.destination.port
            == info.src_port
    }
}

/// Everything the manager keeps about one stream, and everything a lower
/// transport needs to address and credit its packets: the peer's address,
/// our local port, the peer's buffer status as last reported, and our own
/// consumption counter.
#[derive(Copy, Clone, Debug, Eq, PartialEq, Structural)]
pub struct ConnectionInfo {
    /// The peer's address.
    pub dst: VsockAddr,
    /// Our port number.
    pub src_port: u32,
    /// The number of bytes we have allocated to buffer this connection, as
    /// advertised to the peer.
    pub buf_alloc: u32,
    /// The number of bytes the peer said it has allocated, from the last
    /// event it sent.
    pub peer_buf_alloc: u32,
    /// The peer's consumption counter, from the last event it sent.
    pub peer_fwd_cnt: u32,
    /// The running count of bytes we have consumed, advertised to the peer
    /// so it can send more. Wraps at 32 bits, as the wire format does.
    pub fwd_cnt: u32,
}

impl ConnectionInfo {
    /// Makes the state of a fresh connection to `peer` from our port
    /// `src_port`: all counters start at zero.
    pub fn new(peer: VsockAddr, src_port: u32) -> (r: Self)
        ensures
            r == (ConnectionInfo {
                dst: peer,
                src_port,
                buf_alloc: 0,
                peer_buf_alloc: 0,
                peer_fwd_cnt: 0,
                fwd_cnt: 0,
            }),
    {
        ConnectionInfo {
            dst: peer,
            src_port,
            buf_alloc: 0,
            peer_buf_alloc: 0,
            peer_fwd_cnt: 0,
            fwd_cnt: 0,
        }
    }

    /// The state after taking the peer's buffer status from an event.
    pub open spec fn spec_update_for_event(self, event: VsockEvent) -> Self {
        ConnectionInfo {
            peer_buf_alloc: event.buffer_status.buffer_allocation,
            peer_fwd_cnt: event.buffer_status.forward_count,
            ..self
        }
    }

    /// Takes the peer's buffer status from an event it sent on this
    /// connection.
    pub fn update_for_event(&mut self, event: &VsockEvent)
        ensures
            *final(self) == old(self).spec_update_for_event(*event),
    {
        self.peer_buf_alloc = event.buffer_status.buffer_allocation;
        self.peer_fwd_cnt = event.buffer_status.forward_count;
    }

    /// The state after recording that we consumed `length` more bytes.
    pub open spec fn spec_done_forwarding(self, length: usize) -> Self {
        ConnectionInfo { fwd_cnt: ((self.fwd_cnt + length) % 0x1_0000_0000) as u32, ..self }
    }

    /// Records that we consumed `length` more bytes, so the peer may send
    /// that much again. The counter wraps at 32 bits as the wire format
    /// prescribes.
    pub fn done_forwarding(&mut self, length: usize)
        ensures
            *final(self) == old(self).spec_done_forwarding(length),
    {
        let add: u32 = (length as u64 % 0x1_0000_0000) as u32;
        let sum: u64 = self.fwd_cnt as u64 + add as u64;
        self.fwd_cnt = (sum % 0x1_0000_0000) as u32;
        proof {
            vstd::arithmetic::div_mod::lemma_add_mod_noop_right(
                old(self).fwd_cnt as int,
                length as int,
                0x1_0000_0000,
            );
        }
    }
}

/// A lower-level vsock transport: one endpoint of a pair of RX/TX virtqueues
/// carrying vsock packets. The connection manager drives one of these; the
/// driver-side and device-side transports of a concrete platform implement
/// it.
///
/// Each method that sends takes the connection's state, from which the
/// transport builds the packet header. `poll_event` reports at most one
/// event per call, together with the payload bytes that came with it.
pub trait VsockTransport {
    /// Returns the context id of this endpoint.
    fn local_cid(&self) -> u64;

    /// Sends a request to establish the connection described by `info`.
    fn connect(&mut self, info: &ConnectionInfo) -> Result<(), Error>;

    /// Accepts the pending connection request described by `info`.
    fn accept(&mut self, info: &ConnectionInfo) -> Result<(), Error>;

    /// Sends `buffer` on the connection described by `info`. The transport
    /// is responsible for respecting the peer's credit.
    fn send(&mut self, buffer: &[u8], info: &ConnectionInfo) -> Result<(), Error>;

    /// Tells the peer our current buffer status for the connection.
    fn credit_update(&mut self, info: &ConnectionInfo) -> Result<(), Error>;

    /// Asks the peer to shut the connection down cleanly.
    fn shutdown(&mut self, info: &ConnectionInfo) -> Result<(), Error>;

    /// Resets the connection without waiting for the peer.
    fn force_close(&mut self, info: &ConnectionInfo) -> Result<(), Error>;

    /// Polls the RX queue: returns at most one event, with the payload bytes
    /// that came with it.
    fn poll_event(&mut self) -> Result<Option<(VsockEvent, Vec<u8>)>, Error>;
}

} // verus!
