//! Connection-manager tests: the ring buffer's first-in-first-out
//! behavior, outbound and inbound connection handling, credit accounting
//! and shutdown, against a scripted vsock transport.

use std::cell::RefCell;
use std::collections::VecDeque;
use std::rc::Rc;

use virtio_drivers_and_devices::Error;
use virtio_drivers_and_devices::connectionmanager::RingBuffer;
use virtio_drivers_and_devices::connectionmanager::VsockConnectionManager;
use virtio_drivers_and_devices::connectionmanager::VsockDeviceConnectionManager;
use virtio_drivers_and_devices::connectionmanager::VsockManager;
use virtio_drivers_and_devices::vsock::ConnectionInfo;
use virtio_drivers_and_devices::vsock::DisconnectReason;
use virtio_drivers_and_devices::vsock::VsockAddr;
use virtio_drivers_and_devices::vsock::VsockBufferStatus;
use virtio_drivers_and_devices::vsock::VsockEvent;
use virtio_drivers_and_devices::vsock::VsockEventType;
use virtio_drivers_and_devices::vsock::VsockTransport;

/// What the manager asked the lower transport to do.
#[derive(Clone, Debug, PartialEq, Eq)]
enum Record {
    Connect(ConnectionInfo),
    Accept(ConnectionInfo),
    Send(ConnectionInfo, Vec<u8>),
    CreditUpdate(ConnectionInfo),
    Shutdown(ConnectionInfo),
    ForceClose(ConnectionInfo),
}

struct FakeState {
    records: Vec<Record>,
    events: VecDeque<(VsockEvent, Vec<u8>)>,
}

/// A scripted lower-level vsock transport: it records every call and
/// serves pre-arranged events.
struct FakeDriver {
    cid: u64,
    state: Rc<RefCell<FakeState>>,
}

fn fake_driver(cid: u64) -> (FakeDriver, Rc<RefCell<FakeState>>) {
    let state = Rc::new(RefCell::new(FakeState { records: Vec::new(), events: VecDeque::new() }));
    (FakeDriver { cid, state: state.clone() }, state)
}

impl VsockTransport for FakeDriver {
    fn local_cid(&self) -> u64 {
        self.cid
    }

    fn connect(&mut self, info: &ConnectionInfo) -> Result<(), Error> {
        self.state.borrow_mut().records.push(Record::Connect(*info));
        Ok(())
    }

    fn accept(&mut self, info: &ConnectionInfo) -> Result<(), Error> {
        self.state.borrow_mut().records.push(Record::Accept(*info));
        Ok(())
    }

    fn send(&mut self, buffer: &[u8], info: &ConnectionInfo) -> Result<(), Error> {
        self.state
            .borrow_mut()
            .records
            .push(Record::Send(*info, buffer.to_vec()));
        Ok(())
    }

    fn credit_update(&mut self, info: &ConnectionInfo) -> Result<(), Error> {
        self.state
            .borrow_mut()
            .records
            .push(Record::CreditUpdate(*info));
        Ok(())
    }

    fn shutdown(&mut self, info: &ConnectionInfo) -> Result<(), Error> {
        self.state.borrow_mut().records.push(Record::Shutdown(*info));
        Ok(())
    }

    fn force_close(&mut self, info: &ConnectionInfo) -> Result<(), Error> {
        self.state
            .borrow_mut()
            .records
            .push(Record::ForceClose(*info));
        Ok(())
    }

    fn poll_event(&mut self) -> Result<Option<(VsockEvent, Vec<u8>)>, Error> {
        Ok(self.state.borrow_mut().events.pop_front())
    }
}

fn host_address() -> VsockAddr {
    VsockAddr { cid: 2, port: 1234 }
}

#[test]
fn send_recv() {
    let guest_cid = 66;
    let guest_port = 4321;
    let hello_from_guest = "Hello from guest";
    let hello_from_host = "Hello from host";

    let (driver, state) = fake_driver(guest_cid);
    let mut socket = VsockConnectionManager::new(driver);
    assert_eq!(socket.guest_cid(), guest_cid);

    socket.connect(host_address(), guest_port).unwrap();
    assert_eq!(
        state.borrow().records[0],
        Record::Connect(ConnectionInfo {
            dst: host_address(),
            src_port: guest_port,
            buf_alloc: 1024,
            peer_buf_alloc: 0,
            peer_fwd_cnt: 0,
            fwd_cnt: 0,
        })
    );

    // The host accepts the connection, granting 50 bytes of credit.
    state.borrow_mut().events.push_back((
        VsockEvent {
            source: host_address(),
            destination: VsockAddr { cid: guest_cid, port: guest_port },
            event_type: VsockEventType::Connected,
            buffer_status: VsockBufferStatus { buffer_allocation: 50, forward_count: 0 },
        },
        Vec::new(),
    ));
    assert_eq!(
        socket.wait_for_event().unwrap(),
        VsockEvent {
            source: host_address(),
            destination: VsockAddr { cid: guest_cid, port: guest_port },
            event_type: VsockEventType::Connected,
            buffer_status: VsockBufferStatus { buffer_allocation: 50, forward_count: 0 },
        }
    );

    socket
        .send(host_address(), guest_port, hello_from_guest.as_bytes())
        .unwrap();
    assert_eq!(
        state.borrow().records[1],
        Record::Send(
            ConnectionInfo {
                dst: host_address(),
                src_port: guest_port,
                buf_alloc: 1024,
                peer_buf_alloc: 50,
                peer_fwd_cnt: 0,
                fwd_cnt: 0,
            },
            hello_from_guest.as_bytes().to_vec()
        )
    );

    // The host answers with its own message, acknowledging our 16 bytes.
    state.borrow_mut().events.push_back((
        VsockEvent {
            source: host_address(),
            destination: VsockAddr { cid: guest_cid, port: guest_port },
            event_type: VsockEventType::Received { length: hello_from_host.len() },
            buffer_status: VsockBufferStatus {
                buffer_allocation: 50,
                forward_count: hello_from_guest.len() as u32,
            },
        },
        hello_from_host.as_bytes().to_vec(),
    ));
    assert_eq!(
        socket.wait_for_event().unwrap(),
        VsockEvent {
            source: host_address(),
            destination: VsockAddr { cid: guest_cid, port: guest_port },
            event_type: VsockEventType::Received { length: hello_from_host.len() },
            buffer_status: VsockBufferStatus {
                buffer_allocation: 50,
                forward_count: hello_from_guest.len() as u32,
            },
        }
    );

    let mut buffer = [0u8; 64];
    assert_eq!(
        socket.recv(host_address(), guest_port, &mut buffer).unwrap(),
        hello_from_host.len()
    );
    assert_eq!(
        &buffer[0..hello_from_host.len()],
        hello_from_host.as_bytes()
    );

    socket.shutdown(host_address(), guest_port).unwrap();
    assert_eq!(
        state.borrow().records[2],
        Record::Shutdown(ConnectionInfo {
            dst: host_address(),
            src_port: guest_port,
            buf_alloc: 1024,
            peer_buf_alloc: 50,
            peer_fwd_cnt: hello_from_guest.len() as u32,
            fwd_cnt: hello_from_host.len() as u32,
        })
    );
}

#[test]
fn incoming_connection() {
    let guest_cid = 66;
    let guest_port = 4321;
    let wrong_guest_port = 4444;

    let (driver, state) = fake_driver(guest_cid);
    let mut socket = VsockConnectionManager::new(driver);

    socket.listen(guest_port);

    // A request for a port the guest is not listening on is rejected
    // silently: a reset goes out and no event is surfaced.
    state.borrow_mut().events.push_back((
        VsockEvent {
            source: host_address(),
            destination: VsockAddr { cid: guest_cid, port: wrong_guest_port },
            event_type: VsockEventType::ConnectionRequest,
            buffer_status: VsockBufferStatus { buffer_allocation: 50, forward_count: 0 },
        },
        Vec::new(),
    ));
    assert_eq!(socket.poll().unwrap(), None);
    assert_eq!(
        state.borrow().records[0],
        Record::ForceClose(ConnectionInfo {
            dst: host_address(),
            src_port: wrong_guest_port,
            buf_alloc: 1024,
            peer_buf_alloc: 50,
            peer_fwd_cnt: 0,
            fwd_cnt: 0,
        })
    );
    // The provisional connection is gone again.
    assert_eq!(
        socket
            .recv_buffer_available_bytes(host_address(), wrong_guest_port)
            .unwrap_err(),
        Error::NotConnected
    );

    // A request for the listened port is accepted and surfaced.
    state.borrow_mut().events.push_back((
        VsockEvent {
            source: host_address(),
            destination: VsockAddr { cid: guest_cid, port: guest_port },
            event_type: VsockEventType::ConnectionRequest,
            buffer_status: VsockBufferStatus { buffer_allocation: 50, forward_count: 0 },
        },
        Vec::new(),
    ));
    assert_eq!(
        socket.wait_for_event().unwrap(),
        VsockEvent {
            source: host_address(),
            destination: VsockAddr { cid: guest_cid, port: guest_port },
            event_type: VsockEventType::ConnectionRequest,
            buffer_status: VsockBufferStatus { buffer_allocation: 50, forward_count: 0 },
        }
    );
    assert_eq!(
        state.borrow().records[1],
        Record::Accept(ConnectionInfo {
            dst: host_address(),
            src_port: guest_port,
            buf_alloc: 1024,
            peer_buf_alloc: 50,
            peer_fwd_cnt: 0,
            fwd_cnt: 0,
        })
    );
}

/// A credit request is answered internally and never surfaced.
#[test]
fn credit_request_handled_internally() {
    let guest_cid = 66;
    let guest_port = 4321;

    let (driver, state) = fake_driver(guest_cid);
    let mut socket = VsockConnectionManager::new(driver);
    socket.connect(host_address(), guest_port).unwrap();

    state.borrow_mut().events.push_back((
        VsockEvent {
            source: host_address(),
            destination: VsockAddr { cid: guest_cid, port: guest_port },
            event_type: VsockEventType::CreditRequest,
            buffer_status: VsockBufferStatus { buffer_allocation: 50, forward_count: 0 },
        },
        Vec::new(),
    ));
    assert_eq!(socket.poll().unwrap(), None);
    assert!(matches!(state.borrow().records[1], Record::CreditUpdate(_)));
}

/// A peer shutdown with unread data defers the teardown until `recv` has
/// drained the ring; only then does a reset go out.
#[test]
fn deferred_shutdown_drain() {
    let guest_cid = 66;
    let guest_port = 4321;

    let (driver, state) = fake_driver(guest_cid);
    let mut socket = VsockConnectionManager::new(driver);
    socket.connect(host_address(), guest_port).unwrap();

    // Eight bytes arrive and stay buffered.
    state.borrow_mut().events.push_back((
        VsockEvent {
            source: host_address(),
            destination: VsockAddr { cid: guest_cid, port: guest_port },
            event_type: VsockEventType::Received { length: 8 },
            buffer_status: VsockBufferStatus { buffer_allocation: 50, forward_count: 0 },
        },
        vec![1, 2, 3, 4, 5, 6, 7, 8],
    ));
    assert!(socket.poll().unwrap().is_some());

    // The peer asks to shut down while the ring still holds data: the
    // event is surfaced but the connection stays.
    state.borrow_mut().events.push_back((
        VsockEvent {
            source: host_address(),
            destination: VsockAddr { cid: guest_cid, port: guest_port },
            event_type: VsockEventType::Disconnected { reason: DisconnectReason::Shutdown },
            buffer_status: VsockBufferStatus { buffer_allocation: 50, forward_count: 0 },
        },
        Vec::new(),
    ));
    assert_eq!(
        socket.poll().unwrap().map(|e| e.event_type),
        Some(VsockEventType::Disconnected { reason: DisconnectReason::Shutdown })
    );
    assert_eq!(
        socket
            .recv_buffer_available_bytes(host_address(), guest_port)
            .unwrap(),
        8
    );
    assert_eq!(state.borrow().records.len(), 1);

    // Draining the ring finishes the teardown: a reset goes out and the
    // connection is removed.
    let mut out = [0u8; 8];
    assert_eq!(socket.recv(host_address(), guest_port, &mut out).unwrap(), 8);
    assert_eq!(out, [1, 2, 3, 4, 5, 6, 7, 8]);
    assert!(matches!(
        state.borrow().records[1],
        Record::ForceClose(_)
    ));
    assert_eq!(
        socket
            .recv_buffer_available_bytes(host_address(), guest_port)
            .unwrap_err(),
        Error::NotConnected
    );
}

/// A datagram that does not fit the connection's ring is refused whole.
#[test]
fn received_overflow_refused() {
    let guest_cid = 66;
    let guest_port = 4321;

    let (driver, state) = fake_driver(guest_cid);
    let mut socket = VsockConnectionManager::new_with_capacity(driver, 4);
    socket.connect(host_address(), guest_port).unwrap();

    state.borrow_mut().events.push_back((
        VsockEvent {
            source: host_address(),
            destination: VsockAddr { cid: guest_cid, port: guest_port },
            event_type: VsockEventType::Received { length: 10 },
            buffer_status: VsockBufferStatus { buffer_allocation: 50, forward_count: 0 },
        },
        vec![0; 10],
    ));
    assert_eq!(socket.poll().unwrap_err(), Error::OutputBufferTooShort(10));
}

/// Connecting twice to the same peer and port is refused.
#[test]
fn connect_twice_refused() {
    let guest_cid = 66;
    let guest_port = 4321;

    let (driver, _state) = fake_driver(guest_cid);
    let mut socket = VsockConnectionManager::new(driver);
    socket.connect(host_address(), guest_port).unwrap();
    assert_eq!(
        socket.connect(host_address(), guest_port).unwrap_err(),
        Error::ConnectionExists
    );
}

/// Sending on a connection that does not exist is refused.
#[test]
fn send_not_connected() {
    let (driver, _state) = fake_driver(66);
    let mut socket = VsockConnectionManager::new(driver);
    assert_eq!(
        socket.send(host_address(), 4321, b"hi").unwrap_err(),
        Error::NotConnected
    );
}

/// The ring refuses a write it cannot take whole, and wraps exactly when
/// a write crosses the end of the backing array.
#[test]
fn ring_buffer_wrap() {
    let mut ring = RingBuffer::new(10);

    // Move the start of the ring to position 8.
    assert!(ring.add(&[0; 8]));
    let mut out = [0u8; 8];
    assert_eq!(ring.drain(&mut out), 8);

    // A six-byte write now wraps around the end of the backing array.
    assert!(ring.add(&[1, 2, 3, 4, 5, 6]));
    assert_eq!(ring.used(), 6);
    let mut out = [0u8; 6];
    assert_eq!(ring.drain(&mut out), 6);
    assert_eq!(out, [1, 2, 3, 4, 5, 6]);
}

/// Whatever is drained is exactly what was added, in order, across
/// partial reads and refused writes.
#[test]
fn ring_buffer_fifo() {
    let mut ring = RingBuffer::new(4);
    assert!(ring.add(&[1, 2, 3]));
    assert!(!ring.add(&[4, 5]));
    assert_eq!(ring.free(), 1);
    let mut out = [0u8; 2];
    assert_eq!(ring.drain(&mut out), 2);
    assert_eq!(out, [1, 2]);
    assert!(ring.add(&[4, 5, 6]));
    assert!(ring.is_empty() == false);
    let mut rest = [0u8; 8];
    assert_eq!(ring.drain(&mut rest), 4);
    assert_eq!(&rest[0..4], &[3, 4, 5, 6]);
    assert!(ring.is_empty());
}

/// The device-side manager accepts incoming connections and serves data
/// the same way, through the shared trait surface.
#[test]
fn device_side_accepts_and_sends() {
    let host_cid = 2;
    let host_port = 1234;
    let guest_port = 4321;
    let guest = VsockAddr { cid: 66, port: guest_port };

    let (driver, state) = fake_driver(host_cid);
    let mut socket = VsockDeviceConnectionManager::new(driver);
    VsockManager::listen(&mut socket, host_port);

    // The guest asks to connect to our listened port.
    state.borrow_mut().events.push_back((
        VsockEvent {
            source: guest,
            destination: VsockAddr { cid: host_cid, port: host_port },
            event_type: VsockEventType::ConnectionRequest,
            buffer_status: VsockBufferStatus { buffer_allocation: 64, forward_count: 0 },
        },
        Vec::new(),
    ));
    let event = VsockManager::poll(&mut socket).unwrap().unwrap();
    assert_eq!(event.event_type, VsockEventType::ConnectionRequest);
    assert!(matches!(state.borrow().records[0], Record::Accept(_)));

    VsockManager::send(&mut socket, guest, host_port, b"hello").unwrap();
    assert_eq!(
        state.borrow().records[1],
        Record::Send(
            ConnectionInfo {
                dst: guest,
                src_port: host_port,
                buf_alloc: 1024,
                peer_buf_alloc: 64,
                peer_fwd_cnt: 0,
                fwd_cnt: 0,
            },
            b"hello".to_vec()
        )
    );
}
