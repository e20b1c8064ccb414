//! Driver-side virtqueue tests: construction errors, chain layout in the
//! descriptor table, notification suppression, and completion handling.

use virtio_drivers_and_devices::Error;
use virtio_drivers_and_devices::hal::BufferDirection;
use virtio_drivers_and_devices::hal::Hal;
use virtio_drivers_and_devices::hal::PhysAddr;
use virtio_drivers_and_devices::queue::DESC_F_INDIRECT;
use virtio_drivers_and_devices::queue::DESC_F_NEXT;
use virtio_drivers_and_devices::queue::DESC_F_WRITE;
use virtio_drivers_and_devices::queue::VirtQueue;
use virtio_drivers_and_devices::transport::Transport;

/// A test HAL: addresses are the buffers' own, released buffers read back
/// as zeroes.
struct FakeHal;

impl Hal for FakeHal {
    fn dma_alloc(_pages: usize, _direction: BufferDirection) -> PhysAddr {
        0x4000_0000
    }

    fn dma_dealloc(_paddr: PhysAddr, _pages: usize) -> i32 {
        0
    }

    fn share(buffer: &[u8], _direction: BufferDirection) -> PhysAddr {
        buffer.as_ptr() as usize
    }

    fn unshare(_paddr: PhysAddr, len: usize, _direction: BufferDirection) -> Vec<u8> {
        vec![0; len]
    }
}

/// A test HAL whose allocator always fails.
struct BrokenHal;

impl Hal for BrokenHal {
    fn dma_alloc(_pages: usize, _direction: BufferDirection) -> PhysAddr {
        0
    }

    fn dma_dealloc(_paddr: PhysAddr, _pages: usize) -> i32 {
        0
    }

    fn share(buffer: &[u8], _direction: BufferDirection) -> PhysAddr {
        buffer.as_ptr() as usize
    }

    fn unshare(_paddr: PhysAddr, len: usize, _direction: BufferDirection) -> Vec<u8> {
        vec![0; len]
    }
}

/// A test transport that remembers which queues were set up and counts
/// doorbell rings.
struct FakeTransport {
    max_queue_size: u32,
    set_queues: Vec<u16>,
    notifications: usize,
}

impl FakeTransport {
    fn new(max_queue_size: u32) -> Self {
        Self { max_queue_size, set_queues: Vec::new(), notifications: 0 }
    }
}

impl Transport for FakeTransport {
    fn max_queue_size(&mut self, _idx: u16) -> u32 {
        self.max_queue_size
    }

    fn queue_used(&mut self, idx: u16) -> bool {
        self.set_queues.contains(&idx)
    }

    fn queue_set(
        &mut self,
        idx: u16,
        _size: u32,
        _descriptors_paddr: PhysAddr,
        _driver_area_paddr: PhysAddr,
        _device_area_paddr: PhysAddr,
    ) {
        self.set_queues.push(idx);
    }

    fn requires_legacy_layout(&mut self) -> bool {
        false
    }

    fn notify(&mut self, _idx: u16) {
        self.notifications += 1;
    }
}

#[test]
fn queue_too_big() {
    let mut transport = FakeTransport::new(4);
    assert!(matches!(
        VirtQueue::<FakeHal, 8>::new(&mut transport, 0, false, false),
        Err(Error::InvalidParam)
    ));
}

#[test]
fn queue_already_used() {
    let mut transport = FakeTransport::new(4);
    VirtQueue::<FakeHal, 4>::new(&mut transport, 0, false, false).unwrap();
    assert!(matches!(
        VirtQueue::<FakeHal, 4>::new(&mut transport, 0, false, false),
        Err(Error::AlreadyUsed)
    ));
}

#[test]
fn add_empty() {
    let mut transport = FakeTransport::new(4);
    let mut queue = VirtQueue::<FakeHal, 4>::new(&mut transport, 0, false, false).unwrap();
    assert_eq!(queue.add(&[], &[]).unwrap_err(), Error::InvalidParam);
}

#[test]
fn add_too_many() {
    let mut transport = FakeTransport::new(4);
    let mut queue = VirtQueue::<FakeHal, 4>::new(&mut transport, 0, false, false).unwrap();
    assert_eq!(queue.available_desc(), 4);
    assert_eq!(
        queue
            .add(&[vec![], vec![], vec![]], &[vec![], vec![]])
            .unwrap_err(),
        Error::QueueFull
    );
}

#[test]
fn dma_failure_is_reported() {
    let mut transport = FakeTransport::new(4);
    assert!(matches!(
        VirtQueue::<BrokenHal, 4>::new(&mut transport, 0, false, false),
        Err(Error::DmaError)
    ));
}

#[test]
fn add_buffers() {
    let mut transport = FakeTransport::new(4);
    let mut queue = VirtQueue::<FakeHal, 4>::new(&mut transport, 0, false, false).unwrap();
    assert_eq!(queue.available_desc(), 4);

    // Add a buffer chain consisting of two device-readable parts followed
    // by two device-writable parts.
    let inputs = vec![vec![1u8, 2], vec![3u8]];
    let outputs = vec![vec![0u8, 0], vec![0u8]];
    let token = queue.add(&inputs, &outputs).unwrap();

    assert_eq!(queue.available_desc(), 0);
    assert!(!queue.can_pop());

    // Read the chain back the way the device would. The addresses are
    // the ones the test HAL's `share` handed out: the buffers' own.
    let first_descriptor_index = queue.device_read_avail(0);
    assert_eq!(first_descriptor_index, token);
    let first = queue.device_read_desc(first_descriptor_index as usize);
    assert_eq!(first.addr, inputs[0].as_ptr() as u64);
    assert_eq!(first.len, 2);
    assert_eq!(first.flags, DESC_F_NEXT);
    let second = queue.device_read_desc(first.next as usize);
    assert_eq!(second.addr, inputs[1].as_ptr() as u64);
    assert_eq!(second.len, 1);
    assert_eq!(second.flags, DESC_F_NEXT);
    let third = queue.device_read_desc(second.next as usize);
    assert_eq!(third.addr, outputs[0].as_ptr() as u64);
    assert_eq!(third.len, 2);
    assert_eq!(third.flags, DESC_F_NEXT | DESC_F_WRITE);
    let fourth = queue.device_read_desc(third.next as usize);
    assert_eq!(fourth.addr, outputs[1].as_ptr() as u64);
    assert_eq!(fourth.len, 1);
    assert_eq!(fourth.flags, DESC_F_WRITE);
}

#[test]
fn add_buffers_indirect() {
    let mut transport = FakeTransport::new(4);
    let mut queue = VirtQueue::<FakeHal, 4>::new(&mut transport, 0, true, false).unwrap();
    assert_eq!(queue.available_desc(), 4);

    // The same four buffers take a single direct slot when indirect
    // descriptors are in use.
    let token = queue
        .add(&[vec![1, 2], vec![3]], &[vec![0, 0], vec![0]])
        .unwrap();

    assert_eq!(queue.available_desc(), 4);
    assert!(!queue.can_pop());

    let indirect_descriptor_index = queue.device_read_avail(0);
    assert_eq!(indirect_descriptor_index, token);
    let direct = queue.device_read_desc(indirect_descriptor_index as usize);
    assert_eq!(direct.len as usize, 4 * 16);
    assert_eq!(direct.flags, DESC_F_INDIRECT);
}

/// Tests that the queue advises the device that notifications are needed.
#[test]
fn set_dev_notify() {
    let mut transport = FakeTransport::new(4);
    let mut queue = VirtQueue::<FakeHal, 4>::new(&mut transport, 0, false, false).unwrap();

    // Check that the avail ring's flag is zero by default.
    assert_eq!(queue.device_read_avail_flags(), 0x0);

    queue.set_dev_notify(false);
    assert_eq!(queue.device_read_avail_flags(), 0x1);

    queue.set_dev_notify(true);
    assert_eq!(queue.device_read_avail_flags(), 0x0);
}

/// Tests that the queue notifies the device about added buffers, unless
/// it has suppressed notifications.
#[test]
fn add_notify() {
    let mut transport = FakeTransport::new(4);
    let mut queue = VirtQueue::<FakeHal, 4>::new(&mut transport, 0, false, false).unwrap();

    // Add a buffer chain with a single device-readable part.
    queue.add(&[vec![42]], &[]).unwrap();

    // Check that the transport would be notified.
    assert_eq!(queue.should_notify(), true);

    // Suppress notifications.
    queue.device_set_used_flags(0x01);

    // Check that the transport would not be notified.
    assert_eq!(queue.should_notify(), false);
}

/// Tests that the queue notifies the device about added buffers, unless
/// it has suppressed notifications with the `avail_event` index.
#[test]
fn add_notify_event_idx() {
    let mut transport = FakeTransport::new(4);
    let mut queue = VirtQueue::<FakeHal, 4>::new(&mut transport, 0, false, true).unwrap();

    // Add a buffer chain with a single device-readable part.
    assert_eq!(queue.add(&[vec![42]], &[]).unwrap(), 0);

    // Check that the transport would be notified.
    assert_eq!(queue.should_notify(), true);

    // Suppress notifications.
    queue.device_set_avail_event(1);

    // Check that the transport would not be notified.
    assert_eq!(queue.should_notify(), false);

    // Add another buffer chain.
    assert_eq!(queue.add(&[vec![42]], &[]).unwrap(), 1);

    // Check that the transport should be notified again now.
    assert_eq!(queue.should_notify(), true);
}

/// A full add/complete/pop round trip: the device's completion is
/// surfaced with its byte count, and all descriptors return to the free
/// list.
#[test]
fn add_pop_roundtrip() {
    let mut transport = FakeTransport::new(8);
    let mut queue = VirtQueue::<FakeHal, 8>::new(&mut transport, 0, false, false).unwrap();

    let inputs = vec![vec![1u8, 2, 3]];
    let mut outputs = vec![vec![0u8, 0]];
    let token = queue.add(&inputs, &outputs).unwrap();
    assert_eq!(queue.available_desc(), 6);

    // Nothing to pop before the device completes the chain.
    assert_eq!(
        queue.pop_used(token, &inputs, &mut outputs).unwrap_err(),
        Error::NotReady
    );

    // The device completes the chain, claiming two bytes written.
    queue.device_write_used(token as u32, 2);
    assert!(queue.can_pop());
    assert_eq!(queue.peek_used(), Some(token));
    assert_eq!(queue.pop_used(token, &inputs, &mut outputs).unwrap(), 2);
    assert_eq!(queue.available_desc(), 8);
    assert_eq!(outputs[0].len(), 2);

    // Tearing the queue down releases its DMA regions.
    assert_eq!(queue.release(), 0);
}

/// A completion for a different chain than the caller expects is
/// refused.
#[test]
fn pop_wrong_token() {
    let mut transport = FakeTransport::new(8);
    let mut queue = VirtQueue::<FakeHal, 8>::new(&mut transport, 0, false, false).unwrap();

    let inputs = vec![vec![7u8]];
    let mut outputs: Vec<Vec<u8>> = Vec::new();
    let token = queue.add(&inputs, &outputs).unwrap();
    queue.device_write_used(token as u32 + 1, 0);
    assert_eq!(
        queue.pop_used(token, &inputs, &mut outputs).unwrap_err(),
        Error::WrongToken
    );
}

/// The indirect chain is recycled together with its sidecar list.
#[test]
fn add_pop_indirect_roundtrip() {
    let mut transport = FakeTransport::new(4);
    let mut queue = VirtQueue::<FakeHal, 4>::new(&mut transport, 0, true, false).unwrap();

    let inputs = vec![vec![9u8, 8], vec![7u8]];
    let mut outputs = vec![vec![0u8; 3]];
    let token = queue.add(&inputs, &outputs).unwrap();
    queue.device_write_used(token as u32, 3);
    assert_eq!(queue.pop_used(token, &inputs, &mut outputs).unwrap(), 3);
    assert_eq!(queue.available_desc(), 4);
    assert_eq!(outputs[0].len(), 3);
}
