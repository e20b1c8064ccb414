//! Device-side virtqueue tests: popping chains the driver published,
//! returning completions, and rejecting chains that break the protocol.

use virtio_drivers_and_devices::Error;
use virtio_drivers_and_devices::hal::BufferDirection;
use virtio_drivers_and_devices::hal::DeviceHal;
use virtio_drivers_and_devices::hal::PhysAddr;
use virtio_drivers_and_devices::device_queue::DeviceVirtQueue;
use virtio_drivers_and_devices::queue::DESC_F_INDIRECT;
use virtio_drivers_and_devices::queue::DESC_F_NEXT;
use virtio_drivers_and_devices::queue::DESC_F_WRITE;
use virtio_drivers_and_devices::queue::Descriptor;
use virtio_drivers_and_devices::transport::DeviceTransport;

/// A test device HAL: maps a physical address to itself, and reads back
/// a deterministic pattern derived from the address, so tests can tell
/// buffers apart without real memory behind them.
struct FakeDeviceHal;

fn pattern(vaddr: usize, len: usize) -> Vec<u8> {
    let mut v = Vec::new();
    let mut i = 0;
    while i < len {
        v.push((vaddr + i) as u8);
        i += 1;
    }
    v
}

impl DeviceHal for FakeDeviceHal {
    fn dma_map(
        paddr: PhysAddr,
        _pages: usize,
        _direction: BufferDirection,
        _client_id: u16,
    ) -> Result<usize, Error> {
        Ok(paddr)
    }

    fn dma_unmap(_paddr: PhysAddr, _vaddr: usize, _pages: usize) -> i32 {
        0
    }

    fn read_mapped(vaddr: usize, len: usize) -> Vec<u8> {
        pattern(vaddr, len)
    }

    fn write_mapped(_vaddr: usize, _bytes: &[u8]) {}
}

/// A test device transport with fixed queue addresses.
struct FakeDeviceTransport {
    max_queue_size: u32,
    notifications: usize,
}

impl DeviceTransport for FakeDeviceTransport {
    fn max_queue_size(&mut self, _idx: u16) -> u32 {
        self.max_queue_size
    }

    fn get_client_id(&mut self) -> u16 {
        7
    }

    fn queue_get(&mut self, _idx: u16) -> (PhysAddr, PhysAddr, PhysAddr) {
        (0x10000, 0x10100, 0x10200)
    }

    fn requires_legacy_layout(&mut self) -> bool {
        false
    }

    fn notify(&mut self, _idx: u16) {
        self.notifications += 1;
    }
}

fn new_device_queue() -> (DeviceVirtQueue<FakeDeviceHal, 8>, FakeDeviceTransport) {
    let mut transport = FakeDeviceTransport { max_queue_size: 8, notifications: 0 };
    let queue = DeviceVirtQueue::<FakeDeviceHal, 8>::new(&mut transport, 0).unwrap();
    (queue, transport)
}

#[test]
fn device_queue_too_big() {
    let mut transport = FakeDeviceTransport { max_queue_size: 4, notifications: 0 };
    assert!(matches!(
        DeviceVirtQueue::<FakeDeviceHal, 8>::new(&mut transport, 0),
        Err(Error::InvalidParam)
    ));
}

/// The device reads a chain of device-readable buffers and completes it
/// with length zero.
#[test]
fn poll_reads_chain() {
    let (mut queue, mut transport) = new_device_queue();

    // The driver publishes a two-buffer readable chain at slots 3 and 5.
    queue.driver_write_desc(
        3,
        Descriptor { addr: 0x2000, len: 3, flags: DESC_F_NEXT, next: 5 },
    );
    queue.driver_write_desc(5, Descriptor { addr: 0x3000, len: 2, flags: 0, next: 0 });
    queue.driver_publish_avail(3);

    assert!(queue.can_pop());
    let data = queue.poll(&mut transport).unwrap().unwrap();
    let mut expected = pattern(0x2000, 3);
    expected.extend_from_slice(&pattern(0x3000, 2));
    assert_eq!(data, expected);

    // The chain came back on the used ring with length zero.
    assert_eq!(queue.driver_read_used_idx(), 1);
    let elem = queue.driver_read_used(0);
    assert_eq!(elem.id, 3);
    assert_eq!(elem.len, 0);

    // Tearing the queue down unmaps its regions.
    assert_eq!(queue.release(), 0);
}

/// Nothing to pop: poll returns no message.
#[test]
fn poll_empty() {
    let (mut queue, mut transport) = new_device_queue();
    assert_eq!(queue.poll(&mut transport).unwrap(), None);
}

/// The device fills the driver's writable buffer and completes the chain
/// with the copied length.
#[test]
fn fill_writable_chain() {
    let (mut queue, mut transport) = new_device_queue();

    queue.driver_write_desc(
        0,
        Descriptor { addr: 0x4000, len: 10, flags: DESC_F_WRITE, next: 0 },
    );
    queue.driver_publish_avail(0);

    let data: Vec<u8> = (0..10).collect();
    queue
        .wait_pop_add_notify(&[data], &mut transport)
        .unwrap();

    assert_eq!(queue.driver_read_used_idx(), 1);
    let elem = queue.driver_read_used(0);
    assert_eq!(elem.id, 0);
    assert_eq!(elem.len, 10);
}

/// A chain with only readable buffers cannot take a message.
#[test]
fn fill_readable_chain_not_ready() {
    let (mut queue, mut transport) = new_device_queue();

    queue.driver_write_desc(0, Descriptor { addr: 0x5000, len: 1, flags: 0, next: 0 });
    queue.driver_publish_avail(0);

    let data: Vec<u8> = (0..10).collect();
    assert_eq!(
        queue
            .wait_pop_add_notify(&[data], &mut transport)
            .unwrap_err(),
        Error::NotReady
    );
}

/// A readable buffer after a writable one breaks the protocol.
#[test]
fn read_after_write_rejected() {
    let (mut queue, mut transport) = new_device_queue();

    queue.driver_write_desc(
        0,
        Descriptor { addr: 0x6000, len: 2, flags: DESC_F_NEXT | DESC_F_WRITE, next: 1 },
    );
    queue.driver_write_desc(1, Descriptor { addr: 0x6100, len: 2, flags: 0, next: 0 });
    queue.driver_publish_avail(0);

    assert_eq!(queue.poll(&mut transport).unwrap_err(), Error::InvalidDescriptor);
}

/// Indirect descriptors are not supported on the device side.
#[test]
fn indirect_rejected() {
    let (mut queue, mut transport) = new_device_queue();

    queue.driver_write_desc(
        0,
        Descriptor { addr: 0x7000, len: 32, flags: DESC_F_INDIRECT, next: 0 },
    );
    queue.driver_publish_avail(0);

    assert_eq!(queue.poll(&mut transport).unwrap_err(), Error::InvalidDescriptor);
}

/// A chain with writable buffers cannot be polled for a message.
#[test]
fn poll_writable_chain_unsupported() {
    let (mut queue, mut transport) = new_device_queue();

    queue.driver_write_desc(
        0,
        Descriptor { addr: 0x8000, len: 4, flags: DESC_F_WRITE, next: 0 },
    );
    queue.driver_publish_avail(0);

    assert_eq!(queue.poll(&mut transport).unwrap_err(), Error::Unsupported);
}

/// A link that points outside the table breaks the protocol.
#[test]
fn link_out_of_table_rejected() {
    let (mut queue, mut transport) = new_device_queue();

    queue.driver_write_desc(
        0,
        Descriptor { addr: 0x9000, len: 1, flags: DESC_F_NEXT, next: 100 },
    );
    queue.driver_publish_avail(0);

    assert_eq!(queue.poll(&mut transport).unwrap_err(), Error::WrongToken);
}

/// A chain that loops back on itself is longer than the table and is
/// refused rather than walked forever.
#[test]
fn cyclic_chain_rejected() {
    let (mut queue, mut transport) = new_device_queue();

    queue.driver_write_desc(
        0,
        Descriptor { addr: 0xa000, len: 1, flags: DESC_F_NEXT, next: 0 },
    );
    queue.driver_publish_avail(0);

    assert_eq!(queue.poll(&mut transport).unwrap_err(), Error::InvalidDescriptor);
}
