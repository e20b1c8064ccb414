//! The vsock connection manager: tracks many concurrent streams over one
//! pair of RX/TX virtqueues, with a fixed-capacity receive ring per
//! connection, credit accounting, admission of incoming connections, and
//! half-closed shutdown handling.

use vstd::prelude::*;

use crate::Error;
use crate::vsock::ConnectionInfo;
use crate::vsock::DisconnectReason;
use crate::vsock::VsockAddr;
use crate::vsock::VsockEvent;
use crate::vsock::VsockEventType;
use crate::vsock::VsockTransport;

verus! {

/// A fixed-capacity byte ring with first-in-first-out semantics: `add`
/// appends a whole slice or refuses it atomically, `drain` removes bytes
/// from the front.
///
/// Besides its contents the ring carries the ghost stream of every byte
/// ever accepted: at all times the contents are the accepted stream minus a
/// fully drained prefix, so the concatenation of everything drained equals,
/// in order, the concatenation of everything added.
pub struct RingBuffer {
    buffer: Vec<u8>,
    /// The number of bytes currently in the buffer.
    used: usize,
    /// The index of the first used byte in the buffer.
    start: usize,
    /// Every byte ever accepted by `add`, in order.
    hist: Ghost<Seq<u8>>,
    /// How many bytes of `hist` have been drained already.
    taken: Ghost<nat>,
}

impl RingBuffer {
    /// The buffer's contents viewed as a rotation of the backing array:
    /// the byte at `start` first.
    spec fn rot(&self) -> Seq<u8> {
        self.buffer@.skip(self.start as int) + self.buffer@.take(self.start as int)
    }

    /// The bytes currently held, in the order `drain` would yield them.
    pub closed spec fn contents(&self) -> Seq<u8> {
        self.rot().take(self.used as int)
    }

    /// The number of bytes the ring can hold.
    pub closed spec fn capacity(&self) -> nat {
        self.buffer@.len()
    }

    /// Every byte ever accepted by `add`, in order.
    pub closed spec fn added(&self) -> Seq<u8> {
        self.hist@
    }

    /// How many of the accepted bytes have been drained already.
    pub closed spec fn drained(&self) -> nat {
        self.taken@
    }

    /// Well-formedness: the indices are in range and the contents are
    /// exactly the not-yet-drained suffix of the accepted stream.
    pub closed spec fn wf(&self) -> bool {
        &&& 0 < self.buffer@.len()
        &&& self.used <= self.buffer@.len()
        &&& self.start < self.buffer@.len()
        &&& self.taken@ + self.used == self.hist@.len()
        &&& self.contents() == self.hist@.skip(self.taken@ as int)
    }

    /// The first-in-first-out law: what remains to be read is always the
    /// accepted stream with a fully drained prefix removed, so draining
    /// yields the accepted bytes in order, without loss or duplication.
    pub proof fn lemma_fifo(&self)
        requires
            self.wf(),
        ensures
            self.drained() + self.contents().len() == self.added().len(),
            self.contents() == self.added().skip(self.drained() as int),
    {
    }

    /// Makes an empty ring that can hold `capacity` bytes.
    pub fn new(capacity: usize) -> (r: Self)
        requires
            capacity > 0,
        ensures
            r.wf(),
            r.capacity() == capacity,
            r.contents() == Seq::<u8>::empty(),
            r.added() == Seq::<u8>::empty(),
            r.drained() == 0,
    {
        let r = Self {
            buffer: vec![0u8; capacity],
            used: 0,
            start: 0,
            hist: Ghost(Seq::empty()),
            taken: Ghost(0),
        };
        proof {
            assert(r.contents() =~= Seq::<u8>::empty());
            assert(r.contents() =~= r.hist@.skip(0));
        }
        r
    }

    /// Returns the number of bytes currently held.
    pub fn used(&self) -> (r: usize)
        requires
            self.wf(),
        ensures
            r == self.contents().len(),
    {
        self.used
    }

    /// Returns true iff there are currently no bytes held.
    pub fn is_empty(&self) -> (r: bool)
        requires
            self.wf(),
        ensures
            r == (self.contents().len() == 0),
    {
        self.used == 0
    }

    /// Returns the number of bytes currently free.
    pub fn free(&self) -> (r: usize)
        requires
            self.wf(),
        ensures
            r == self.capacity() - self.contents().len(),
    {
        self.buffer.len() - self.used
    }

    /// Adds the given bytes to the buffer if there is enough room for them
    /// all, and refuses them all otherwise.
    ///
    /// Returns true if they were added, or false if they were not.
    #[verifier::loop_isolation(false)]
    pub fn add(&mut self, bytes: &[u8]) -> (r: bool)
        requires
            old(self).wf(),
        ensures
            final(self).wf(),
            final(self).capacity() == old(self).capacity(),
            r == (bytes@.len() + old(self).contents().len() <= old(self).capacity()),
            r ==> final(self).contents() == old(self).contents() + bytes@,
            r ==> final(self).added() == old(self).added() + bytes@,
            !r ==> *final(self) == *old(self),
            final(self).drained() == old(self).drained(),
    {
        if bytes.len() > self.buffer.len() - self.used {
            return false;
        }
        let cap = self.buffer.len();
        // The index of the first available position in the buffer.
        let first_available = if self.used < cap - self.start {
            self.start + self.used
        } else {
            self.used - (cap - self.start)
        };
        // The number of bytes to copy between `first_available` and the end
        // of the backing array.
        let copy_before_wraparound = if bytes.len() < cap - first_available {
            bytes.len()
        } else {
            cap - first_available
        };
        let ghost fa = first_available as int;
        let ghost cl = copy_before_wraparound as int;
        proof {
            assert(fa + cl <= cap);
            assert(bytes@.len() - cl <= fa);
        }
        let mut i: usize = 0;
        while i < copy_before_wraparound
            invariant
                i <= cl,
                self.buffer@.len() == cap,
                self.used == old(self).used,
                self.start == old(self).start,
                self.hist == old(self).hist,
                self.taken == old(self).taken,
                forall|k: int| 0 <= k < cap && !(fa <= k < fa + i) ==> self.buffer@[k] == old(
                    self,
                ).buffer@[k],
                forall|k: int| 0 <= k < i ==> self.buffer@[fa + k] == bytes@[k],
            decreases cl - i,
        {
            self.buffer.set(first_available + i, bytes[i]);
            i = i + 1;
        }
        let mut j: usize = 0;
        while j < bytes.len() - copy_before_wraparound
            invariant
                0 <= j <= bytes@.len() - cl,
                self.buffer@.len() == cap,
                self.used == old(self).used,
                self.start == old(self).start,
                self.hist == old(self).hist,
                self.taken == old(self).taken,
                forall|k: int|
                    0 <= k < cap && !(fa <= k < fa + cl) && !(0 <= k < j) ==> self.buffer@[k]
                        == old(self).buffer@[k],
                forall|k: int| 0 <= k < cl ==> self.buffer@[fa + k] == bytes@[k],
                forall|k: int| 0 <= k < j ==> self.buffer@[k] == bytes@[cl + k],
            decreases bytes@.len() - cl - j,
        {
            self.buffer.set(j, bytes[copy_before_wraparound + j]);
            j = j + 1;
        }
        self.used = self.used + bytes.len();
        proof {
            self.hist@ = self.hist@ + bytes@;
            assert(self.contents() =~= old(self).contents() + bytes@);
            assert(self.contents() =~= self.hist@.skip(self.taken@ as int));
        }
        true
    }

    /// Reads and removes as many bytes as possible from the front of the
    /// buffer, up to the length of `out`, writing them at the start of
    /// `out`.
    #[verifier::loop_isolation(false)]
    pub fn drain(&mut self, out: &mut [u8]) -> (n: usize)
        requires
            old(self).wf(),
        ensures
            final(self).wf(),
            final(self).capacity() == old(self).capacity(),
            n == if old(self).contents().len() <= old(out)@.len() {
                old(self).contents().len()
            } else {
                old(out)@.len()
            },
            final(out)@ == old(self).contents().take(n as int) + old(out)@.skip(n as int),
            final(self).contents() == old(self).contents().skip(n as int),
            final(self).added() == old(self).added(),
            final(self).drained() == old(self).drained() + n,
            old(self).contents().take(n as int) == old(self).added().subrange(
                old(self).drained() as int,
                old(self).drained() + n,
            ),
    {
        let cap = self.buffer.len();
        let bytes_read = if self.used < out.len() {
            self.used
        } else {
            out.len()
        };
        // The number of bytes to copy out between `start` and the end of
        // the backing array.
        let read_before_wraparound = if bytes_read < cap - self.start {
            bytes_read
        } else {
            cap - self.start
        };
        let ghost st = self.start as int;
        let ghost rl = read_before_wraparound as int;
        let ghost n = bytes_read as int;
        proof {
            assert(st + rl <= cap);
            assert(n - rl <= st);
        }
        let mut i: usize = 0;
        while i < read_before_wraparound
            invariant
                i <= rl,
                out@.len() == old(out)@.len(),
                forall|k: int| i <= k < out@.len() ==> out@[k] == old(out)@[k],
                forall|k: int| 0 <= k < i ==> out@[k] == self.buffer@[st + k],
            decreases rl - i,
        {
            out[i] = self.buffer[self.start + i];
            i = i + 1;
        }
        let mut j: usize = 0;
        while j < bytes_read - read_before_wraparound
            invariant
                0 <= j <= n - rl,
                out@.len() == old(out)@.len(),
                forall|k: int| rl + j <= k < out@.len() ==> out@[k] == old(out)@[k],
                forall|k: int| 0 <= k < rl ==> out@[k] == self.buffer@[st + k],
                forall|k: int| 0 <= k < j ==> out@[rl + k] == self.buffer@[k],
            decreases n - rl - j,
        {
            out[read_before_wraparound + j] = self.buffer[j];
            j = j + 1;
        }
        self.used = self.used - bytes_read;
        self.start = if bytes_read < cap - self.start {
            self.start + bytes_read
        } else {
            bytes_read - (cap - self.start)
        };
        proof {
            self.taken@ = self.taken@ + n as nat;
            assert(out@ =~= old(self).contents().take(n) + old(out)@.skip(n));
            assert(self.contents() =~= old(self).contents().skip(n));
            assert(self.contents() =~= self.hist@.skip(self.taken@ as int));
            assert(old(self).contents().take(n) =~= old(self).added().subrange(
                old(self).taken@ as int,
                old(self).taken@ + n,
            ));
        }
        bytes_read
    }
}

/// Everything the manager keeps about one stream: its addressing and credit
/// state, the ring that buffers received bytes until the caller reads them,
/// and whether the peer already asked to shut down while that ring was
/// non-empty.
pub struct Connection {
    /// The connection's addressing and credit state.
    pub info: ConnectionInfo,
    /// Received bytes waiting to be read by the caller.
    pub buffer: RingBuffer,
    /// The peer sent a shutdown request, but we have not yet answered with a
    /// reset because there is still data in the buffer.
    pub peer_requested_shutdown: bool,
}

impl Connection {
    /// Well-formedness: the ring is consistent and holds exactly the bytes
    /// we advertise to the peer as allocated.
    pub open spec fn wf(&self) -> bool {
        &&& self.buffer.wf()
        &&& self.buffer.capacity() == self.info.buf_alloc
        &&& self.info.buf_alloc > 0
    }

    /// A fresh connection to `peer` from local port `local_port`, before any
    /// event arrived: counters zero, ring empty, `buf_alloc` advertised as
    /// `buffer_capacity`.
    pub open spec fn is_fresh(&self, peer: VsockAddr, local_port: u32, buffer_capacity: u32) -> bool {
        &&& self.info == (ConnectionInfo {
            dst: peer,
            src_port: local_port,
            buf_alloc: buffer_capacity,
            peer_buf_alloc: 0,
            peer_fwd_cnt: 0,
            fwd_cnt: 0,
        })
        &&& self.buffer.capacity() == buffer_capacity
        &&& self.buffer.contents() == Seq::<u8>::empty()
        &&& self.buffer.added() == Seq::<u8>::empty()
        &&& self.buffer.drained() == 0
        &&& self.peer_requested_shutdown == false
        &&& self.wf()
    }

    /// Makes a fresh connection entry with a ring of `buffer_capacity`
    /// bytes, advertised to the peer in `buf_alloc`.
    pub fn new(peer: VsockAddr, local_port: u32, buffer_capacity: u32) -> (r: Self)
        requires
            buffer_capacity > 0,
        ensures
            r.is_fresh(peer, local_port, buffer_capacity),
    {
        let mut info = ConnectionInfo::new(peer, local_port);
        info.buf_alloc = buffer_capacity;
        Self {
            info,
            buffer: RingBuffer::new(buffer_capacity as usize),
            peer_requested_shutdown: false,
        }
    }
}

/// A pushed element is in a sequence exactly if it was there before or it
/// is the new one.
proof fn lemma_push_contains(s: Seq<u32>, x: u32, q: u32)
    ensures
        s.push(x).contains(q) == (s.contains(q) || q == x),
{
    if s.contains(q) {
        let j = choose|j: int| 0 <= j < s.len() && s[j] == q;
        assert(s.push(x)[j] == q);
    }
    if q == x {
        assert(s.push(x)[s.len() as int] == q);
    }
    if s.push(x).contains(q) && q != x {
        let j = choose|j: int| 0 <= j < s.push(x).len() && s.push(x)[j] == q;
        assert(j < s.len());
        assert(s[j] == q);
    }
}

/// Whether `c` is the connection to `peer` from our port `local_port`.
pub open spec fn conn_matches(c: Connection, peer: VsockAddr, local_port: u32) -> bool {
    c.info.dst == peer && c.info.src_port == local_port
}

/// Whether no connection in `conns` is addressed by `peer` and `local_port`.
pub open spec fn no_conn_for(conns: Seq<Connection>, peer: VsockAddr, local_port: u32) -> bool {
    forall|i: int| 0 <= i < conns.len() ==> !conn_matches(conns[i], peer, local_port)
}

/// Whether `i` is the first connection in `conns` that event `e` belongs to.
pub open spec fn first_event_match(conns: Seq<Connection>, e: VsockEvent, cid: u64, i: int) -> bool {
    &&& 0 <= i < conns.len()
    &&& e.spec_matches_connection(conns[i].info, cid)
    &&& forall|j: int| 0 <= j < i ==> !e.spec_matches_connection(conns[j].info, cid)
}

/// Whether event `e` belongs to no connection in `conns`.
pub open spec fn no_event_match(conns: Seq<Connection>, e: VsockEvent, cid: u64) -> bool {
    forall|i: int| 0 <= i < conns.len() ==> !e.spec_matches_connection(conns[i].info, cid)
}

/// The sequence after `Vec::swap_remove(i)`: the last element moves into
/// slot `i` and the length shrinks by one.
pub open spec fn swap_removed(conns: Seq<Connection>, i: int) -> Seq<Connection> {
    conns.update(i, conns.last()).drop_last()
}

/// The connection after the peer's buffer status was taken from event `e`.
pub open spec fn conn_after_event(c: Connection, e: VsockEvent) -> Connection {
    Connection { info: c.info.spec_update_for_event(e), ..c }
}

/// How `post` relates to `pre` when `bytes` were appended to the ring:
/// contents and accepted stream grow by `bytes`, everything else stays.
pub open spec fn buffer_after_add(pre: RingBuffer, post: RingBuffer, bytes: Seq<u8>) -> bool {
    &&& post.wf()
    &&& post.capacity() == pre.capacity()
    &&& post.contents() == pre.contents() + bytes
    &&& post.added() == pre.added() + bytes
    &&& post.drained() == pre.drained()
}

/// Whether `post` differs from `pre` at slot `i` alone.
pub open spec fn same_except(pre: Seq<Connection>, post: Seq<Connection>, i: int) -> bool {
    &&& post.len() == pre.len()
    &&& forall|j: int| 0 <= j < pre.len() && j != i ==> post[j] == pre[j]
}

/// Whether `i` is the first connection in `conns` addressed by `peer` and
/// `local_port`.
pub open spec fn first_conn_match(
    conns: Seq<Connection>,
    peer: VsockAddr,
    local_port: u32,
    i: int,
) -> bool {
    &&& 0 <= i < conns.len()
    &&& conn_matches(conns[i], peer, local_port)
    &&& forall|j: int| 0 <= j < i ==> !conn_matches(conns[j], peer, local_port)
}

/// How `post` relates to `pre` when `n` bytes were drained from the front
/// of the ring: the contents lose their first `n` bytes, the drained count
/// grows by `n`, the accepted stream stays.
pub open spec fn buffer_after_drain(pre: RingBuffer, post: RingBuffer, n: int) -> bool {
    &&& post.wf()
    &&& post.capacity() == pre.capacity()
    &&& post.contents() == pre.contents().skip(n)
    &&& post.added() == pre.added()
    &&& post.drained() == pre.drained() + n
}

/// How `recv` takes the connection list from `pre` to `post` and the
/// caller's buffer from `out_pre` to `out_post`: the matching connection's
/// ring is drained into the front of the buffer, our consumption counter
/// grows accordingly, and a connection whose peer already asked to shut
/// down is torn down once its ring runs empty.
pub open spec fn recv_transition(
    pre: Seq<Connection>,
    post: Seq<Connection>,
    peer: VsockAddr,
    src_port: u32,
    out_pre: Seq<u8>,
    out_post: Seq<u8>,
    r: Result<usize, Error>,
) -> bool {
    if no_conn_for(pre, peer, src_port) {
        r == Err::<usize, Error>(Error::NotConnected) && post == pre && out_post == out_pre
    } else {
        exists|i: int|
            {
                &&& #[trigger] first_conn_match(pre, peer, src_port, i)
                &&& {
                    let c = pre[i];
                    let n: int = if c.buffer.contents().len() <= out_pre.len() {
                        c.buffer.contents().len() as int
                    } else {
                        out_pre.len() as int
                    };
                    &&& out_post == c.buffer.contents().take(n) + out_pre.skip(n)
                    &&& c.buffer.contents().take(n) == c.buffer.added().subrange(
                        c.buffer.drained() as int,
                        c.buffer.drained() + n,
                    )
                    &&& if c.peer_requested_shutdown && c.buffer.contents().len() == n {
                        match r {
                            Ok(m) => m == n && post =~= swap_removed(pre, i),
                            Err(_) => {
                                &&& same_except(pre, post, i)
                                &&& post[i].info == c.info.spec_done_forwarding(n as usize)
                                &&& post[i].peer_requested_shutdown == c.peer_requested_shutdown
                                &&& buffer_after_drain(c.buffer, post[i].buffer, n)
                            },
                        }
                    } else {
                        &&& r == Ok::<usize, Error>(n as usize)
                        &&& same_except(pre, post, i)
                        &&& post[i].info == c.info.spec_done_forwarding(n as usize)
                        &&& post[i].peer_requested_shutdown == c.peer_requested_shutdown
                        &&& buffer_after_drain(c.buffer, post[i].buffer, n)
                    }
                }
            }
    }
}

/// The event-processing state machine: how one polled event `e` with
/// payload `body` takes the connection list from `pre` to `post` and what
/// the caller sees as `r`. `listening` tells which local ports accept
/// incoming connections, `cap` is the ring capacity given to a new
/// connection, and `cid` is our context id.
///
/// A clause that ends in an `Err` outcome means the lower transport
/// refused the send that the transition asked for; the connection list is
/// then left in the state described, for the caller to retry or tear down.
pub open spec fn poll_transition(
    pre: Seq<Connection>,
    post: Seq<Connection>,
    listening: Seq<u32>,
    cap: u32,
    cid: u64,
    e: VsockEvent,
    body: Seq<u8>,
    r: Result<Option<VsockEvent>, Error>,
) -> bool {
    if no_event_match(pre, e, cid) {
        if e.event_type == VsockEventType::ConnectionRequest && e.destination.cid == cid {
            // A new incoming connection request: admitted if we listen on
            // the port, rejected silently otherwise.
            exists|c: Connection|
                {
                    &&& #[trigger] c.is_fresh(e.source, e.destination.port, cap)
                    &&& if listening.contains(e.destination.port) {
                        match r {
                            Ok(surfaced) => surfaced == Some(e) && post == pre.push(
                                conn_after_event(c, e),
                            ),
                            Err(_) => post == pre.push(conn_after_event(c, e)),
                        }
                    } else {
                        match r {
                            Ok(surfaced) => surfaced == None::<VsockEvent> && post =~= pre,
                            Err(_) => post == pre.push(conn_after_event(c, e)),
                        }
                    }
                }
        } else {
            // An event for a connection we do not know: dropped.
            r == Ok::<Option<VsockEvent>, Error>(None) && post == pre
        }
    } else {
        exists|i: int|
            {
                &&& #[trigger] first_event_match(pre, e, cid, i)
                &&& {
                    let c = pre[i];
                    let cu = conn_after_event(c, e);
                    match e.event_type {
                        VsockEventType::ConnectionRequest =>
                        // A request for a connection that already exists:
                        // dropped silently.
                        r == Ok::<Option<VsockEvent>, Error>(None) && post == pre,
                        VsockEventType::Connected => {
                            &&& post == pre.update(i, cu)
                            &&& r == Ok::<Option<VsockEvent>, Error>(Some(e))
                        },
                        VsockEventType::Received { length } => {
                            if body.len() + c.buffer.contents().len() <= c.buffer.capacity() {
                                &&& same_except(pre, post, i)
                                &&& post[i].info == cu.info
                                &&& post[i].peer_requested_shutdown == c.peer_requested_shutdown
                                &&& buffer_after_add(c.buffer, post[i].buffer, body)
                                &&& r == Ok::<Option<VsockEvent>, Error>(Some(e))
                            } else {
                                &&& post == pre.update(i, cu)
                                &&& r == Err::<Option<VsockEvent>, Error>(
                                    Error::OutputBufferTooShort(length),
                                )
                            }
                        },
                        VsockEventType::Disconnected { reason } => {
                            if c.buffer.contents().len() == 0 {
                                match r {
                                    Ok(surfaced) => surfaced == Some(e) && post =~= swap_removed(
                                        pre.update(i, cu),
                                        i,
                                    ),
                                    Err(_) => reason == DisconnectReason::Shutdown && post
                                        == pre.update(i, cu),
                                }
                            } else {
                                &&& post == pre.update(
                                    i,
                                    Connection { peer_requested_shutdown: true, ..cu },
                                )
                                &&& r == Ok::<Option<VsockEvent>, Error>(Some(e))
                            }
                        },
                        VsockEventType::CreditRequest => {
                            &&& post == pre.update(i, cu)
                            &&& match r {
                                Ok(surfaced) => surfaced == None::<VsockEvent>,
                                Err(_) => true,
                            }
                        },
                        VsockEventType::CreditUpdate => {
                            &&& post == pre.update(i, cu)
                            &&& r == Ok::<Option<VsockEvent>, Error>(Some(e))
                        },
                    }
                }
            }
    }
}

/// An incoming connection request for a port nobody listens on leaves no
/// trace: when the rejection send went through, nothing is surfaced to
/// the caller and the connection list is exactly what it was before the
/// event arrived.
pub proof fn lemma_unlistened_request_rejected(
    pre: Seq<Connection>,
    post: Seq<Connection>,
    listening: Seq<u32>,
    cap: u32,
    cid: u64,
    e: VsockEvent,
    body: Seq<u8>,
    r: Result<Option<VsockEvent>, Error>,
)
    requires
        poll_transition(pre, post, listening, cap, cid, e, body, r),
        e.event_type == VsockEventType::ConnectionRequest,
        !listening.contains(e.destination.port),
        no_event_match(pre, e, cid),
        r is Ok,
    ensures
        r == Ok::<Option<VsockEvent>, Error>(None),
        post == pre,
{
    if e.destination.cid == cid {
        let c = choose|c: Connection|
            {
                &&& #[trigger] c.is_fresh(e.source, e.destination.port, cap)
                &&& match r {
                    Ok(surfaced) => surfaced == None::<VsockEvent> && post =~= pre,
                    Err(_) => post == pre.push(conn_after_event(c, e)),
                }
            };
    }
}

/// Returns the index of the first connection in `connections` matching the
/// given peer address and local port, or `NotConnected` if there is none.
#[verifier::loop_isolation(false)]
fn get_connection(connections: &Vec<Connection>, peer: VsockAddr, local_port: u32) -> (r: Result<
    usize,
    Error,
>)
    ensures
        match r {
            Ok(i) => {
                &&& i < connections@.len()
                &&& conn_matches(connections@[i as int], peer, local_port)
                &&& forall|j: int|
                    0 <= j < i ==> !conn_matches(connections@[j], peer, local_port)
            },
            Err(e) => e == Error::NotConnected && no_conn_for(connections@, peer, local_port),
        },
{
    let mut i: usize = 0;
    while i < connections.len()
        invariant
            i <= connections@.len(),
            forall|j: int| 0 <= j < i ==> !conn_matches(connections@[j], peer, local_port),
        decreases connections@.len() - i,
    {
        let c = &connections[i];
        if c.info.dst == peer && c.info.src_port == local_port {
            return Ok(i);
        }
        i = i + 1;
    }
    Err(Error::NotConnected)
}

/// Returns the index of the first connection in `connections` that `event`
/// belongs to, if any.
#[verifier::loop_isolation(false)]
fn get_connection_for_event(connections: &Vec<Connection>, event: &VsockEvent, local_cid: u64) -> (r:
    Option<usize>)
    ensures
        match r {
            Some(i) => first_event_match(connections@, *event, local_cid, i as int),
            None => no_event_match(connections@, *event, local_cid),
        },
{
    let mut i: usize = 0;
    while i < connections.len()
        invariant
            i <= connections@.len(),
            forall|j: int|
                0 <= j < i ==> !event.spec_matches_connection(connections@[j].info, local_cid),
        decreases connections@.len() - i,
    {
        let c = &connections[i];
        if event.matches_connection(&c.info, local_cid) {
            return Some(i);
        }
        i = i + 1;
    }
    None
}

/// The shared core of the driver-side and device-side connection managers:
/// a lower-level vsock transport, the list of live connections, and the set
/// of local ports that accept incoming connections.
pub struct VsockConnectionManagerCommon<M: VsockTransport> {
    driver: M,
    per_connection_buffer_capacity: u32,
    connections: Vec<Connection>,
    listening_ports: Vec<u32>,
}

impl<M: VsockTransport> VsockConnectionManagerCommon<M> {
    /// The live connections, in match order.
    pub closed spec fn conns(&self) -> Seq<Connection> {
        self.connections@
    }

    /// The local ports that accept incoming connections.
    pub closed spec fn ports(&self) -> Seq<u32> {
        self.listening_ports@
    }

    /// Whether incoming connections to `port` are accepted.
    pub open spec fn spec_listening(&self, port: u32) -> bool {
        self.ports().contains(port)
    }

    /// The ring capacity given to each new connection.
    pub closed spec fn capacity(&self) -> u32 {
        self.per_connection_buffer_capacity
    }

    /// Well-formedness: the capacity is usable and every connection's ring
    /// is consistent.
    pub closed spec fn wf(&self) -> bool {
        &&& self.per_connection_buffer_capacity > 0
        &&& forall|i: int| 0 <= i < self.connections@.len() ==> (#[trigger] self.connections@[i]).wf()
    }

    /// Makes a manager over the given transport with the given ring
    /// capacity per connection.
    pub fn new_with_capacity(driver: M, per_connection_buffer_capacity: u32) -> (r: Self)
        requires
            per_connection_buffer_capacity > 0,
        ensures
            r.wf(),
            r.conns() == Seq::<Connection>::empty(),
            r.ports() == Seq::<u32>::empty(),
            r.capacity() == per_connection_buffer_capacity,
    {
        Self {
            driver,
            connections: Vec::new(),
            listening_ports: Vec::new(),
            per_connection_buffer_capacity,
        }
    }

    /// Returns the context id of this endpoint, as the transport reports
    /// it.
    pub fn guest_cid(&self) -> u64 {
        self.driver.local_cid()
    }

    /// Allows incoming connections on the given port number. Idempotent.
    pub fn listen(&mut self, port: u32)
        requires
            old(self).wf(),
        ensures
            final(self).wf(),
            final(self).conns() == old(self).conns(),
            final(self).capacity() == old(self).capacity(),
            forall|q: u32|
                final(self).spec_listening(q) == (old(self).spec_listening(q) || q == port),
    {
        if !contains_port(&self.listening_ports, port) {
            self.listening_ports.push(port);
            proof {
                assert forall|q: u32|
                    self.spec_listening(q) == (old(self).spec_listening(q) || q == port) by {
                    lemma_push_contains(old(self).ports(), port, q);
                }
            }
        }
    }

    /// Stops allowing incoming connections on the given port number.
    pub fn unlisten(&mut self, port: u32)
        requires
            old(self).wf(),
        ensures
            final(self).wf(),
            final(self).conns() == old(self).conns(),
            final(self).capacity() == old(self).capacity(),
            forall|q: u32|
                final(self).spec_listening(q) == (old(self).spec_listening(q) && q != port),
    {
        let mut kept: Vec<u32> = Vec::new();
        let mut i: usize = 0;
        #[verifier::loop_isolation(false)]
        while i < self.listening_ports.len()
            invariant
                i <= self.listening_ports@.len(),
                forall|q: u32|
                    kept@.contains(q) == (#[trigger] self.listening_ports@.take(i as int).contains(
                        q,
                    ) && q != port),
            decreases self.listening_ports@.len() - i,
        {
            let ghost i0 = i as int;
            let p = self.listening_ports[i];
            let ghost kept_pre = kept@;
            if p != port {
                kept.push(p);
            }
            i = i + 1;
            proof {
                let pre = self.listening_ports@.take(i0);
                assert forall|q: u32|
                    kept@.contains(q) == (#[trigger] self.listening_ports@.take(i as int).contains(
                        q,
                    ) && q != port) by {
                    assert(kept_pre.contains(q) == (pre.contains(q) && q != port));
                    assert(self.listening_ports@.take(i as int) =~= pre.push(p));
                    lemma_push_contains(pre, p, q);
                    if p != port {
                        assert(kept@ == kept_pre.push(p));
                        lemma_push_contains(kept_pre, p, q);
                    }
                }
            }
        }
        let ghost full = self.listening_ports@;
        proof {
            assert forall|q: u32| kept@.contains(q) == (full.contains(q) && q != port) by {
                assert(full.take(i as int) =~= full);
                assert(kept@.contains(q) == (full.take(i as int).contains(q) && q != port));
            }
        }
        self.listening_ports = kept;
        proof {
            assert forall|q: u32|
                self.spec_listening(q) == (old(self).spec_listening(q) && q != port) by {
                assert(kept@.contains(q) == (full.contains(q) && q != port));
            }
        }
    }

    /// Sends the buffer to the given destination over the connection from
    /// `src_port`. The transport is responsible for respecting the peer's
    /// credit; the manager does not split the buffer.
    pub fn send(&mut self, destination: VsockAddr, src_port: u32, buffer: &[u8]) -> (r: Result<
        (),
        Error,
    >)
        requires
            old(self).wf(),
        ensures
            final(self).wf(),
            final(self).conns() == old(self).conns(),
            final(self).ports() == old(self).ports(),
            final(self).capacity() == old(self).capacity(),
            no_conn_for(old(self).conns(), destination, src_port) ==> r == Err::<(), Error>(
                Error::NotConnected,
            ),
    {
        let idx = match get_connection(&self.connections, destination, src_port) {
            Ok(i) => i,
            Err(e) => {
                return Err(e);
            },
        };
        let connection = &self.connections[idx];
        self.driver.send(buffer, &connection.info)
    }

    /// Drives the RX side: asks the transport for at most one event and
    /// processes it as [`poll_transition`] describes, returning the event
    /// if it is one the caller should see.
    pub fn poll(&mut self) -> (r: Result<Option<VsockEvent>, Error>)
        requires
            old(self).wf(),
        ensures
            final(self).wf(),
            final(self).ports() == old(self).ports(),
            final(self).capacity() == old(self).capacity(),
            final(self).conns() == old(self).conns() || exists|cid: u64, e: VsockEvent, b: Seq<u8>|
                poll_transition(
                    old(self).conns(),
                    final(self).conns(),
                    old(self).ports(),
                    old(self).capacity(),
                    cid,
                    e,
                    b,
                    r,
                ),
            r matches Ok(Some(ev)) ==> exists|cid: u64, e: VsockEvent, b: Seq<u8>|
                poll_transition(
                    old(self).conns(),
                    final(self).conns(),
                    old(self).ports(),
                    old(self).capacity(),
                    cid,
                    e,
                    b,
                    r,
                ),
    {
        let local_cid = self.driver.local_cid();
        let polled = match self.driver.poll_event() {
            Ok(p) => p,
            Err(e) => {
                return Err(e);
            },
        };
        match polled {
            None => Ok(None),
            Some((event, body)) => {
                let r = self.handle_event(local_cid, event, body.as_slice());
                proof {
                    assert(poll_transition(
                        old(self).conns(),
                        self.conns(),
                        old(self).ports(),
                        old(self).capacity(),
                        local_cid,
                        event,
                        body@,
                        r,
                    ));
                }
                r
            },
        }
    }

    /// Processes one event `event` with payload `body`, polled from a
    /// transport whose context id is `local_cid`, exactly as
    /// [`poll_transition`] describes.
    pub fn handle_event(&mut self, local_cid: u64, event: VsockEvent, body: &[u8]) -> (r: Result<
        Option<VsockEvent>,
        Error,
    >)
        requires
            old(self).wf(),
        ensures
            final(self).wf(),
            final(self).ports() == old(self).ports(),
            final(self).capacity() == old(self).capacity(),
            poll_transition(
                old(self).conns(),
                final(self).conns(),
                old(self).ports(),
                old(self).capacity(),
                local_cid,
                event,
                body@,
                r,
            ),
    {
        let ghost pre = old(self).conns();
        let found = get_connection_for_event(&self.connections, &event, local_cid);
        let is_request = matches!(event.event_type, VsockEventType::ConnectionRequest);
        let idx: usize;
        let ghost fresh: bool;
        match found {
            Some(i) => {
                if is_request {
                    // A request for a connection that already exists is
                    // dropped silently.
                    proof {
                        assert(first_event_match(pre, event, local_cid, i as int));
                    }
                    return Ok(None);
                }
                idx = i;
                proof {
                    fresh = false;
                }
            },
            None => {
                if !is_request {
                    // An event for a connection we do not know: dropped.
                    return Ok(None);
                }
                if event.destination.cid != local_cid {
                    // A request that is not addressed to us: dropped.
                    return Ok(None);
                }
                // Add the new connection to our list, provisionally; it is
                // removed again below if we were not listening on the port.
                let new_connection = Connection::new(
                    event.source,
                    event.destination.port,
                    self.per_connection_buffer_capacity,
                );
                idx = self.connections.len();
                self.connections.push(new_connection);
                proof {
                    fresh = true;
                }
            },
        }
        let ghost base = self.conns();
        let ghost c = base[idx as int];
        let ghost cu = conn_after_event(c, event);
        proof {
            if fresh {
                assert(c.is_fresh(event.source, event.destination.port, old(self).capacity()));
                assert(base =~= pre.push(c));
            } else {
                assert(first_event_match(pre, event, local_cid, idx as int));
                assert(base == pre);
            }
        }
        // Update stored connection info from the event.
        {
            let connection = &mut self.connections[idx];
            connection.info.update_for_event(&event);
        }
        proof {
            assert(self.conns() =~= base.update(idx as int, cu));
        }
        if let VsockEventType::Received { length } = event.event_type {
            // Copy the payload into the connection's ring; refuse the whole
            // datagram if it does not fit.
            let connection = &mut self.connections[idx];
            if !connection.buffer.add(body) {
                proof {
                    assert(self.conns() =~= pre.update(idx as int, cu));
                }
                return Err(Error::OutputBufferTooShort(length));
            }
            proof {
                assert(same_except(pre, self.conns(), idx as int));
                assert(buffer_after_add(c.buffer, self.conns()[idx as int].buffer, body@));
            }
        }
        match event.event_type {
            VsockEventType::ConnectionRequest => {
                proof {
                    assert(self.conns() =~= pre.push(cu));
                }
                if contains_port(&self.listening_ports, event.destination.port) {
                    match self.driver.accept(&self.connections[idx].info) {
                        Ok(()) => Ok(Some(event)),
                        Err(e) => Err(e),
                    }
                } else {
                    // Reject the request and remove the provisional entry;
                    // the caller never sees the event.
                    match self.driver.force_close(&self.connections[idx].info) {
                        Ok(()) => {
                            self.connections.swap_remove(idx);
                            proof {
                                assert(self.conns() =~= pre);
                            }
                            Ok(None)
                        },
                        Err(e) => Err(e),
                    }
                }
            },
            VsockEventType::Connected => Ok(Some(event)),
            VsockEventType::Received { .. } => Ok(Some(event)),
            VsockEventType::Disconnected { reason } => {
                let empty = self.connections[idx].buffer.is_empty();
                if empty {
                    // Nothing left to read: finish the teardown now.
                    if reason == DisconnectReason::Shutdown {
                        match self.driver.force_close(&self.connections[idx].info) {
                            Ok(()) => {},
                            Err(e) => {
                                return Err(e);
                            },
                        }
                    }
                    self.connections.swap_remove(idx);
                    proof {
                        assert(self.conns() =~= swap_removed(
                            pre.update(idx as int, cu),
                            idx as int,
                        ));
                    }
                } else {
                    // Let the caller drain the ring first; `recv` finishes
                    // the teardown once it runs empty.
                    let connection = &mut self.connections[idx];
                    connection.peer_requested_shutdown = true;
                    proof {
                        assert(self.conns() =~= pre.update(
                            idx as int,
                            Connection { peer_requested_shutdown: true, ..cu },
                        ));
                    }
                }
                Ok(Some(event))
            },
            VsockEventType::CreditRequest => {
                // Answered internally; the caller never sees the event.
                match self.driver.credit_update(&self.connections[idx].info) {
                    Ok(()) => Ok(None),
                    Err(e) => Err(e),
                }
            },
            VsockEventType::CreditUpdate => Ok(Some(event)),
        }
    }

    /// Reads data received from the given connection into the front of
    /// `buffer`, following [`recv_transition`]: as many buffered bytes as
    /// fit are copied out, the peer is credited for them, and a connection
    /// whose peer already asked to shut down is torn down once its ring
    /// runs empty.
    pub fn recv(&mut self, peer: VsockAddr, src_port: u32, buffer: &mut [u8]) -> (r: Result<
        usize,
        Error,
    >)
        requires
            old(self).wf(),
        ensures
            final(self).wf(),
            final(self).ports() == old(self).ports(),
            final(self).capacity() == old(self).capacity(),
            final(buffer)@.len() == old(buffer)@.len(),
            recv_transition(
                old(self).conns(),
                final(self).conns(),
                peer,
                src_port,
                old(buffer)@,
                final(buffer)@,
                r,
            ),
    {
        let ghost pre = old(self).conns();
        let idx = match get_connection(&self.connections, peer, src_port) {
            Ok(i) => i,
            Err(e) => {
                return Err(e);
            },
        };
        let ghost c = pre[idx as int];
        proof {
            assert(first_conn_match(pre, peer, src_port, idx as int));
        }
        let bytes_read: usize;
        {
            let connection = &mut self.connections[idx];
            bytes_read = connection.buffer.drain(buffer);
            connection.info.done_forwarding(bytes_read);
        }
        let should_remove: bool;
        {
            let connection = &self.connections[idx];
            should_remove = connection.peer_requested_shutdown && connection.buffer.is_empty();
        }
        if should_remove {
            // The peer asked to shut down and the ring is now empty: answer
            // with a reset and drop the connection.
            match self.driver.force_close(&self.connections[idx].info) {
                Ok(()) => {},
                Err(e) => {
                    return Err(e);
                },
            }
            self.connections.swap_remove(idx);
            proof {
                assert(self.conns() =~= swap_removed(pre, idx as int));
            }
        }
        Ok(bytes_read)
    }

    /// Returns the number of bytes buffered on the given connection,
    /// available to be read by `recv`.
    pub fn recv_buffer_available_bytes(&mut self, peer: VsockAddr, src_port: u32) -> (r: Result<
        usize,
        Error,
    >)
        requires
            old(self).wf(),
        ensures
            *final(self) == *old(self),
            match r {
                Ok(n) => exists|i: int|
                    #[trigger] first_conn_match(old(self).conns(), peer, src_port, i) && n == old(
                        self,
                    ).conns()[i].buffer.contents().len(),
                Err(e) => e == Error::NotConnected && no_conn_for(
                    old(self).conns(),
                    peer,
                    src_port,
                ),
            },
    {
        let idx = match get_connection(&self.connections, peer, src_port) {
            Ok(i) => i,
            Err(e) => {
                return Err(e);
            },
        };
        proof {
            assert(first_conn_match(self.conns(), peer, src_port, idx as int));
        }
        Ok(self.connections[idx].buffer.used())
    }

    /// Sends an unsolicited credit update for the given connection, telling
    /// the peer our current buffer status.
    pub fn update_credit(&mut self, peer: VsockAddr, src_port: u32) -> (r: Result<(), Error>)
        requires
            old(self).wf(),
        ensures
            final(self).wf(),
            final(self).conns() == old(self).conns(),
            final(self).ports() == old(self).ports(),
            final(self).capacity() == old(self).capacity(),
            no_conn_for(old(self).conns(), peer, src_port) ==> r == Err::<(), Error>(
                Error::NotConnected,
            ),
    {
        let idx = match get_connection(&self.connections, peer, src_port) {
            Ok(i) => i,
            Err(e) => {
                return Err(e);
            },
        };
        self.driver.credit_update(&self.connections[idx].info)
    }

    /// Blocks until the transport yields an event the caller should see,
    /// spinning on `poll`. A returned event is one that some poll
    /// transition surfaced, out of the connection state the manager held
    /// just before that last poll.
    pub fn wait_for_event(&mut self) -> (r: Result<VsockEvent, Error>)
        requires
            old(self).wf(),
        ensures
            final(self).wf(),
            final(self).ports() == old(self).ports(),
            final(self).capacity() == old(self).capacity(),
            r matches Ok(ev) ==> exists|pre: Seq<Connection>, cid: u64, e: VsockEvent, b: Seq<u8>|
                poll_transition(
                    pre,
                    final(self).conns(),
                    old(self).ports(),
                    old(self).capacity(),
                    cid,
                    e,
                    b,
                    Ok(Some(ev)),
                ),
    {
        // The spin is bounded only so that the loop has a variant; at any
        // realistic polling rate the bound is centuries away.
        let mut spins: u64 = u64::MAX;
        while spins > 0
            invariant
                self.wf(),
                self.ports() == old(self).ports(),
                self.capacity() == old(self).capacity(),
            decreases spins,
        {
            let ghost pre_conns = self.conns();
            match self.poll() {
                Ok(Some(event)) => {
                    proof {
                        let res = Ok::<Option<VsockEvent>, Error>(Some(event));
                        let (cid, e, b) = choose|cid: u64, e: VsockEvent, b: Seq<u8>|
                            poll_transition(
                                pre_conns,
                                self.conns(),
                                old(self).ports(),
                                old(self).capacity(),
                                cid,
                                e,
                                b,
                                res,
                            );
                        assert(poll_transition(
                            pre_conns,
                            self.conns(),
                            old(self).ports(),
                            old(self).capacity(),
                            cid,
                            e,
                            b,
                            Ok(Some(event)),
                        ));
                    }
                    return Ok(event);
                },
                Ok(None) => {},
                Err(e) => {
                    return Err(e);
                },
            }
            spins = spins - 1;
        }
        Err(Error::NotReady)
    }

    /// Asks the peer to shut the given connection down cleanly, telling it
    /// that we will not send or receive any more data. The connection is
    /// kept until the peer answers.
    pub fn shutdown(&mut self, destination: VsockAddr, src_port: u32) -> (r: Result<(), Error>)
        requires
            old(self).wf(),
        ensures
            final(self).wf(),
            final(self).conns() == old(self).conns(),
            final(self).ports() == old(self).ports(),
            final(self).capacity() == old(self).capacity(),
            no_conn_for(old(self).conns(), destination, src_port) ==> r == Err::<(), Error>(
                Error::NotConnected,
            ),
    {
        let idx = match get_connection(&self.connections, destination, src_port) {
            Ok(i) => i,
            Err(e) => {
                return Err(e);
            },
        };
        self.driver.shutdown(&self.connections[idx].info)
    }

    /// Resets the given connection and drops it at once, without waiting
    /// for the peer.
    pub fn force_close(&mut self, destination: VsockAddr, src_port: u32) -> (r: Result<(), Error>)
        requires
            old(self).wf(),
        ensures
            final(self).wf(),
            final(self).ports() == old(self).ports(),
            final(self).capacity() == old(self).capacity(),
            no_conn_for(old(self).conns(), destination, src_port) ==> r == Err::<(), Error>(
                Error::NotConnected,
            ) && final(self).conns() == old(self).conns(),
            !no_conn_for(old(self).conns(), destination, src_port) ==> exists|i: int|
                {
                    &&& #[trigger] first_conn_match(old(self).conns(), destination, src_port, i)
                    &&& match r {
                        Ok(u) => final(self).conns() =~= swap_removed(old(self).conns(), i),
                        Err(_) => final(self).conns() == old(self).conns(),
                    }
                },
    {
        let ghost pre = old(self).conns();
        let idx = match get_connection(&self.connections, destination, src_port) {
            Ok(i) => i,
            Err(e) => {
                return Err(e);
            },
        };
        proof {
            assert(first_conn_match(pre, destination, src_port, idx as int));
        }
        match self.driver.force_close(&self.connections[idx].info) {
            Ok(()) => {},
            Err(e) => {
                return Err(e);
            },
        }
        self.connections.swap_remove(idx);
        proof {
            assert(self.conns() =~= swap_removed(pre, idx as int));
        }
        Ok(())
    }
}

/// The ring capacity a connection gets when the caller does not choose
/// one.
pub const DEFAULT_PER_CONNECTION_BUFFER_CAPACITY: u32 = 1024;

/// A higher-level interface for vsock drivers (the guest side): a
/// connection manager over a driver-side transport. This side may open
/// outgoing connections.
pub struct VsockConnectionManager<M: VsockTransport>(VsockConnectionManagerCommon<M>);

impl<M: VsockTransport> VsockConnectionManager<M> {
    /// The live connections, in match order.
    pub closed spec fn conns(&self) -> Seq<Connection> {
        self.0.conns()
    }

    /// The local ports that accept incoming connections.
    pub closed spec fn ports(&self) -> Seq<u32> {
        self.0.ports()
    }

    /// Whether incoming connections to `port` are accepted.
    pub open spec fn spec_listening(&self, port: u32) -> bool {
        self.ports().contains(port)
    }

    /// The ring capacity given to each new connection.
    pub closed spec fn capacity(&self) -> u32 {
        self.0.capacity()
    }

    /// Well-formedness of the manager's state.
    pub closed spec fn wf(&self) -> bool {
        self.0.wf()
    }

    /// Makes a connection manager wrapping the given low-level transport,
    /// with the default ring capacity per connection.
    pub fn new(driver: M) -> (r: Self)
        ensures
            r.wf(),
            r.conns() == Seq::<Connection>::empty(),
            r.ports() == Seq::<u32>::empty(),
            r.capacity() == DEFAULT_PER_CONNECTION_BUFFER_CAPACITY,
    {
        Self::new_with_capacity(driver, DEFAULT_PER_CONNECTION_BUFFER_CAPACITY)
    }

    /// Makes a connection manager wrapping the given low-level transport,
    /// with the given ring capacity per connection.
    pub fn new_with_capacity(driver: M, per_connection_buffer_capacity: u32) -> (r: Self)
        requires
            per_connection_buffer_capacity > 0,
        ensures
            r.wf(),
            r.conns() == Seq::<Connection>::empty(),
            r.ports() == Seq::<u32>::empty(),
            r.capacity() == per_connection_buffer_capacity,
    {
        Self(
            VsockConnectionManagerCommon::new_with_capacity(
                driver,
                per_connection_buffer_capacity,
            ),
        )
    }

    /// Returns the context id assigned to this guest, as the transport
    /// reports it.
    pub fn guest_cid(&self) -> u64 {
        self.0.guest_cid()
    }

    /// Sends a request to connect to the given destination from our port
    /// `src_port`.
    ///
    /// This returns as soon as the request is sent; the caller should poll
    /// until a `Connected` event arrives before sending data.
    pub fn connect(&mut self, destination: VsockAddr, src_port: u32) -> (r: Result<(), Error>)
        requires
            old(self).wf(),
        ensures
            final(self).wf(),
            final(self).ports() == old(self).ports(),
            final(self).capacity() == old(self).capacity(),
            !no_conn_for(old(self).conns(), destination, src_port) ==> r == Err::<(), Error>(
                Error::ConnectionExists,
            ) && final(self).conns() == old(self).conns(),
            no_conn_for(old(self).conns(), destination, src_port) ==> match r {
                Ok(u) => exists|c: Connection|
                    #[trigger] c.is_fresh(destination, src_port, old(self).capacity())
                        && final(self).conns() == old(self).conns().push(c),
                Err(_) => final(self).conns() == old(self).conns(),
            },
    {
        match get_connection(&self.0.connections, destination, src_port) {
            Ok(u) => {
                return Err(Error::ConnectionExists);
            },
            Err(u) => {},
        }
        let new_connection = Connection::new(
            destination,
            src_port,
            self.0.per_connection_buffer_capacity,
        );
        match self.0.driver.connect(&new_connection.info) {
            Ok(u) => {},
            Err(e) => {
                return Err(e);
            },
        }
        let ghost gc = new_connection;
        self.0.connections.push(new_connection);
        proof {
            assert(gc.is_fresh(destination, src_port, old(self).capacity()));
        }
        Ok(())
    }

    /// Allows incoming connections on the given port number. Idempotent.
    pub fn listen(&mut self, port: u32)
        requires
            old(self).wf(),
        ensures
            final(self).wf(),
            final(self).conns() == old(self).conns(),
            final(self).capacity() == old(self).capacity(),
            forall|q: u32|
                final(self).spec_listening(q) == (old(self).spec_listening(q) || q == port),
    {
        self.0.listen(port);
        proof {
            assert forall|q: u32|
                self.spec_listening(q) == (old(self).spec_listening(q) || q == port) by {
                assert(self.0.spec_listening(q) == (old(self).0.spec_listening(q) || q == port));
            }
        }
    }

    /// Stops allowing incoming connections on the given port number.
    pub fn unlisten(&mut self, port: u32)
        requires
            old(self).wf(),
        ensures
            final(self).wf(),
            final(self).conns() == old(self).conns(),
            final(self).capacity() == old(self).capacity(),
            forall|q: u32|
                final(self).spec_listening(q) == (old(self).spec_listening(q) && q != port),
    {
        self.0.unlisten(port);
        proof {
            assert forall|q: u32|
                self.spec_listening(q) == (old(self).spec_listening(q) && q != port) by {
                assert(self.0.spec_listening(q) == (old(self).0.spec_listening(q) && q != port));
            }
        }
    }

    /// Sends the buffer to the given destination over the connection from
    /// `src_port`.
    pub fn send(&mut self, destination: VsockAddr, src_port: u32, buffer: &[u8]) -> (r: Result<
        (),
        Error,
    >)
        requires
            old(self).wf(),
        ensures
            final(self).wf(),
            final(self).conns() == old(self).conns(),
            final(self).ports() == old(self).ports(),
            final(self).capacity() == old(self).capacity(),
            no_conn_for(old(self).conns(), destination, src_port) ==> r == Err::<(), Error>(
                Error::NotConnected,
            ),
    {
        self.0.send(destination, src_port, buffer)
    }

    /// Drives the RX side: asks the transport for at most one event and
    /// processes it as [`poll_transition`] describes.
    pub fn poll(&mut self) -> (r: Result<Option<VsockEvent>, Error>)
        requires
            old(self).wf(),
        ensures
            final(self).wf(),
            final(self).ports() == old(self).ports(),
            final(self).capacity() == old(self).capacity(),
            final(self).conns() == old(self).conns() || exists|cid: u64, e: VsockEvent, b: Seq<u8>|
                poll_transition(
                    old(self).conns(),
                    final(self).conns(),
                    old(self).ports(),
                    old(self).capacity(),
                    cid,
                    e,
                    b,
                    r,
                ),
            r matches Ok(Some(ev)) ==> exists|cid: u64, e: VsockEvent, b: Seq<u8>|
                poll_transition(
                    old(self).conns(),
                    final(self).conns(),
                    old(self).ports(),
                    old(self).capacity(),
                    cid,
                    e,
                    b,
                    r,
                ),
    {
        let r = self.0.poll();
        proof {
            if self.0.conns() != old(self).0.conns() || r matches Ok(Some(_)) {
                let (cid, e, b) = choose|cid: u64, e: VsockEvent, b: Seq<u8>|
                    poll_transition(
                        old(self).0.conns(),
                        self.0.conns(),
                        old(self).0.ports(),
                        old(self).0.capacity(),
                        cid,
                        e,
                        b,
                        r,
                    );
                assert(poll_transition(
                    old(self).conns(),
                    self.conns(),
                    old(self).ports(),
                    old(self).capacity(),
                    cid,
                    e,
                    b,
                    r,
                ));
            }
        }
        r
    }

    /// Processes one already-polled event, exactly as [`poll_transition`]
    /// describes.
    pub fn handle_event(&mut self, local_cid: u64, event: VsockEvent, body: &[u8]) -> (r: Result<
        Option<VsockEvent>,
        Error,
    >)
        requires
            old(self).wf(),
        ensures
            final(self).wf(),
            final(self).ports() == old(self).ports(),
            final(self).capacity() == old(self).capacity(),
            poll_transition(
                old(self).conns(),
                final(self).conns(),
                old(self).ports(),
                old(self).capacity(),
                local_cid,
                event,
                body@,
                r,
            ),
    {
        self.0.handle_event(local_cid, event, body)
    }

    /// Reads data received from the given connection into the front of
    /// `buffer`, following [`recv_transition`].
    pub fn recv(&mut self, peer: VsockAddr, src_port: u32, buffer: &mut [u8]) -> (r: Result<
        usize,
        Error,
    >)
        requires
            old(self).wf(),
        ensures
            final(self).wf(),
            final(self).ports() == old(self).ports(),
            final(self).capacity() == old(self).capacity(),
            final(buffer)@.len() == old(buffer)@.len(),
            recv_transition(
                old(self).conns(),
                final(self).conns(),
                peer,
                src_port,
                old(buffer)@,
                final(buffer)@,
                r,
            ),
    {
        self.0.recv(peer, src_port, buffer)
    }

    /// Returns the number of bytes buffered on the given connection,
    /// available to be read by `recv`.
    pub fn recv_buffer_available_bytes(&mut self, peer: VsockAddr, src_port: u32) -> (r: Result<
        usize,
        Error,
    >)
        requires
            old(self).wf(),
        ensures
            *final(self) == *old(self),
            match r {
                Ok(n) => exists|i: int|
                    #[trigger] first_conn_match(old(self).conns(), peer, src_port, i) && n == old(
                        self,
                    ).conns()[i].buffer.contents().len(),
                Err(e) => e == Error::NotConnected && no_conn_for(
                    old(self).conns(),
                    peer,
                    src_port,
                ),
            },
    {
        let r = self.0.recv_buffer_available_bytes(peer, src_port);
        proof {
            match r {
                Ok(n) => {
                    let i = choose|i: int|
                        #[trigger] first_conn_match(old(self).0.conns(), peer, src_port, i) && n
                            == old(self).0.conns()[i].buffer.contents().len();
                    assert(first_conn_match(old(self).conns(), peer, src_port, i));
                },
                Err(_) => {},
            }
        }
        r
    }

    /// Sends an unsolicited credit update for the given connection.
    pub fn update_credit(&mut self, peer: VsockAddr, src_port: u32) -> (r: Result<(), Error>)
        requires
            old(self).wf(),
        ensures
            final(self).wf(),
            final(self).conns() == old(self).conns(),
            final(self).ports() == old(self).ports(),
            final(self).capacity() == old(self).capacity(),
            no_conn_for(old(self).conns(), peer, src_port) ==> r == Err::<(), Error>(
                Error::NotConnected,
            ),
    {
        self.0.update_credit(peer, src_port)
    }

    /// Blocks until the transport yields an event the caller should see.
    /// A returned event is one that some poll transition surfaced, out of
    /// the connection state the manager held just before that last poll.
    pub fn wait_for_event(&mut self) -> (r: Result<VsockEvent, Error>)
        requires
            old(self).wf(),
        ensures
            final(self).wf(),
            final(self).ports() == old(self).ports(),
            final(self).capacity() == old(self).capacity(),
            r matches Ok(ev) ==> exists|pre: Seq<Connection>, cid: u64, e: VsockEvent, b: Seq<u8>|
                poll_transition(
                    pre,
                    final(self).conns(),
                    old(self).ports(),
                    old(self).capacity(),
                    cid,
                    e,
                    b,
                    Ok(Some(ev)),
                ),
    {
        let r = self.0.wait_for_event();
        proof {
            match r {
                Ok(ev) => {
                    let (pre, cid, e, b) = choose|
                        pre: Seq<Connection>,
                        cid: u64,
                        e: VsockEvent,
                        b: Seq<u8>,
                    |
                        poll_transition(
                            pre,
                            self.0.conns(),
                            old(self).0.ports(),
                            old(self).0.capacity(),
                            cid,
                            e,
                            b,
                            Ok(Some(ev)),
                        );
                    assert(poll_transition(
                        pre,
                        self.conns(),
                        old(self).ports(),
                        old(self).capacity(),
                        cid,
                        e,
                        b,
                        Ok(Some(ev)),
                    ));
                },
                Err(_) => {},
            }
        }
        r
    }

    /// Asks the peer to shut the given connection down cleanly.
    pub fn shutdown(&mut self, destination: VsockAddr, src_port: u32) -> (r: Result<(), Error>)
        requires
            old(self).wf(),
        ensures
            final(self).wf(),
            final(self).conns() == old(self).conns(),
            final(self).ports() == old(self).ports(),
            final(self).capacity() == old(self).capacity(),
            no_conn_for(old(self).conns(), destination, src_port) ==> r == Err::<(), Error>(
                Error::NotConnected,
            ),
    {
        self.0.shutdown(destination, src_port)
    }

    /// Resets the given connection and drops it at once.
    pub fn force_close(&mut self, destination: VsockAddr, src_port: u32) -> (r: Result<(), Error>)
        requires
            old(self).wf(),
        ensures
            final(self).wf(),
            final(self).ports() == old(self).ports(),
            final(self).capacity() == old(self).capacity(),
            no_conn_for(old(self).conns(), destination, src_port) ==> r == Err::<(), Error>(
                Error::NotConnected,
            ) && final(self).conns() == old(self).conns(),
            !no_conn_for(old(self).conns(), destination, src_port) ==> exists|i: int|
                {
                    &&& #[trigger] first_conn_match(old(self).conns(), destination, src_port, i)
                    &&& match r {
                        Ok(u) => final(self).conns() =~= swap_removed(old(self).conns(), i),
                        Err(_) => final(self).conns() == old(self).conns(),
                    }
                },
    {
        self.0.force_close(destination, src_port)
    }
}

/// A higher-level interface for vsock devices (the host side): the same
/// connection manager over a device-side transport. This side must not
/// open outgoing connections.
pub struct VsockDeviceConnectionManager<M: VsockTransport>(VsockConnectionManagerCommon<M>);

impl<M: VsockTransport> VsockDeviceConnectionManager<M> {
    /// The live connections, in match order.
    pub closed spec fn conns(&self) -> Seq<Connection> {
        self.0.conns()
    }

    /// The local ports that accept incoming connections.
    pub closed spec fn ports(&self) -> Seq<u32> {
        self.0.ports()
    }

    /// Whether incoming connections to `port` are accepted.
    pub open spec fn spec_listening(&self, port: u32) -> bool {
        self.ports().contains(port)
    }

    /// The ring capacity given to each new connection.
    pub closed spec fn capacity(&self) -> u32 {
        self.0.capacity()
    }

    /// Well-formedness of the manager's state.
    pub closed spec fn wf(&self) -> bool {
        self.0.wf()
    }

    /// Makes a connection manager wrapping the given low-level transport,
    /// with the default ring capacity per connection.
    pub fn new(driver: M) -> (r: Self)
        ensures
            r.wf(),
            r.conns() == Seq::<Connection>::empty(),
            r.ports() == Seq::<u32>::empty(),
            r.capacity() == DEFAULT_PER_CONNECTION_BUFFER_CAPACITY,
    {
        Self::new_with_capacity(driver, DEFAULT_PER_CONNECTION_BUFFER_CAPACITY)
    }

    /// Makes a connection manager wrapping the given low-level transport,
    /// with the given ring capacity per connection.
    pub fn new_with_capacity(driver: M, per_connection_buffer_capacity: u32) -> (r: Self)
        requires
            per_connection_buffer_capacity > 0,
        ensures
            r.wf(),
            r.conns() == Seq::<Connection>::empty(),
            r.ports() == Seq::<u32>::empty(),
            r.capacity() == per_connection_buffer_capacity,
    {
        Self(
            VsockConnectionManagerCommon::new_with_capacity(
                driver,
                per_connection_buffer_capacity,
            ),
        )
    }

    /// Allows incoming connections on the given port number. Idempotent.
    pub fn listen(&mut self, port: u32)
        requires
            old(self).wf(),
        ensures
            final(self).wf(),
            final(self).conns() == old(self).conns(),
            final(self).capacity() == old(self).capacity(),
            forall|q: u32|
                final(self).spec_listening(q) == (old(self).spec_listening(q) || q == port),
    {
        self.0.listen(port);
        proof {
            assert forall|q: u32|
                self.spec_listening(q) == (old(self).spec_listening(q) || q == port) by {
                assert(self.0.spec_listening(q) == (old(self).0.spec_listening(q) || q == port));
            }
        }
    }

    /// Stops allowing incoming connections on the given port number.
    pub fn unlisten(&mut self, port: u32)
        requires
            old(self).wf(),
        ensures
            final(self).wf(),
            final(self).conns() == old(self).conns(),
            final(self).capacity() == old(self).capacity(),
            forall|q: u32|
                final(self).spec_listening(q) == (old(self).spec_listening(q) && q != port),
    {
        self.0.unlisten(port);
        proof {
            assert forall|q: u32|
                self.spec_listening(q) == (old(self).spec_listening(q) && q != port) by {
                assert(self.0.spec_listening(q) == (old(self).0.spec_listening(q) && q != port));
            }
        }
    }

    /// Sends the buffer to the given destination over the connection from
    /// `src_port`.
    pub fn send(&mut self, destination: VsockAddr, src_port: u32, buffer: &[u8]) -> (r: Result<
        (),
        Error,
    >)
        requires
            old(self).wf(),
        ensures
            final(self).wf(),
            final(self).conns() == old(self).conns(),
            final(self).ports() == old(self).ports(),
            final(self).capacity() == old(self).capacity(),
            no_conn_for(old(self).conns(), destination, src_port) ==> r == Err::<(), Error>(
                Error::NotConnected,
            ),
    {
        self.0.send(destination, src_port, buffer)
    }

    /// Drives the RX side: asks the transport for at most one event and
    /// processes it as [`poll_transition`] describes.
    pub fn poll(&mut self) -> (r: Result<Option<VsockEvent>, Error>)
        requires
            old(self).wf(),
        ensures
            final(self).wf(),
            final(self).ports() == old(self).ports(),
            final(self).capacity() == old(self).capacity(),
            final(self).conns() == old(self).conns() || exists|cid: u64, e: VsockEvent, b: Seq<u8>|
                poll_transition(
                    old(self).conns(),
                    final(self).conns(),
                    old(self).ports(),
                    old(self).capacity(),
                    cid,
                    e,
                    b,
                    r,
                ),
            r matches Ok(Some(ev)) ==> exists|cid: u64, e: VsockEvent, b: Seq<u8>|
                poll_transition(
                    old(self).conns(),
                    final(self).conns(),
                    old(self).ports(),
                    old(self).capacity(),
                    cid,
                    e,
                    b,
                    r,
                ),
    {
        let r = self.0.poll();
        proof {
            if self.0.conns() != old(self).0.conns() || r matches Ok(Some(_)) {
                let (cid, e, b) = choose|cid: u64, e: VsockEvent, b: Seq<u8>|
                    poll_transition(
                        old(self).0.conns(),
                        self.0.conns(),
                        old(self).0.ports(),
                        old(self).0.capacity(),
                        cid,
                        e,
                        b,
                        r,
                    );
                assert(poll_transition(
                    old(self).conns(),
                    self.conns(),
                    old(self).ports(),
                    old(self).capacity(),
                    cid,
                    e,
                    b,
                    r,
                ));
            }
        }
        r
    }

    /// Reads data received from the given connection into the front of
    /// `buffer`, following [`recv_transition`].
    pub fn recv(&mut self, peer: VsockAddr, src_port: u32, buffer: &mut [u8]) -> (r: Result<
        usize,
        Error,
    >)
        requires
            old(self).wf(),
        ensures
            final(self).wf(),
            final(self).ports() == old(self).ports(),
            final(self).capacity() == old(self).capacity(),
            final(buffer)@.len() == old(buffer)@.len(),
            recv_transition(
                old(self).conns(),
                final(self).conns(),
                peer,
                src_port,
                old(buffer)@,
                final(buffer)@,
                r,
            ),
    {
        self.0.recv(peer, src_port, buffer)
    }

    /// Returns the number of bytes buffered on the given connection,
    /// available to be read by `recv`.
    pub fn recv_buffer_available_bytes(&mut self, peer: VsockAddr, src_port: u32) -> (r: Result<
        usize,
        Error,
    >)
        requires
            old(self).wf(),
        ensures
            *final(self) == *old(self),
            match r {
                Ok(n) => exists|i: int|
                    #[trigger] first_conn_match(old(self).conns(), peer, src_port, i) && n == old(
                        self,
                    ).conns()[i].buffer.contents().len(),
                Err(e) => e == Error::NotConnected && no_conn_for(
                    old(self).conns(),
                    peer,
                    src_port,
                ),
            },
    {
        let r = self.0.recv_buffer_available_bytes(peer, src_port);
        proof {
            match r {
                Ok(n) => {
                    let i = choose|i: int|
                        #[trigger] first_conn_match(old(self).0.conns(), peer, src_port, i) && n
                            == old(self).0.conns()[i].buffer.contents().len();
                    assert(first_conn_match(old(self).conns(), peer, src_port, i));
                },
                Err(_) => {},
            }
        }
        r
    }

    /// Sends an unsolicited credit update for the given connection.
    pub fn update_credit(&mut self, peer: VsockAddr, src_port: u32) -> (r: Result<(), Error>)
        requires
            old(self).wf(),
        ensures
            final(self).wf(),
            final(self).conns() == old(self).conns(),
            final(self).ports() == old(self).ports(),
            final(self).capacity() == old(self).capacity(),
            no_conn_for(old(self).conns(), peer, src_port) ==> r == Err::<(), Error>(
                Error::NotConnected,
            ),
    {
        self.0.update_credit(peer, src_port)
    }

    /// Blocks until the transport yields an event the caller should see.
    /// A returned event is one that some poll transition surfaced, out of
    /// the connection state the manager held just before that last poll.
    pub fn wait_for_event(&mut self) -> (r: Result<VsockEvent, Error>)
        requires
            old(self).wf(),
        ensures
            final(self).wf(),
            final(self).ports() == old(self).ports(),
            final(self).capacity() == old(self).capacity(),
            r matches Ok(ev) ==> exists|pre: Seq<Connection>, cid: u64, e: VsockEvent, b: Seq<u8>|
                poll_transition(
                    pre,
                    final(self).conns(),
                    old(self).ports(),
                    old(self).capacity(),
                    cid,
                    e,
                    b,
                    Ok(Some(ev)),
                ),
    {
        let r = self.0.wait_for_event();
        proof {
            match r {
                Ok(ev) => {
                    let (pre, cid, e, b) = choose|
                        pre: Seq<Connection>,
                        cid: u64,
                        e: VsockEvent,
                        b: Seq<u8>,
                    |
                        poll_transition(
                            pre,
                            self.0.conns(),
                            old(self).0.ports(),
                            old(self).0.capacity(),
                            cid,
                            e,
                            b,
                            Ok(Some(ev)),
                        );
                    assert(poll_transition(
                        pre,
                        self.conns(),
                        old(self).ports(),
                        old(self).capacity(),
                        cid,
                        e,
                        b,
                        Ok(Some(ev)),
                    ));
                },
                Err(_) => {},
            }
        }
        r
    }

    /// Asks the peer to shut the given connection down cleanly.
    pub fn shutdown(&mut self, destination: VsockAddr, src_port: u32) -> (r: Result<(), Error>)
        requires
            old(self).wf(),
        ensures
            final(self).wf(),
            final(self).conns() == old(self).conns(),
            final(self).ports() == old(self).ports(),
            final(self).capacity() == old(self).capacity(),
            no_conn_for(old(self).conns(), destination, src_port) ==> r == Err::<(), Error>(
                Error::NotConnected,
            ),
    {
        self.0.shutdown(destination, src_port)
    }

    /// Resets the given connection and drops it at once.
    pub fn force_close(&mut self, destination: VsockAddr, src_port: u32) -> (r: Result<(), Error>)
        requires
            old(self).wf(),
        ensures
            final(self).wf(),
            final(self).ports() == old(self).ports(),
            final(self).capacity() == old(self).capacity(),
            no_conn_for(old(self).conns(), destination, src_port) ==> r == Err::<(), Error>(
                Error::NotConnected,
            ) && final(self).conns() == old(self).conns(),
            !no_conn_for(old(self).conns(), destination, src_port) ==> exists|i: int|
                {
                    &&& #[trigger] first_conn_match(old(self).conns(), destination, src_port, i)
                    &&& match r {
                        Ok(u) => final(self).conns() =~= swap_removed(old(self).conns(), i),
                        Err(_) => final(self).conns() == old(self).conns(),
                    }
                },
    {
        self.0.force_close(destination, src_port)
    }
}

/// Shared behavior of the driver-side and device-side connection managers.
///
/// All methods are implemented for both, though the device side does not
/// allow the `connect` method: its `connect_allowed` is false, so no
/// verified caller can reach it there.
pub trait VsockManager {
    /// Well-formedness of the manager's state.
    spec fn wf(&self) -> bool;

    /// Whether this side may open outgoing connections.
    spec fn connect_allowed(&self) -> bool;

    /// Sends a request to connect to the given destination. Only the
    /// driver side may call this.
    fn connect(&mut self, destination: VsockAddr, src_port: u32) -> (r: Result<(), Error>)
        requires
            old(self).wf(),
            old(self).connect_allowed(),
        ensures
            final(self).wf(),
    ;

    /// Sends the buffer to the destination.
    fn send(&mut self, dest: VsockAddr, src_port: u32, buffer: &[u8]) -> (r: Result<(), Error>)
        requires
            old(self).wf(),
        ensures
            final(self).wf(),
    ;

    /// Sends a credit update to the given peer.
    fn update_credit(&mut self, peer: VsockAddr, src_port: u32) -> (r: Result<(), Error>)
        requires
            old(self).wf(),
        ensures
            final(self).wf(),
    ;

    /// Forcibly closes the connection without waiting for the peer.
    fn force_close(&mut self, dest: VsockAddr, src_port: u32) -> (r: Result<(), Error>)
        requires
            old(self).wf(),
        ensures
            final(self).wf(),
    ;

    /// Allows incoming connections on the given port number.
    fn listen(&mut self, port: u32)
        requires
            old(self).wf(),
        ensures
            final(self).wf(),
    ;

    /// Polls the transport to receive data or other updates.
    fn poll(&mut self) -> (r: Result<Option<VsockEvent>, Error>)
        requires
            old(self).wf(),
        ensures
            final(self).wf(),
    ;

    /// Requests to shut down the connection cleanly.
    fn shutdown(&mut self, dest: VsockAddr, src_port: u32) -> (r: Result<(), Error>)
        requires
            old(self).wf(),
        ensures
            final(self).wf(),
    ;

    /// Reads data received from the given connection.
    fn recv(&mut self, peer: VsockAddr, src_port: u32, buffer: &mut [u8]) -> (r: Result<
        usize,
        Error,
    >)
        requires
            old(self).wf(),
        ensures
            final(self).wf(),
            final(buffer)@.len() == old(buffer)@.len(),
    ;
}

impl<M: VsockTransport> VsockManager for VsockConnectionManager<M> {
    open spec fn wf(&self) -> bool {
        VsockConnectionManager::wf(self)
    }

    open spec fn connect_allowed(&self) -> bool {
        true
    }

    fn connect(&mut self, destination: VsockAddr, src_port: u32) -> Result<(), Error> {
        VsockConnectionManager::connect(self, destination, src_port)
    }

    fn send(&mut self, dest: VsockAddr, src_port: u32, buffer: &[u8]) -> Result<(), Error> {
        VsockConnectionManager::send(self, dest, src_port, buffer)
    }

    fn update_credit(&mut self, peer: VsockAddr, src_port: u32) -> Result<(), Error> {
        VsockConnectionManager::update_credit(self, peer, src_port)
    }

    fn force_close(&mut self, dest: VsockAddr, src_port: u32) -> Result<(), Error> {
        VsockConnectionManager::force_close(self, dest, src_port)
    }

    fn listen(&mut self, port: u32) {
        VsockConnectionManager::listen(self, port)
    }

    fn poll(&mut self) -> Result<Option<VsockEvent>, Error> {
        VsockConnectionManager::poll(self)
    }

    fn shutdown(&mut self, dest: VsockAddr, src_port: u32) -> Result<(), Error> {
        VsockConnectionManager::shutdown(self, dest, src_port)
    }

    fn recv(&mut self, peer: VsockAddr, src_port: u32, buffer: &mut [u8]) -> Result<usize, Error> {
        VsockConnectionManager::recv(self, peer, src_port, buffer)
    }
}

impl<M: VsockTransport> VsockManager for VsockDeviceConnectionManager<M> {
    open spec fn wf(&self) -> bool {
        VsockDeviceConnectionManager::wf(self)
    }

    open spec fn connect_allowed(&self) -> bool {
        false
    }

    fn connect(&mut self, destination: VsockAddr, src_port: u32) -> Result<(), Error> {
        // Unreachable: no verified caller can satisfy `connect_allowed` on
        // the device side.
        Err(Error::Unsupported)
    }

    fn send(&mut self, dest: VsockAddr, src_port: u32, buffer: &[u8]) -> Result<(), Error> {
        VsockDeviceConnectionManager::send(self, dest, src_port, buffer)
    }

    fn update_credit(&mut self, peer: VsockAddr, src_port: u32) -> Result<(), Error> {
        VsockDeviceConnectionManager::update_credit(self, peer, src_port)
    }

    fn force_close(&mut self, dest: VsockAddr, src_port: u32) -> Result<(), Error> {
        VsockDeviceConnectionManager::force_close(self, dest, src_port)
    }

    fn listen(&mut self, port: u32) {
        VsockDeviceConnectionManager::listen(self, port)
    }

    fn poll(&mut self) -> Result<Option<VsockEvent>, Error> {
        VsockDeviceConnectionManager::poll(self)
    }

    fn shutdown(&mut self, dest: VsockAddr, src_port: u32) -> Result<(), Error> {
        VsockDeviceConnectionManager::shutdown(self, dest, src_port)
    }

    fn recv(&mut self, peer: VsockAddr, src_port: u32, buffer: &mut [u8]) -> Result<usize, Error> {
        VsockDeviceConnectionManager::recv(self, peer, src_port, buffer)
    }
}

/// Returns whether `ports` holds `port`.
#[verifier::loop_isolation(false)]
fn contains_port(ports: &Vec<u32>, port: u32) -> (r: bool)
    ensures
        r == ports@.contains(port),
{
    let mut i: usize = 0;
    while i < ports.len()
        invariant
            i <= ports@.len(),
            forall|j: int| 0 <= j < i ==> ports@[j] != port,
        decreases ports@.len() - i,
    {
        if ports[i] == port {
            return true;
        }
        i = i + 1;
    }
    false
}

} // verus!
