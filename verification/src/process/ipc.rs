//! Bounded message passing between process endpoints.
use vstd::prelude::*;
use crate::process::runtime::{IsolationError, ProcessHandle, sat_inc32};

verus! {

/// Default IPC queue capacity.
pub const IPC_QUEUE_CAPACITY: usize = 32;

/// Bytes a message payload holds.
pub const IPC_PAYLOAD_BYTES: usize = 64;

/// A named mailbox owned by a process.
#[derive(Clone, Copy, Debug, PartialEq, Eq, Structural)]
pub struct IpcEndpoint {
    pub id: u32,
    pub owner: ProcessHandle,
}

/// A message: its endpoints and up to 64 payload bytes, of which the first
/// `len` are meaningful.
#[derive(Clone, Copy, Debug, PartialEq, Eq)]
pub struct IpcMessage {
    pub from: IpcEndpoint,
    pub to: IpcEndpoint,
    pub len: usize,
    pub payload: [u8; 64],
}

/// The payload `from_bytes` builds: the first 64 bytes of `bytes` at most,
/// zero-filled to 64.
pub open spec fn payload_of(bytes: Seq<u8>) -> Seq<u8> {
    Seq::new(64, |i: int| if i < bytes.len() { bytes[i] } else { 0u8 })
}

/// How many bytes of `bytes` a message keeps.
pub open spec fn kept_len(bytes: Seq<u8>) -> int {
    if bytes.len() < 64 { bytes.len() as int } else { 64 }
}

impl IpcMessage {
    /// A message carrying the first 64 bytes of `bytes` at most.
    pub fn from_bytes(from: IpcEndpoint, to: IpcEndpoint, bytes: &[u8]) -> (m: Self)
        ensures
            m.from == from,
            m.to == to,
            m.len == kept_len(bytes@),
            m.payload@ == payload_of(bytes@),
    {
        let mut payload = [0u8; 64];
        let n: usize = if bytes.len() < 64 { bytes.len() } else { 64 };
        let mut i: usize = 0;
        while i < n
            invariant
                i <= n,
                n == kept_len(bytes@),
                payload@.len() == 64,
                forall|j: int| 0 <= j < i ==> payload@[j] == bytes@[j],
                forall|j: int| i <= j < 64 ==> payload@[j] == 0u8,
            decreases n - i,
        {
            payload[i] = bytes[i];
            i = i + 1;
        }
        assert(payload@ =~= payload_of(bytes@));
        IpcMessage { from, to, len: n, payload }
    }
}

#[derive(Clone, Copy)]
struct IpcSlot {
    used: bool,
    msg: IpcMessage,
}

impl IpcSlot {
    fn empty() -> (s: Self)
        ensures
            !s.used,
    {
        let e = IpcEndpoint { id: 0, owner: ProcessHandle { pid: 0 } };
        IpcSlot { used: false, msg: IpcMessage { from: e, to: e, len: 0, payload: [0u8; 64] } }
    }
}

/// The abstract state of a bus: the next endpoint id and the pending
/// messages in the order they were sent.
pub struct IpcBusView {
    pub next_endpoint_id: u32,
    pub pending: Seq<IpcMessage>,
}

/// Whether pending message `i` is addressed to endpoint id `id`.
pub open spec fn addressed_to(p: Seq<IpcMessage>, id: u32, i: int) -> bool {
    0 <= i < p.len() && p[i].to.id == id
}

/// The oldest pending message addressed to endpoint id `id`.
pub open spec fn first_addressed(p: Seq<IpcMessage>, id: u32) -> Option<int> {
    if exists|i: int| addressed_to(p, id, i) {
        Some(choose|i: int| addressed_to(p, id, i) && forall|j: int| 0 <= j < i ==> !addressed_to(p, id, j))
    } else {
        None
    }
}

/// The messages pending for endpoint id `id`, oldest first: that
/// endpoint's queue.
pub open spec fn queue_of(p: Seq<IpcMessage>, id: u32) -> Seq<IpcMessage>
    decreases p.len(),
{
    if p.len() == 0 {
        Seq::empty()
    } else {
        let rest = queue_of(p.drop_last(), id);
        if p.last().to.id == id { rest.push(p.last()) } else { rest }
    }
}

proof fn lemma_first_addressed(p: Seq<IpcMessage>, id: u32, i: int)
    requires
        addressed_to(p, id, i),
        forall|j: int| 0 <= j < i ==> !addressed_to(p, id, j),
    ensures
        first_addressed(p, id) == Some(i),
{
    let c = choose|c: int| addressed_to(p, id, c) && forall|j: int| 0 <= j < c ==> !addressed_to(p, id, j);
    assert(addressed_to(p, id, c) && forall|j: int| 0 <= j < c ==> !addressed_to(p, id, j));
    if c < i {
        assert(!addressed_to(p, id, c));
    } else if c > i {
        assert(!addressed_to(p, id, i));
    }
}

proof fn lemma_queue_of_add(a: Seq<IpcMessage>, b: Seq<IpcMessage>, id: u32)
    ensures
        queue_of(a + b, id) == queue_of(a, id) + queue_of(b, id),
    decreases b.len(),
{
    if b.len() == 0 {
        assert(a + b =~= a);
        assert(queue_of(a, id) + queue_of(b, id) =~= queue_of(a, id));
    } else {
        lemma_queue_of_add(a, b.drop_last(), id);
        assert((a + b).drop_last() =~= a + b.drop_last());
        assert((a + b).last() == b.last());
        if b.last().to.id == id {
            assert(queue_of(a, id) + queue_of(b.drop_last(), id).push(b.last())
                =~= (queue_of(a, id) + queue_of(b.drop_last(), id)).push(b.last()));
        }
    }
}

proof fn lemma_queue_of_none(p: Seq<IpcMessage>, id: u32)
    requires
        forall|j: int| 0 <= j < p.len() ==> !addressed_to(p, id, j),
    ensures
        queue_of(p, id) == Seq::<IpcMessage>::empty(),
    decreases p.len(),
{
    if p.len() > 0 {
        assert forall|j: int| 0 <= j < p.drop_last().len() implies !addressed_to(p.drop_last(), id, j) by {
            assert(!addressed_to(p, id, j));
        }
        lemma_queue_of_none(p.drop_last(), id);
        assert(!addressed_to(p, id, p.len() - 1));
    }
}

/// Sending appends the message to its endpoint's queue and leaves every
/// other endpoint's queue as it was.
pub proof fn lemma_send_queues(p: Seq<IpcMessage>, msg: IpcMessage, id: u32)
    ensures
        queue_of(p.push(msg), id) == if msg.to.id == id { queue_of(p, id).push(msg) } else { queue_of(p, id) },
{
    assert(p.push(msg).drop_last() =~= p);
}

/// Receiving on endpoint `id` takes the head of that endpoint's queue and
/// leaves the rest of it, and every other endpoint's queue, in order: each
/// endpoint is a first-in, first-out queue.
pub proof fn lemma_recv_queues(p: Seq<IpcMessage>, id: u32, other: u32)
    ensures
        match first_addressed(p, id) {
            None => queue_of(p, id) == Seq::<IpcMessage>::empty(),
            Some(i) => {
                &&& queue_of(p, id).len() > 0
                &&& p[i] == queue_of(p, id)[0]
                &&& queue_of(p.remove(i), id) == queue_of(p, id).drop_first()
                &&& other != id ==> queue_of(p.remove(i), other) == queue_of(p, other)
            },
        },
{
    match first_addressed(p, id) {
        None => {
            if exists|i: int| addressed_to(p, id, i) {
                let w = choose|i: int| addressed_to(p, id, i);
                lemma_least_addressed(p, id, w);
            }
            lemma_queue_of_none(p, id);
        },
        Some(i) => {
            let w = choose|k: int| addressed_to(p, id, k);
            lemma_least_addressed(p, id, w);
            let a = p.take(i);
            let m = seq![p[i]];
            let b = p.skip(i + 1);
            assert(p =~= a + m + b);
            assert(p.remove(i) =~= a + b);
            assert forall|j: int| 0 <= j < a.len() implies !addressed_to(a, id, j) by {
                assert(!addressed_to(p, id, j));
            }
            lemma_queue_of_none(a, id);
            lemma_queue_of_add(a + m, b, id);
            lemma_queue_of_add(a, m, id);
            lemma_queue_of_add(a, b, id);
            lemma_queue_of_add(a + m, b, other);
            lemma_queue_of_add(a, m, other);
            lemma_queue_of_add(a, b, other);
            assert(m.drop_last() =~= Seq::<IpcMessage>::empty());
            assert(m.last() == p[i]);
            assert(addressed_to(p, id, i));
            assert(queue_of(Seq::<IpcMessage>::empty(), id) == Seq::<IpcMessage>::empty());
            assert(queue_of(Seq::<IpcMessage>::empty(), other) == Seq::<IpcMessage>::empty());
            assert(queue_of(m, id) =~= seq![p[i]]);
            assert(queue_of(p, id) =~= seq![p[i]] + queue_of(b, id));
            assert(queue_of(p, id).drop_first() =~= queue_of(b, id));
            assert(queue_of(a + b, id) =~= queue_of(b, id));
            assert(queue_of(p.remove(i), id) == queue_of(p, id).drop_first());
            if other != id {
                assert(queue_of(m, other) =~= Seq::<IpcMessage>::empty());
                assert(queue_of(a, other) + queue_of(m, other) =~= queue_of(a, other));
            }
        },
    }
}

proof fn lemma_least_addressed(p: Seq<IpcMessage>, id: u32, w: int)
    requires
        addressed_to(p, id, w),
    ensures
        exists|i: int| addressed_to(p, id, i) && forall|j: int| 0 <= j < i ==> !addressed_to(p, id, j),
    decreases w,
{
    if exists|j: int| 0 <= j < w && addressed_to(p, id, j) {
        let j = choose|j: int| 0 <= j < w && addressed_to(p, id, j);
        lemma_least_addressed(p, id, j);
    } else {
        assert(forall|j: int| 0 <= j < w ==> !addressed_to(p, id, j));
    }
}

/// A bus with room for `N` pending messages that hands endpoint ids out in
/// order. Pending messages are kept in send order in the first `len` slots.
pub struct IpcBus<const N: usize> {
    next_endpoint_id: u32,
    queue: [IpcSlot; N],
    len: usize,
}

impl<const N: usize> View for IpcBus<N> {
    type V = IpcBusView;

    closed spec fn view(&self) -> IpcBusView {
        IpcBusView {
            next_endpoint_id: self.next_endpoint_id,
            pending: Seq::new(self.len as nat, |i: int| self.queue@[i].msg),
        }
    }
}

impl<const N: usize> IpcBus<N> {
    #[verifier::type_invariant]
    spec fn bounded(&self) -> bool {
        self.len <= N
    }

    /// An empty bus whose first endpoint id is 1.
    pub fn new() -> (b: Self)
        ensures
            b@.next_endpoint_id == 1,
            b@.pending == Seq::<IpcMessage>::empty(),
    {
        let b = IpcBus { next_endpoint_id: 1, queue: [IpcSlot::empty(); N], len: 0 };
        assert(b@.pending =~= Seq::<IpcMessage>::empty());
        b
    }

    /// A new endpoint owned by `owner`; ids count up and stop at the top.
    pub fn register_endpoint(&mut self, owner: ProcessHandle) -> (e: IpcEndpoint)
        ensures
            e == (IpcEndpoint { id: old(self)@.next_endpoint_id, owner }),
            final(self)@.next_endpoint_id == sat_inc32(old(self)@.next_endpoint_id),
            final(self)@.pending == old(self)@.pending,
    {
        proof {
            use_type_invariant(&*self);
        }
        let id = self.next_endpoint_id;
        self.next_endpoint_id = self.next_endpoint_id.saturating_add(1);
        proof {
            assert(self@.pending =~= old(self)@.pending);
        }
        IpcEndpoint { id, owner }
    }

    /// Queues `msg` behind every pending message; fails with `QueueFull`
    /// when `N` messages are pending.
    pub fn send(&mut self, msg: IpcMessage) -> (r: Result<(), IsolationError>)
        ensures
            final(self)@.next_endpoint_id == old(self)@.next_endpoint_id,
            old(self)@.pending.len() <= N,
            old(self)@.pending.len() < N ==> r == Ok::<(), IsolationError>(()) && final(self)@.pending == old(self)@.pending.push(msg),
            old(self)@.pending.len() >= N ==> r == Err::<(), IsolationError>(IsolationError::QueueFull)
                && final(self)@.pending == old(self)@.pending,
    {
        proof {
            use_type_invariant(&*self);
        }
        if self.len >= N {
            return Err(IsolationError::QueueFull);
        }
        let at = self.len;
        self.queue[at] = IpcSlot { used: true, msg };
        self.len = at + 1;
        assert(self@.pending =~= old(self)@.pending.push(msg));
        Ok(())
    }

    /// Takes the oldest pending message addressed to `endpoint`; the
    /// messages behind it keep their order.
    pub fn recv(&mut self, endpoint: IpcEndpoint) -> (r: Option<IpcMessage>)
        ensures
            final(self)@.next_endpoint_id == old(self)@.next_endpoint_id,
            match first_addressed(old(self)@.pending, endpoint.id) {
                Some(i) => r == Some(old(self)@.pending[i]) && final(self)@.pending == old(self)@.pending.remove(i),
                None => r is None && final(self)@.pending == old(self)@.pending,
            },
    {
        proof {
            use_type_invariant(&*self);
        }
        let ghost p = old(self)@.pending;
        let n = self.len;
        let mut i: usize = 0;
        while i < n
            invariant
                n == self.len,
                n <= N,
                i <= n,
                p == self@.pending,
                p == old(self)@.pending,
                self.next_endpoint_id == old(self).next_endpoint_id,
                forall|j: int| 0 <= j < i ==> !addressed_to(p, endpoint.id, j),
            decreases n - i,
        {
            if self.queue[i].msg.to.id == endpoint.id {
                proof {
                    lemma_first_addressed(p, endpoint.id, i as int);
                }
                let msg = self.queue[i].msg;
                assert(msg == p[i as int]);
                let mut k: usize = i;
                while k + 1 < n
                    invariant
                        n == self.len,
                        n <= N,
                        i <= k < n,
                        self.next_endpoint_id == old(self).next_endpoint_id,
                        forall|j: int| 0 <= j < i ==> #[trigger] self.queue@[j].msg == p[j],
                        forall|j: int| i <= j < k ==> #[trigger] self.queue@[j].msg == p[j + 1],
                        forall|j: int| k < j < n ==> #[trigger] self.queue@[j].msg == p[j],
                    decreases n - k,
                {
                    let next = self.queue[k + 1];
                    self.queue[k] = next;
                    k = k + 1;
                }
                self.queue[n - 1] = IpcSlot::empty();
                self.len = n - 1;
                assert(self@.pending =~= p.remove(i as int));
                assert(first_addressed(p, endpoint.id) == Some(i as int));
                return Some(msg);
            }
            i = i + 1;
        }
        assert(self@.pending =~= p);
        None
    }
}

impl<const N: usize> Default for IpcBus<N> {
    fn default() -> (b: Self)
        ensures
            b@.next_endpoint_id == 1,
            b@.pending == Seq::<IpcMessage>::empty(),
    {
        Self::new()
    }
}

/// A message sent to an endpoint with nothing else pending for it is what
/// the next receive on that endpoint returns.
pub proof fn lemma_send_then_recv(p: Seq<IpcMessage>, msg: IpcMessage)
    requires
        first_addressed(p, msg.to.id) is None,
    ensures
        ({
            let p1 = p.push(msg);
            &&& first_addressed(p1, msg.to.id) == Some(p.len() as int)
            &&& p1[p.len() as int] == msg
            &&& p1.remove(p.len() as int) == p
        }),
{
    let p1 = p.push(msg);
    if exists|i: int| addressed_to(p, msg.to.id, i) {
        let w = choose|i: int| addressed_to(p, msg.to.id, i);
        lemma_least_addressed(p, msg.to.id, w);
    }
    assert forall|j: int| 0 <= j < p.len() implies !addressed_to(p1, msg.to.id, j) by {
        if addressed_to(p1, msg.to.id, j) {
            assert(addressed_to(p, msg.to.id, j));
        }
    }
    lemma_first_addressed(p1, msg.to.id, p.len() as int);
    assert(p1.remove(p.len() as int) =~= p);
}

} // verus!
