//! The VirtIO network driver: feature negotiation, a bounded ring of
//! frames, and DMA frame buffers drawn from a slab allocator.
use crate::allocator::slab::{allocation, release, SlabAllocator, SlabView};
use crate::sync::Spinlock;
use vstd::prelude::*;

verus! {

/// The receive queue's index.
pub const VIRTIO_NET_RX_QUEUE: u16 = 0;
/// The transmit queue's index.
pub const VIRTIO_NET_TX_QUEUE: u16 = 1;

/// Feature bit: the device checksums.
pub const VIRTIO_NET_F_CSUM: u32 = 1;
/// Feature bit: the device has a MAC address.
pub const VIRTIO_NET_F_MAC: u32 = 32;
/// Feature bit: receive buffers may be merged.
pub const VIRTIO_NET_F_MRG_RXBUF: u32 = 32768;
/// Feature bit: the device reports link status.
pub const VIRTIO_NET_F_STATUS: u32 = 65536;

/// Status bit: the guest has noticed the device.
pub const VIRTIO_CONFIG_S_ACKNOWLEDGE: u8 = 1;
/// Status bit: the guest knows how to drive the device.
pub const VIRTIO_CONFIG_S_DRIVER: u8 = 2;
/// Status bit: the driver is ready.
pub const VIRTIO_CONFIG_S_DRIVER_OK: u8 = 4;
/// Status bit: feature negotiation is complete.
pub const VIRTIO_CONFIG_S_FEATURES_OK: u8 = 8;

/// How many frames the ring holds.
pub const DEFAULT_RING_CAPACITY: usize = 256;
/// The size of one DMA frame buffer.
pub const FRAME_SLOT_SIZE: usize = 2048;

/// The features the driver accepts of those the device offers.
pub open spec fn negotiated(offered: u32) -> u32 {
    offered & (VIRTIO_NET_F_CSUM | VIRTIO_NET_F_MAC | VIRTIO_NET_F_MRG_RXBUF | VIRTIO_NET_F_STATUS)
}

/// The features to accept of those `offered`: checksum, MAC, merged
/// receive buffers and link status.
pub fn negotiate_features(offered: u32) -> (f: u32)
    ensures
        f == negotiated(offered),
{
    offered & (VIRTIO_NET_F_CSUM | VIRTIO_NET_F_MAC | VIRTIO_NET_F_MRG_RXBUF | VIRTIO_NET_F_STATUS)
}

/// The status to write to acknowledge the device: the current status
/// with ACKNOWLEDGE and DRIVER set.
pub fn acknowledge_status(status: u8) -> (s: u8)
    ensures
        s == status | VIRTIO_CONFIG_S_ACKNOWLEDGE | VIRTIO_CONFIG_S_DRIVER,
{
    status | VIRTIO_CONFIG_S_ACKNOWLEDGE | VIRTIO_CONFIG_S_DRIVER
}

/// The status to write once the features are written: FEATURES_OK set.
pub fn features_ok_status(status: u8) -> (s: u8)
    ensures
        s == status | VIRTIO_CONFIG_S_FEATURES_OK,
{
    status | VIRTIO_CONFIG_S_FEATURES_OK
}

/// The status to write when the driver is ready: DRIVER_OK set.
pub fn driver_ok_status(status: u8) -> (s: u8)
    ensures
        s == status | VIRTIO_CONFIG_S_DRIVER_OK,
{
    status | VIRTIO_CONFIG_S_DRIVER_OK
}

/// Whether the device kept FEATURES_OK in the status read back, that is,
/// accepted the features.
pub fn features_accepted(status: u8) -> (r: bool)
    ensures
        r == (status & VIRTIO_CONFIG_S_FEATURES_OK != 0),
{
    status & VIRTIO_CONFIG_S_FEATURES_OK != 0
}

/// A queued frame: the address of its DMA buffer and its length.
#[derive(Clone, Copy, Debug, PartialEq, Eq, Structural)]
pub struct FrameSlot {
    pub addr: usize,
    pub len: usize,
}

/// A FIFO ring of at most 256 frames.
struct RingState {
    slots: Vec<FrameSlot>,
    head: usize,
    tail: usize,
    count: usize,
}

impl RingState {
    spec fn wf(&self) -> bool {
        &&& self.slots.len() == DEFAULT_RING_CAPACITY
        &&& self.head < DEFAULT_RING_CAPACITY
        &&& self.tail < DEFAULT_RING_CAPACITY
        &&& self.count <= DEFAULT_RING_CAPACITY
        &&& self.tail == (self.head + self.count) % 256
    }

    /// The queued frames, oldest first.
    spec fn queued(&self) -> Seq<FrameSlot> {
        Seq::new(self.count as nat, |i: int| self.slots@[(self.head + i) % 256])
    }

    fn new() -> (r: Self)
        ensures
            r.wf(),
            r.queued() == Seq::<FrameSlot>::empty(),
    {
        let mut slots: Vec<FrameSlot> = Vec::new();
        let mut i: usize = 0;
        while i < DEFAULT_RING_CAPACITY
            invariant
                i <= DEFAULT_RING_CAPACITY,
                slots.len() == i,
            decreases DEFAULT_RING_CAPACITY - i,
        {
            slots.push(FrameSlot { addr: 0, len: 0 });
            i = i + 1;
        }
        let r = RingState { slots, head: 0, tail: 0, count: 0 };
        assert(r.queued() =~= Seq::<FrameSlot>::empty());
        r
    }

    fn push(&mut self, slot: FrameSlot) -> (r: bool)
        requires
            old(self).wf(),
        ensures
            final(self).wf(),
            r == (old(self).queued().len() < DEFAULT_RING_CAPACITY),
            r ==> final(self).queued() == old(self).queued().push(slot),
            !r ==> final(self).queued() == old(self).queued(),
    {
        if self.count == DEFAULT_RING_CAPACITY {
            return false;
        }
        let ghost before = self.queued();
        let t = self.tail;
        self.slots.set(t, slot);
        self.tail = (t + 1) % DEFAULT_RING_CAPACITY;
        self.count = self.count + 1;
        assert forall|i: int| 0 <= i < before.len() implies #[trigger] self.queued()[i] == before[i] by {
            assert((self.head + i) % 256 != t as int);
        }
        assert(self.queued() =~= before.push(slot));
        true
    }

    fn pop(&mut self) -> (r: Option<FrameSlot>)
        requires
            old(self).wf(),
        ensures
            final(self).wf(),
            old(self).queued().len() == 0 ==> r is None && final(self).queued() == old(self).queued(),
            old(self).queued().len() > 0 ==> r == Some(old(self).queued()[0])
                && final(self).queued() == old(self).queued().drop_first(),
    {
        if self.count == 0 {
            return None;
        }
        let ghost before = self.queued();
        let h = self.head;
        let slot = self.slots[h];
        self.slots.set(h, FrameSlot { addr: 0, len: 0 });
        self.head = (h + 1) % DEFAULT_RING_CAPACITY;
        self.count = self.count - 1;
        assert forall|i: int| 0 <= i < before.len() - 1 implies #[trigger] self.queued()[i] == before[i + 1] by {
            assert((h + 1 + i) % 256 != h as int);
            assert(((h + 1) % 256 + i) % 256 == (h + (i + 1)) % 256);
        }
        assert(self.queued() =~= before.drop_first());
        Some(slot)
    }

    fn is_empty(&self) -> (r: bool)
        ensures
            r == (self.queued().len() == 0),
    {
        self.count == 0
    }
}

/// The slot of the slab whose DMA buffer starts at or holds `addr`.
pub open spec fn buffer_slot(v: SlabView, addr: usize) -> Option<int> {
    if v.memory_start == 0 || addr < v.memory_start || v.object_size == 0 {
        None
    } else {
        let index = (addr - v.memory_start) / (v.object_size as int);
        if index >= v.num_objects { None } else { Some(index) }
    }
}

/// The abstract state of the driver.
pub struct DriverView {
    pub base_addr: usize,
    pub mac_address: [u8; 6],
    pub features: u32,
    /// The slab the DMA buffers come from.
    pub slab: SlabView,
    /// The frames queued for the stack to receive, oldest first.
    pub ring: Seq<FrameSlot>,
    /// The bytes held in each slab object's DMA buffer.
    pub buffers: Seq<Seq<u8>>,
}

/// The contents of the buffers after writing `data` at `addr`: the buffer
/// holding `addr`, if any, holds `data`.
pub open spec fn written(v: DriverView, addr: usize, data: Seq<u8>) -> Seq<Seq<u8>> {
    match buffer_slot(v.slab, addr) {
        None => v.buffers,
        Some(i) => v.buffers.update(i, data),
    }
}

/// The MAC address the driver reports.
pub open spec fn driver_mac() -> [u8; 6] {
    [0x02u8, 0x00u8, 0x00u8, 0x00u8, 0x00u8, 0x01u8]
}

/// A VirtIO network device behind its MMIO registers, looped back: frames
/// it transmits come back on its receive ring.
pub struct VirtioNetDriver {
    base_addr: usize,
    mac_address: [u8; 6],
    features: u32,
    slab: SlabAllocator,
    tx_queue_lock: Spinlock,
    rx_ring: RingState,
    buffers: Vec<Vec<u8>>,
}

impl View for VirtioNetDriver {
    type V = DriverView;

    closed spec fn view(&self) -> DriverView {
        DriverView {
            base_addr: self.base_addr,
            mac_address: self.mac_address,
            features: self.features,
            slab: self.slab@,
            ring: self.rx_ring.queued(),
            buffers: self.buffers@.map_values(|b: Vec<u8>| b@),
        }
    }
}

/// The first `n` bytes of `data` (all of it when shorter).
fn prefix(data: &[u8], n: usize) -> (r: Vec<u8>)
    ensures
        r@ == data@.take(if n <= data@.len() { n as int } else { data@.len() as int }),
{
    let end = if n <= data.len() { n } else { data.len() };
    let mut r: Vec<u8> = Vec::new();
    let mut i: usize = 0;
    while i < end
        invariant
            end <= data.len(),
            i <= end,
            r@ == data@.take(i as int),
        decreases end - i,
    {
        r.push(data[i]);
        i = i + 1;
        assert(r@ =~= data@.take(i as int));
    }
    r
}

impl VirtioNetDriver {
    /// Where the device's MMIO registers usually are.
    pub const MMIO_BASE: usize = 0x10000000;

    /// Whether the driver's state is well formed.
    pub closed spec fn well_formed(&self) -> bool {
        &&& self.slab.well_formed()
        &&& self.slab@.object_size > 0
        &&& self.rx_ring.wf()
        &&& !self.tx_queue_lock@.locked
        &&& self.buffers@.len() == self.slab@.num_objects
    }

    /// A driver at `base_addr` with the `features` accepted, drawing its DMA
    /// buffers from `slab`; its ring is empty.
    pub fn new(base_addr: usize, slab: SlabAllocator, features: u32) -> (d: Self)
        requires
            slab.well_formed(),
            slab@.object_size > 0,
        ensures
            d.well_formed(),
            d@.base_addr == base_addr,
            d@.mac_address == driver_mac(),
            d@.features == features,
            d@.slab == slab@,
            d@.ring == Seq::<FrameSlot>::empty(),
            d@.buffers == Seq::new(slab@.num_objects as nat, |i: int| Seq::<u8>::empty()),
    {
        let n = slab.num_objects();
        proof {
            slab.lemma_slot_count();
        }
        let mut buffers: Vec<Vec<u8>> = Vec::new();
        let mut i: usize = 0;
        while i < n
            invariant
                i <= n,
                buffers@.len() == i,
                forall|j: int| 0 <= j < i ==> (#[trigger] buffers@[j])@ == Seq::<u8>::empty(),
            decreases n - i,
        {
            buffers.push(Vec::new());
            i = i + 1;
        }
        let d = VirtioNetDriver {
            base_addr,
            mac_address: [0x02u8, 0x00u8, 0x00u8, 0x00u8, 0x00u8, 0x01u8],
            features,
            slab,
            tx_queue_lock: Spinlock::new(),
            rx_ring: RingState::new(),
            buffers,
        };
        assert(d@.buffers =~= Seq::new(slab@.num_objects as nat, |i: int| Seq::<u8>::empty()));
        d
    }

    /// The driver once the device has been reset and acknowledged and was
    /// offered `offered` features: none when the status read back after
    /// writing FEATURES_OK lacks that bit, else a driver with the
    /// negotiated features.
    pub fn init(base_addr: usize, slab: SlabAllocator, offered: u32, status_after_features: u8) -> (d: Option<Self>)
        requires
            slab.well_formed(),
            slab@.object_size > 0,
        ensures
            status_after_features & VIRTIO_CONFIG_S_FEATURES_OK == 0 ==> d is None,
            status_after_features & VIRTIO_CONFIG_S_FEATURES_OK != 0 ==> (d matches Some(d) && {
                &&& d.well_formed()
                &&& d@.base_addr == base_addr
                &&& d@.mac_address == driver_mac()
                &&& d@.features == negotiated(offered)
                &&& d@.slab == slab@
                &&& d@.ring == Seq::<FrameSlot>::empty()
                &&& d@.buffers == Seq::new(slab@.num_objects as nat, |i: int| Seq::<u8>::empty())
            }),
    {
        if !features_accepted(status_after_features) {
            return None;
        }
        Some(Self::new(base_addr, slab, negotiate_features(offered)))
    }

    /// The size of one frame buffer.
    pub fn frame_capacity(&self) -> (r: usize)
        ensures
            r == FRAME_SLOT_SIZE,
    {
        FRAME_SLOT_SIZE
    }

    /// The device's MAC address.
    pub fn mac_address(&self) -> (r: [u8; 6])
        ensures
            r == self@.mac_address,
    {
        self.mac_address
    }

    /// The slab the DMA buffers come from.
    pub fn dma_slab_ptr(&self) -> (r: &SlabAllocator)
        ensures
            r@ == self@.slab,
    {
        &self.slab
    }

    /// Takes a DMA buffer from the slab: its address, or 0 when none is free.
    pub fn alloc_dma_buffer(&mut self) -> (r: usize)
        requires
            old(self).well_formed(),
        ensures
            final(self).well_formed(),
            r == allocation(old(self)@.slab).0,
            final(self)@ == (DriverView { slab: SlabView { slots: allocation(old(self)@.slab).1, ..old(self)@.slab }, ..old(self)@ }),
    {
        let r = self.slab.allocate();
        r
    }

    /// Returns the DMA buffer at `ptr` to the slab.
    pub fn release_dma_buffer(&mut self, ptr: usize)
        requires
            old(self).well_formed(),
        ensures
            final(self).well_formed(),
            final(self)@ == (DriverView { slab: SlabView { slots: release(old(self)@.slab, ptr), ..old(self)@.slab }, ..old(self)@ }),
    {
        self.slab.dealloc(ptr);
    }

    /// Returns the DMA buffer at `ptr` to `slab`; a null address is ignored.
    pub fn release_dma_buffer_with_slab(slab: &mut SlabAllocator, ptr: usize)
        requires
            old(slab).well_formed(),
            old(slab)@.object_size > 0,
        ensures
            final(slab).well_formed(),
            final(slab)@ == (SlabView { slots: release(old(slab)@, ptr), ..old(slab)@ }),
    {
        if ptr == 0 {
            return;
        }
        slab.dealloc(ptr);
    }

    /// Writes the first `FRAME_SLOT_SIZE` bytes of `data` (all of it when
    /// shorter) into the DMA buffer holding `ptr`, and returns how many;
    /// 0 when `ptr` lies in no buffer of the slab.
    pub fn write_dma_buffer(&mut self, ptr: usize, data: &[u8]) -> (n: usize)
        requires
            old(self).well_formed(),
        ensures
            final(self).well_formed(),
            buffer_slot(old(self)@.slab, ptr) is None ==> n == 0 && final(self)@ == old(self)@,
            buffer_slot(old(self)@.slab, ptr) is Some ==> {
                &&& n == (if data@.len() <= FRAME_SLOT_SIZE { data@.len() as int } else { FRAME_SLOT_SIZE as int })
                &&& final(self)@ == (DriverView { buffers: written(old(self)@, ptr, data@.take(n as int)), ..old(self)@ })
            },
    {
        let start = self.slab.memory_start();
        let size = self.slab.object_size();
        let count = self.slab.num_objects();
        if start == 0 || ptr < start || size == 0 {
            return 0;
        }
        let index = (ptr - start) / size;
        if index >= count {
            return 0;
        }
        let n = if data.len() <= FRAME_SLOT_SIZE { data.len() } else { FRAME_SLOT_SIZE };
        let bytes = prefix(data, n);
        let ghost before = self@;
        self.buffers.set(index, bytes);
        assert(self@.buffers =~= written(before, ptr, data@.take(n as int)));
        n
    }

    /// Up to `len` bytes from the start of the DMA buffer holding `ptr`;
    /// nothing when `ptr` lies in no buffer of the slab.
    pub fn read_dma_buffer(&self, ptr: usize, len: usize) -> (r: Vec<u8>)
        requires
            self.well_formed(),
        ensures
            r@ == match buffer_slot(self@.slab, ptr) {
                None => Seq::<u8>::empty(),
                Some(i) => {
                    let b = self@.buffers[i];
                    b.take(if len <= b.len() { len as int } else { b.len() as int })
                },
            },
    {
        let start = self.slab.memory_start();
        let size = self.slab.object_size();
        let count = self.slab.num_objects();
        if start == 0 || ptr < start || size == 0 {
            return Vec::new();
        }
        let index = (ptr - start) / size;
        if index >= count {
            return Vec::new();
        }
        prefix(self.buffers[index].as_slice(), len)
    }

    /// Queues the DMA buffer at `ptr` holding `len` bytes (at most a frame)
    /// for transmission, which the loopback device hands back on its
    /// receive ring: the queued length, or none for a null buffer or a full
    /// ring, which releases the buffer.
    pub fn submit_tx_dma(&mut self, ptr: usize, len: usize) -> (r: Option<usize>)
        requires
            old(self).well_formed(),
        ensures
            final(self).well_formed(),
            ptr == 0 ==> r is None && final(self)@ == old(self)@,
            ptr != 0 && old(self)@.ring.len() < DEFAULT_RING_CAPACITY ==> {
                let n = if len <= FRAME_SLOT_SIZE { len } else { FRAME_SLOT_SIZE };
                &&& r == Some(n)
                &&& final(self)@ == (DriverView { ring: old(self)@.ring.push(FrameSlot { addr: ptr, len: n }), ..old(self)@ })
            },
            ptr != 0 && old(self)@.ring.len() >= DEFAULT_RING_CAPACITY ==> {
                &&& r is None
                &&& final(self)@ == (DriverView { slab: SlabView { slots: release(old(self)@.slab, ptr), ..old(self)@.slab }, ..old(self)@ })
            },
    {
        if ptr == 0 {
            return None;
        }
        self.tx_queue_lock.lock();
        let tx_len = if len <= FRAME_SLOT_SIZE { len } else { FRAME_SLOT_SIZE };
        if !self.rx_ring.push(FrameSlot { addr: ptr, len: tx_len }) {
            self.tx_queue_lock.unlock();
            self.release_dma_buffer(ptr);
            return None;
        }
        self.tx_queue_lock.unlock();
        Some(tx_len)
    }

    /// Takes the oldest frame off the receive ring: its buffer's address
    /// and its length.
    pub fn receive_dma_slot(&mut self) -> (r: Option<(usize, usize)>)
        requires
            old(self).well_formed(),
        ensures
            final(self).well_formed(),
            old(self)@.ring.len() == 0 ==> r is None && final(self)@ == old(self)@,
            old(self)@.ring.len() > 0 ==> {
                &&& r == Some((old(self)@.ring[0].addr, old(self)@.ring[0].len))
                &&& final(self)@ == (DriverView { ring: old(self)@.ring.drop_first(), ..old(self)@ })
            },
    {
        match self.rx_ring.pop() {
            None => None,
            Some(slot) => Some((slot.addr, slot.len)),
        }
    }

    /// Copies a frame (at most `FRAME_SLOT_SIZE` bytes of it) into a fresh
    /// DMA buffer and queues it on the receive ring; false when no buffer
    /// is free or the ring is full.
    pub fn loopback_inject(&mut self, frame: &[u8]) -> (r: bool)
        requires
            old(self).well_formed(),
        ensures
            final(self).well_formed(),
            allocation(old(self)@.slab).0 == 0 ==> !r && final(self)@ == old(self)@,
            allocation(old(self)@.slab).0 != 0 ==> {
                let ptr = allocation(old(self)@.slab).0;
                let n = if frame@.len() <= FRAME_SLOT_SIZE { frame@.len() } else { FRAME_SLOT_SIZE as nat };
                let after_alloc = DriverView { slab: SlabView { slots: allocation(old(self)@.slab).1, ..old(self)@.slab }, ..old(self)@ };
                &&& r == (old(self)@.ring.len() < DEFAULT_RING_CAPACITY)
                &&& final(self)@.slab == after_alloc.slab
                &&& final(self)@.buffers == written(after_alloc, ptr, frame@.take(n as int))
                &&& final(self)@.ring == if r { old(self)@.ring.push(FrameSlot { addr: ptr, len: n as usize }) } else { old(self)@.ring }
                &&& final(self)@.base_addr == old(self)@.base_addr
                &&& final(self)@.mac_address == old(self)@.mac_address
                &&& final(self)@.features == old(self)@.features
            },
    {
        proof {
            self.slab.lemma_slot_count();
            if allocation(self@.slab).0 == 0 {
                crate::allocator::slab::lemma_allocation_null(self@.slab);
            }
        }
        let ptr = self.alloc_dma_buffer();
        if ptr == 0 {
            return false;
        }
        proof {
            lemma_allocated_buffer(old(self)@.slab);
        }
        let copy_len = self.write_dma_buffer(ptr, frame);
        self.rx_ring.push(FrameSlot { addr: ptr, len: copy_len })
    }

    /// Copies `data` (at most `FRAME_SLOT_SIZE` bytes of it) into a fresh
    /// DMA buffer and queues it for transmission: the queued length, or none
    /// when no buffer is free or the ring is full.
    pub fn transmit_frame(&mut self, data: &[u8]) -> (r: Option<usize>)
        requires
            old(self).well_formed(),
        ensures
            final(self).well_formed(),
            allocation(old(self)@.slab).0 == 0 ==> r is None && final(self)@ == old(self)@,
            allocation(old(self)@.slab).0 != 0 && old(self)@.ring.len() < DEFAULT_RING_CAPACITY ==> {
                let ptr = allocation(old(self)@.slab).0;
                let n = if data@.len() <= FRAME_SLOT_SIZE { data@.len() } else { FRAME_SLOT_SIZE as nat };
                let after_alloc = DriverView { slab: SlabView { slots: allocation(old(self)@.slab).1, ..old(self)@.slab }, ..old(self)@ };
                &&& r == Some(n as usize)
                &&& final(self)@ == (DriverView {
                        ring: old(self)@.ring.push(FrameSlot { addr: ptr, len: n as usize }),
                        buffers: written(after_alloc, ptr, data@.take(n as int)),
                        ..after_alloc
                    })
            },
            allocation(old(self)@.slab).0 != 0 && old(self)@.ring.len() >= DEFAULT_RING_CAPACITY ==> r is None,
    {
        proof {
            self.slab.lemma_slot_count();
            if allocation(self@.slab).0 == 0 {
                crate::allocator::slab::lemma_allocation_null(self@.slab);
            }
        }
        let ptr = self.alloc_dma_buffer();
        if ptr == 0 {
            return None;
        }
        proof {
            lemma_allocated_buffer(old(self)@.slab);
        }
        let copy_len = self.write_dma_buffer(ptr, data);
        self.submit_tx_dma(ptr, copy_len)
    }

    /// Takes the oldest frame off the receive ring, copies as much of it as
    /// fits into the start of `buffer`, releases its DMA buffer, and returns
    /// how many bytes were copied; none when the ring is empty.
    pub fn receive_frame(&mut self, buffer: &mut Vec<u8>) -> (r: Option<usize>)
        requires
            old(self).well_formed(),
        ensures
            final(self).well_formed(),
            old(self)@.ring.len() == 0 ==> r is None && final(self)@ == old(self)@ && final(buffer)@ == old(buffer)@,
            old(self)@.ring.len() > 0 ==> {
                let slot = old(self)@.ring[0];
                let bytes = match buffer_slot(old(self)@.slab, slot.addr) {
                    None => Seq::<u8>::empty(),
                    Some(i) => {
                        let b = old(self)@.buffers[i];
                        b.take(if slot.len <= b.len() { slot.len as int } else { b.len() as int })
                    },
                };
                let n = if bytes.len() <= old(buffer)@.len() { bytes.len() } else { old(buffer)@.len() };
                &&& r == Some(n as usize)
                &&& final(buffer)@ == bytes.take(n as int) + old(buffer)@.skip(n as int)
                &&& final(self)@ == (DriverView {
                        ring: old(self)@.ring.drop_first(),
                        slab: SlabView { slots: release(old(self)@.slab, slot.addr), ..old(self)@.slab },
                        ..old(self)@
                    })
            },
    {
        let (ptr, len) = match self.receive_dma_slot() {
            None => {
                return None;
            },
            Some(s) => s,
        };
        let bytes = self.read_dma_buffer(ptr, len);
        let copy_len = if bytes.len() <= buffer.len() { bytes.len() } else { buffer.len() };
        let ghost before_copy = buffer@;
        let mut i: usize = 0;
        while i < copy_len
            invariant
                copy_len <= bytes.len(),
                copy_len <= before_copy.len(),
                i <= copy_len,
                buffer@.len() == before_copy.len(),
                buffer@ == bytes@.take(i as int) + before_copy.skip(i as int),
            decreases copy_len - i,
        {
            buffer.set(i, bytes[i]);
            i = i + 1;
            assert(buffer@ =~= bytes@.take(i as int) + before_copy.skip(i as int));
        }
        self.release_dma_buffer(ptr);
        Some(copy_len)
    }

    /// Whether a frame can be transmitted; always true.
    pub fn can_transmit(&self) -> (r: bool)
        ensures
            r,
    {
        true
    }

    /// Whether a frame waits on the receive ring.
    pub fn can_receive(&self) -> (r: bool)
        requires
            self.well_formed(),
        ensures
            r == (self@.ring.len() > 0),
    {
        !self.rx_ring.is_empty()
    }
}

/// A buffer an allocation hands out lies in the slab.
proof fn lemma_allocated_buffer(v: SlabView)
    requires
        v.slots.len() == v.num_objects,
        v.object_size > 0,
        v.memory_start + v.object_size * v.num_objects <= usize::MAX,
        allocation(v).0 != 0,
    ensures
        buffer_slot(v, allocation(v).0) is Some,
{
    crate::allocator::slab::lemma_allocation_slot(v);
}

/// A frame transmitted through the loopback device comes back, on the
/// receive ring, at the address and with the length it was queued with.
pub proof fn lemma_submit_then_receive(v: DriverView, ptr: usize, len: usize)
    requires
        v.ring.len() == 0,
        ptr != 0,
    ensures
        ({
            let n = if len <= FRAME_SLOT_SIZE { len } else { FRAME_SLOT_SIZE };
            let queued = v.ring.push(FrameSlot { addr: ptr, len: n });
            queued[0] == (FrameSlot { addr: ptr, len: n }) && queued.drop_first() == v.ring
        }),
{
    let n = if len <= FRAME_SLOT_SIZE { len } else { FRAME_SLOT_SIZE };
    assert(v.ring.push(FrameSlot { addr: ptr, len: n }).drop_first() =~= v.ring);
}

} // verus!
