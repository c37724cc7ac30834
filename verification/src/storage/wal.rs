//! Append-only write-ahead log over a block device.
use vstd::prelude::*;
use crate::bytes::{checksum32, checksum_spec, get16, get32, get64, le16, le32, le64, lemma_le16_roundtrip, lemma_le32_roundtrip, lemma_le64_roundtrip, put16, put32, put64, put_bytes, read16, read32, read64};

verus! {

/// The magic number at the start of every encoded record.
pub const WAL_MAGIC: u32 = 0x534F_5357;
/// The record format version.
pub const WAL_VERSION: u16 = 1;
/// The size of one encoded record.
pub const WAL_RECORD_ENCODED_SIZE: usize = 64;
/// The device block size: one encoded record per block.
pub const WAL_BLOCK_SIZE: usize = 64;

/// The operation a record logs.
#[derive(Clone, Copy, Debug, PartialEq, Eq, Structural)]
pub enum WalOp {
    Put,
    Delete,
}

/// One logged operation on an object, keyed by the hash of its path.
#[derive(Clone, Copy, Debug, PartialEq, Eq)]
pub struct WalRecord {
    pub tx_id: u64,
    pub op: WalOp,
    pub key_hash: [u8; 32],
    pub lba: u64,
    pub len: u32,
    pub committed: bool,
}

/// The mathematical content of a record.
pub struct WalEntry {
    pub tx_id: u64,
    pub op: WalOp,
    pub key: Seq<u8>,
    pub lba: u64,
    pub len: u32,
    pub committed: bool,
}

impl View for WalRecord {
    type V = WalEntry;

    open spec fn view(&self) -> WalEntry {
        WalEntry {
            tx_id: self.tx_id,
            op: self.op,
            key: self.key_hash@,
            lba: self.lba,
            len: self.len,
            committed: self.committed,
        }
    }
}

/// The byte that encodes an operation.
pub open spec fn op_byte(op: WalOp) -> u8 {
    match op {
        WalOp::Put => 1,
        WalOp::Delete => 2,
    }
}

/// The first 60 bytes of an encoded record: every field but the checksum.
pub open spec fn record_body(e: WalEntry) -> Seq<u8> {
    le32(WAL_MAGIC) + le16(WAL_VERSION) + seq![op_byte(e.op), if e.committed { 1u8 } else { 0u8 }]
        + le64(e.tx_id) + e.key + le64(e.lba) + le32(e.len)
}

/// The 64 bytes of an encoded record: its body, then the body's checksum.
pub open spec fn encode_spec(e: WalEntry) -> Seq<u8> {
    record_body(e) + le32(checksum_spec(record_body(e)))
}

/// What a block decodes to: a record when the magic, the version, the
/// checksum and the operation byte are all valid, else nothing.
pub open spec fn decode_spec(b: Seq<u8>) -> Option<WalEntry> {
    if b.len() == WAL_RECORD_ENCODED_SIZE && read32(b, 0) == WAL_MAGIC && read16(b, 4) == WAL_VERSION
        && checksum_spec(b.take(60)) == read32(b, 60) && (b[6] == 1u8 || b[6] == 2u8) {
        Some(WalEntry {
            tx_id: read64(b, 8),
            op: if b[6] == 1u8 { WalOp::Put } else { WalOp::Delete },
            key: b.subrange(16, 48),
            lba: read64(b, 48),
            len: read32(b, 56),
            committed: b[7] != 0u8,
        })
    } else {
        None
    }
}

/// The entry with its commit marker set.
pub open spec fn mark_committed(e: WalEntry) -> WalEntry {
    WalEntry { committed: true, ..e }
}

/// Decoding an encoded record gives the record back.
pub proof fn lemma_decode_encode(e: WalEntry)
    requires
        e.key.len() == 32,
    ensures
        decode_spec(encode_spec(e)) == Some(e),
{
    let body = record_body(e);
    let b = encode_spec(e);
    assert(body.len() == 60);
    assert(b.take(60) =~= body);
    assert(b.subrange(0, 4) =~= le32(WAL_MAGIC));
    assert(b.subrange(4, 6) =~= le16(WAL_VERSION));
    assert(b.subrange(8, 16) =~= le64(e.tx_id));
    assert(b.subrange(16, 48) =~= e.key);
    assert(b.subrange(48, 56) =~= le64(e.lba));
    assert(b.subrange(56, 60) =~= le32(e.len));
    assert(b.subrange(60, 64) =~= le32(checksum_spec(body)));
    lemma_le32_roundtrip(WAL_MAGIC);
    lemma_le16_roundtrip(WAL_VERSION);
    lemma_le64_roundtrip(e.tx_id);
    lemma_le64_roundtrip(e.lba);
    lemma_le32_roundtrip(e.len);
    lemma_le32_roundtrip(checksum_spec(body));
    assert(read32(b, 0) == read32(le32(WAL_MAGIC), 0));
    assert(read16(b, 4) == read16(le16(WAL_VERSION), 0));
    assert(read64(b, 8) == read64(le64(e.tx_id), 0));
    assert(read64(b, 48) == read64(le64(e.lba), 0));
    assert(read32(b, 56) == read32(le32(e.len), 0));
    assert(read32(b, 60) == read32(le32(checksum_spec(body)), 0));
    let d = decode_spec(b).unwrap();
    assert(d.committed == e.committed);
    assert(d.op == e.op);
    assert(d == e);
}

impl WalRecord {
    /// A put record (not yet committed).
    pub fn put(tx_id: u64, key_hash: [u8; 32], lba: u64, len: u32) -> (r: Self)
        ensures
            r@ == (WalEntry { tx_id, op: WalOp::Put, key: key_hash@, lba, len, committed: false }),
    {
        WalRecord { tx_id, op: WalOp::Put, key_hash, lba, len, committed: false }
    }

    /// A delete record (not yet committed).
    pub fn delete(tx_id: u64, key_hash: [u8; 32]) -> (r: Self)
        ensures
            r@ == (WalEntry { tx_id, op: WalOp::Delete, key: key_hash@, lba: 0, len: 0, committed: false }),
    {
        WalRecord { tx_id, op: WalOp::Delete, key_hash, lba: 0, len: 0, committed: false }
    }

    /// The 64-byte encoding of the record.
    pub fn encode(&self) -> (out: [u8; WAL_RECORD_ENCODED_SIZE])
        ensures
            out@ == encode_spec(self@),
    {
        let mut out = [0u8; WAL_RECORD_ENCODED_SIZE];
        put32(&mut out, 0, WAL_MAGIC);
        put16(&mut out, 4, WAL_VERSION);
        out[6] = match self.op {
            WalOp::Put => 1,
            WalOp::Delete => 2,
        };
        out[7] = if self.committed { 1 } else { 0 };
        put64(&mut out, 8, self.tx_id);
        put_bytes(&mut out, 16, &self.key_hash);
        put64(&mut out, 48, self.lba);
        put32(&mut out, 56, self.len);
        assert(out@.take(60) =~= record_body(self@));
        let checksum = checksum32(&out, 60);
        put32(&mut out, 60, checksum);
        assert(out@ =~= encode_spec(self@));
        out
    }

    /// The record a block holds, if it is a valid encoding.
    pub fn decode(buf: &[u8; WAL_RECORD_ENCODED_SIZE]) -> (r: Option<Self>)
        ensures
            match r {
                Some(rec) => decode_spec(buf@) == Some(rec@),
                None => decode_spec(buf@) is None,
            },
    {
        let magic = get32(buf, 0);
        if magic != WAL_MAGIC {
            return None;
        }
        let version = get16(buf, 4);
        if version != WAL_VERSION {
            return None;
        }
        let expected = get32(buf, 60);
        if checksum32(buf, 60) != expected {
            return None;
        }
        let op = if buf[6] == 1 {
            WalOp::Put
        } else if buf[6] == 2 {
            WalOp::Delete
        } else {
            return None;
        };
        let committed = buf[7] != 0;
        let tx_id = get64(buf, 8);
        let mut key_hash = [0u8; 32];
        let mut i: usize = 0;
        while i < 32
            invariant
                i <= 32,
                forall|j: int| 0 <= j < i ==> key_hash@[j] == buf@[16 + j],
            decreases 32 - i,
        {
            key_hash[i] = buf[16 + i];
            i = i + 1;
        }
        assert(key_hash@ =~= buf@.subrange(16, 48));
        let lba = get64(buf, 48);
        let len = get32(buf, 56);
        Some(WalRecord { tx_id, op, key_hash, lba, len, committed })
    }
}

/// A block device holding fixed-size log blocks.
pub trait WalBlockDevice {
    /// Whether `blocks` and `reliable` describe the device. A device that
    /// does not define them is promised nothing of its accesses.
    open spec fn modeled(&self) -> bool {
        false
    }

    /// The blocks the device holds, in order.
    open spec fn blocks(&self) -> Seq<Seq<u8>> {
        Seq::empty()
    }

    /// Whether every access within the capacity succeeds (a device may fail
    /// accesses otherwise; a failed write changes nothing).
    open spec fn reliable(&self) -> bool {
        false
    }

    /// Whether a read of block `index` succeeds (for a block within the
    /// capacity).
    open spec fn readable(&self, index: int) -> bool {
        self.reliable()
    }

    /// Whether a write of block `index` succeeds (for a block within the
    /// capacity).
    open spec fn writable(&self, index: int) -> bool {
        self.reliable()
    }

    /// The number of blocks.
    fn capacity_blocks(&self) -> (n: usize)
        ensures
            self.modeled() ==> n == self.blocks().len(),
    ;

    /// Reads block `index` into `out`; true on success.
    fn read_block(&self, index: usize, out: &mut [u8; WAL_BLOCK_SIZE]) -> (ok: bool)
        ensures
            self.modeled() && ok ==> index < self.blocks().len() && final(out)@ == self.blocks()[index as int],
            self.modeled() && self.reliable() ==> ok == (index < self.blocks().len()),
            self.modeled() ==> ok == (index < self.blocks().len() && self.readable(index as int)),
    ;

    /// Writes `data` to block `index`; true on success.
    fn write_block(&mut self, index: usize, data: &[u8; WAL_BLOCK_SIZE]) -> (ok: bool)
        ensures
            old(self).modeled() ==> {
                &&& final(self).modeled()
                &&& ok ==> index < old(self).blocks().len() && final(self).blocks() == old(self).blocks().update(index as int, data@)
                &&& !ok ==> final(self).blocks() == old(self).blocks()
                &&& final(self).reliable() == old(self).reliable()
                &&& old(self).reliable() ==> ok == (index < old(self).blocks().len())
                &&& ok == (index < old(self).blocks().len() && old(self).writable(index as int))
                &&& forall|i: int| #[trigger] final(self).readable(i) == old(self).readable(i)
            },
    ;
}

/// A RAM-backed device of `BLOCKS` zeroed blocks.
pub struct InMemoryWalDevice<const BLOCKS: usize> {
    blocks: Vec<[u8; WAL_BLOCK_SIZE]>,
}

impl<const BLOCKS: usize> InMemoryWalDevice<BLOCKS> {
    /// A device of `BLOCKS` zeroed blocks.
    pub fn new() -> (d: Self)
        ensures
            d.modeled(),
            d.blocks() == Seq::new(BLOCKS as nat, |i: int| Seq::new(WAL_BLOCK_SIZE as nat, |j: int| 0u8)),
            d.reliable(),
    {
        let mut blocks: Vec<[u8; WAL_BLOCK_SIZE]> = Vec::new();
        let mut i: usize = 0;
        while i < BLOCKS
            invariant
                i <= BLOCKS,
                blocks@.len() == i,
                forall|k: int| 0 <= k < i ==> blocks@[k]@ == Seq::new(WAL_BLOCK_SIZE as nat, |j: int| 0u8),
            decreases BLOCKS - i,
        {
            let zero = [0u8; WAL_BLOCK_SIZE];
            assert(zero@ =~= Seq::new(WAL_BLOCK_SIZE as nat, |j: int| 0u8));
            blocks.push(zero);
            i = i + 1;
        }
        let d = InMemoryWalDevice { blocks };
        assert(d.blocks() =~= Seq::new(BLOCKS as nat, |i: int| Seq::new(WAL_BLOCK_SIZE as nat, |j: int| 0u8)));
        d
    }

    /// Overwrites one byte of one block (out-of-range positions are ignored).
    pub fn corrupt_byte(&mut self, block: usize, byte: usize, value: u8)
        ensures
            final(self).modeled(),
            final(self).reliable(),
            block < old(self).blocks().len() && byte < WAL_BLOCK_SIZE ==> final(self).blocks()
                == old(self).blocks().update(block as int, old(self).blocks()[block as int].update(byte as int, value)),
            !(block < old(self).blocks().len() && byte < WAL_BLOCK_SIZE) ==> final(self).blocks() == old(self).blocks(),
    {
        if block < self.blocks.len() && byte < WAL_BLOCK_SIZE {
            let mut b = self.blocks[block];
            b[byte] = value;
            self.blocks.set(block, b);
            assert(self.blocks() =~= old(self).blocks().update(block as int, old(self).blocks()[block as int].update(byte as int, value)));
        }
    }
}

impl<const BLOCKS: usize> Default for InMemoryWalDevice<BLOCKS> {
    fn default() -> (d: Self)
        ensures
            d.modeled(),
            d.blocks() == Seq::new(BLOCKS as nat, |i: int| Seq::new(WAL_BLOCK_SIZE as nat, |j: int| 0u8)),
            d.reliable(),
    {
        Self::new()
    }
}

impl<const BLOCKS: usize> WalBlockDevice for InMemoryWalDevice<BLOCKS> {
    closed spec fn modeled(&self) -> bool {
        true
    }

    closed spec fn blocks(&self) -> Seq<Seq<u8>> {
        self.blocks@.map_values(|b: [u8; WAL_BLOCK_SIZE]| b@)
    }

    closed spec fn reliable(&self) -> bool {
        true
    }

    closed spec fn readable(&self, index: int) -> bool {
        true
    }

    closed spec fn writable(&self, index: int) -> bool {
        true
    }

    fn capacity_blocks(&self) -> (n: usize) {
        self.blocks.len()
    }

    fn read_block(&self, index: usize, out: &mut [u8; WAL_BLOCK_SIZE]) -> (ok: bool) {
        if index >= self.blocks.len() {
            return false;
        }
        *out = self.blocks[index];
        true
    }

    fn write_block(&mut self, index: usize, data: &[u8; WAL_BLOCK_SIZE]) -> (ok: bool) {
        if index >= self.blocks.len() {
            return false;
        }
        self.blocks.set(index, *data);
        assert(self.blocks() =~= old(self).blocks().update(index as int, data@));
        true
    }
}

/// The entries of the committed records among the blocks that `readable`
/// admits, in block order.
pub open spec fn readable_committed(blocks: Seq<Seq<u8>>, readable: spec_fn(int) -> bool) -> Seq<WalEntry>
    decreases blocks.len(),
{
    if blocks.len() == 0 {
        Seq::empty()
    } else {
        let rest = readable_committed(blocks.drop_last(), readable);
        if readable(blocks.len() - 1) {
            match decode_spec(blocks.last()) {
                Some(e) => if e.committed { rest.push(e) } else { rest },
                None => rest,
            }
        } else {
            rest
        }
    }
}

/// The entries of the committed records among `blocks`, in block order.
pub open spec fn committed_entries(blocks: Seq<Seq<u8>>) -> Seq<WalEntry>
    decreases blocks.len(),
{
    if blocks.len() == 0 {
        Seq::empty()
    } else {
        let rest = committed_entries(blocks.drop_last());
        match decode_spec(blocks.last()) {
            Some(e) => if e.committed { rest.push(e) } else { rest },
            None => rest,
        }
    }
}

/// Whether no block from `from` on holds a record.
pub open spec fn no_records_from(blocks: Seq<Seq<u8>>, from: int) -> bool {
    forall|j: int| from <= j < blocks.len() ==> #[trigger] decode_spec(blocks[j]) is None
}

/// Blocks that hold no record give no committed entries.
pub proof fn lemma_no_committed_entries(blocks: Seq<Seq<u8>>)
    requires
        no_records_from(blocks, 0),
    ensures
        committed_entries(blocks) == Seq::<WalEntry>::empty(),
    decreases blocks.len(),
{
    if blocks.len() > 0 {
        assert(decode_spec(blocks[blocks.len() - 1]) is None);
        lemma_no_committed_entries(blocks.drop_last());
    }
}

/// There are at most as many committed entries as blocks.
pub proof fn lemma_committed_entries_len(blocks: Seq<Seq<u8>>)
    ensures
        committed_entries(blocks).len() <= blocks.len(),
    decreases blocks.len(),
{
    if blocks.len() > 0 {
        lemma_committed_entries_len(blocks.drop_last());
    }
}

/// Writing a committed record into the first block of a tail that holds
/// no record appends the record to the committed entries.
pub proof fn lemma_committed_entries_append(blocks: Seq<Seq<u8>>, h: int, x: Seq<u8>)
    requires
        0 <= h < blocks.len(),
        no_records_from(blocks, h),
        decode_spec(x) is Some,
        decode_spec(x)->0.committed,
    ensures
        committed_entries(blocks.update(h, x)) == committed_entries(blocks).push(decode_spec(x)->0),
    decreases blocks.len(),
{
    let n = blocks.len();
    let u = blocks.update(h, x);
    assert(decode_spec(blocks[n - 1]) is None);
    if h == n - 1 {
        assert(u.drop_last() =~= blocks.drop_last());
        assert(u.last() == x);
    } else {
        assert(u.drop_last() =~= blocks.drop_last().update(h, x));
        assert(u.last() == blocks[n - 1]);
        assert forall|j: int| h <= j < blocks.drop_last().len() implies #[trigger] decode_spec(blocks.drop_last()[j]) is None by {
            assert(blocks.drop_last()[j] == blocks[j]);
        }
        lemma_committed_entries_append(blocks.drop_last(), h, x);
    }
}

/// Whether the first `n` blocks all hold valid records.
pub open spec fn valid_prefix(blocks: Seq<Seq<u8>>, n: int) -> bool {
    forall|i: int| 0 <= i < n ==> (#[trigger] decode_spec(blocks[i])) is Some
}

/// The slot after `head`, wrapping at the top of the counter.
pub open spec fn next_head(head: usize) -> usize {
    if head == usize::MAX { 0 } else { (head + 1) as usize }
}

/// A write-ahead log: records are appended at the head, committed in place,
/// and replayed in block order.
pub struct WriteAheadLog<D: WalBlockDevice> {
    device: D,
    head: usize,
}

impl<D: WalBlockDevice> WriteAheadLog<D> {
    /// The device the log writes to.
    pub closed spec fn dev(&self) -> D {
        self.device
    }

    /// The block the next append writes.
    pub closed spec fn head_slot(&self) -> usize {
        self.head
    }

    /// A log over `device`, appending from block 0.
    pub fn new(device: D) -> (w: Self)
        ensures
            w.dev() == device,
            w.head_slot() == 0,
    {
        WriteAheadLog { device, head: 0 }
    }

    /// The device the log writes to.
    pub fn device(&self) -> (d: &D)
        ensures
            *d == self.dev(),
    {
        &self.device
    }

    /// Gives the device back.
    pub fn into_device(self) -> (d: D)
        ensures
            d == self.dev(),
    {
        self.device
    }

    /// Appends `rec` (encoded) at the head block; the head advances whether
    /// or not the write succeeds. Returns the slot written.
    pub fn append(&mut self, rec: WalRecord) -> (r: Option<usize>)
        ensures
            final(self).head_slot() == next_head(old(self).head_slot()),
            r matches Some(i) ==> i == old(self).head_slot(),
            old(self).dev().modeled() ==> {
                &&& final(self).dev().modeled()
                &&& final(self).dev().reliable() == old(self).dev().reliable()
                &&& match r {
                    Some(i) => i < old(self).dev().blocks().len()
                        && final(self).dev().blocks() == old(self).dev().blocks().update(i as int, encode_spec(rec@)),
                    None => final(self).dev().blocks() == old(self).dev().blocks()
                        && (old(self).dev().reliable() ==> old(self).head_slot() >= old(self).dev().blocks().len()),
                }
                &&& r is Some == (old(self).head_slot() < old(self).dev().blocks().len()
                    && old(self).dev().writable(old(self).head_slot() as int))
                &&& forall|i: int| #[trigger] final(self).dev().readable(i) == old(self).dev().readable(i)
            },
    {
        let idx = self.head;
        self.head = if self.head == usize::MAX { 0 } else { self.head + 1 };
        if idx >= self.device.capacity_blocks() {
            return None;
        }
        let enc = rec.encode();
        if !self.device.write_block(idx, &enc) {
            return None;
        }
        Some(idx)
    }

    /// Sets the commit marker of the record in `slot`. Fails when the slot is
    /// out of range, unreadable, or does not hold a valid record.
    pub fn commit(&mut self, slot: usize) -> (r: bool)
        ensures
            final(self).head_slot() == old(self).head_slot(),
            old(self).dev().modeled() ==> {
                &&& final(self).dev().modeled()
                &&& final(self).dev().reliable() == old(self).dev().reliable()
                &&& r ==> slot < old(self).dev().blocks().len()
                    && decode_spec(old(self).dev().blocks()[slot as int]) is Some
                    && final(self).dev().blocks() == old(self).dev().blocks().update(
                        slot as int,
                        encode_spec(mark_committed(decode_spec(old(self).dev().blocks()[slot as int]).unwrap())),
                    )
                &&& !r ==> final(self).dev().blocks() == old(self).dev().blocks()
                &&& old(self).dev().reliable() && slot < old(self).dev().blocks().len()
                    && decode_spec(old(self).dev().blocks()[slot as int]) is Some ==> r
                &&& r == (slot < old(self).dev().blocks().len() && old(self).dev().readable(slot as int)
                    && decode_spec(old(self).dev().blocks()[slot as int]) is Some
                    && old(self).dev().writable(slot as int))
            },
    {
        if slot >= self.device.capacity_blocks() {
            return false;
        }
        let mut raw = [0u8; WAL_BLOCK_SIZE];
        if !self.device.read_block(slot, &mut raw) {
            return false;
        }
        let mut rec = match WalRecord::decode(&raw) {
            Some(r) => r,
            None => return false,
        };
        rec.committed = true;
        let enc = rec.encode();
        self.device.write_block(slot, &enc)
    }

    /// The committed records, in block order (blocks that cannot be read or
    /// decoded are skipped).
    pub fn replay_committed(&self) -> (r: Vec<WalRecord>)
        ensures
            forall|k: int| 0 <= k < r@.len() ==> (#[trigger] r@[k]).committed,
            self.dev().modeled() && self.dev().reliable() ==> r@.map_values(|x: WalRecord| x@) == committed_entries(self.dev().blocks()),
            self.dev().modeled() ==> forall|k: int| 0 <= k < r@.len() ==> (#[trigger] r@[k]).committed
                && exists|i: int| 0 <= i < self.dev().blocks().len() && decode_spec(self.dev().blocks()[i]) == Some(r@[k]@),
            self.dev().modeled() ==> r@.map_values(|x: WalRecord| x@)
                == readable_committed(self.dev().blocks(), |i: int| self.dev().readable(i)),
    {
        let mut out: Vec<WalRecord> = Vec::new();
        let cap = self.device.capacity_blocks();
        let mut idx: usize = 0;
        while idx < cap
            invariant
                idx <= cap,
                self.dev().modeled() ==> cap == self.dev().blocks().len(),
                forall|k: int| 0 <= k < out@.len() ==> (#[trigger] out@[k]).committed,
                self.dev().modeled() && self.dev().reliable() ==> out@.map_values(|x: WalRecord| x@)
                    == committed_entries(self.dev().blocks().take(idx as int)),
                self.dev().modeled() ==> forall|k: int| 0 <= k < out@.len() ==> (#[trigger] out@[k]).committed
                    && exists|i: int| 0 <= i < self.dev().blocks().len() && decode_spec(self.dev().blocks()[i]) == Some(out@[k]@),
                self.dev().modeled() ==> out@.map_values(|x: WalRecord| x@)
                    == readable_committed(self.dev().blocks().take(idx as int), |i: int| self.dev().readable(i)),
            decreases cap - idx,
        {
            let ghost blocks = self.dev().blocks();
            proof {
                if self.dev().modeled() {
                    assert(blocks.take(idx as int + 1).drop_last() =~= blocks.take(idx as int));
                }
            }
            let mut raw = [0u8; WAL_BLOCK_SIZE];
            let ok = self.device.read_block(idx, &mut raw);
            if ok {
                match WalRecord::decode(&raw) {
                    Some(rec) => {
                        if rec.committed {
                            let ghost prev = out@;
                            out.push(rec);
                            assert(out@.map_values(|x: WalRecord| x@) =~= prev.map_values(|x: WalRecord| x@).push(rec@));
                            proof {
                                if self.dev().modeled() {
                                    assert(decode_spec(blocks[idx as int]) == Some(rec@));
                                }
                            }
                        }
                    },
                    None => {},
                }
            }
            idx = idx + 1;
        }
        proof {
            if self.dev().modeled() {
                assert(self.dev().blocks().take(cap as int) =~= self.dev().blocks());
            }
        }
        out
    }

    /// Rescans the log from block 0 and sets the head just past the last
    /// valid record of the leading run of valid records.
    pub fn recover_head(&mut self) -> (r: usize)
        ensures
            final(self).dev() == old(self).dev(),
            final(self).head_slot() == r,
            old(self).dev().modeled() ==> {
                &&& r <= old(self).dev().blocks().len()
                &&& valid_prefix(old(self).dev().blocks(), r as int)
                &&& old(self).dev().reliable() ==> r == old(self).dev().blocks().len()
                    || decode_spec(old(self).dev().blocks()[r as int]) is None
                &&& forall|i: int| 0 <= i < r ==> #[trigger] old(self).dev().readable(i)
                &&& r == old(self).dev().blocks().len() || !old(self).dev().readable(r as int)
                    || decode_spec(old(self).dev().blocks()[r as int]) is None
            },
    {
        let mut end: usize = 0;
        let cap = self.device.capacity_blocks();
        let mut idx: usize = 0;
        while idx < cap
            invariant
                idx <= cap,
                self.dev().modeled() ==> cap == self.dev().blocks().len(),
                end == idx,
                self.dev().modeled() ==> valid_prefix(self.dev().blocks(), end as int),
                self.dev().modeled() ==> forall|i: int| 0 <= i < end ==> #[trigger] self.dev().readable(i),
            ensures
                end <= cap,
                self.dev().modeled() ==> valid_prefix(self.dev().blocks(), end as int),
                self.dev().modeled() && self.dev().reliable() ==> end == cap || decode_spec(self.dev().blocks()[end as int]) is None,
                self.dev().modeled() ==> forall|i: int| 0 <= i < end ==> #[trigger] self.dev().readable(i),
                self.dev().modeled() ==> end == cap || !self.dev().readable(end as int)
                    || decode_spec(self.dev().blocks()[end as int]) is None,
            decreases cap - idx,
        {
            let mut raw = [0u8; WAL_BLOCK_SIZE];
            if !self.device.read_block(idx, &mut raw) {
                break;
            }
            if WalRecord::decode(&raw).is_some() {
                end = idx + 1;
            } else {
                break;
            }
            idx = idx + 1;
        }
        self.head = end;
        end
    }
}

} // verus!
