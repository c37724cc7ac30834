//! Atomic transactions: every put or delete is logged, committed, applied to
//! both indices and then published by advancing the epoch.
use vstd::prelude::*;
use crate::storage::btree::{find_spec, has_key, keys_sorted, lemma_removed_map, lemma_tree_map_len, lemma_upserted_map, removed, tree_map, upserted, BTreeNodeEntry, CowBTreeIndex};
use crate::storage::index::{CowObjectIndex, ObjectEntry};
use crate::storage::wal::{
    committed_entries, decode_spec, encode_spec, lemma_committed_entries_append, lemma_decode_encode,
    lemma_no_committed_entries, mark_committed, next_head, no_records_from, valid_prefix, WalBlockDevice,
    WalEntry, WalOp, WalRecord, WriteAheadLog,
};

verus! {

/// Why a transaction did not complete.
#[derive(Clone, Copy, Debug, PartialEq, Eq, Structural)]
pub enum TxError {
    WalFull,
    CommitFailed,
    IndexUpdateFailed,
}

/// The state of the latest transaction.
#[derive(Clone, Copy, Debug, PartialEq, Eq, Structural)]
pub enum TxStatus {
    Idle,
    InFlight,
    Committed,
    Aborted,
}

impl TxStatus {
    /// The status a status word encodes (unknown words read as idle).
    pub fn from_usize(v: usize) -> (s: Self)
        ensures
            s == (if v == 1 { TxStatus::InFlight } else if v == 2 { TxStatus::Committed } else if v == 3 {
                TxStatus::Aborted
            } else {
                TxStatus::Idle
            }),
    {
        match v {
            1 => TxStatus::InFlight,
            2 => TxStatus::Committed,
            3 => TxStatus::Aborted,
            _ => TxStatus::Idle,
        }
    }

    /// The status word of a status.
    pub fn as_usize(self) -> (v: usize)
        ensures
            v == (match self {
                TxStatus::Idle => 0usize,
                TxStatus::InFlight => 1usize,
                TxStatus::Committed => 2usize,
                TxStatus::Aborted => 3usize,
            }),
    {
        match self {
            TxStatus::Idle => 0,
            TxStatus::InFlight => 1,
            TxStatus::Committed => 2,
            TxStatus::Aborted => 3,
        }
    }
}

/// The views of `recs`.
pub open spec fn entries_of(recs: Seq<WalRecord>) -> Seq<WalEntry> {
    recs.map_values(|x: WalRecord| x@)
}

/// The object map after replaying `recs` onto `m` in order: a put stores
/// its entry, a delete removes its key.
pub open spec fn replay_objects(m: Map<Seq<u8>, ObjectEntry>, recs: Seq<WalRecord>) -> Map<Seq<u8>, ObjectEntry>
    decreases recs.len(),
{
    if recs.len() == 0 {
        m
    } else {
        let prev = replay_objects(m, recs.drop_last());
        let r = recs.last();
        match r.op {
            WalOp::Put => prev.insert(r.key_hash@, ObjectEntry { key_hash: r.key_hash, lba: r.lba, len: r.len }),
            WalOp::Delete => prev.remove(r.key_hash@),
        }
    }
}

/// The B-Tree's key map after replaying `recs` onto `m` in order.
pub open spec fn replay_tree(m: Map<Seq<u8>, BTreeNodeEntry>, recs: Seq<WalRecord>) -> Map<Seq<u8>, BTreeNodeEntry>
    decreases recs.len(),
{
    if recs.len() == 0 {
        m
    } else {
        let prev = replay_tree(m, recs.drop_last());
        let r = recs.last();
        match r.op {
            WalOp::Put => prev.insert(r.key_hash@, BTreeNodeEntry { key_hash: r.key_hash, lba: r.lba }),
            WalOp::Delete => prev.remove(r.key_hash@),
        }
    }
}

/// The number of successes among `oks`.
pub open spec fn successes(oks: Seq<bool>) -> nat
    decreases oks.len(),
{
    if oks.len() == 0 { 0 } else { successes(oks.drop_last()) + if oks.last() { 1nat } else { 0nat } }
}

/// The epoch after transactions with outcomes `oks` (true: it returned
/// `Ok`), starting from `e`: each success publishes the next epoch, each
/// failure leaves it.
pub open spec fn epoch_after(e: usize, oks: Seq<bool>) -> usize
    decreases oks.len(),
{
    if oks.len() == 0 {
        e
    } else {
        let prev = epoch_after(e, oks.drop_last());
        if oks.last() { next_head(prev) } else { prev }
    }
}

/// Short of wrapping, the epoch counts the successful transactions.
pub proof fn lemma_epoch_counts_successes(e: usize, oks: Seq<bool>)
    requires
        e + successes(oks) <= usize::MAX,
    ensures
        epoch_after(e, oks) == e + successes(oks),
    decreases oks.len(),
{
    if oks.len() > 0 {
        lemma_epoch_counts_successes(e, oks.drop_last());
    }
}

/// Whether replaying `recs` onto `o0` never meets a put of a new key into
/// an object index that already holds `n` keys.
pub open spec fn objects_fit(o0: Map<Seq<u8>, ObjectEntry>, recs: Seq<WalRecord>, n: nat) -> bool {
    forall|k: int| 0 <= k < recs.len() && (#[trigger] recs[k]).op == WalOp::Put ==> {
        let before = replay_objects(o0, recs.take(k));
        before.contains_key(recs[k].key_hash@) || before.dom().len() < n
    }
}

/// Whether replaying `recs` onto `t0` never meets a put of a new key into
/// a B-Tree that already holds `f` keys.
pub open spec fn tree_fits(t0: Map<Seq<u8>, BTreeNodeEntry>, recs: Seq<WalRecord>, f: nat) -> bool {
    forall|k: int| 0 <= k < recs.len() && (#[trigger] recs[k]).op == WalOp::Put
        ==> {
            let before = replay_tree(t0, recs.take(k));
            before.contains_key(recs[k].key_hash@) || before.dom().len() < f
        }
}

/// Records with the same views are the same records.
pub proof fn lemma_entries_of_injective(a: Seq<WalRecord>, b: Seq<WalRecord>)
    requires
        entries_of(a) == entries_of(b),
    ensures
        a == b,
{
    assert(a.len() == entries_of(a).len());
    assert(b.len() == entries_of(b).len());
    assert forall|i: int| 0 <= i < a.len() implies a[i] == b[i] by {
        assert(entries_of(a)[i] == a[i]@);
        assert(entries_of(b)[i] == b[i]@);
        let ka = a[i].key_hash;
        let kb = b[i].key_hash;
        assert(ka@ == kb@);
        assert forall|j: int| 0 <= j < 32 implies ka[j] == kb[j] by {
            vstd::array::lemma_array_index(ka, j);
            vstd::array::lemma_array_index(kb, j);
        }
        assert(ka =~= kb);
    }
    assert(a =~= b);
}

/// Runs puts and deletes as log-then-apply transactions over a write-ahead
/// log, an object index and a B-Tree index.
pub struct AtomicTransactionManager<D: WalBlockDevice, const N: usize, const FANOUT: usize> {
    wal: WriteAheadLog<D>,
    object_index: CowObjectIndex<N>,
    btree_index: CowBTreeIndex<FANOUT>,
    tx_seq: usize,
    epoch: usize,
    status: TxStatus,
}

impl<D: WalBlockDevice, const N: usize, const FANOUT: usize> AtomicTransactionManager<D, N, FANOUT> {
    /// The blocks of the log device.
    pub closed spec fn log_blocks(&self) -> Seq<Seq<u8>> {
        self.wal.dev().blocks()
    }

    /// Whether the log device is described by its blocks and reliability.
    pub closed spec fn log_modeled(&self) -> bool {
        self.wal.dev().modeled()
    }

    /// Whether the log device never fails an in-range access.
    pub closed spec fn log_reliable(&self) -> bool {
        self.wal.dev().reliable()
    }

    /// The log block the next transaction appends to.
    pub closed spec fn log_head(&self) -> usize {
        self.wal.head_slot()
    }

    /// The object index's key-to-entry map.
    pub closed spec fn objects(&self) -> Map<Seq<u8>, ObjectEntry> {
        self.object_index.view()
    }

    /// Whether the object index has no free slot.
    pub closed spec fn objects_full(&self) -> bool {
        self.object_index.is_full()
    }

    /// The B-Tree index's entries in key order.
    pub closed spec fn tree(&self) -> Seq<BTreeNodeEntry> {
        self.btree_index@
    }

    /// The id the next transaction gets.
    pub closed spec fn next_tx_id(&self) -> usize {
        self.tx_seq
    }

    /// The published epoch.
    pub closed spec fn epoch_spec(&self) -> usize {
        self.epoch
    }

    /// The status of the latest transaction.
    pub closed spec fn status_spec(&self) -> TxStatus {
        self.status
    }

    /// Whether the indices are what replaying the committed records of the
    /// log onto empty indices gives, and no block from the head on holds a
    /// record (the log of a manager whose transactions all succeeded).
    #[verifier::opaque]
    pub open spec fn mirrors_log(&self) -> bool {
        &&& self.log_modeled()
        &&& self.log_blocks().len() <= usize::MAX
        &&& self.log_head() <= self.log_blocks().len()
        &&& no_records_from(self.log_blocks(), self.log_head() as int)
        &&& exists|recs: Seq<WalRecord>| #[trigger] entries_of(recs) == committed_entries(self.log_blocks())
            && self.objects() == replay_objects(Map::empty(), recs)
            && tree_map(self.tree()) == replay_tree(Map::empty(), recs)
            && objects_fit(Map::empty(), recs, N as nat)
            && tree_fits(Map::empty(), recs, FANOUT as nat)
    }

    /// The indices of a manager whose log it mirrors are exactly the replay of
    /// the log's committed records onto empty indices: what a recovery from
    /// that log rebuilds on a fresh manager.
    pub proof fn lemma_mirror_is_replay(&self, recs: Seq<WalRecord>)
        requires
            self.mirrors_log(),
            entries_of(recs) == committed_entries(self.log_blocks()),
        ensures
            self.objects() == replay_objects(Map::empty(), recs),
            tree_map(self.tree()) == replay_tree(Map::empty(), recs),
    {
        reveal(AtomicTransactionManager::mirrors_log);
        let witness = choose|w: Seq<WalRecord>| #[trigger] entries_of(w) == committed_entries(self.log_blocks())
            && self.objects() == replay_objects(Map::empty(), w)
            && tree_map(self.tree()) == replay_tree(Map::empty(), w);
        lemma_entries_of_injective(witness, recs);
    }

    /// Whether the indices of `after` are those of `before` with the
    /// committed records of `before`'s log replayed onto them in log order
    /// (each index as far as the records fit its capacity).
    pub open spec fn rebuilt_from(before: Self, after: Self) -> bool {
        exists|recs: Seq<WalRecord>| {
            &&& #[trigger] entries_of(recs) == committed_entries(before.log_blocks())
            &&& objects_fit(before.objects(), recs, N as nat)
                ==> after.objects() == replay_objects(before.objects(), recs)
            &&& tree_fits(tree_map(before.tree()), recs, FANOUT as nat)
                ==> tree_map(after.tree()) == replay_tree(tree_map(before.tree()), recs)
        }
    }

    /// Recovery rebuilds the indices that built the log: a manager with
    /// empty indices over the log of a manager whose indices mirror it ends,
    /// after `recover`, with that manager's indices.
    pub proof fn lemma_recovery_rebuilds(live: Self, fresh: Self, after: Self)
        requires
            live.mirrors_log(),
            fresh.log_blocks() == live.log_blocks(),
            fresh.objects() == Map::<Seq<u8>, ObjectEntry>::empty(),
            fresh.tree() == Seq::<BTreeNodeEntry>::empty(),
            Self::rebuilt_from(fresh, after),
        ensures
            after.objects() == live.objects(),
            tree_map(after.tree()) == tree_map(live.tree()),
    {
        reveal(AtomicTransactionManager::mirrors_log);
        let recs = choose|recs: Seq<WalRecord>| {
            &&& #[trigger] entries_of(recs) == committed_entries(fresh.log_blocks())
            &&& objects_fit(fresh.objects(), recs, N as nat)
                ==> after.objects() == replay_objects(fresh.objects(), recs)
            &&& tree_fits(tree_map(fresh.tree()), recs, FANOUT as nat)
                ==> tree_map(after.tree()) == replay_tree(tree_map(fresh.tree()), recs)
        };
        let witness = choose|w: Seq<WalRecord>| #[trigger] entries_of(w) == committed_entries(live.log_blocks())
            && live.objects() == replay_objects(Map::empty(), w)
            && tree_map(live.tree()) == replay_tree(Map::empty(), w)
            && objects_fit(Map::empty(), w, N as nat)
            && tree_fits(Map::empty(), w, FANOUT as nat);
        lemma_entries_of_injective(witness, recs);
        assert(tree_map(Seq::<BTreeNodeEntry>::empty()) =~= Map::<Seq<u8>, BTreeNodeEntry>::empty());
    }

    /// A transaction that logged `rec` (committed) at the head of a mirroring
    /// log and applied it to both indices keeps the indices mirroring the log.
    proof fn lemma_logged_keeps_mirror(&self, before: Self, slot: usize, rec: WalRecord)
        requires
            before.mirrors_log(),
            rec.committed,
            slot == before.log_head(),
            slot < before.log_blocks().len(),
            self.log_modeled(),
            self.log_blocks() == before.log_blocks().update(slot as int, encode_spec(rec@)),
            self.log_head() == next_head(before.log_head()),
            self.objects() == match rec.op {
                WalOp::Put => before.objects().insert(rec.key_hash@, ObjectEntry { key_hash: rec.key_hash, lba: rec.lba, len: rec.len }),
                WalOp::Delete => before.objects().remove(rec.key_hash@),
            },
            tree_map(self.tree()) == match rec.op {
                WalOp::Put => tree_map(before.tree()).insert(rec.key_hash@, BTreeNodeEntry { key_hash: rec.key_hash, lba: rec.lba }),
                WalOp::Delete => tree_map(before.tree()).remove(rec.key_hash@),
            },
            rec.op == WalOp::Put ==> before.objects().contains_key(rec.key_hash@) || before.objects().dom().len() < N,
            rec.op == WalOp::Put ==> tree_map(before.tree()).contains_key(rec.key_hash@) || tree_map(before.tree()).dom().len() < FANOUT,
        ensures
            self.mirrors_log(),
    {
        reveal(AtomicTransactionManager::mirrors_log);
        let blocks = before.log_blocks();
        lemma_decode_encode(rec@);
        lemma_committed_entries_append(blocks, slot as int, encode_spec(rec@));
        let recs = choose|recs: Seq<WalRecord>| #[trigger] entries_of(recs) == committed_entries(blocks)
            && before.objects() == replay_objects(Map::empty(), recs)
            && tree_map(before.tree()) == replay_tree(Map::empty(), recs)
            && objects_fit(Map::empty(), recs, N as nat)
            && tree_fits(Map::empty(), recs, FANOUT as nat);
        let recs2 = recs.push(rec);
        assert(entries_of(recs2) =~= entries_of(recs).push(rec@));
        assert(recs2.drop_last() =~= recs);
        assert(recs2.take(recs.len() as int) =~= recs);
        assert forall|k: int| 0 <= k < recs2.len() && (#[trigger] recs2[k]).op == WalOp::Put implies {
            let b = replay_objects(Map::empty(), recs2.take(k));
            &&& b.contains_key(recs2[k].key_hash@) || b.dom().len() < N as nat
            &&& replay_tree(Map::empty(), recs2.take(k)).contains_key(recs2[k].key_hash@)
                || replay_tree(Map::empty(), recs2.take(k)).dom().len() < FANOUT as nat
        } by {
            if k < recs.len() {
                assert(recs2.take(k) =~= recs.take(k));
                assert(recs2[k] == recs[k]);
            }
        }
        assert forall|j: int| (slot + 1) as int <= j < self.log_blocks().len() implies #[trigger] decode_spec(self.log_blocks()[j]) is None by {
            assert(self.log_blocks()[j] == blocks[j]);
        }
        assert(entries_of(recs2) == committed_entries(self.log_blocks()));
    }

    /// A manager over `device` with empty indices, epoch 0 and the first
    /// transaction id 1.
    pub fn new(device: D) -> (m: Self)
        ensures
            m.log_modeled() == device.modeled(),
            m.log_blocks() == device.blocks(),
            m.log_reliable() == device.reliable(),
            m.log_head() == 0,
            m.objects() == Map::<Seq<u8>, ObjectEntry>::empty(),
            m.objects_full() == (N == 0),
            m.tree() == Seq::<BTreeNodeEntry>::empty(),
            m.next_tx_id() == 1,
            m.epoch_spec() == 0,
            m.status_spec() == TxStatus::Idle,
            device.modeled() && device.blocks().len() <= usize::MAX && no_records_from(device.blocks(), 0) ==> m.mirrors_log(),
    {
        proof {
            reveal(AtomicTransactionManager::mirrors_log);
            if device.modeled() && no_records_from(device.blocks(), 0) {
                lemma_no_committed_entries(device.blocks());
                let recs = Seq::<WalRecord>::empty();
                assert(entries_of(recs) =~= Seq::<WalEntry>::empty());
                assert(tree_map(Seq::<BTreeNodeEntry>::empty()) =~= Map::<Seq<u8>, BTreeNodeEntry>::empty());
            }
        }
        AtomicTransactionManager {
            wal: WriteAheadLog::new(device),
            object_index: CowObjectIndex::new(),
            btree_index: CowBTreeIndex::new(),
            tx_seq: 1,
            epoch: 0,
            status: TxStatus::Idle,
        }
    }

    /// Gives the log device back.
    pub fn into_device(self) -> (d: D)
        ensures
            d.modeled() == self.log_modeled(),
            d.blocks() == self.log_blocks(),
            d.reliable() == self.log_reliable(),
    {
        self.wal.into_device()
    }

    /// The status of the latest transaction.
    pub fn status(&self) -> (s: TxStatus)
        ensures
            s == self.status_spec(),
    {
        self.status
    }

    /// The published epoch: the number of completed transactions (mod 2^64).
    pub fn epoch(&self) -> (e: usize)
        ensures
            e == self.epoch_spec(),
    {
        self.epoch
    }

    /// The object entry for `key_hash`.
    pub fn get_object(&self, key_hash: &[u8; 32]) -> (r: Option<ObjectEntry>)
        ensures
            r == (if self.objects().contains_key(key_hash@) { Some(self.objects()[key_hash@]) } else { None }),
    {
        self.object_index.get(key_hash)
    }

    /// The B-Tree entry for `key_hash`.
    pub fn btree_lookup(&self, key_hash: &[u8; 32]) -> (r: Option<BTreeNodeEntry>)
        ensures
            r == find_spec(self.tree(), key_hash@),
            keys_sorted(self.tree()),
    {
        self.btree_index.find(key_hash)
    }

    fn bump_epoch(&mut self)
        ensures
            final(self).epoch == next_head(old(self).epoch),
            final(self).wal == old(self).wal,
            final(self).object_index == old(self).object_index,
            final(self).btree_index == old(self).btree_index,
            final(self).tx_seq == old(self).tx_seq,
            final(self).status == old(self).status,
    {
        self.epoch = if self.epoch == usize::MAX { 0 } else { self.epoch + 1 };
    }

    fn take_tx_id(&mut self) -> (id: u64)
        ensures
            id == old(self).tx_seq,
            final(self).tx_seq == next_head(old(self).tx_seq),
            final(self).wal == old(self).wal,
            final(self).object_index == old(self).object_index,
            final(self).btree_index == old(self).btree_index,
            final(self).epoch == old(self).epoch,
            final(self).status == old(self).status,
    {
        let id = self.tx_seq as u64;
        self.tx_seq = if self.tx_seq == usize::MAX { 0 } else { self.tx_seq + 1 };
        id
    }

    /// Stores `key_hash -> (lba, len)`: logs a put record, commits it,
    /// applies it to the object index and then to the B-Tree, and publishes
    /// the next epoch. Returns the log slot of the record. A failed
    /// transaction publishes nothing: it ends `Aborted` with both indices
    /// and the epoch as they were (an object-index change is undone when the
    /// B-Tree refuses the entry).
    #[verifier::spinoff_prover]
    #[verifier::rlimit(80)]
    pub fn put(&mut self, key_hash: [u8; 32], lba: u64, len: u32) -> (r: Result<usize, TxError>)
        ensures
            old(self).mirrors_log() && r is Ok ==> final(self).mirrors_log(),
            final(self).next_tx_id() == next_head(old(self).next_tx_id()),
            final(self).log_head() == next_head(old(self).log_head()),
            old(self).log_modeled() ==> final(self).log_modeled() && final(self).log_reliable() == old(self).log_reliable(),
            ({
                let rec = WalEntry { tx_id: old(self).next_tx_id() as u64, op: WalOp::Put, key: key_hash@, lba, len, committed: false };
                let entry = ObjectEntry { key_hash, lba, len };
                let node = BTreeNodeEntry { key_hash, lba };
                match r {
                    Ok(slot) => {
                        &&& slot == old(self).log_head()
                        &&& old(self).log_modeled() ==> final(self).log_blocks() == old(self).log_blocks().update(slot as int, encode_spec(mark_committed(rec)))
                        &&& final(self).objects() == old(self).objects().insert(key_hash@, entry)
                        &&& upserted(old(self).tree(), final(self).tree(), node)
                        &&& final(self).epoch_spec() == next_head(old(self).epoch_spec())
                        &&& final(self).status_spec() == TxStatus::Committed
                    },
                    Err(e) => {
                        &&& final(self).objects() == old(self).objects()
                        &&& final(self).tree() == old(self).tree()
                        &&& final(self).epoch_spec() == old(self).epoch_spec()
                        &&& final(self).status_spec() == TxStatus::Aborted
                        &&& match e {
                            TxError::WalFull => {
                                &&& old(self).log_modeled() ==> final(self).log_blocks() == old(self).log_blocks()
                                &&& old(self).log_modeled() && old(self).log_reliable() ==> old(self).log_head() >= old(self).log_blocks().len()
                            },
                            TxError::CommitFailed => old(self).log_modeled() ==> !old(self).log_reliable(),
                            TxError::IndexUpdateFailed => {
                                &&& old(self).log_modeled() ==> final(self).log_blocks() == old(self).log_blocks().update(old(self).log_head() as int, encode_spec(mark_committed(rec)))
                                &&& (!old(self).objects().contains_key(key_hash@) && old(self).objects().dom().len() == N)
                                    || (find_spec(old(self).tree(), key_hash@) is None && old(self).tree().len() >= FANOUT)
                            },
                        }
                    },
                }
            }),
    {
        self.status = TxStatus::InFlight;
        let tx_id = self.take_tx_id();
        let rec = WalRecord::put(tx_id, key_hash, lba, len);
        let slot = match self.wal.append(rec) {
            Some(s) => s,
            None => {
                self.status = TxStatus::Aborted;
                return Err(TxError::WalFull);
            },
        };
        proof {
            lemma_decode_encode(rec@);
        }
        if !self.wal.commit(slot) {
            self.status = TxStatus::Aborted;
            return Err(TxError::CommitFailed);
        }
        let committed = WalRecord { tx_id, op: WalOp::Put, key_hash, lba, len, committed: true };
        let previous = self.object_index.get(&key_hash);
        if !self.object_index.apply_wal(committed) {
            self.status = TxStatus::Aborted;
            return Err(TxError::IndexUpdateFailed);
        }
        let ghost tree_before = self.btree_index@;
        let btree_ok = self.btree_index.upsert(BTreeNodeEntry { key_hash, lba });
        if !btree_ok {
            // Undo the object-index change so that nothing of the failed
            // transaction is published.
            match previous {
                Some(e) => {
                    let _ = self.object_index.upsert(e);
                },
                None => {
                    let _ = self.object_index.delete(&key_hash);
                },
            }
            proof {
                assert(self.object_index.view() =~= old(self).objects());
            }
            self.status = TxStatus::Aborted;
            return Err(TxError::IndexUpdateFailed);
        }
        self.bump_epoch();
        self.status = TxStatus::Committed;
        proof {
            if old(self).mirrors_log() {
                assert(old(self).log_modeled()) by {
                    reveal(AtomicTransactionManager::mirrors_log);
                }
                lemma_upserted_map(tree_before, self.btree_index@, BTreeNodeEntry { key_hash, lba });
                lemma_tree_map_len(tree_before);
                assert(committed@ == mark_committed(rec@));
                assert(self.log_blocks() =~= old(self).log_blocks().update(slot as int, encode_spec(committed@)));
                self.lemma_logged_keeps_mirror(*old(self), slot, committed);
            }
        }
        Ok(slot)
    }

    /// Removes `key_hash`: logs a delete record, commits it, removes the key
    /// from both indices (whether or not it was there) and publishes the
    /// next epoch. Returns the log slot of the record. A failed transaction
    /// ends `Aborted` with both indices and the epoch as they were.
    #[verifier::spinoff_prover]
    #[verifier::rlimit(80)]
    pub fn delete(&mut self, key_hash: [u8; 32]) -> (r: Result<usize, TxError>)
        ensures
            old(self).mirrors_log() && r is Ok ==> final(self).mirrors_log(),
            final(self).next_tx_id() == next_head(old(self).next_tx_id()),
            final(self).log_head() == next_head(old(self).log_head()),
            old(self).log_modeled() ==> final(self).log_modeled() && final(self).log_reliable() == old(self).log_reliable(),
            !(r matches Err(TxError::IndexUpdateFailed)),
            ({
                let rec = WalEntry { tx_id: old(self).next_tx_id() as u64, op: WalOp::Delete, key: key_hash@, lba: 0, len: 0, committed: false };
                match r {
                    Ok(slot) => {
                        &&& slot == old(self).log_head()
                        &&& old(self).log_modeled() ==> final(self).log_blocks() == old(self).log_blocks().update(slot as int, encode_spec(mark_committed(rec)))
                        &&& final(self).objects() == old(self).objects().remove(key_hash@)
                        &&& removed(old(self).tree(), final(self).tree(), key_hash@)
                        &&& final(self).epoch_spec() == next_head(old(self).epoch_spec())
                        &&& final(self).status_spec() == TxStatus::Committed
                    },
                    Err(e) => {
                        &&& final(self).objects() == old(self).objects()
                        &&& final(self).tree() == old(self).tree()
                        &&& final(self).epoch_spec() == old(self).epoch_spec()
                        &&& final(self).status_spec() == TxStatus::Aborted
                        &&& e is WalFull ==> {
                            &&& old(self).log_modeled() ==> final(self).log_blocks() == old(self).log_blocks()
                            &&& old(self).log_modeled() && old(self).log_reliable() ==> old(self).log_head() >= old(self).log_blocks().len()
                        }
                        &&& e is CommitFailed ==> (old(self).log_modeled() ==> !old(self).log_reliable())
                    },
                }
            }),
    {
        self.status = TxStatus::InFlight;
        let tx_id = self.take_tx_id();
        let rec = WalRecord::delete(tx_id, key_hash);
        let slot = match self.wal.append(rec) {
            Some(s) => s,
            None => {
                self.status = TxStatus::Aborted;
                return Err(TxError::WalFull);
            },
        };
        proof {
            lemma_decode_encode(rec@);
        }
        if !self.wal.commit(slot) {
            self.status = TxStatus::Aborted;
            return Err(TxError::CommitFailed);
        }
        let committed = WalRecord { tx_id, op: WalOp::Delete, key_hash, lba: 0, len: 0, committed: true };
        let _ = self.object_index.apply_wal(committed);
        let ghost tree_before = self.btree_index@;
        let _ = self.btree_index.delete(&key_hash);
        self.bump_epoch();
        self.status = TxStatus::Committed;
        proof {
            if old(self).mirrors_log() {
                assert(old(self).log_modeled()) by {
                    reveal(AtomicTransactionManager::mirrors_log);
                }
                lemma_removed_map(tree_before, self.btree_index@, key_hash@);
                assert(committed@ == mark_committed(rec@));
                assert(self.log_blocks() =~= old(self).log_blocks().update(slot as int, encode_spec(committed@)));
                self.lemma_logged_keeps_mirror(*old(self), slot, committed);
            }
        }
        Ok(slot)
    }

    /// Applies one committed record to both indices: a put upserts the
    /// entry it carries into each index that has room for it (or already
    /// holds its key), a delete removes the key from both.
    fn replay_one(&mut self, rec: WalRecord)
        ensures
            final(self).wal == old(self).wal,
            final(self).epoch == old(self).epoch,
            final(self).tx_seq == old(self).tx_seq,
            final(self).status == old(self).status,
            keys_sorted(final(self).btree_index@),
            rec.op == WalOp::Put && (old(self).objects().contains_key(rec.key_hash@) || old(self).objects().dom().len() < N)
                ==> final(self).objects() == old(self).objects().insert(rec.key_hash@, ObjectEntry { key_hash: rec.key_hash, lba: rec.lba, len: rec.len }),
            rec.op == WalOp::Put && (tree_map(old(self).tree()).contains_key(rec.key_hash@) || tree_map(old(self).tree()).dom().len() < FANOUT)
                ==> tree_map(final(self).tree()) == tree_map(old(self).tree()).insert(rec.key_hash@, BTreeNodeEntry { key_hash: rec.key_hash, lba: rec.lba }),
            rec.op == WalOp::Delete ==> final(self).objects() == old(self).objects().remove(rec.key_hash@)
                && tree_map(final(self).tree()) == tree_map(old(self).tree()).remove(rec.key_hash@),
    {
        let _ = self.object_index.apply_wal(rec);
        let ghost before_tree = self.btree_index@;
        match rec.op {
            WalOp::Put => {
                let _ = self.btree_index.upsert(BTreeNodeEntry { key_hash: rec.key_hash, lba: rec.lba });
                proof {
                    lemma_tree_map_len(before_tree);
                    if tree_map(before_tree).contains_key(rec.key_hash@) || tree_map(before_tree).dom().len() < FANOUT {
                        assert(tree_map(before_tree).contains_key(rec.key_hash@) ==> has_key(before_tree, rec.key_hash@));
                        lemma_upserted_map(before_tree, self.btree_index@, BTreeNodeEntry { key_hash: rec.key_hash, lba: rec.lba });
                    }
                }
            },
            WalOp::Delete => {
                let _ = self.btree_index.delete(&rec.key_hash);
                proof {
                    lemma_removed_map(before_tree, self.btree_index@, rec.key_hash@);
                }
            },
        }
    }

    /// Rebuilds the indices from the log: rescans for the head, then applies
    /// every committed record in log order (puts upsert both indices, deletes
    /// remove the key from both), and marks the manager committed.
    #[verifier::spinoff_prover]
    #[verifier::rlimit(60)]
    pub fn recover(&mut self)
        ensures
            final(self).log_modeled() == old(self).log_modeled(),
            final(self).log_blocks() == old(self).log_blocks(),
            final(self).log_reliable() == old(self).log_reliable(),
            old(self).log_modeled() ==> {
                &&& final(self).log_head() <= old(self).log_blocks().len()
                &&& valid_prefix(old(self).log_blocks(), final(self).log_head() as int)
                &&& old(self).log_reliable() ==> final(self).log_head() == old(self).log_blocks().len()
                    || decode_spec(old(self).log_blocks()[final(self).log_head() as int]) is None
            },
            final(self).status_spec() == TxStatus::Committed,
            final(self).epoch_spec() == old(self).epoch_spec(),
            final(self).next_tx_id() == old(self).next_tx_id(),
            old(self).log_modeled() && old(self).log_reliable() ==> Self::rebuilt_from(*old(self), *final(self)),
    {
        let _ = self.wal.recover_head();
        let ghost w = self.wal;
        let recs = self.wal.replay_committed();
        let ghost o0 = old(self).object_index.view();
        let ghost t0 = old(self).btree_index@;
        let ghost fits_objects = objects_fit(o0, recs@, N as nat);
        let ghost fits_tree = tree_fits(tree_map(t0), recs@, FANOUT as nat);
        let mut i: usize = 0;
        assert(recs@.take(0) =~= Seq::<WalRecord>::empty());
        assert(self.objects() == o0 && self.tree() == t0);
        while i < recs.len()
            invariant
                i <= recs@.len(),
                self.wal == w,
                self.epoch == old(self).epoch,
                self.tx_seq == old(self).tx_seq,
                fits_objects == objects_fit(o0, recs@, N as nat),
                fits_tree == tree_fits(tree_map(t0), recs@, FANOUT as nat),
                fits_objects ==> self.objects() == replay_objects(o0, recs@.take(i as int)),
                fits_tree ==> tree_map(self.tree()) == replay_tree(tree_map(t0), recs@.take(i as int)),
            decreases recs@.len() - i,
        {
            let rec = recs[i];
            assert(recs@.take(i + 1).drop_last() =~= recs@.take(i as int));
            assert(recs@.take(i + 1).last() == rec);
            assert(recs@[i as int] == rec);
            self.replay_one(rec);
            i = i + 1;
        }
        proof {
            assert(recs@.take(recs@.len() as int) =~= recs@);
            assert(entries_of(recs@) =~= recs@.map_values(|x: WalRecord| x@));
        }
        self.status = TxStatus::Committed;
        proof {
            if old(self).log_modeled() && old(self).log_reliable() {
                assert(entries_of(recs@) == committed_entries(old(self).log_blocks()));
                assert(objects_fit(old(self).objects(), recs@, N as nat)
                    ==> self.objects() == replay_objects(old(self).objects(), recs@));
                assert(tree_fits(tree_map(old(self).tree()), recs@, FANOUT as nat)
                    ==> tree_map(self.tree()) == replay_tree(tree_map(old(self).tree()), recs@));
            }
        }
    }
}

} // verus!
