use sos::crypto::{PathCrypto, NONCE_SIZE};
use std::sync::atomic::{AtomicU64, AtomicUsize, Ordering};
use sos::storage::{
    checksum32, AtomicTransactionManager, BTreeNode, BTreeNodeEntry, CowBTreeIndex,
    CowObjectIndex, InMemoryWalDevice, ObjectEntry, TxError, TxStatus, WalBlockDevice, WalOp,
    WalRecord, WriteAheadLog, WAL_BLOCK_SIZE,
};

struct FaultyWalDevice<const BLOCKS: usize> {
    fail_read_at: Option<usize>,
    fail_write_at: Option<usize>,
    blocks: Vec<[u8; WAL_BLOCK_SIZE]>,
}

impl<const BLOCKS: usize> FaultyWalDevice<BLOCKS> {
    fn new(fail_read_at: Option<usize>, fail_write_at: Option<usize>) -> Self {
        Self {
            fail_read_at,
            fail_write_at,
            blocks: vec![[0u8; WAL_BLOCK_SIZE]; BLOCKS],
        }
    }

    fn write_raw(&mut self, index: usize, raw: [u8; WAL_BLOCK_SIZE]) {
        if index < BLOCKS {
            self.blocks[index] = raw;
        }
    }
}

impl<const BLOCKS: usize> WalBlockDevice for FaultyWalDevice<BLOCKS> {
    fn capacity_blocks(&self) -> usize {
        BLOCKS
    }

    fn read_block(&self, index: usize, out: &mut [u8; WAL_BLOCK_SIZE]) -> bool {
        if self.fail_read_at == Some(index) || index >= BLOCKS {
            return false;
        }
        out.copy_from_slice(&self.blocks[index]);
        true
    }

    fn write_block(&mut self, index: usize, data: &[u8; WAL_BLOCK_SIZE]) -> bool {
        if self.fail_write_at == Some(index) || index >= BLOCKS {
            return false;
        }
        self.blocks[index] = *data;
        true
    }
}

fn kh(v: u8) -> [u8; 32] {
    [v; 32]
}

#[test]
fn test_wal_commit_and_replay() {
    let dev: InMemoryWalDevice<8> = InMemoryWalDevice::new();
    let mut wal = WriteAheadLog::new(dev);
    let slot1 = wal.append(WalRecord::put(1, kh(1), 100, 32)).unwrap();
    let slot2 = wal.append(WalRecord::delete(2, kh(2))).unwrap();
    assert!(wal.commit(slot1));
    assert!(wal.commit(slot2));

    let replayed = wal.replay_committed().len();
    assert_eq!(replayed, 2);
}

#[test]
fn test_wal_recovery_ignores_corrupted_tail() {
    let dev: InMemoryWalDevice<8> = InMemoryWalDevice::new();
    let mut wal = WriteAheadLog::new(dev);
    let s1 = wal.append(WalRecord::put(10, kh(5), 11, 3)).unwrap();
    assert!(wal.commit(s1));
    let _ = wal.append(WalRecord::put(11, kh(6), 22, 4)).unwrap();

    let mut dev = wal.into_device();
    dev.corrupt_byte(1, 0, 0xEE);
    let mut wal = WriteAheadLog::new(dev);

    let recovered = wal.recover_head();
    assert_eq!(recovered, 1);

    let records = wal.replay_committed();
    for r in &records {
        assert_eq!(r.tx_id, 10);
    }
    assert_eq!(records.len(), 1);
}

#[test]
fn test_cow_index_upsert_delete() {
    let mut idx: CowObjectIndex<16> = CowObjectIndex::new();
    let e = ObjectEntry {
        key_hash: kh(7),
        lba: 123,
        len: 9,
    };
    assert!(idx.upsert(e));
    assert_eq!(idx.get(&kh(7)), Some(e));
    assert!(idx.delete(&kh(7)));
    assert_eq!(idx.get(&kh(7)), None);
}

#[test]
fn test_btree_node_sorted_insert_and_find() {
    let mut node: BTreeNode<4> = BTreeNode::new();
    assert!(node.insert_sorted(BTreeNodeEntry {
        key_hash: kh(3),
        lba: 30,
    }));
    assert!(node.insert_sorted(BTreeNodeEntry {
        key_hash: kh(1),
        lba: 10,
    }));
    assert!(node.insert_sorted(BTreeNodeEntry {
        key_hash: kh(2),
        lba: 20,
    }));

    assert_eq!(node.find(&kh(1)).unwrap().lba, 10);
    assert_eq!(node.find(&kh(2)).unwrap().lba, 20);
    assert_eq!(node.find(&kh(3)).unwrap().lba, 30);
}

#[test]
fn btree_node_keeps_entries_in_key_order_and_replaces_same_key() {
    let mut node: BTreeNode<4> = BTreeNode::new();
    for k in [9u8, 4, 7, 1] {
        assert!(node.insert_sorted(BTreeNodeEntry { key_hash: kh(k), lba: k as u64 }));
    }
    let keys: Vec<u8> = node.entries().iter().map(|e| e.unwrap().key_hash[0]).collect();
    assert_eq!(keys, vec![1, 4, 7, 9]);
    // A full node still replaces an existing key, but refuses a new one.
    assert!(node.insert_sorted(BTreeNodeEntry { key_hash: kh(4), lba: 40 }));
    assert_eq!(node.find(&kh(4)).unwrap().lba, 40);
    assert!(!node.insert_sorted(BTreeNodeEntry { key_hash: kh(5), lba: 50 }));
    assert!(node.delete(&kh(7)));
    let keys: Vec<u8> = node.entries().iter().map(|e| e.unwrap().key_hash[0]).collect();
    assert_eq!(keys, vec![1, 4, 9]);
}

#[test]
fn test_cow_btree_index_upsert_find_delete() {
    let mut tree: CowBTreeIndex<8> = CowBTreeIndex::new();
    let e = BTreeNodeEntry {
        key_hash: kh(9),
        lba: 900,
    };
    assert!(tree.upsert(e));
    assert_eq!(tree.find(&kh(9)), Some(e));
    assert!(tree.delete(&kh(9)));
    assert_eq!(tree.find(&kh(9)), None);
}

#[test]
fn wal_record_encode_decode_roundtrip() {
    let rec = WalRecord::put(0x0102_0304_0506_0708, kh(0xAB), 0xDEAD_BEEF_0000_0001, 77);
    let raw = rec.encode();
    assert_eq!(&raw[0..4], &0x534F_5357u32.to_le_bytes());
    assert_eq!(raw[6], 1);
    assert_eq!(raw[7], 0);
    assert_eq!(WalRecord::decode(&raw), Some(rec));
    let del = WalRecord::delete(5, kh(3));
    assert_eq!(del.op, WalOp::Delete);
    assert_eq!(WalRecord::decode(&del.encode()), Some(del));
}

#[test]
fn test_phase4_acquire_release_visibility() {
    let marker = AtomicU64::new(0);
    let published_epoch = AtomicUsize::new(0);

    marker.store(0xA5A5_1234_5678_9ABC, Ordering::Relaxed);
    published_epoch.store(1, Ordering::Release);

    let observed_epoch = published_epoch.load(Ordering::Acquire);
    assert_eq!(observed_epoch, 1);
    let observed_marker = marker.load(Ordering::Relaxed);
    assert_eq!(observed_marker, 0xA5A5_1234_5678_9ABC);
}

#[test]
fn test_phase4_high_load_transaction_stress() {
    const UNIQUE_KEYS: usize = 128;
    const PUT_OPS: usize = 2_000;
    const DELETE_OPS: usize = UNIQUE_KEYS / 2;

    let dev: InMemoryWalDevice<4_096> = InMemoryWalDevice::new();
    let mut txm: AtomicTransactionManager<_, 256, 256> = AtomicTransactionManager::new(dev);

    let mut expected = [false; UNIQUE_KEYS];

    for i in 0..PUT_OPS {
        let k = i % UNIQUE_KEYS;
        let key = kh(k as u8);
        let lba = 0x1000 + (i as u64 * 8);
        let len = ((i % 4096) + 1) as u32;
        assert!(txm.put(key, lba, len).is_ok());
        expected[k] = true;
    }

    for k in 0..DELETE_OPS {
        let key = kh(k as u8);
        assert!(txm.delete(key).is_ok());
        expected[k] = false;
    }

    assert_eq!(txm.status(), TxStatus::Committed);
    assert_eq!(txm.epoch(), PUT_OPS + DELETE_OPS);

    for (k, present) in expected.iter().enumerate().take(UNIQUE_KEYS) {
        let entry = txm.get_object(&kh(k as u8));
        assert_eq!(entry.is_some(), *present);
    }

    let mut recovered: AtomicTransactionManager<_, 256, 256> =
        AtomicTransactionManager::new(txm.into_device());
    recovered.recover();
    for (k, present) in expected.iter().enumerate().take(UNIQUE_KEYS) {
        let entry = recovered.get_object(&kh(k as u8));
        assert_eq!(entry.is_some(), *present);
    }
}

#[test]
fn test_phase4_epoch_is_monotonic_under_updates() {
    let dev: InMemoryWalDevice<512> = InMemoryWalDevice::new();
    let mut txm: AtomicTransactionManager<_, 64, 64> = AtomicTransactionManager::new(dev);

    let mut last_epoch = txm.epoch();
    for i in 0..200 {
        let key = kh((i % 32) as u8);
        assert!(txm.put(key, 0x2000 + i as u64, 32).is_ok());
        let current = txm.epoch();
        assert!(current >= last_epoch);
        last_epoch = current;
        assert_eq!(txm.status(), TxStatus::Committed);
    }
    assert_eq!(last_epoch, 200);
}

#[test]
fn transaction_put_delete_and_recovery_rebuild_indices() {
    let dev: InMemoryWalDevice<16> = InMemoryWalDevice::new();
    let mut txm: AtomicTransactionManager<_, 16, 8> = AtomicTransactionManager::new(dev);
    assert_eq!(txm.status(), TxStatus::Idle);
    assert_eq!(txm.put(kh(4), 12288, 64), Ok(0));
    assert_eq!(txm.status(), TxStatus::Committed);
    assert_eq!(txm.get_object(&kh(4)), Some(ObjectEntry { key_hash: kh(4), lba: 12288, len: 64 }));
    assert_eq!(txm.btree_lookup(&kh(4)), Some(BTreeNodeEntry { key_hash: kh(4), lba: 12288 }));
    assert_eq!(txm.put(kh(5), 1, 2), Ok(1));
    assert_eq!(txm.delete(kh(4)), Ok(2));
    assert!(txm.get_object(&kh(4)).is_none());
    assert!(txm.btree_lookup(&kh(4)).is_none());

    let mut recovered: AtomicTransactionManager<_, 16, 8> =
        AtomicTransactionManager::new(txm.into_device());
    recovered.recover();
    assert!(recovered.get_object(&kh(4)).is_none());
    assert_eq!(recovered.get_object(&kh(5)), Some(ObjectEntry { key_hash: kh(5), lba: 1, len: 2 }));
    assert_eq!(recovered.btree_lookup(&kh(5)), Some(BTreeNodeEntry { key_hash: kh(5), lba: 1 }));
}

#[test]
fn test_storage_error_and_default_paths_for_coverage() {
    let _ = InMemoryWalDevice::<1>::default();
    let _ = CowObjectIndex::<1>::default();
    let _ = BTreeNode::<1>::default();
    let _ = CowBTreeIndex::<1>::default();

    let rec = WalRecord::put(1, kh(1), 7, 3);
    let mut raw = rec.encode();
    raw[4] = 0xFF;
    assert!(WalRecord::decode(&raw).is_none());

    let mut raw = rec.encode();
    raw[60] ^= 0x11;
    assert!(WalRecord::decode(&raw).is_none());

    let mut raw = rec.encode();
    raw[6] = 9;
    let checksum = checksum32(&raw, 60);
    raw[60..64].copy_from_slice(&checksum.to_le_bytes());
    assert!(WalRecord::decode(&raw).is_none());

    let dev: InMemoryWalDevice<1> = InMemoryWalDevice::new();
    let mut buf = [0u8; WAL_BLOCK_SIZE];
    assert!(!dev.read_block(99, &mut buf));
    let mut dev = dev;
    assert!(!dev.write_block(99, &[0u8; WAL_BLOCK_SIZE]));

    let mut wal = WriteAheadLog::new(dev);
    assert!(wal.append(rec).is_some());
    assert!(wal.append(rec).is_none());
    assert!(!wal.commit(99));

    let faulty_write: FaultyWalDevice<2> = FaultyWalDevice::new(None, Some(0));
    let mut wal_faulty_write = WriteAheadLog::new(faulty_write);
    assert!(wal_faulty_write.append(rec).is_none());

    let faulty_read: FaultyWalDevice<2> = FaultyWalDevice::new(Some(0), None);
    let mut wal_faulty_read = WriteAheadLog::new(faulty_read);
    assert!(wal_faulty_read.append(rec).is_some());
    assert!(!wal_faulty_read.commit(0));
    let replayed = wal_faulty_read.replay_committed().len();
    assert_eq!(replayed, 0);
    assert_eq!(wal_faulty_read.recover_head(), 0);

    let faulty_decode: FaultyWalDevice<2> = FaultyWalDevice::new(None, None);
    let mut wal_faulty_decode = WriteAheadLog::new(faulty_decode);
    assert!(wal_faulty_decode.append(rec).is_some());
    let mut faulty_decode = wal_faulty_decode.into_device();
    faulty_decode.write_raw(0, [0u8; WAL_BLOCK_SIZE]);
    let mut wal_faulty_decode = WriteAheadLog::new(faulty_decode);
    assert!(!wal_faulty_decode.commit(0));

    let mut idx: CowObjectIndex<1> = CowObjectIndex::new();
    assert!(idx.upsert(ObjectEntry {
        key_hash: kh(1),
        lba: 1,
        len: 1,
    }));
    assert!(!idx.upsert(ObjectEntry {
        key_hash: kh(2),
        lba: 2,
        len: 2,
    }));
    assert!(!idx.delete(&kh(3)));

    let mut node: BTreeNode<1> = BTreeNode::new();
    assert!(node.insert_sorted(BTreeNodeEntry {
        key_hash: kh(1),
        lba: 1,
    }));
    assert!(!node.insert_sorted(BTreeNodeEntry {
        key_hash: kh(2),
        lba: 2,
    }));
    assert!(!node.delete(&kh(3)));
    assert_eq!(node.entries().len(), 1);

    assert_eq!(TxStatus::from_usize(1), TxStatus::InFlight);
    assert_eq!(TxStatus::from_usize(3), TxStatus::Aborted);
    assert_eq!(TxStatus::from_usize(99), TxStatus::Idle);
    assert_eq!(TxStatus::Aborted.as_usize(), 3);

    let dev_full: InMemoryWalDevice<0> = InMemoryWalDevice::new();
    let mut txm_full: AtomicTransactionManager<_, 1, 1> = AtomicTransactionManager::new(dev_full);
    let put_full = txm_full.put(kh(9), 9, 9);
    assert!(matches!(put_full, Err(TxError::WalFull)));
    let del_full = txm_full.delete(kh(9));
    assert!(matches!(del_full, Err(TxError::WalFull)));

    let dev_commit_fail: FaultyWalDevice<4> = FaultyWalDevice::new(Some(0), None);
    let mut txm_commit_fail: AtomicTransactionManager<_, 2, 2> =
        AtomicTransactionManager::new(dev_commit_fail);
    assert!(matches!(
        txm_commit_fail.put(kh(4), 4, 4),
        Err(TxError::CommitFailed)
    ));

    let dev_commit_fail_delete: FaultyWalDevice<4> = FaultyWalDevice::new(Some(0), None);
    let mut txm_commit_fail_delete: AtomicTransactionManager<_, 2, 2> =
        AtomicTransactionManager::new(dev_commit_fail_delete);
    assert!(matches!(
        txm_commit_fail_delete.delete(kh(4)),
        Err(TxError::CommitFailed)
    ));

    let dev_index_fail: InMemoryWalDevice<8> = InMemoryWalDevice::new();
    let mut txm_index_fail: AtomicTransactionManager<_, 1, 8> =
        AtomicTransactionManager::new(dev_index_fail);
    assert!(txm_index_fail.put(kh(1), 1, 1).is_ok());
    assert!(matches!(
        txm_index_fail.put(kh(2), 2, 2),
        Err(TxError::IndexUpdateFailed)
    ));

    let dev_btree_fail: InMemoryWalDevice<8> = InMemoryWalDevice::new();
    let mut txm_btree_fail: AtomicTransactionManager<_, 8, 1> =
        AtomicTransactionManager::new(dev_btree_fail);
    assert!(txm_btree_fail.put(kh(1), 1, 1).is_ok());
    assert!(matches!(
        txm_btree_fail.put(kh(2), 2, 2),
        Err(TxError::IndexUpdateFailed)
    ));
}

#[test]
fn test_phase3_end_to_end_encrypt_wal_recover_index() {
    let master = [1u8; 32];
    let salt = [2u8; 32];
    let path = "/objects/a.bin";
    let nonce = [7u8; NONCE_SIZE];
    let mut payload = *b"phase3-object";

    let key = PathCrypto::derive_object_key(&master, &salt, path);
    let tag = PathCrypto::encrypt_in_place(&key, &nonce, path.as_bytes(), &mut payload);

    let dev: InMemoryWalDevice<16> = InMemoryWalDevice::new();
    let mut wal = WriteAheadLog::new(dev);
    let mut idx: CowObjectIndex<16> = CowObjectIndex::new();

    let key_hash = PathCrypto::path_hash(path);
    let rec = WalRecord::put(42, key_hash, 4096, payload.len() as u32);
    let slot = wal.append(rec).unwrap();
    assert!(wal.commit(slot));

    let mut replay_count = 0usize;
    for r in wal.replay_committed() {
        replay_count += 1;
        assert!(idx.apply_wal(r));
    }
    assert_eq!(replay_count, 1);

    let stored = idx.get(&key_hash).unwrap();
    assert_eq!(stored.lba, 4096);
    assert_eq!(stored.len, payload.len() as u32);

    let mut decrypted = payload;
    assert!(PathCrypto::decrypt_in_place(&key, &nonce, path.as_bytes(), &mut decrypted, &tag));
    assert_eq!(&decrypted, b"phase3-object");
}

#[test]
fn test_phase4_atomic_transaction_put_delete() {
    let dev: InMemoryWalDevice<32> = InMemoryWalDevice::new();
    let mut txm: AtomicTransactionManager<_, 32, 16> = AtomicTransactionManager::new(dev);

    let key = PathCrypto::path_hash("/phase4/item");
    let put = txm.put(key, 8192, 128);
    assert!(put.is_ok());
    assert_eq!(txm.status(), TxStatus::Committed);
    assert!(txm.get_object(&key).is_some());
    assert!(txm.btree_lookup(&key).is_some());

    let del = txm.delete(key);
    assert!(del.is_ok());
    assert_eq!(txm.status(), TxStatus::Committed);
    assert!(txm.get_object(&key).is_none());
    assert!(txm.btree_lookup(&key).is_none());
}

#[test]
fn test_phase4_recovery_rebuilds_indices() {
    let dev: InMemoryWalDevice<16> = InMemoryWalDevice::new();
    let mut txm: AtomicTransactionManager<_, 16, 8> = AtomicTransactionManager::new(dev);
    let key = PathCrypto::path_hash("/phase4/recover");

    assert!(txm.put(key, 12288, 64).is_ok());

    let mut recovered: AtomicTransactionManager<_, 16, 8> =
        AtomicTransactionManager::new(txm.into_device());
    recovered.recover();
    assert!(recovered.get_object(&key).is_some());
    assert!(recovered.btree_lookup(&key).is_some());
}

#[test]
fn recovery_from_a_log_gives_the_indices_that_built_it() {
    let dev: InMemoryWalDevice<16> = InMemoryWalDevice::new();
    let mut txm: AtomicTransactionManager<_, 16, 8> = AtomicTransactionManager::new(dev);
    assert_eq!(txm.put(kh(1), 10, 1), Ok(0));
    assert_eq!(txm.put(kh(2), 20, 2), Ok(1));
    assert_eq!(txm.put(kh(1), 30, 3), Ok(2));
    assert_eq!(txm.delete(kh(2)), Ok(3));
    assert_eq!(txm.put(kh(3), 40, 4), Ok(4));
    let keys = [kh(1), kh(2), kh(3), kh(4)];
    let live_objects: Vec<_> = keys.iter().map(|k| txm.get_object(k)).collect();
    let live_tree: Vec<_> = keys.iter().map(|k| txm.btree_lookup(k)).collect();
    assert_eq!(live_objects[0], Some(ObjectEntry { key_hash: kh(1), lba: 30, len: 3 }));

    let mut recovered: AtomicTransactionManager<_, 16, 8> =
        AtomicTransactionManager::new(txm.into_device());
    recovered.recover();
    let rec_objects: Vec<_> = keys.iter().map(|k| recovered.get_object(k)).collect();
    let rec_tree: Vec<_> = keys.iter().map(|k| recovered.btree_lookup(k)).collect();
    assert_eq!(rec_objects, live_objects);
    assert_eq!(rec_tree, live_tree);
}

#[test]
fn failed_transactions_publish_nothing() {
    let dev_full: InMemoryWalDevice<0> = InMemoryWalDevice::new();
    let mut txm_full: AtomicTransactionManager<_, 1, 1> = AtomicTransactionManager::new(dev_full);
    assert_eq!(txm_full.put(kh(9), 9, 9), Err(TxError::WalFull));
    assert_eq!(txm_full.status(), TxStatus::Aborted);
    assert_eq!(txm_full.epoch(), 0);
    assert_eq!(txm_full.delete(kh(9)), Err(TxError::WalFull));
    assert_eq!(txm_full.status(), TxStatus::Aborted);

    let dev: InMemoryWalDevice<8> = InMemoryWalDevice::new();
    let mut txm: AtomicTransactionManager<_, 8, 1> = AtomicTransactionManager::new(dev);
    assert_eq!(txm.put(kh(1), 1, 1), Ok(0));
    let ep = txm.epoch();
    assert_eq!(txm.put(kh(2), 2, 2), Err(TxError::IndexUpdateFailed));
    assert_eq!(txm.status(), TxStatus::Aborted);
    assert_eq!(txm.epoch(), ep);
    assert_eq!(txm.get_object(&kh(2)), None);
    assert_eq!(txm.btree_lookup(&kh(2)), None);
    assert_eq!(txm.get_object(&kh(1)), Some(ObjectEntry { key_hash: kh(1), lba: 1, len: 1 }));
}

#[test]
fn full_btree_root_still_updates_a_present_key() {
    let mut t: CowBTreeIndex<1> = CowBTreeIndex::new();
    assert!(t.upsert(BTreeNodeEntry { key_hash: kh(1), lba: 10 }));
    assert!(t.upsert(BTreeNodeEntry { key_hash: kh(1), lba: 11 }));
    assert_eq!(t.find(&kh(1)), Some(BTreeNodeEntry { key_hash: kh(1), lba: 11 }));
    assert!(!t.upsert(BTreeNodeEntry { key_hash: kh(2), lba: 20 }));
    assert_eq!(t.find(&kh(2)), None);
}
