//! Storage engine: a write-ahead log with crash recovery, copy-on-write
//! object and B-Tree indices, and an atomic transaction manager.

pub mod btree;
pub mod index;
pub mod keys;
pub mod tx;
pub mod wal;

pub use crate::bytes::checksum32;
pub use btree::{BTreeNode, BTreeNodeEntry, CowBTreeIndex};
pub use index::{CowObjectIndex, ObjectEntry};
pub use tx::{AtomicTransactionManager, TxError, TxStatus};
pub use wal::{
    InMemoryWalDevice, WalBlockDevice, WalOp, WalRecord, WriteAheadLog, WAL_BLOCK_SIZE,
};
