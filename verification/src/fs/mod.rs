//! Filesystem support: the sosfs superblock format and its consistency report.

pub mod sosfs;

pub use sosfs::{
    build_superblock, fsck_superblock_pair, probe_sosfs_superblock, validate_superblock,
    SosfsFsckIssue, SosfsFsckReport, SosfsFsckStatus, SosfsSuperblockInfo, SOSFS_BLOCK_SIZE,
    derive_default_passkey, SOSFS_DEFAULT_PASSKEY, SOSFS_FLAG_ENCRYPTION_REQUIRED, SOSFS_FLAG_VERSIONING_REQUIRED,
    SOSFS_MAGIC,
};
