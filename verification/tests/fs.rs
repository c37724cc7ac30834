use sos::fs::{
    build_superblock, fsck_superblock_pair, probe_sosfs_superblock, validate_superblock,
    SosfsFsckIssue, SosfsFsckStatus, SOSFS_BLOCK_SIZE, SOSFS_FLAG_ENCRYPTION_REQUIRED,
    SOSFS_FLAG_VERSIONING_REQUIRED,
};

fn sb(uuid: u8, salt: u8, generation: u64) -> [u8; SOSFS_BLOCK_SIZE] {
    build_superblock(
        0,
        1,
        SOSFS_FLAG_ENCRYPTION_REQUIRED | SOSFS_FLAG_VERSIONING_REQUIRED,
        [uuid; 16],
        [salt; 32],
        generation,
        2,
        256,
        258,
        128,
        386,
        8192,
        44,
    )
}

#[test]
fn test_superblock_probe_accepts_valid_sosfs() {
    let block = sb(1, 2, 9);
    let info = probe_sosfs_superblock(&block).unwrap();
    assert_eq!(info.version_major, 0);
    assert_eq!(info.version_minor, 1);
    assert_eq!(info.active_generation, 9);
}

#[test]
fn test_superblock_probe_rejects_invalid_checksum() {
    let mut block = build_superblock(
        0,
        1,
        SOSFS_FLAG_ENCRYPTION_REQUIRED | SOSFS_FLAG_VERSIONING_REQUIRED,
        [1u8; 16],
        [2u8; 32],
        1,
        2,
        128,
        130,
        64,
        194,
        1024,
        3,
    );
    block[33] ^= 0xAA;
    assert!(probe_sosfs_superblock(&block).is_none());
}

#[test]
fn test_fsck_valid_mirror_pair() {
    let s = sb(1, 2, 9);
    let report = fsck_superblock_pair(&s, &s, false);
    assert_eq!(report.status, SosfsFsckStatus::Clean);
    assert!(report.mirror_valid[0]);
    assert!(report.mirror_valid[1]);
    assert_eq!(report.info.map(|i| i.active_generation), Some(9));
}

#[test]
fn test_fsck_one_invalid_mirror_one_valid() {
    let valid_sb = sb(1, 2, 9);
    let mut invalid_sb = valid_sb;
    invalid_sb[0] = 0xFF;

    let report = fsck_superblock_pair(&valid_sb, &invalid_sb, false);
    assert_eq!(report.status, SosfsFsckStatus::Warn);
    assert!(report.mirror_valid[0]);
    assert!(!report.mirror_valid[1]);

    let report_strict = fsck_superblock_pair(&valid_sb, &invalid_sb, true);
    assert_eq!(report_strict.status, SosfsFsckStatus::Corrupt);
}

#[test]
fn test_fsck_both_invalid_mirrors() {
    let mut sb1 = sb(1, 2, 9);
    let mut sb2 = sb(3, 4, 9);
    sb1[0] = 0xFF;
    sb2[0] = 0xFE;

    let report = fsck_superblock_pair(&sb1, &sb2, false);
    assert_eq!(report.status, SosfsFsckStatus::Corrupt);
    assert!(!report.mirror_valid[0]);
    assert!(!report.mirror_valid[1]);
}

#[test]
fn test_fsck_generation_mismatch() {
    let sb1 = sb(1, 2, 9);
    let sb2 = sb(1, 2, 10);

    let report = fsck_superblock_pair(&sb1, &sb2, false);
    assert_eq!(report.status, SosfsFsckStatus::Warn);
    assert!(report
        .issues
        .iter()
        .any(|&x| x == Some(SosfsFsckIssue::GenerationMismatch)));

    let report_strict = fsck_superblock_pair(&sb1, &sb2, true);
    assert_eq!(report_strict.status, SosfsFsckStatus::Corrupt);
}

#[test]
fn test_fsck_mirror_mismatch_of_identity() {
    let report = fsck_superblock_pair(&sb(1, 2, 9), &sb(5, 2, 9), false);
    assert_eq!(report.status, SosfsFsckStatus::Warn);
    assert!(report
        .issues
        .iter()
        .any(|&x| x == Some(SosfsFsckIssue::MirrorMismatch)));
}

#[test]
fn test_validate_superblock_bad_magic() {
    let mut s = sb(1, 2, 9);
    s[0] = 0xFF;
    assert_eq!(validate_superblock(&s), Err(SosfsFsckIssue::BadMagic));
}

#[test]
fn test_validate_superblock_bad_version() {
    let s = build_superblock(
        1,
        0,
        SOSFS_FLAG_ENCRYPTION_REQUIRED | SOSFS_FLAG_VERSIONING_REQUIRED,
        [1u8; 16],
        [2u8; 32],
        9,
        2,
        256,
        258,
        128,
        386,
        8192,
        44,
    );
    assert_eq!(validate_superblock(&s), Err(SosfsFsckIssue::BadVersion));
}

#[test]
fn test_validate_superblock_bad_checksum() {
    let mut s = sb(1, 2, 9);
    s[100] ^= 0x01;
    assert_eq!(validate_superblock(&s), Err(SosfsFsckIssue::BadChecksum));
}

#[test]
fn test_validate_superblock_bad_flags() {
    let s = build_superblock(0, 1, 0, [1u8; 16], [2u8; 32], 9, 2, 256, 258, 128, 386, 8192, 44);
    assert_eq!(validate_superblock(&s), Err(SosfsFsckIssue::BadFlags));
}

#[test]
fn built_superblock_validates_back_to_its_fields() {
    let s = sb(7, 8, 42);
    let info = validate_superblock(&s).expect("valid");
    assert_eq!(info.fs_uuid, [7u8; 16]);
    assert_eq!(info.fs_salt, [8u8; 32]);
    assert_eq!(info.active_generation, 42);
    assert_eq!(
        info.flags,
        SOSFS_FLAG_ENCRYPTION_REQUIRED | SOSFS_FLAG_VERSIONING_REQUIRED
    );
}

#[test]
fn any_single_changed_byte_fails_the_probe() {
    let block = sb(3, 4, 5);
    assert!(probe_sosfs_superblock(&block).is_some());
    for i in [0usize, 9, 16, 40, 200, 2048, SOSFS_BLOCK_SIZE - 5, SOSFS_BLOCK_SIZE - 4, SOSFS_BLOCK_SIZE - 1] {
        let mut changed = block;
        changed[i] ^= 0x5a;
        assert!(probe_sosfs_superblock(&changed).is_none(), "byte {} not detected", i);
        assert!(validate_superblock(&changed).is_err(), "byte {} passed validation", i);
    }
}
