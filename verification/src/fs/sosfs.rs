//! sosfs on-disk recognition: building, probing, validating and checking the
//! mirrored superblocks.
use vstd::prelude::*;
use crate::bytes::{checksum32, checksum_spec, get16, get32, get64, le16, le32, le64, put16, put32, put64, put_bytes, read16, read32, read64};

verus! {

/// The logical block size (one superblock is one block).
pub const SOSFS_BLOCK_SIZE: usize = 4096;
/// The canonical 8-byte magic at the start of a superblock.
pub const SOSFS_MAGIC: [u8; 8] = [0x53, 0x4f, 0x53, 0x46, 0x53, 0, 0, 0];
/// Flag: payloads must be encrypted.
pub const SOSFS_FLAG_ENCRYPTION_REQUIRED: u64 = 0x1;
/// Flag: objects must be versioned.
pub const SOSFS_FLAG_VERSIONING_REQUIRED: u64 = 0x2;

/// The verdict of a superblock-pair check.
#[derive(Clone, Copy, Debug, PartialEq, Eq, Structural)]
pub enum SosfsFsckStatus {
    Clean,
    Warn,
    Corrupt,
}

/// One finding of a superblock check.
#[derive(Clone, Copy, Debug, PartialEq, Eq, Structural)]
pub enum SosfsFsckIssue {
    BadMagic,
    BadVersion,
    BadChecksum,
    BadFlags,
    BadBlockSize,
    MirrorMismatch,
    GenerationMismatch,
}

/// The default passkey: SHA-256 of the bytes "sos".
pub const SOSFS_DEFAULT_PASSKEY: [u8; 32] = [
    0xc0, 0x94, 0x61, 0x06, 0xb7, 0x32, 0xf9, 0xf6, 0xae, 0x88, 0x91, 0x01, 0xab, 0x98, 0x7e, 0xd1,
    0xbb, 0xcf, 0xe3, 0xed, 0xa2, 0xad, 0x0a, 0x97, 0x1b, 0xe3, 0x15, 0x75, 0xad, 0x67, 0x68, 0x51,
];

/// The identifying fields of a superblock.
#[derive(Clone, Copy, Debug, PartialEq, Eq)]
pub struct SosfsSuperblockInfo {
    pub version_major: u16,
    pub version_minor: u16,
    pub flags: u64,
    pub active_generation: u64,
    pub fs_uuid: [u8; 16],
    pub fs_salt: [u8; 32],
}

/// The fields of a superblock before its zero padding and checksum.
pub open spec fn superblock_header(
    version_major: u16,
    version_minor: u16,
    flags: u64,
    fs_uuid: Seq<u8>,
    fs_salt: Seq<u8>,
    active_generation: u64,
    wal_start_lba: u64,
    wal_blocks: u64,
    index_start_lba: u64,
    index_blocks: u64,
    data_start_lba: u64,
    data_blocks: u64,
    last_checkpoint_wal_seq: u64,
) -> Seq<u8> {
    SOSFS_MAGIC@ + le16(version_major) + le16(version_minor) + le32(SOSFS_BLOCK_SIZE as u32) + le64(flags)
        + fs_uuid + fs_salt + le64(active_generation) + le64(wal_start_lba) + le64(wal_blocks)
        + le64(index_start_lba) + le64(index_blocks) + le64(data_start_lba) + le64(data_blocks)
        + le64(last_checkpoint_wal_seq)
}

/// A whole superblock: the header, zeros up to the last four bytes, and the
/// checksum of everything before them.
pub open spec fn superblock_bytes(header: Seq<u8>) -> Seq<u8> {
    let body = header + Seq::new((SOSFS_BLOCK_SIZE - 4 - header.len()) as nat, |i: int| 0u8);
    body + le32(checksum_spec(body))
}

/// Whether `b` starts with the sosfs magic.
pub open spec fn has_magic(b: Seq<u8>) -> bool {
    b.subrange(0, 8) == SOSFS_MAGIC@
}

/// Whether the checksum stored in the last four bytes matches the rest.
pub open spec fn checksum_ok(b: Seq<u8>) -> bool {
    checksum_spec(b.take(SOSFS_BLOCK_SIZE - 4)) == read32(b, SOSFS_BLOCK_SIZE - 4)
}

/// Whether both required flags are set.
pub open spec fn flags_ok(flags: u64) -> bool {
    flags & SOSFS_FLAG_ENCRYPTION_REQUIRED != 0 && flags & SOSFS_FLAG_VERSIONING_REQUIRED != 0
}

/// The first problem `validate_superblock` finds in `b`, checking magic,
/// version (0.1), block size, checksum and flags in that order.
pub open spec fn superblock_issue(b: Seq<u8>) -> Option<SosfsFsckIssue> {
    if !has_magic(b) {
        Some(SosfsFsckIssue::BadMagic)
    } else if read16(b, 8) != 0 || read16(b, 10) != 1 {
        Some(SosfsFsckIssue::BadVersion)
    } else if read32(b, 12) != SOSFS_BLOCK_SIZE as u32 {
        Some(SosfsFsckIssue::BadBlockSize)
    } else if !checksum_ok(b) {
        Some(SosfsFsckIssue::BadChecksum)
    } else if !flags_ok(read64(b, 16)) {
        Some(SosfsFsckIssue::BadFlags)
    } else {
        None
    }
}

/// Whether `probe_sosfs_superblock` recognises `b`: magic, block size,
/// checksum and flags (any version).
pub open spec fn probe_ok(b: Seq<u8>) -> bool {
    has_magic(b) && read32(b, 12) == SOSFS_BLOCK_SIZE as u32 && checksum_ok(b) && flags_ok(read64(b, 16))
}

proof fn lemma_rotate_injective(t1: u32, t2: u32)
    by (bit_vector)
    requires
        t1 != t2,
    ensures
        (t1 << 3u32) | (t1 >> 29u32) != (t2 << 3u32) | (t2 >> 29u32),
{
}

proof fn lemma_le32_injective(x0: u8, x1: u8, x2: u8, x3: u8, y0: u8, y1: u8, y2: u8, y3: u8)
    by (bit_vector)
    requires
        x0 != y0 || x1 != y1 || x2 != y2 || x3 != y3,
    ensures
        (x0 as u32) | ((x1 as u32) << 8u32) | ((x2 as u32) << 16u32) | ((x3 as u32) << 24u32)
            != (y0 as u32) | ((y1 as u32) << 8u32) | ((y2 as u32) << 16u32) | ((y3 as u32) << 24u32),
{
}

/// Checksums of data that differ in exactly one byte differ: a step is
/// injective both in the running sum and in the byte it adds.
proof fn lemma_checksum_one_byte(data: Seq<u8>, i: int, v: u8)
    requires
        0 <= i < data.len(),
        data[i] != v,
    ensures
        checksum_spec(data) != checksum_spec(data.update(i, v)),
    decreases data.len(),
{
    let d2 = data.update(i, v);
    let s1 = checksum_spec(data.drop_last());
    let s2 = checksum_spec(d2.drop_last());
    if i == data.len() - 1 {
        assert(data.drop_last() =~= d2.drop_last());
        let t1 = ((s1 as int + data.last() as int) % 0x1_0000_0000) as u32;
        let t2 = ((s2 as int + v as int) % 0x1_0000_0000) as u32;
        assert(t1 != t2);
        lemma_rotate_injective(t1, t2);
    } else {
        assert(d2.drop_last() =~= data.drop_last().update(i, v));
        lemma_checksum_one_byte(data.drop_last(), i, v);
        let b = data.last();
        assert(d2.last() == b);
        let t1 = ((s1 as int + b as int) % 0x1_0000_0000) as u32;
        let t2 = ((s2 as int + b as int) % 0x1_0000_0000) as u32;
        assert(t1 != t2);
        lemma_rotate_injective(t1, t2);
    }
}

/// Changing any one byte of a valid superblock makes it invalid: the
/// checksum no longer matches, so both validation and the probe refuse it.
pub proof fn lemma_one_changed_byte_is_detected(b: Seq<u8>, i: int, v: u8)
    requires
        b.len() == SOSFS_BLOCK_SIZE,
        checksum_ok(b),
        0 <= i < b.len(),
        b[i] != v,
    ensures
        !checksum_ok(b.update(i, v)),
        superblock_issue(b.update(i, v)) is Some,
        !probe_ok(b.update(i, v)),
{
    let b2 = b.update(i, v);
    let n = SOSFS_BLOCK_SIZE - 4;
    if i < n {
        assert(b2.take(n) =~= b.take(n).update(i, v));
        lemma_checksum_one_byte(b.take(n), i, v);
        assert(read32(b2, n) == read32(b, n));
    } else {
        assert(b2.take(n) =~= b.take(n));
        lemma_le32_injective(b[n], b[n + 1], b[n + 2], b[n + 3], b2[n], b2[n + 1], b2[n + 2], b2[n + 3]);
    }
}

/// Whether `info` holds the identifying fields stored in `b`.
pub open spec fn info_of(info: SosfsSuperblockInfo, b: Seq<u8>) -> bool {
    &&& info.version_major == read16(b, 8)
    &&& info.version_minor == read16(b, 10)
    &&& info.flags == read64(b, 16)
    &&& info.fs_uuid@ == b.subrange(24, 40)
    &&& info.fs_salt@ == b.subrange(40, 72)
    &&& info.active_generation == read64(b, 72)
}

/// Builds a superblock with the given fields, the v0 block size, zero
/// padding and its checksum.
#[allow(clippy::too_many_arguments)]
pub fn build_superblock(
    version_major: u16,
    version_minor: u16,
    flags: u64,
    fs_uuid: [u8; 16],
    fs_salt: [u8; 32],
    active_generation: u64,
    wal_start_lba: u64,
    wal_blocks: u64,
    index_start_lba: u64,
    index_blocks: u64,
    data_start_lba: u64,
    data_blocks: u64,
    last_checkpoint_wal_seq: u64,
) -> (out: [u8; SOSFS_BLOCK_SIZE])
    ensures
        out@ == superblock_bytes(superblock_header(
            version_major, version_minor, flags, fs_uuid@, fs_salt@, active_generation, wal_start_lba,
            wal_blocks, index_start_lba, index_blocks, data_start_lba, data_blocks, last_checkpoint_wal_seq,
        )),
{
    let mut out = [0u8; SOSFS_BLOCK_SIZE];
    let magic = SOSFS_MAGIC;
    put_bytes(&mut out, 0, &magic);
    put16(&mut out, 8, version_major);
    put16(&mut out, 10, version_minor);
    put32(&mut out, 12, 4096u32);
    put64(&mut out, 16, flags);
    put_bytes(&mut out, 24, &fs_uuid);
    put_bytes(&mut out, 40, &fs_salt);
    put64(&mut out, 72, active_generation);
    put64(&mut out, 80, wal_start_lba);
    put64(&mut out, 88, wal_blocks);
    put64(&mut out, 96, index_start_lba);
    put64(&mut out, 104, index_blocks);
    put64(&mut out, 112, data_start_lba);
    put64(&mut out, 120, data_blocks);
    put64(&mut out, 128, last_checkpoint_wal_seq);
    let ghost header = superblock_header(
        version_major, version_minor, flags, fs_uuid@, fs_salt@, active_generation, wal_start_lba,
        wal_blocks, index_start_lba, index_blocks, data_start_lba, data_blocks, last_checkpoint_wal_seq,
    );
    let ghost body = header + Seq::new((SOSFS_BLOCK_SIZE - 4 - header.len()) as nat, |i: int| 0u8);
    assert(header.len() == 136);
    assert(out@.take(4092) =~= body);
    let checksum = checksum32(&out, SOSFS_BLOCK_SIZE - 4);
    put32(&mut out, SOSFS_BLOCK_SIZE - 4, checksum);
    assert(out@ =~= superblock_bytes(header));
    out
}

fn magic_matches(block: &[u8; SOSFS_BLOCK_SIZE]) -> (r: bool)
    ensures
        r == has_magic(block@),
{
    let magic = SOSFS_MAGIC;
    let mut i: usize = 0;
    while i < 8
        invariant
            i <= 8,
            magic@ == SOSFS_MAGIC@,
            forall|j: int| 0 <= j < i ==> block@[j] == magic@[j],
        decreases 8 - i,
    {
        if block[i] != magic[i] {
            assert(block@.subrange(0, 8)[i as int] != SOSFS_MAGIC@[i as int]);
            return false;
        }
        i = i + 1;
    }
    assert(block@.subrange(0, 8) =~= SOSFS_MAGIC@);
    true
}

fn read_info(block: &[u8; SOSFS_BLOCK_SIZE]) -> (info: SosfsSuperblockInfo)
    ensures
        info_of(info, block@),
{
    let mut fs_uuid = [0u8; 16];
    let mut i: usize = 0;
    while i < 16
        invariant
            i <= 16,
            forall|j: int| 0 <= j < i ==> fs_uuid@[j] == block@[24 + j],
        decreases 16 - i,
    {
        fs_uuid[i] = block[24 + i];
        i = i + 1;
    }
    let mut fs_salt = [0u8; 32];
    let mut i: usize = 0;
    while i < 32
        invariant
            i <= 32,
            forall|j: int| 0 <= j < i ==> fs_salt@[j] == block@[40 + j],
        decreases 32 - i,
    {
        fs_salt[i] = block[40 + i];
        i = i + 1;
    }
    assert(fs_uuid@ =~= block@.subrange(24, 40));
    assert(fs_salt@ =~= block@.subrange(40, 72));
    SosfsSuperblockInfo {
        version_major: get16(block, 8),
        version_minor: get16(block, 10),
        flags: get64(block, 16),
        active_generation: get64(block, 72),
        fs_uuid,
        fs_salt,
    }
}

/// Recognises a sosfs superblock: magic, block size, checksum and both
/// required flags must be valid; the version is not checked.
pub fn probe_sosfs_superblock(block: &[u8; SOSFS_BLOCK_SIZE]) -> (r: Option<SosfsSuperblockInfo>)
    ensures
        r is Some <==> probe_ok(block@),
        r matches Some(info) ==> info_of(info, block@),
{
    if !magic_matches(block) {
        return None;
    }
    let block_size = get32(block, 12);
    if block_size != 4096u32 {
        return None;
    }
    let expected = get32(block, SOSFS_BLOCK_SIZE - 4);
    if checksum32(block, SOSFS_BLOCK_SIZE - 4) != expected {
        return None;
    }
    let flags = get64(block, 16);
    if (flags & SOSFS_FLAG_ENCRYPTION_REQUIRED) == 0 {
        return None;
    }
    if (flags & SOSFS_FLAG_VERSIONING_REQUIRED) == 0 {
        return None;
    }
    Some(read_info(block))
}

/// Validates one superblock: magic, version 0.1, block size, checksum and
/// flags, reporting the first problem found.
pub fn validate_superblock(block: &[u8; SOSFS_BLOCK_SIZE]) -> (r: Result<SosfsSuperblockInfo, SosfsFsckIssue>)
    ensures
        match r {
            Ok(info) => superblock_issue(block@) is None && info_of(info, block@),
            Err(issue) => superblock_issue(block@) == Some(issue),
        },
{
    if !magic_matches(block) {
        return Err(SosfsFsckIssue::BadMagic);
    }
    let version_major = get16(block, 8);
    let version_minor = get16(block, 10);
    if version_major != 0 || version_minor != 1 {
        return Err(SosfsFsckIssue::BadVersion);
    }
    let block_size = get32(block, 12);
    if block_size != 4096u32 {
        return Err(SosfsFsckIssue::BadBlockSize);
    }
    let expected = get32(block, SOSFS_BLOCK_SIZE - 4);
    if checksum32(block, SOSFS_BLOCK_SIZE - 4) != expected {
        return Err(SosfsFsckIssue::BadChecksum);
    }
    let flags = get64(block, 16);
    if (flags & SOSFS_FLAG_ENCRYPTION_REQUIRED) == 0 || (flags & SOSFS_FLAG_VERSIONING_REQUIRED) == 0 {
        return Err(SosfsFsckIssue::BadFlags);
    }
    Ok(read_info(block))
}


/// The outcome of checking a superblock pair.
#[derive(Clone, Debug, PartialEq, Eq)]
pub struct SosfsFsckReport {
    pub status: SosfsFsckStatus,
    pub issues: [Option<SosfsFsckIssue>; 4],
    pub issue_count: usize,
    pub mirror_valid: [bool; 2],
    pub info: Option<SosfsSuperblockInfo>,
}

/// The issue slots of a report that lists `list` (at most four).
pub open spec fn issue_slots(list: Seq<SosfsFsckIssue>) -> Seq<Option<SosfsFsckIssue>> {
    Seq::new(4, |i: int| if i < list.len() { Some(list[i]) } else { None })
}

/// The status given to a divergence: corrupt when strict, else a warning.
pub open spec fn divergence_status(strict: bool) -> SosfsFsckStatus {
    if strict { SosfsFsckStatus::Corrupt } else { SosfsFsckStatus::Warn }
}

/// Whether two valid superblocks differ in UUID, salt or flags.
pub open spec fn mirrors_diverge(b0: Seq<u8>, b1: Seq<u8>) -> bool {
    b0.subrange(24, 40) != b1.subrange(24, 40) || b0.subrange(40, 72) != b1.subrange(40, 72)
        || read64(b0, 16) != read64(b1, 16)
}

/// The issues reported for two valid superblocks: a generation mismatch,
/// then a mirror mismatch.
pub open spec fn pair_issues(b0: Seq<u8>, b1: Seq<u8>) -> Seq<SosfsFsckIssue> {
    let g: Seq<SosfsFsckIssue> = if read64(b0, 72) != read64(b1, 72) {
        seq![SosfsFsckIssue::GenerationMismatch]
    } else {
        Seq::empty()
    };
    if mirrors_diverge(b0, b1) { g.push(SosfsFsckIssue::MirrorMismatch) } else { g }
}

impl SosfsFsckReport {
    /// A clean report: no issues, both mirrors valid, no info.
    pub fn clean() -> (r: Self)
        ensures
            r.status == SosfsFsckStatus::Clean,
            r.issues@ == issue_slots(Seq::empty()),
            r.issue_count == 0,
            r.mirror_valid@ == seq![true, true],
            r.info is None,
    {
        let r = SosfsFsckReport {
            status: SosfsFsckStatus::Clean,
            issues: [None, None, None, None],
            issue_count: 0,
            mirror_valid: [true, true],
            info: None,
        };
        assert(r.issues@ =~= issue_slots(Seq::empty()));
        assert(r.mirror_valid@ =~= seq![true, true]);
        r
    }

    /// The report with `issue` appended, when fewer than four are listed.
    pub fn with_issue(self, issue: SosfsFsckIssue) -> (r: Self)
        ensures
            r.status == self.status,
            r.mirror_valid == self.mirror_valid,
            r.info == self.info,
            self.issue_count < 4 ==> r.issue_count == self.issue_count + 1
                && r.issues@ == self.issues@.update(self.issue_count as int, Some(issue)),
            self.issue_count >= 4 ==> r.issue_count == self.issue_count && r.issues == self.issues,
    {
        let mut r = self;
        if r.issue_count < 4 {
            r.issues[r.issue_count] = Some(issue);
            r.issue_count = r.issue_count + 1;
        }
        r
    }
}

fn bytes_equal<const M: usize>(a: &[u8; M], b: &[u8; M]) -> (r: bool)
    ensures
        r == (a@ == b@),
{
    let mut i: usize = 0;
    while i < M
        invariant
            i <= M,
            forall|j: int| 0 <= j < i ==> a@[j] == b@[j],
        decreases M - i,
    {
        if a[i] != b[i] {
            return false;
        }
        i = i + 1;
    }
    assert(a@ =~= b@);
    true
}

/// Checks the mirrored superblocks. Both invalid: corrupt. One invalid: a
/// divergence (warn, or corrupt when strict). Both valid: clean unless their
/// generations differ or they diverge in UUID, salt or flags, each of which
/// is reported and makes the pair a divergence.
pub fn fsck_superblock_pair(
    sb0: &[u8; SOSFS_BLOCK_SIZE],
    sb1: &[u8; SOSFS_BLOCK_SIZE],
    strict: bool,
) -> (r: SosfsFsckReport)
    ensures
        ({
            let i0 = superblock_issue(sb0@);
            let i1 = superblock_issue(sb1@);
            &&& r.mirror_valid@ == seq![i0 is None, i1 is None]
            &&& (i0 is Some && i1 is Some) ==> {
                &&& r.status == SosfsFsckStatus::Corrupt
                &&& r.info is None
                &&& r.issue_count == 2
                &&& r.issues@ == issue_slots(seq![i0.unwrap(), i1.unwrap()])
            }
            &&& (i0 is None && i1 is Some) ==> {
                &&& r.status == divergence_status(strict)
                &&& r.info matches Some(info) && info_of(info, sb0@)
                &&& r.issue_count == 1
                &&& r.issues@ == issue_slots(seq![i1.unwrap()])
            }
            &&& (i0 is Some && i1 is None) ==> {
                &&& r.status == divergence_status(strict)
                &&& r.info matches Some(info) && info_of(info, sb1@)
                &&& r.issue_count == 1
                &&& r.issues@ == issue_slots(seq![i0.unwrap()])
            }
            &&& (i0 is None && i1 is None) ==> {
                &&& r.info matches Some(info) && info_of(info, sb0@)
                &&& r.issue_count == pair_issues(sb0@, sb1@).len()
                &&& r.issues@ == issue_slots(pair_issues(sb0@, sb1@))
                &&& r.status == if pair_issues(sb0@, sb1@).len() == 0 {
                    SosfsFsckStatus::Clean
                } else {
                    divergence_status(strict)
                }
            }
        }),
{
    let info0 = validate_superblock(sb0);
    let info1 = validate_superblock(sb1);
    let diverged = if strict { SosfsFsckStatus::Corrupt } else { SosfsFsckStatus::Warn };
    match (info0, info1) {
        (Ok(i0), Ok(i1)) => {
            let mut report = SosfsFsckReport::clean();
            report.info = Some(i0);
            report.mirror_valid = [true, true];
            if i0.active_generation != i1.active_generation {
                report = report.with_issue(SosfsFsckIssue::GenerationMismatch);
                report.status = diverged;
            }
            if !bytes_equal(&i0.fs_uuid, &i1.fs_uuid) || !bytes_equal(&i0.fs_salt, &i1.fs_salt) || i0.flags != i1.flags {
                report = report.with_issue(SosfsFsckIssue::MirrorMismatch);
                report.status = diverged;
            }
            assert(report.issues@ =~= issue_slots(pair_issues(sb0@, sb1@)));
            assert(report.mirror_valid@ =~= seq![true, true]);
            report
        },
        (Ok(i0), Err(e)) => {
            let mut report = SosfsFsckReport::clean();
            report = report.with_issue(e);
            report.mirror_valid = [true, false];
            report.status = diverged;
            report.info = Some(i0);
            assert(report.issues@ =~= issue_slots(seq![e]));
            assert(report.mirror_valid@ =~= seq![true, false]);
            report
        },
        (Err(e), Ok(i1)) => {
            let mut report = SosfsFsckReport::clean();
            report = report.with_issue(e);
            report.mirror_valid = [false, true];
            report.status = diverged;
            report.info = Some(i1);
            assert(report.issues@ =~= issue_slots(seq![e]));
            assert(report.mirror_valid@ =~= seq![false, true]);
            report
        },
        (Err(e0), Err(e1)) => {
            let mut report = SosfsFsckReport::clean();
            report = report.with_issue(e0).with_issue(e1);
            report.status = SosfsFsckStatus::Corrupt;
            report.mirror_valid = [false, false];
            assert(report.issues@ =~= issue_slots(seq![e0, e1]));
            assert(report.mirror_valid@ =~= seq![false, false]);
            report
        },
    }
}


/// A built superblock reads back its fields, carries a valid checksum, and
/// validates unless its version is not 0.1 or a required flag is missing.
pub proof fn lemma_built_superblock_reads_back(
    version_major: u16,
    version_minor: u16,
    flags: u64,
    fs_uuid: Seq<u8>,
    fs_salt: Seq<u8>,
    active_generation: u64,
    wal_start_lba: u64,
    wal_blocks: u64,
    index_start_lba: u64,
    index_blocks: u64,
    data_start_lba: u64,
    data_blocks: u64,
    last_checkpoint_wal_seq: u64,
)
    requires
        fs_uuid.len() == 16,
        fs_salt.len() == 32,
    ensures
        ({
            let b = superblock_bytes(superblock_header(
                version_major, version_minor, flags, fs_uuid, fs_salt, active_generation, wal_start_lba,
                wal_blocks, index_start_lba, index_blocks, data_start_lba, data_blocks, last_checkpoint_wal_seq,
            ));
            &&& b.len() == SOSFS_BLOCK_SIZE
            &&& has_magic(b)
            &&& checksum_ok(b)
            &&& read16(b, 8) == version_major
            &&& read16(b, 10) == version_minor
            &&& read32(b, 12) == SOSFS_BLOCK_SIZE as u32
            &&& read64(b, 16) == flags
            &&& b.subrange(24, 40) == fs_uuid
            &&& b.subrange(40, 72) == fs_salt
            &&& read64(b, 72) == active_generation
            &&& superblock_issue(b) == (if version_major != 0 || version_minor != 1 {
                Some(SosfsFsckIssue::BadVersion)
            } else if !flags_ok(flags) {
                Some(SosfsFsckIssue::BadFlags)
            } else {
                None
            })
            &&& probe_ok(b) == flags_ok(flags)
        }),
{
    let h = superblock_header(
        version_major, version_minor, flags, fs_uuid, fs_salt, active_generation, wal_start_lba,
        wal_blocks, index_start_lba, index_blocks, data_start_lba, data_blocks, last_checkpoint_wal_seq,
    );
    let body = h + Seq::new((SOSFS_BLOCK_SIZE - 4 - h.len()) as nat, |i: int| 0u8);
    let b = superblock_bytes(h);
    assert(h.len() == 136);
    assert(b.take(4092) =~= body);
    assert(b.subrange(0, 8) =~= SOSFS_MAGIC@);
    assert(b.subrange(8, 10) =~= le16(version_major));
    assert(b.subrange(10, 12) =~= le16(version_minor));
    assert(b.subrange(12, 16) =~= le32(SOSFS_BLOCK_SIZE as u32));
    assert(b.subrange(16, 24) =~= le64(flags));
    assert(b.subrange(24, 40) =~= fs_uuid);
    assert(b.subrange(40, 72) =~= fs_salt);
    assert(b.subrange(72, 80) =~= le64(active_generation));
    assert(b.subrange(4092, 4096) =~= le32(checksum_spec(body)));
    crate::bytes::lemma_le16_roundtrip(version_major);
    crate::bytes::lemma_le16_roundtrip(version_minor);
    crate::bytes::lemma_le32_roundtrip(SOSFS_BLOCK_SIZE as u32);
    crate::bytes::lemma_le64_roundtrip(flags);
    crate::bytes::lemma_le64_roundtrip(active_generation);
    crate::bytes::lemma_le32_roundtrip(checksum_spec(body));
    assert(read16(b, 8) == read16(le16(version_major), 0));
    assert(read16(b, 10) == read16(le16(version_minor), 0));
    assert(read32(b, 12) == read32(le32(SOSFS_BLOCK_SIZE as u32), 0));
    assert(read64(b, 16) == read64(le64(flags), 0));
    assert(read64(b, 72) == read64(le64(active_generation), 0));
    assert(read32(b, 4092) == read32(le32(checksum_spec(body)), 0));
}

/// The default volume passkey: the SHA-256 digest of "sos".
pub fn derive_default_passkey() -> (r: [u8; 32])
    ensures
        r@ == crate::crypto::sha256_digest(seq![115u8, 111u8, 115u8]),
{
    let word: Vec<u8> = vec![115u8, 111u8, 115u8];
    crate::crypto::sha256_of(word.as_slice())
}

} // verus!
