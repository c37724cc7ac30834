//! The `mkfs-sosfs` tool: its arguments, the image layout and the
//! superblock it writes.
use vstd::prelude::*;
use vstd::string::*;
use crate::cli::args::{arg_texts, invalid_value_message, parse_u64, parse_u64_spec};
use crate::console::text::str_eq;
use crate::fs::sosfs::{
    build_superblock, superblock_bytes, superblock_header, SOSFS_BLOCK_SIZE, SOSFS_FLAG_ENCRYPTION_REQUIRED,
    SOSFS_FLAG_VERSIONING_REQUIRED,
};

verus! {

/// The WAL size when none is given.
pub const DEFAULT_WAL_BLOCKS: u64 = 2048;
/// The index size when none is given.
pub const DEFAULT_INDEX_BLOCKS: u64 = 1024;

/// Why an `mkfs-sosfs` command line was refused.
#[derive(Clone, Debug, PartialEq, Eq)]
pub enum MkfsArgsError {
    Help,
    Usage,
    UnknownOption(String),
    /// A numeric option's value is not a number; holds the message.
    InvalidValue(String),
    /// `--blocks` is missing or at most 16.
    TooFewBlocks,
}

/// What an `MkfsArgsError` says.
pub enum MkfsProblem {
    Help,
    Usage,
    UnknownOption(Seq<char>),
    InvalidValue(Seq<char>),
    TooFewBlocks,
}

/// Whether `e` says `p`.
pub open spec fn mkfs_error_is(e: MkfsArgsError, p: MkfsProblem) -> bool {
    match p {
        MkfsProblem::Help => e == MkfsArgsError::Help,
        MkfsProblem::Usage => e == MkfsArgsError::Usage,
        MkfsProblem::UnknownOption(o) => e matches MkfsArgsError::UnknownOption(s) && s@ == o,
        MkfsProblem::InvalidValue(m) => e matches MkfsArgsError::InvalidValue(s) && s@ == m,
        MkfsProblem::TooFewBlocks => e == MkfsArgsError::TooFewBlocks,
    }
}

/// The exit code of a refusal: 0 after help, 2 otherwise.
pub open spec fn mkfs_error_code(p: MkfsProblem) -> i32 {
    match p {
        MkfsProblem::Help => 0,
        _ => 2,
    }
}

impl MkfsArgsError {
    /// The exit code: 0 after help, 2 otherwise.
    pub fn code(&self) -> (c: i32)
        ensures
            forall|p: MkfsProblem| mkfs_error_is(*self, p) ==> c == mkfs_error_code(p),
    {
        match self {
            MkfsArgsError::Help => 0,
            _ => 2,
        }
    }
}

/// The settings gathered so far: image, blocks, WAL blocks, index blocks.
pub type MkfsSettings = (Option<Seq<char>>, Option<u64>, u64, u64);

/// What the options from `i` on leave, or why they are refused.
pub open spec fn mkfs_scan(args: Seq<Seq<char>>, i: int, s: MkfsSettings) -> Result<MkfsSettings, MkfsProblem>
    decreases args.len() - i,
{
    if i < 0 || i >= args.len() {
        Ok(s)
    } else if args[i] == "--image"@ {
        if i + 1 >= args.len() {
            Err(MkfsProblem::Usage)
        } else {
            mkfs_scan(args, i + 2, (Some(args[i + 1]), s.1, s.2, s.3))
        }
    } else if args[i] == "--blocks"@ || args[i] == "--wal-blocks"@ || args[i] == "--index-blocks"@ {
        if i + 1 >= args.len() {
            Err(MkfsProblem::Usage)
        } else {
            let name = if args[i] == "--blocks"@ {
                "blocks"@
            } else if args[i] == "--wal-blocks"@ {
                "wal-blocks"@
            } else {
                "index-blocks"@
            };
            match parse_u64_spec(args[i + 1]) {
                None => Err(MkfsProblem::InvalidValue(invalid_value_message(name, args[i + 1]))),
                Some(v) => mkfs_scan(
                    args,
                    i + 2,
                    if args[i] == "--blocks"@ {
                        (s.0, Some(v), s.2, s.3)
                    } else if args[i] == "--wal-blocks"@ {
                        (s.0, s.1, v, s.3)
                    } else {
                        (s.0, s.1, s.2, v)
                    },
                ),
            }
        }
    } else if args[i] == "-h"@ || args[i] == "--help"@ {
        Err(MkfsProblem::Help)
    } else {
        Err(MkfsProblem::UnknownOption(args[i]))
    }
}

/// The image path, block count, WAL blocks and index blocks a command line
/// asks for: `--image` and `--blocks` (more than 16) are required; the WAL
/// and index sizes default to 2048 and 1024.
pub open spec fn mkfs_args(args: Seq<Seq<char>>) -> Result<(Seq<char>, u64, u64, u64), MkfsProblem> {
    match mkfs_scan(args, 1, (None, None, DEFAULT_WAL_BLOCKS, DEFAULT_INDEX_BLOCKS)) {
        Err(e) => Err(e),
        Ok((image, blocks, wal, index)) => match image {
            None => Err(MkfsProblem::Usage),
            Some(p) => match blocks {
                Some(b) => if b > 16 {
                    Ok((p, b, wal, index))
                } else {
                    Err(MkfsProblem::TooFewBlocks)
                },
                None => Err(MkfsProblem::TooFewBlocks),
            },
        },
    }
}

/// Parses the command line of `mkfs-sosfs`, saying why it is refused.
pub fn parse_args_detailed(args: &[String]) -> (r: Result<(String, u64, u64, u64), MkfsArgsError>)
    ensures
        match mkfs_args(arg_texts(args@)) {
            Ok((p, b, w, x)) => r matches Ok((q, b2, w2, x2)) && q@ == p && b2 == b && w2 == w && x2 == x,
            Err(e) => r matches Err(m) && mkfs_error_is(m, e),
        },
{
    let ghost a = arg_texts(args@);
    let mut image: Option<String> = None;
    let mut blocks: Option<u64> = None;
    let mut wal_blocks: u64 = DEFAULT_WAL_BLOCKS;
    let mut index_blocks: u64 = DEFAULT_INDEX_BLOCKS;
    let mut i: usize = 1;
    while i < args.len()
        invariant
            1 <= i,
            a == arg_texts(args@),
            mkfs_scan(a, 1, (None, None, DEFAULT_WAL_BLOCKS, DEFAULT_INDEX_BLOCKS)) == mkfs_scan(
                a,
                i as int,
                (match image {
                    Some(s) => Some(s@),
                    None => None::<Seq<char>>,
                }, blocks, wal_blocks, index_blocks),
            ),
        decreases args@.len() - i,
    {
        let arg = args[i].as_str();
        if str_eq(arg, "--image") {
            if i + 1 >= args.len() {
                return Err(MkfsArgsError::Usage);
            }
            image = Some(args[i + 1].clone());
            i = i + 2;
        } else if str_eq(arg, "--blocks") || str_eq(arg, "--wal-blocks") || str_eq(arg, "--index-blocks") {
            if i + 1 >= args.len() {
                return Err(MkfsArgsError::Usage);
            }
            let name = if str_eq(arg, "--blocks") {
                "blocks"
            } else if str_eq(arg, "--wal-blocks") {
                "wal-blocks"
            } else {
                "index-blocks"
            };
            let v = match parse_u64(name, args[i + 1].as_str()) {
                Ok(v) => v,
                Err(m) => return Err(MkfsArgsError::InvalidValue(m)),
            };
            if str_eq(arg, "--blocks") {
                blocks = Some(v);
            } else if str_eq(arg, "--wal-blocks") {
                wal_blocks = v;
            } else {
                index_blocks = v;
            }
            i = i + 2;
        } else if str_eq(arg, "-h") || str_eq(arg, "--help") {
            return Err(MkfsArgsError::Help);
        } else {
            return Err(MkfsArgsError::UnknownOption(args[i].clone()));
        }
    }
    let image = match image {
        Some(p) => p,
        None => return Err(MkfsArgsError::Usage),
    };
    let blocks = match blocks {
        Some(b) => {
            if b > 16 {
                b
            } else {
                return Err(MkfsArgsError::TooFewBlocks);
            }
        },
        None => return Err(MkfsArgsError::TooFewBlocks),
    };
    Ok((image, blocks, wal_blocks, index_blocks))
}

/// Parses the command line of `mkfs-sosfs`; a refusal is its exit code.
pub fn parse_args(args: &[String]) -> (r: Result<(String, u64, u64, u64), i32>)
    ensures
        match mkfs_args(arg_texts(args@)) {
            Ok((p, b, w, x)) => r matches Ok((q, b2, w2, x2)) && q@ == p && b2 == b && w2 == w && x2 == x,
            Err(e) => r == Err::<(String, u64, u64, u64), i32>(mkfs_error_code(e)),
        },
{
    match parse_args_detailed(args) {
        Ok(v) => Ok(v),
        Err(e) => Err(e.code()),
    }
}

/// Where the regions of an image of `blocks` blocks start.
#[derive(Clone, Copy, Debug, PartialEq, Eq, Structural)]
pub struct MkfsLayout {
    pub data_start_lba: u64,
    pub data_blocks: u64,
    pub total_bytes: u64,
}

/// The layout of an image: two superblocks, then the WAL, the index and the
/// data region, which must not be empty.
pub fn plan_layout(blocks: u64, wal_blocks: u64, index_blocks: u64) -> (r: Option<MkfsLayout>)
    requires
        2 + wal_blocks + index_blocks <= u64::MAX,
        2 + wal_blocks + index_blocks < blocks ==> blocks * 4096 <= u64::MAX,
    ensures
        2 + wal_blocks + index_blocks >= blocks ==> r is None,
        2 + wal_blocks + index_blocks < blocks ==> r == Some(MkfsLayout {
            data_start_lba: (2 + wal_blocks + index_blocks) as u64,
            data_blocks: (blocks - (2 + wal_blocks + index_blocks)) as u64,
            total_bytes: (blocks * 4096) as u64,
        }),
{
    let data_start_lba = 2 + wal_blocks + index_blocks;
    if data_start_lba >= blocks {
        return None;
    }
    Some(MkfsLayout { data_start_lba, data_blocks: blocks - data_start_lba, total_bytes: blocks * 4096 })
}

/// The superblock `mkfs-sosfs` writes to both mirrors: version 0.1,
/// encryption and versioning required, generation 1, the WAL from block 2,
/// the index after it, then the data region.
pub fn format_superblock(
    layout: MkfsLayout,
    wal_blocks: u64,
    index_blocks: u64,
    fs_uuid: [u8; 16],
    fs_salt: [u8; 32],
) -> (out: [u8; SOSFS_BLOCK_SIZE])
    requires
        2 + wal_blocks <= u64::MAX,
    ensures
        out@ == superblock_bytes(superblock_header(
            0, 1, SOSFS_FLAG_ENCRYPTION_REQUIRED | SOSFS_FLAG_VERSIONING_REQUIRED, fs_uuid@, fs_salt@, 1, 2,
            wal_blocks, (2 + wal_blocks) as u64, index_blocks, layout.data_start_lba, layout.data_blocks, 0,
        )),
{
    build_superblock(
        0,
        1,
        SOSFS_FLAG_ENCRYPTION_REQUIRED | SOSFS_FLAG_VERSIONING_REQUIRED,
        fs_uuid,
        fs_salt,
        1,
        2,
        wal_blocks,
        2 + wal_blocks,
        index_blocks,
        layout.data_start_lba,
        layout.data_blocks,
        0,
    )
}

} // verus!
