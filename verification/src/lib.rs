//! S.O.S. framekernel building blocks, verified with Verus.
//!
//! The crate holds the logic of the framekernel: memory allocators,
//! synchronization primitives, the sosfs on-disk format and its consistency report,
//! the write-ahead log and copy-on-write indices of the storage engine,
//! process isolation and IPC, the console and program services, and the
//! network tuning and readiness logic.
#![allow(unused_imports)]

use vstd::prelude::*;

pub mod allocator;
pub mod bytes;
pub mod cli;
pub mod console;
pub mod crypto;
pub mod framekernel;
pub mod fs;
pub mod network;
pub mod pf;
pub mod process;
pub mod storage;
pub mod sync;

pub use allocator::{BuddyAllocator, SlabAllocator};
pub use console::{
    parse_command_line, BootSelfCheckReport, ConsoleError, ConsoleReader, ConsoleService,
    ConsoleWriter, KernelPacketFilterControl, MachineErrorCode, MonotonicClock,
    PacketFilterControl, PfMessage, PfResult, PfService, PfServiceImpl, Program, ProgramAbi,
    ProgramDescriptor, ProgramHandle, ProgramRegistry, ProgramRequest, ProgramResponse,
    ProgramService, ProgramServiceImpl, ProgramState, SosPfProgram, BOOT_PROMPT_BUDGET_MS,
};
pub use crypto::{PathCrypto, DERIVED_KEY_SIZE, NONCE_SIZE, TAG_SIZE};
pub use framekernel::OSTD;
pub use fs::{
    fsck_superblock_pair, probe_sosfs_superblock, validate_superblock, SosfsFsckIssue,
    SosfsFsckReport, SosfsFsckStatus, SosfsSuperblockInfo, SOSFS_BLOCK_SIZE, SOSFS_MAGIC,
};
pub use network::{
    NetworkIoError, ReadinessCheck, ReadinessStatus, ReadinessSuite, TcpSocketConfig,
    TcpWindowScaler, TlsState, VirtioNetDriver, TLS_MAX_FRAME_SIZE,
};
pub use process::{
    parse_executable_header, AbiVersion, AddressSpace, CpuContext, ExecutableHeader, IpcBus,
    IpcEndpoint, IpcMessage, IsolationError, IsolationRuntime,
    ProcessHandle as IsolatedProcessHandle, ProcessState as IsolatedProcessState, VmContextOps,
    CONTEXT_SLOT_CAPACITY, IPC_QUEUE_CAPACITY, PROCESS_SLOT_CAPACITY,
};
pub use storage::{
    AtomicTransactionManager, BTreeNode, BTreeNodeEntry, CowBTreeIndex, CowObjectIndex,
    InMemoryWalDevice, ObjectEntry, TxError, TxStatus, WalBlockDevice, WalOp, WalRecord,
    WriteAheadLog, WAL_BLOCK_SIZE,
};
pub use sync::{AtomicSlabBitmap, Mutex, Spinlock};
pub use pf::{
    apply_with_runner as pf_apply_with_runner, build_apply_plan as pf_build_apply_plan,
    dry_run_check_with_runner as pf_dry_run_check_with_runner, ApplyPlan, NftRunner,
    PfCheckReport, PfConfig, PfError,
};
