//! Process isolation runtime (slots, address spaces, VM contexts, scheduling
//! state) and a bounded IPC bus.

pub mod ipc;
pub mod runtime;

pub use ipc::{IpcBus, IpcEndpoint, IpcMessage, IPC_QUEUE_CAPACITY};
pub use runtime::{
    parse_executable_header, AbiVersion, AddressSpace, CpuContext, ExecutableHeader,
    IsolationError, IsolationRuntime, ProcessHandle, ProcessState, VmContextOps,
    CONTEXT_SLOT_CAPACITY, PROCESS_SLOT_CAPACITY,
};
