//! The console: command-line parsing, history, the program registry, the
//! packet-filter control service, the program service and the console
//! service.

pub mod command;
pub mod pf_control;
pub mod registry;
pub mod service;
pub mod shell;
pub mod text;

pub use command::{parse_command_line, wrote, ConsoleError, ConsoleHistory, ConsoleReader, ConsoleWriter, LineBuffer, ParsedCommand, BOOT_PROMPT_BUDGET_MS, HISTORY_CAPACITY, MAX_ARGS};
pub use pf_control::{KernelPacketFilterControl, MachineErrorCode, PacketFilterControl, PfControlError, PfMessage, PfResult, PfService, PfServiceImpl, SosPfProgram};
pub use registry::{Program, ProgramAbi, ProgramDescriptor, ProgramRegistry};
pub use service::{ProgramHandle, ProgramRequest, ProgramResponse, ProgramService, ProgramServiceImpl, ProgramState};
pub use shell::{boot_prompt_budget_exceeded, BootSelfCheckReport, ConsoleService, MonotonicClock};
