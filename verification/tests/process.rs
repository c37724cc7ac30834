use std::cell::Cell;

use sos::process::{
    parse_executable_header, AddressSpace, CpuContext, IpcBus, IpcEndpoint, IpcMessage,
    IsolationError, IsolationRuntime, ProcessHandle, ProcessState, VmContextOps,
};

struct MockVm {
    installs: Cell<[CpuContext; 4]>,
    install_count: Cell<usize>,
    maps: Cell<usize>,
}

impl MockVm {
    fn new() -> Self {
        Self {
            installs: Cell::new(
                [CpuContext {
                    rip: 0,
                    rsp: 0,
                    rflags: 0,
                    cr3: 0,
                }; 4],
            ),
            install_count: Cell::new(0),
            maps: Cell::new(0),
        }
    }
}

impl VmContextOps for MockVm {
    fn map_user_region(
        &self,
        _aspace: &AddressSpace,
        _vaddr: u64,
        _paddr: u64,
        _len: u64,
    ) -> Result<(), IsolationError> {
        self.maps.set(self.maps.get() + 1);
        Ok(())
    }

    fn install_context(&self, ctx: &CpuContext) -> Result<(), IsolationError> {
        let count = self.install_count.get();
        let mut installs = self.installs.get();
        if count < installs.len() {
            installs[count] = *ctx;
            self.installs.set(installs);
        }
        self.install_count.set(count + 1);
        Ok(())
    }
}

struct FailingVm;

impl VmContextOps for FailingVm {
    fn map_user_region(
        &self,
        _aspace: &AddressSpace,
        _vaddr: u64,
        _paddr: u64,
        _len: u64,
    ) -> Result<(), IsolationError> {
        Err(IsolationError::BadContext)
    }

    fn install_context(&self, _ctx: &CpuContext) -> Result<(), IsolationError> {
        Err(IsolationError::BadContext)
    }
}

#[test]
fn parse_executable_header_accepts_valid_image() {
    let image = [b'S', b'O', b'S', b'X', 1, 0, 0, 0, 8, 0, 0, 0, 16, 0, 0, 0];
    let hdr = parse_executable_header(&image).expect("parse header");
    assert_eq!(hdr.abi.major, 1);
    assert_eq!(hdr.entry_offset, 8);
    assert_eq!(hdr.image_size, 16);
}

#[test]
fn parse_executable_header_rejects_invalid_magic() {
    let image = [0u8; 16];
    assert_eq!(
        parse_executable_header(&image),
        Err(IsolationError::BadExecutable)
    );
}

#[test]
fn parse_executable_header_rejects_short_and_inconsistent_images() {
    let short = [b'S', b'O', b'S', b'X', 1, 0, 0, 0];
    assert_eq!(parse_executable_header(&short), Err(IsolationError::BadExecutable));
    let zero_size = [b'S', b'O', b'S', b'X', 1, 0, 0, 0, 0, 0, 0, 0, 0, 0, 0, 0];
    assert_eq!(parse_executable_header(&zero_size), Err(IsolationError::BadExecutable));
    let entry_past_end = [b'S', b'O', b'S', b'X', 1, 0, 0, 0, 16, 0, 0, 0, 16, 0, 0, 0];
    assert_eq!(parse_executable_header(&entry_past_end), Err(IsolationError::BadExecutable));
    let minor = [b'S', b'O', b'S', b'X', 2, 0, 3, 1, 0, 1, 0, 0, 0, 2, 0, 0];
    let hdr = parse_executable_header(&minor).expect("parse");
    assert_eq!(hdr.abi.major, 2);
    assert_eq!(hdr.abi.minor, 0x0103);
    assert_eq!(hdr.entry_offset, 0x100);
    assert_eq!(hdr.image_size, 0x200);
}

#[test]
fn spawned_processes_get_isolated_address_spaces() {
    let mut rt: IsolationRuntime<4, 4> = IsolationRuntime::new();
    let p1 = rt.spawn_process().expect("spawn 1");
    let p2 = rt.spawn_process().expect("spawn 2");

    let a1 = rt.address_space_of(p1).expect("as1");
    let a2 = rt.address_space_of(p2).expect("as2");
    assert_ne!(a1.asid, a2.asid);
    assert_ne!(a1.pml4_phys, a2.pml4_phys);
    assert!(!a1.overlaps(&a2));
}

#[test]
fn spawn_assigns_layout_and_counts_pids() {
    let mut rt: IsolationRuntime<2, 2> = IsolationRuntime::new();
    let p1 = rt.spawn_process().expect("spawn 1");
    assert_eq!(p1.pid, 1);
    let a1 = rt.address_space_of(p1).expect("as1");
    assert_eq!(a1.asid, 1);
    assert_eq!(a1.code_base, 0x4000_0000 + 0x0100_0000);
    assert_eq!(a1.data_base, a1.code_base + 0x0020_0000);
    assert_eq!(a1.stack_base, a1.code_base + 0x00F0_0000);
    assert_eq!(a1.span_bytes, 0x0100_0000);
    assert_eq!(a1.pml4_phys, 0x1000_0000);
    let p2 = rt.spawn_process().expect("spawn 2");
    assert_eq!(p2.pid, 2);
    assert_eq!(rt.spawn_process(), Err(IsolationError::NoSlots));
}

#[test]
fn process_load_build_map_and_switch_context() {
    let mut rt: IsolationRuntime<4, 4> = IsolationRuntime::new();
    let p = rt.spawn_process().expect("spawn");
    let image = [b'S', b'O', b'S', b'X', 1, 0, 0, 0, 8, 0, 0, 0, 64, 0, 0, 0];
    assert_eq!(rt.load_executable(p, &image), Ok(()));

    let vm = MockVm::new();
    assert_eq!(rt.map_user_layout(p, &vm), Ok(()));
    let ctx = rt.build_context(p).expect("context");
    assert!(ctx.rip > 0);
    assert!(ctx.rsp > 0);
    assert!(ctx.cr3 > 0);
    assert_eq!(rt.install_context_slot(p, ctx), Ok(()));
    assert_eq!(rt.switch_to(p, &vm), Ok(()));
    assert_eq!(rt.state_of(p), Ok(ProcessState::Running));
}

#[test]
fn build_context_uses_entry_and_stack_layout() {
    let mut rt: IsolationRuntime<2, 2> = IsolationRuntime::new();
    let p = rt.spawn_process().expect("spawn");
    assert_eq!(rt.build_context(p), Err(IsolationError::BadState));
    let image = [b'S', b'O', b'S', b'X', 1, 0, 0, 0, 8, 0, 0, 0, 64, 0, 0, 0];
    assert_eq!(rt.load_executable(p, &image), Ok(()));
    let a = rt.address_space_of(p).expect("as");
    let ctx = rt.build_context(p).expect("context");
    assert_eq!(ctx, CpuContext::user(a.code_base + 8, a.stack_base + 0x000F_F000, a.pml4_phys));
    assert_eq!(ctx.rflags, 0x202);
    let vm = MockVm::new();
    assert_eq!(rt.map_user_layout(p, &vm), Ok(()));
    assert_eq!(vm.maps.get(), 3);
    assert_eq!(rt.map_user_layout(p, &FailingVm), Err(IsolationError::BadContext));
}

#[test]
fn switch_demotes_previous_running_process() {
    let mut rt: IsolationRuntime<4, 4> = IsolationRuntime::new();
    let image = [b'S', b'O', b'S', b'X', 1, 0, 0, 0, 8, 0, 0, 0, 64, 0, 0, 0];
    let vm = MockVm::new();
    let p1 = rt.spawn_process().expect("p1");
    let p2 = rt.spawn_process().expect("p2");
    for p in [p1, p2] {
        assert_eq!(rt.load_executable(p, &image), Ok(()));
        let ctx = rt.build_context(p).expect("ctx");
        assert_eq!(rt.install_context_slot(p, ctx), Ok(()));
    }
    assert_eq!(rt.switch_to(p1, &vm), Ok(()));
    assert_eq!(rt.switch_to(p2, &vm), Ok(()));
    assert_eq!(rt.state_of(p1), Ok(ProcessState::Ready));
    assert_eq!(rt.state_of(p2), Ok(ProcessState::Running));
    assert_eq!(vm.install_count.get(), 2);
    assert_eq!(rt.switch_to(p1, &FailingVm), Err(IsolationError::BadContext));
    assert_eq!(rt.state_of(p2), Ok(ProcessState::Running));
}

#[test]
fn switching_without_context_fails() {
    let mut rt: IsolationRuntime<2, 2> = IsolationRuntime::new();
    let p = rt.spawn_process().expect("spawn");
    let image = [b'S', b'O', b'S', b'X', 1, 0, 0, 0, 4, 0, 0, 0, 16, 0, 0, 0];
    assert_eq!(rt.load_executable(p, &image), Ok(()));
    let vm = MockVm::new();
    assert_eq!(rt.switch_to(p, &vm), Err(IsolationError::BadContext));
}

#[test]
fn switching_unknown_or_spawned_process_fails() {
    let mut rt: IsolationRuntime<2, 2> = IsolationRuntime::new();
    let vm = MockVm::new();
    assert_eq!(
        rt.switch_to(ProcessHandle { pid: 9 }, &vm),
        Err(IsolationError::UnknownProcess)
    );
    let p = rt.spawn_process().expect("spawn");
    assert_eq!(rt.switch_to(p, &vm), Err(IsolationError::BadState));
    assert_eq!(
        rt.load_executable(ProcessHandle { pid: 9 }, &[b'S', b'O', b'S', b'X', 1, 0, 0, 0, 4, 0, 0, 0, 16, 0, 0, 0]),
        Err(IsolationError::UnknownProcess)
    );
}

#[test]
fn process_lifecycle_transitions_work() {
    let mut rt: IsolationRuntime<2, 2> = IsolationRuntime::new();
    let p = rt.spawn_process().expect("spawn");
    assert_eq!(rt.state_of(p), Ok(ProcessState::Spawned));
    assert_eq!(rt.transition(p, ProcessState::Blocked), Ok(()));
    assert_eq!(rt.transition(p, ProcessState::Exited(7)), Ok(()));
    assert_eq!(rt.state_of(p), Ok(ProcessState::Exited(7)));
    assert_eq!(rt.terminate(p), Ok(()));
    assert_eq!(rt.state_of(p), Err(IsolationError::UnknownProcess));
    assert_eq!(rt.terminate(p), Err(IsolationError::UnknownProcess));
}

#[test]
fn install_context_slot_replaces_then_runs_out() {
    let mut rt: IsolationRuntime<4, 1> = IsolationRuntime::new();
    let p1 = rt.spawn_process().expect("p1");
    let p2 = rt.spawn_process().expect("p2");
    let c = CpuContext::user(1, 2, 3);
    assert_eq!(rt.install_context_slot(p1, c), Ok(()));
    assert_eq!(rt.install_context_slot(p1, CpuContext::user(4, 5, 6)), Ok(()));
    assert_eq!(rt.install_context_slot(p2, c), Err(IsolationError::NoSlots));
    assert_eq!(rt.terminate(p1), Ok(()));
    assert_eq!(rt.install_context_slot(p2, c), Ok(()));
}

#[test]
fn ipc_bus_routes_message_by_endpoint() {
    let mut rt: IsolationRuntime<4, 4> = IsolationRuntime::new();
    let p1 = rt.spawn_process().expect("p1");
    let p2 = rt.spawn_process().expect("p2");

    let mut bus: IpcBus<4> = IpcBus::new();
    let e1 = bus.register_endpoint(p1);
    let e2 = bus.register_endpoint(p2);

    let msg = IpcMessage::from_bytes(e1, e2, b"ping");
    assert_eq!(bus.send(msg), Ok(()));
    let rx = bus.recv(e2).expect("recv");
    assert_eq!(&rx.payload[..rx.len], b"ping");
    assert!(bus.recv(e2).is_none());
}

#[test]
fn ipc_queue_full_returns_error() {
    let mut rt: IsolationRuntime<2, 2> = IsolationRuntime::new();
    let p1 = rt.spawn_process().expect("p1");
    let p2 = rt.spawn_process().expect("p2");
    let mut bus: IpcBus<1> = IpcBus::new();
    let e1 = bus.register_endpoint(p1);
    let e2 = bus.register_endpoint(p2);

    assert_eq!(bus.send(IpcMessage::from_bytes(e1, e2, b"one")), Ok(()));
    assert_eq!(
        bus.send(IpcMessage::from_bytes(e1, e2, b"two")),
        Err(IsolationError::QueueFull)
    );
}

#[test]
fn ipc_endpoint_ids_count_up_and_payload_truncates() {
    let mut bus: IpcBus<2> = IpcBus::new();
    let owner = ProcessHandle { pid: 5 };
    let e1 = bus.register_endpoint(owner);
    let e2 = bus.register_endpoint(owner);
    assert_eq!(e1, IpcEndpoint { id: 1, owner });
    assert_eq!(e2.id, 2);
    let long = [7u8; 100];
    let m = IpcMessage::from_bytes(e1, e2, &long);
    assert_eq!(m.len, 64);
    assert_eq!(m.payload, [7u8; 64]);
    let short = IpcMessage::from_bytes(e1, e2, b"ab");
    assert_eq!(short.len, 2);
    assert_eq!(&short.payload[..3], &[b'a', b'b', 0]);
    assert!(bus.recv(e1).is_none());
}

#[test]
fn ipc_send_then_recv_returns_the_message() {
    let mut bus: IpcBus<3> = IpcBus::new();
    let a = bus.register_endpoint(ProcessHandle { pid: 1 });
    let b = bus.register_endpoint(ProcessHandle { pid: 2 });
    let to_a = IpcMessage::from_bytes(b, a, b"for a");
    let to_b = IpcMessage::from_bytes(a, b, b"for b");
    assert_eq!(bus.send(to_a), Ok(()));
    assert_eq!(bus.send(to_b), Ok(()));
    assert_eq!(bus.recv(b), Some(to_b));
    assert_eq!(bus.recv(a), Some(to_a));
    assert_eq!(bus.recv(a), None);
}

#[test]
fn ipc_delivers_each_endpoint_in_send_order() {
    let mut bus: IpcBus<2> = IpcBus::new();
    let e1 = bus.register_endpoint(ProcessHandle { pid: 1 });
    let e2 = bus.register_endpoint(ProcessHandle { pid: 2 });
    assert_eq!(bus.send(IpcMessage::from_bytes(e1, e2, b"A")), Ok(()));
    assert_eq!(bus.send(IpcMessage::from_bytes(e1, e2, b"B")), Ok(()));
    let a = bus.recv(e2).expect("A");
    assert_eq!(&a.payload[..a.len], b"A");
    assert_eq!(bus.send(IpcMessage::from_bytes(e1, e2, b"C")), Ok(()));
    let b = bus.recv(e2).expect("B");
    assert_eq!(&b.payload[..b.len], b"B");
    let c = bus.recv(e2).expect("C");
    assert_eq!(&c.payload[..c.len], b"C");
    assert!(bus.recv(e2).is_none());
}
