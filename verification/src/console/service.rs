//! The program service (execute, spawn, wait, terminate) and the console
//! service that turns command lines into requests.
use vstd::prelude::*;
use vstd::string::*;
use crate::console::command::{
    history_entry, keep_last, parse_command_line, printable, wrote, ConsoleError, ConsoleHistory, ConsoleWriter,
    BOOT_PROMPT_BUDGET_MS, HISTORY_CAPACITY, MAX_ARGS,
};
use crate::console::pf_control::MachineErrorCode;
use crate::console::registry::{first_named, lemma_same_descriptions, program_help_of, program_listing_of, Program, ProgramRegistry};
use crate::console::text::{str_eq, strip_prefix_spec, strip_prefix_str, strs_view, trim_spec, trim_str, words};
use crate::bytes::{read16, read32};
use crate::process::runtime::{first_free_proc, header_spec, lemma_first_free_proc, lemma_first_proc, lemma_first_proc_found, layout_for, proc_at, sat_inc32, AbiVersion, AddressSpace, CpuContext, ExecutableHeader, IsolationError, IsolationRuntime, ProcessHandle, ProcessState, RuntimeView, VmContextOps};

verus! {

/// Names a program run by its pid.
#[derive(Clone, Copy, Debug, PartialEq, Eq, Structural)]
pub struct ProgramHandle {
    pub pid: u32,
}

/// Where a program run stands.
#[derive(Clone, Copy, Debug, PartialEq, Eq, Structural)]
pub enum ProgramState {
    Spawned,
    Running,
    Exited(i32),
}

/// A request to the program service.
#[derive(Clone, Copy, Debug, PartialEq, Eq)]
pub enum ProgramRequest<'a> {
    Execute { program: &'a str, args: [&'a str; MAX_ARGS], argc: usize },
    Spawn { program: &'a str, args: [&'a str; MAX_ARGS], argc: usize },
    Wait { handle: ProgramHandle },
    Terminate { handle: ProgramHandle },
}

/// The answer of the program service.
#[derive(Clone, Copy, Debug, PartialEq, Eq, Structural)]
pub struct ProgramResponse {
    pub exit_code: i32,
    pub machine: MachineErrorCode,
    pub handle: Option<ProgramHandle>,
}

/// A service that runs programs for the console.
pub trait ProgramService {
    /// The lines `list_programs` writes.
    spec fn program_listing(&self) -> Seq<Seq<char>>;

    /// The lines `describe_program` writes for `name`; none when no program
    /// has that name.
    spec fn program_help(&self, name: Seq<char>) -> Option<Seq<Seq<char>>>;

    /// What an `Execute` of `program` with `args` gives (the exit code, or
    /// the service's error) and the lines it writes, where the service says
    /// (`None`: it does not).
    open spec fn execute_outcome(&self, program: Seq<char>, args: Seq<Seq<char>>) -> Option<(Result<i32, ConsoleError>, Seq<Seq<char>>)> {
        None
    }

    /// Handles a request; only the program an `Execute` runs writes to
    /// `out`, so a request that fails or is not an `Execute` writes nothing.
    fn handle<W: ConsoleWriter>(&mut self, req: ProgramRequest<'_>, out: &mut W) -> (r: Result<ProgramResponse, ConsoleError>)
        requires
            req matches ProgramRequest::Execute { argc, .. } ==> argc <= MAX_ARGS,
        ensures
            req matches ProgramRequest::Execute { program, args, argc }
                ==> (old(self).execute_outcome(program@, strs_view(args@.take(argc as int))) matches Some((o, ls))
                ==> match o {
                    Ok(c) => r matches Ok(resp) && resp.exit_code == c && wrote(*old(out), *final(out), ls),
                    Err(e) => r == Err::<ProgramResponse, ConsoleError>(e),
                }),
            r is Err || !(req is Execute) ==> *final(out) == *old(out),
            old(out).records() ==> final(out).records(),
            final(self).program_listing() == old(self).program_listing(),
            forall|name: Seq<char>| #[trigger] final(self).program_help(name) == old(self).program_help(name),
    ;

    /// Writes the list of programs.
    fn list_programs<W: ConsoleWriter>(&self, out: &mut W)
        ensures
            wrote(*old(out), *final(out), self.program_listing()),
    ;

    /// Writes the help of the program `name`, or fails with
    /// `UnknownProgram` and writes nothing.
    fn describe_program<W: ConsoleWriter>(&self, name: &str, out: &mut W) -> (r: Result<(), ConsoleError>)
        ensures
            match self.program_help(name@) {
                None => r == Err::<(), ConsoleError>(ConsoleError::UnknownProgram) && *final(out) == *old(out),
                Some(ls) => r == Ok::<(), ConsoleError>(()) && wrote(*old(out), *final(out), ls),
            },
    ;
}

/// The response for a run of `handle` that ended with `code`.
pub open spec fn response_for(code: i32, handle: ProgramHandle) -> ProgramResponse {
    ProgramResponse {
        exit_code: code,
        machine: if code == 0 { MachineErrorCode::Success } else { MachineErrorCode::InvalidCommand },
        handle: Some(handle),
    }
}

/// How many program runs the service tracks at once.
pub const TASK_SLOTS: usize = 8;

/// A tracked run.
pub type TaskView = Option<(ProgramHandle, ProgramState)>;

/// The first free task slot.
pub open spec fn first_free_task(ts: Seq<TaskView>) -> Option<int> {
    if exists|i: int| 0 <= i < ts.len() && ts[i] is None {
        Some(choose|i: int| 0 <= i < ts.len() && ts[i] is None && forall|j: int| 0 <= j < i ==> ts[j] is Some)
    } else {
        None
    }
}

/// Whether task slot `i` tracks `h`.
pub open spec fn task_is(ts: Seq<TaskView>, h: ProgramHandle, i: int) -> bool {
    0 <= i < ts.len() && (ts[i] matches Some(e) && e.0 == h)
}

/// The first task slot that tracks `h`.
pub open spec fn first_task(ts: Seq<TaskView>, h: ProgramHandle) -> Option<int> {
    if exists|i: int| task_is(ts, h, i) {
        Some(choose|i: int| task_is(ts, h, i) && forall|j: int| 0 <= j < i ==> !task_is(ts, h, j))
    } else {
        None
    }
}

/// `ts` with the first run of `h` set to `st`.
pub open spec fn update_task(ts: Seq<TaskView>, h: ProgramHandle, st: ProgramState) -> Seq<TaskView> {
    match first_task(ts, h) {
        Some(j) => ts.update(j, Some((h, st))),
        None => ts,
    }
}

/// The tasks without the first run tracked for `h`.
pub open spec fn remove_task(ts: Seq<TaskView>, h: ProgramHandle) -> Seq<TaskView> {
    match first_task(ts, h) {
        Some(j) => ts.update(j, None),
        None => ts,
    }
}

proof fn lemma_first_free_task(ts: Seq<TaskView>, i: int)
    requires
        0 <= i < ts.len(),
        ts[i] is None,
        forall|j: int| 0 <= j < i ==> ts[j] is Some,
    ensures
        first_free_task(ts) == Some(i),
{
    let c = choose|c: int| 0 <= c < ts.len() && ts[c] is None && forall|j: int| 0 <= j < c ==> ts[j] is Some;
    assert(0 <= c < ts.len() && ts[c] is None && forall|j: int| 0 <= j < c ==> ts[j] is Some);
    if c < i {
        assert(ts[c] is Some);
    } else if c > i {
        assert(ts[i] is Some);
    }
}

proof fn lemma_least_free_task(ts: Seq<TaskView>, w: int)
    requires
        0 <= w < ts.len(),
        ts[w] is None,
    ensures
        exists|i: int| 0 <= i < ts.len() && ts[i] is None && forall|j: int| 0 <= j < i ==> ts[j] is Some,
    decreases w,
{
    if exists|j: int| 0 <= j < w && ts[j] is None {
        let j = choose|j: int| 0 <= j < w && ts[j] is None;
        lemma_least_free_task(ts, j);
    } else {
        assert(forall|j: int| 0 <= j < w ==> ts[j] is Some);
    }
}

/// A run of a fresh pid `h` that an `Execute` tracked and a `Wait` then
/// collected leaves the task table as it was: the console's own runs never
/// use up the table. The `Execute` puts the run in the first free slot `k`
/// and marks it `Exited(c)` there; `Wait` finds it in slot `k`, answers with
/// its exit code and frees the slot.
#[verifier::rlimit(40)]
pub proof fn lemma_execute_then_wait_frees(ts: Seq<TaskView>, h: ProgramHandle, c: i32)
    requires
        first_free_task(ts) is Some,
        forall|j: int| !task_is(ts, h, j),
    ensures
        ({
            let k = first_free_task(ts)->0;
            let t1 = update_task(ts.update(k, Some((h, ProgramState::Spawned))), h, ProgramState::Running);
            let t2 = update_task(t1, h, ProgramState::Exited(c));
            &&& first_task(t2, h) == Some(k)
            &&& t2[k] == Some((h, ProgramState::Exited(c)))
            &&& t2.update(k, None) == ts
        }),
{
    let w = choose|i: int| 0 <= i < ts.len() && ts[i] is None;
    lemma_least_free_task(ts, w);
    let k = first_free_task(ts)->0;
    assert(0 <= k < ts.len() && ts[k] is None && forall|j: int| 0 <= j < k ==> ts[j] is Some);
    let t0 = ts.update(k, Some((h, ProgramState::Spawned)));
    assert forall|j: int| 0 <= j < k implies !task_is(t0, h, j) by {
        assert(t0[j] == ts[j]);
        assert(!task_is(ts, h, j));
    }
    lemma_first_task(t0, h, k);
    assert(update_task(t0, h, ProgramState::Running) == t0.update(k, Some((h, ProgramState::Running))));
    let t1 = t0.update(k, Some((h, ProgramState::Running)));
    assert forall|j: int| 0 <= j < k implies !task_is(t1, h, j) by {
        assert(t1[j] == ts[j]);
        assert(!task_is(ts, h, j));
    }
    lemma_first_task(t1, h, k);
    assert(update_task(t1, h, ProgramState::Exited(c)) == t1.update(k, Some((h, ProgramState::Exited(c)))));
    let t2 = t1.update(k, Some((h, ProgramState::Exited(c))));
    assert forall|j: int| 0 <= j < k implies !task_is(t2, h, j) by {
        assert(t2[j] == ts[j]);
        assert(!task_is(ts, h, j));
    }
    lemma_first_task(t2, h, k);
    assert(t2.update(k, None) =~= ts);
}

proof fn lemma_first_task(ts: Seq<TaskView>, h: ProgramHandle, i: int)
    requires
        task_is(ts, h, i),
        forall|j: int| 0 <= j < i ==> !task_is(ts, h, j),
    ensures
        first_task(ts, h) == Some(i),
{
    let c = choose|c: int| task_is(ts, h, c) && forall|j: int| 0 <= j < c ==> !task_is(ts, h, j);
    assert(task_is(ts, h, c) && forall|j: int| 0 <= j < c ==> !task_is(ts, h, j));
    if c < i {
        assert(!task_is(ts, h, c));
    } else if c > i {
        assert(!task_is(ts, h, i));
    }
}

#[derive(Clone, Copy)]
struct TaskEntry {
    handle: ProgramHandle,
    state: ProgramState,
}

spec fn task_view(t: Option<TaskEntry>) -> TaskView {
    match t {
        Some(e) => Some((e.handle, e.state)),
        None => None,
    }
}

/// Maps nothing and loads no context: the service's runs need no hardware.
struct NullVm;

impl VmContextOps for NullVm {
    open spec fn map_outcome(&self, aspace: AddressSpace, vaddr: u64, paddr: u64, len: u64) -> Option<Result<(), IsolationError>> {
        Some(Ok(()))
    }

    open spec fn install_outcome(&self, ctx: CpuContext) -> Option<Result<(), IsolationError>> {
        Some(Ok(()))
    }

    fn map_user_region(&self, aspace: &AddressSpace, vaddr: u64, paddr: u64, len: u64) -> (r: Result<(), IsolationError>) {
        Ok(())
    }

    fn install_context(&self, ctx: &CpuContext) -> (r: Result<(), IsolationError>) {
        Ok(())
    }
}

/// The abstract state of a program service.
pub struct ProgramServiceView<P> {
    pub next_pid: u32,
    pub tasks: Seq<TaskView>,
    pub programs: Seq<P>,
}

/// Runs the programs of a registry, tracking each run and giving it an
/// isolated process.
pub struct ProgramServiceImpl<P: Program, const N: usize> {
    registry: ProgramRegistry<P, N>,
    next_pid: u32,
    tasks: [Option<TaskEntry>; 8],
    isolation: IsolationRuntime<8, 8>,
}

impl<P: Program, const N: usize> View for ProgramServiceImpl<P, N> {
    type V = ProgramServiceView<P>;

    closed spec fn view(&self) -> ProgramServiceView<P> {
        ProgramServiceView {
            next_pid: self.next_pid,
            tasks: self.tasks@.map_values(|t: Option<TaskEntry>| task_view(t)),
            programs: self.registry@,
        }
    }
}

/// Whether slot `k` of a table of `n` process slots is in use by `pid`
/// with the layout `aspace`.
pub open spec fn holds_process(v: RuntimeView, k: int, pid: u32, aspace: AddressSpace, n: nat) -> bool {
    &&& v.processes.len() == n
    &&& 0 <= k < n
    &&& v.processes[k].used
    &&& v.processes[k].pid == pid
    &&& v.processes[k].aspace == aspace
}

/// The bytes of the image every run is given: a `SOSX` header for ABI 1.0
/// with entry offset 8 and image size 64.
pub open spec fn run_image_bytes() -> Seq<u8> {
    seq![0x53u8, 0x4f, 0x53, 0x58, 1, 0, 0, 0, 8, 0, 0, 0, 64, 0, 0, 0]
}

/// The header of that image.
pub open spec fn run_image_header() -> ExecutableHeader {
    ExecutableHeader { abi: AbiVersion { major: 1, minor: 0 }, entry_offset: 8, image_size: 64 }
}

proof fn lemma_low_byte32(x0: u8, x1: u8, x2: u8, x3: u8)
    by (bit_vector)
    requires
        x1 == 0,
        x2 == 0,
        x3 == 0,
    ensures
        (x0 as u32) | ((x1 as u32) << 8u32) | ((x2 as u32) << 16u32) | ((x3 as u32) << 24u32) == x0 as u32,
{
}

proof fn lemma_low_byte16(x0: u8, x1: u8)
    by (bit_vector)
    requires
        x1 == 0,
    ensures
        (x0 as u16) | ((x1 as u16) << 8u16) == x0 as u16,
{
}

proof fn lemma_run_image_header()
    ensures
        header_spec(run_image_bytes()) == Some(run_image_header()),
{
    let b = run_image_bytes();
    lemma_low_byte32(b[8], b[9], b[10], b[11]);
    lemma_low_byte32(b[12], b[13], b[14], b[15]);
    lemma_low_byte16(b[4], b[5]);
    lemma_low_byte16(b[6], b[7]);
    assert(read32(b, 8) == 8u32);
    assert(read32(b, 12) == 64u32);
    assert(read16(b, 4) == 1u16);
    assert(read16(b, 6) == 0u16);
}

/// The image every run is given: a minimal `SOSX` header.
fn run_image() -> (image: [u8; 16])
    ensures
        image@ == run_image_bytes(),
{
    let image: [u8; 16] = [0x53, 0x4f, 0x53, 0x58, 1, 0, 0, 0, 8, 0, 0, 0, 64, 0, 0, 0];
    assert(image@ =~= run_image_bytes());
    image
}

impl<P: Program, const N: usize> ProgramServiceImpl<P, N> {
    /// A service over `registry` with no runs; pids start at 1.
    pub fn new(registry: ProgramRegistry<P, N>) -> (s: Self)
        ensures
            s@.next_pid == 1,
            s@.tasks == Seq::new(TASK_SLOTS as nat, |i: int| None::<(ProgramHandle, ProgramState)>),
            s@.programs == registry@,
    {
        let s = ProgramServiceImpl {
            registry,
            next_pid: 1,
            tasks: [None, None, None, None, None, None, None, None],
            isolation: IsolationRuntime::new(),
        };
        assert(s@.tasks =~= Seq::new(TASK_SLOTS as nat, |i: int| None::<(ProgramHandle, ProgramState)>));
        s
    }

    fn alloc_pid(&mut self) -> (pid: u32)
        ensures
            pid == old(self)@.next_pid,
            final(self)@.next_pid == crate::process::runtime::sat_inc32(old(self)@.next_pid),
            final(self)@.tasks == old(self)@.tasks,
            final(self)@.programs == old(self)@.programs,
    {
        let pid = self.next_pid;
        self.next_pid = self.next_pid.saturating_add(1);
        pid
    }

    fn task_insert(&mut self, handle: ProgramHandle, state: ProgramState) -> (ok: bool)
        ensures
            final(self)@.next_pid == old(self)@.next_pid,
            final(self)@.programs == old(self)@.programs,
            match first_free_task(old(self)@.tasks) {
                Some(k) => ok && final(self)@.tasks == old(self)@.tasks.update(k, Some((handle, state))),
                None => !ok && final(self)@.tasks == old(self)@.tasks,
            },
    {
        let mut i: usize = 0;
        while i < 8
            invariant
                i <= 8,
                self.tasks == old(self).tasks,
                self.next_pid == old(self).next_pid,
                self.registry == old(self).registry,
                forall|j: int| 0 <= j < i ==> self.tasks@[j] is Some,
            decreases 8 - i,
        {
            if self.tasks[i].is_none() {
                proof {
                    lemma_first_free_task(old(self)@.tasks, i as int);
                }
                self.tasks[i] = Some(TaskEntry { handle, state });
                assert(self@.tasks =~= old(self)@.tasks.update(i as int, Some((handle, state))));
                return true;
            }
            i = i + 1;
        }
        false
    }

    fn task_index(&self, handle: ProgramHandle) -> (r: Option<usize>)
        ensures
            r matches Some(j) ==> j < 8 && first_task(self@.tasks, handle) == Some(j as int),
            r is None ==> first_task(self@.tasks, handle) is None,
    {
        let mut i: usize = 0;
        while i < 8
            invariant
                i <= 8,
                forall|j: int| 0 <= j < i ==> !task_is(self@.tasks, handle, j),
            decreases 8 - i,
        {
            match self.tasks[i] {
                Some(e) => {
                    if e.handle == handle {
                        proof {
                            lemma_first_task(self@.tasks, handle, i as int);
                        }
                        return Some(i);
                    }
                },
                None => {},
            }
            i = i + 1;
        }
        None
    }

    fn task_update(&mut self, handle: ProgramHandle, state: ProgramState) -> (ok: bool)
        ensures
            final(self)@.next_pid == old(self)@.next_pid,
            final(self)@.programs == old(self)@.programs,
            final(self)@.tasks == update_task(old(self)@.tasks, handle, state),
            ok == first_task(old(self)@.tasks, handle) is Some,
    {
        match self.task_index(handle) {
            Some(j) => {
                self.tasks[j] = Some(TaskEntry { handle, state });
                assert(self@.tasks =~= update_task(old(self)@.tasks, handle, state));
                true
            },
            None => false,
        }
    }

    fn task_remove(&mut self, handle: ProgramHandle)
        ensures
            final(self)@.next_pid == old(self)@.next_pid,
            final(self)@.programs == old(self)@.programs,
            final(self)@.tasks == match first_task(old(self)@.tasks, handle) {
                Some(j) => old(self)@.tasks.update(j, None),
                None => old(self)@.tasks,
            },
    {
        match self.task_index(handle) {
            Some(j) => {
                self.tasks[j] = None;
                assert(self@.tasks =~= old(self)@.tasks.update(j as int, None));
            },
            None => {},
        }
    }

    fn task_find(&self, handle: ProgramHandle) -> (r: Option<ProgramState>)
        ensures
            match first_task(self@.tasks, handle) {
                Some(j) => r == Some((self@.tasks[j]->0).1),
                None => r is None,
            },
    {
        match self.task_index(handle) {
            Some(j) => match self.tasks[j] {
                Some(e) => Some(e.state),
                None => None,
            },
            None => None,
        }
    }

    /// Gives the run an isolated process: loads the image, maps its layout,
    /// and installs (and, when `run` holds, switches to) its context.
    fn isolate(&mut self, run: bool) -> (r: Option<ProcessHandle>)
        ensures
            final(self)@ == old(self)@,
            match first_free_proc(old(self).isolation@.processes) {
                None => r is None && final(self).isolation@ == old(self).isolation@,
                Some(k) => {
                    &&& r == Some(ProcessHandle { pid: old(self).isolation@.next_pid })
                    &&& final(self).isolation@.next_pid == sat_inc32(old(self).isolation@.next_pid)
                    &&& final(self).isolation@.next_asid == sat_inc32(old(self).isolation@.next_asid)
                    &&& final(self).isolation@.processes.len() == old(self).isolation@.processes.len()
                    &&& final(self).isolation@.processes[k].used
                    &&& final(self).isolation@.processes[k].pid == old(self).isolation@.next_pid
                    &&& final(self).isolation@.processes[k].aspace
                        == layout_for(old(self).isolation@.next_asid, old(self).isolation@.next_pml4_phys)
                    &&& (forall|j: int| !proc_at(old(self).isolation@.processes, old(self).isolation@.next_pid, j)) ==> {
                        &&& final(self).isolation@.processes[k].executable == Some(run_image_header())
                        &&& final(self).isolation@.processes[k].state == ProcessState::Ready
                            || (run && final(self).isolation@.processes[k].state == ProcessState::Running)
                    }
                },
            },
    {
        let iso = match self.isolation.spawn_process() {
            Ok(h) => h,
            Err(_) => return None,
        };
        let ghost k = first_free_proc(old(self).isolation@.processes)->0;
        let ghost aspace = layout_for(old(self).isolation@.next_asid, old(self).isolation@.next_pml4_phys);
        let ghost n = old(self).isolation@.processes.len();
        let ghost spawned = self.isolation@;
        proof {
            lemma_first_free_proc(old(self).isolation@.processes);
        }
        assert(holds_process(spawned, k, iso.pid, aspace, n));
        let image = run_image();
        let ghost fresh = forall|j: int| !proc_at(old(self).isolation@.processes, old(self).isolation@.next_pid, j);
        proof {
            lemma_first_proc_found(self.isolation@.processes, iso.pid);
            lemma_run_image_header();
            if fresh {
                assert forall|j: int| 0 <= j < k implies !proc_at(self.isolation@.processes, iso.pid, j) by {
                    assert(!proc_at(old(self).isolation@.processes, old(self).isolation@.next_pid, j));
                }
                lemma_first_proc(self.isolation@.processes, iso.pid, k);
            }
        }
        let _ = self.isolation.load_executable(iso, image.as_slice());
        assert(fresh ==> self.isolation@.processes[k].executable == Some(run_image_header())
            && self.isolation@.processes[k].state == ProcessState::Ready);
        assert(holds_process(self.isolation@, k, iso.pid, aspace, n));
        let vm = NullVm;
        let _ = self.isolation.map_user_layout(iso, &vm);
        match self.isolation.build_context(iso) {
            Ok(ctx) => {
                let _ = self.isolation.install_context_slot(iso, ctx);
                assert(holds_process(self.isolation@, k, iso.pid, aspace, n));
                if run {
                    proof {
                        lemma_first_proc_found(self.isolation@.processes, iso.pid);
                        if let Some(prev) = self.isolation@.current_pid {
                            lemma_first_proc_found(self.isolation@.processes, prev);
                        }
                    }
                    proof {
                        if fresh {
                            assert forall|j: int| 0 <= j < k implies !proc_at(self.isolation@.processes, iso.pid, j) by {
                                assert(!proc_at(old(self).isolation@.processes, old(self).isolation@.next_pid, j));
                            }
                            lemma_first_proc(self.isolation@.processes, iso.pid, k);
                        }
                    }
                    let _ = self.isolation.switch_to(iso, &vm);
                    assert(holds_process(self.isolation@, k, iso.pid, aspace, n));
                }
            },
            Err(_) => {},
        }
        Some(iso)
    }
}

impl<P: Program, const N: usize> ProgramServiceImpl<P, N> {
    /// The `Execute` request of `handle`.
    #[verifier::rlimit(60)]
    #[verifier::spinoff_prover]
    fn execute_request<W: ConsoleWriter>(&mut self, program: &str, args: [&str; MAX_ARGS], argc: usize, out: &mut W) -> (r: Result<ProgramResponse, ConsoleError>)
        requires
            argc <= MAX_ARGS,
        ensures
            ({
                let h = ProgramHandle { pid: old(self)@.next_pid };
                &&& final(self)@.next_pid == crate::process::runtime::sat_inc32(old(self)@.next_pid)
                &&& match first_free_task(old(self)@.tasks) {
                    None => r == Err::<ProgramResponse, ConsoleError>(ConsoleError::SpawnFailed)
                        && final(self)@.tasks == old(self)@.tasks
                        && final(self)@.programs == old(self)@.programs,
                    Some(k) => {
                        let t1 = update_task(old(self)@.tasks.update(k, Some((h, ProgramState::Spawned))), h, ProgramState::Running);
                        match first_named(old(self)@.programs, program@) {
                            None => r == Err::<ProgramResponse, ConsoleError>(ConsoleError::UnknownProgram)
                                && final(self)@.tasks == remove_task(t1, h)
                                && final(self)@.programs == old(self)@.programs,
                            Some(i) => r matches Ok(resp) && resp == response_for(resp.exit_code, h)
                                && final(self)@.tasks == update_task(t1, h, ProgramState::Exited(resp.exit_code))
                                && final(self)@.programs.len() == old(self)@.programs.len()
                                && (forall|j: int| 0 <= j < N && j != i ==> final(self)@.programs[j] == old(self)@.programs[j])
                                && (old(self)@.programs[i].execute_outcome(strs_view(args@.take(argc as int))) matches Some((c, ls))
                                    ==> resp.exit_code == c && wrote(*old(out), *final(out), ls)),
                        }
                    },
                }
            }),
            r is Err ==> *final(out) == *old(out),
            old(out).records() ==> final(out).records(),
            final(self).program_listing() == old(self).program_listing(),
            forall|name: Seq<char>| #[trigger] final(self).program_help(name) == old(self).program_help(name),
    {
                let handle = ProgramHandle { pid: self.alloc_pid() };
                if !self.task_insert(handle, ProgramState::Spawned) {
                    return Err(ConsoleError::SpawnFailed);
                }
                let iso = self.isolate(true);
                let _ = self.task_update(handle, ProgramState::Running);
                let idx = match self.registry.index_of(program) {
                    Some(i) => i,
                    None => {
                        self.task_remove(handle);
                        return Err(ConsoleError::UnknownProgram);
                    },
                };
                let run_args = vstd::slice::slice_subrange(args.as_slice(), 0, argc);
                proof {
                    assert(strs_view(run_args@) =~= strs_view(args@.take(argc as int)));
                }
                let ghost tasks = self@.tasks;
                let ghost progs = self@.programs;
                let code = self.registry.run_program(idx, run_args, out);
                assert(self@.tasks == tasks);
                proof {
                    assert forall|j: int| 0 <= j < progs.len() implies #[trigger] progs[j].describe() == self@.programs[j].describe() by {
                        if j != idx {
                            assert(progs[j] == self@.programs[j]);
                        }
                    }
                    lemma_same_descriptions(progs, self@.programs);
                }
                let ghost progs_after = self@.programs;
                let _ = self.task_update(handle, ProgramState::Exited(code));
                match iso {
                    Some(iso_handle) => {
                        let _ = self.isolation.transition(iso_handle, ProcessState::Exited(code));
                    },
                    None => {},
                }
                let machine = if code == 0 { MachineErrorCode::Success } else { MachineErrorCode::InvalidCommand };
                proof {
                    assert(progs == old(self)@.programs);
                    assert(self@.programs == progs_after);
                }
                Ok(ProgramResponse { exit_code: code, machine, handle: Some(handle) })
                }
}

impl<P: Program, const N: usize> ProgramService for ProgramServiceImpl<P, N> {
    /// No free task slot: `SpawnFailed`; no program of that name:
    /// `UnknownProgram`; otherwise what the program's own outcome says.
    open spec fn execute_outcome(&self, program: Seq<char>, args: Seq<Seq<char>>) -> Option<(Result<i32, ConsoleError>, Seq<Seq<char>>)> {
        match first_free_task(self@.tasks) {
            None => Some((Err(ConsoleError::SpawnFailed), Seq::empty())),
            Some(_) => match first_named(self@.programs, program) {
                None => Some((Err(ConsoleError::UnknownProgram), Seq::empty())),
                Some(i) => match self@.programs[i].execute_outcome(args) {
                    Some((c, ls)) => Some((Ok(c), ls)),
                    None => None,
                },
            },
        }
    }

    /// "programs:" and then each program's name.
    closed spec fn program_listing(&self) -> Seq<Seq<char>> {
        program_listing_of(self@.programs)
    }

    /// The help lines of the first program named `name`.
    closed spec fn program_help(&self, name: Seq<char>) -> Option<Seq<Seq<char>>> {
        program_help_of(self@.programs, name)
    }

    /// Execute: allocates a pid, tracks the run (`SpawnFailed` when all
    /// task slots are taken), runs the named program (`UnknownProgram`
    /// when there is none) and records its exit code. Spawn: allocates a
    /// pid and tracks the run. Wait: reports a run's exit code and forgets
    /// it once it has exited. Terminate: forgets a run. Wait and Terminate
    /// fail with `WaitFailed` for an unknown run.
    #[verifier::rlimit(40)]
    #[verifier::spinoff_prover]
    fn handle<W: ConsoleWriter>(&mut self, req: ProgramRequest<'_>, out: &mut W) -> (r: Result<ProgramResponse, ConsoleError>)
        ensures
            match req {
                ProgramRequest::Execute { program, args, argc } => {
                    let h = ProgramHandle { pid: old(self)@.next_pid };
                    &&& final(self)@.next_pid == crate::process::runtime::sat_inc32(old(self)@.next_pid)
                    &&& match first_free_task(old(self)@.tasks) {
                        None => r == Err::<ProgramResponse, ConsoleError>(ConsoleError::SpawnFailed)
                            && final(self)@.tasks == old(self)@.tasks
                            && final(self)@.programs == old(self)@.programs,
                        Some(k) => {
                            let t1 = update_task(old(self)@.tasks.update(k, Some((h, ProgramState::Spawned))), h, ProgramState::Running);
                            match first_named(old(self)@.programs, program@) {
                                None => r == Err::<ProgramResponse, ConsoleError>(ConsoleError::UnknownProgram)
                                    && final(self)@.tasks == remove_task(t1, h)
                                    && final(self)@.programs == old(self)@.programs,
                                Some(i) => r matches Ok(resp) && resp == response_for(resp.exit_code, h)
                                    && final(self)@.tasks == update_task(t1, h, ProgramState::Exited(resp.exit_code))
                                    && final(self)@.programs.len() == old(self)@.programs.len()
                                    && forall|j: int| 0 <= j < N && j != i ==> final(self)@.programs[j] == old(self)@.programs[j],
                            }
                        },
                    }
                },
                ProgramRequest::Spawn { .. } => {
                    let h = ProgramHandle { pid: old(self)@.next_pid };
                    &&& final(self)@.next_pid == crate::process::runtime::sat_inc32(old(self)@.next_pid)
                    &&& final(self)@.programs == old(self)@.programs
                    &&& match first_free_task(old(self)@.tasks) {
                        None => r == Err::<ProgramResponse, ConsoleError>(ConsoleError::SpawnFailed)
                            && final(self)@.tasks == old(self)@.tasks,
                        Some(k) => r == Ok::<ProgramResponse, ConsoleError>(response_for(0, h))
                            && final(self)@.tasks == old(self)@.tasks.update(k, Some((h, ProgramState::Spawned))),
                    }
                },
                ProgramRequest::Wait { handle } => {
                    &&& final(self)@.next_pid == old(self)@.next_pid
                    &&& final(self)@.programs == old(self)@.programs
                    &&& match first_task(old(self)@.tasks, handle) {
                        None => r == Err::<ProgramResponse, ConsoleError>(ConsoleError::WaitFailed)
                            && final(self)@.tasks == old(self)@.tasks,
                        Some(j) => match (old(self)@.tasks[j]->0).1 {
                            ProgramState::Exited(code) => r == Ok::<ProgramResponse, ConsoleError>(response_for(code, handle))
                                && final(self)@.tasks == old(self)@.tasks.update(j, None),
                            _ => r == Ok::<ProgramResponse, ConsoleError>(response_for(0, handle))
                                && final(self)@.tasks == old(self)@.tasks,
                        },
                    }
                },
                ProgramRequest::Terminate { handle } => {
                    &&& final(self)@.next_pid == old(self)@.next_pid
                    &&& final(self)@.programs == old(self)@.programs
                    &&& match first_task(old(self)@.tasks, handle) {
                        None => r == Err::<ProgramResponse, ConsoleError>(ConsoleError::WaitFailed)
                            && final(self)@.tasks == old(self)@.tasks,
                        Some(j) => r == Ok::<ProgramResponse, ConsoleError>(response_for(0, handle))
                            && final(self)@.tasks == old(self)@.tasks.update(j, None),
                    }
                },
            },
    {
        match req {
            ProgramRequest::Execute { program, args, argc } => {
                self.execute_request(program, args, argc, out)
            },
            ProgramRequest::Spawn { .. } => {
                let handle = ProgramHandle { pid: self.alloc_pid() };
                if !self.task_insert(handle, ProgramState::Spawned) {
                    return Err(ConsoleError::SpawnFailed);
                }
                let _ = self.isolate(false);
                Ok(ProgramResponse { exit_code: 0, machine: MachineErrorCode::Success, handle: Some(handle) })
            },
            ProgramRequest::Wait { handle } => {
                let state = match self.task_find(handle) {
                    Some(s) => s,
                    None => return Err(ConsoleError::WaitFailed),
                };
                match state {
                    ProgramState::Exited(code) => {
                        self.task_remove(handle);
                        let ghost before = self@;
                        let _ = self.isolation.terminate(ProcessHandle { pid: handle.pid });
                        assert(self@ == before);
                        let machine = if code == 0 { MachineErrorCode::Success } else { MachineErrorCode::InvalidCommand };
                        Ok(ProgramResponse { exit_code: code, machine, handle: Some(handle) })
                    },
                    _ => Ok(ProgramResponse { exit_code: 0, machine: MachineErrorCode::Success, handle: Some(handle) }),
                }
            },
            ProgramRequest::Terminate { handle } => {
                match self.task_find(handle) {
                    Some(_) => {},
                    None => return Err(ConsoleError::WaitFailed),
                }
                self.task_remove(handle);
                let ghost before = self@;
                let _ = self.isolation.terminate(ProcessHandle { pid: handle.pid });
                assert(self@ == before);
                Ok(ProgramResponse { exit_code: 0, machine: MachineErrorCode::Success, handle: Some(handle) })
            },
        }
    }

    /// Writes the registry's program list.
    fn list_programs<W: ConsoleWriter>(&self, out: &mut W) {
        self.registry.write_programs(out);
    }

    /// Writes the help of the program `name`.
    fn describe_program<W: ConsoleWriter>(&self, name: &str, out: &mut W) -> (r: Result<(), ConsoleError>)
        ensures
            match first_named(self@.programs, name@) {
                None => r == Err::<(), ConsoleError>(ConsoleError::UnknownProgram),
                Some(i) => r == Ok::<(), ConsoleError>(()),
            },
    {
        self.registry.write_program_help(name, out)
    }
}

} // verus!
