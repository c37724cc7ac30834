//! Process slots, executable headers, address spaces and context switching.
use vstd::prelude::*;
use crate::bytes::{read16, read32};

verus! {

/// Default number of process slots.
pub const PROCESS_SLOT_CAPACITY: usize = 16;
/// Default number of context slots.
pub const CONTEXT_SLOT_CAPACITY: usize = 16;

/// An ABI version.
#[derive(Clone, Copy, Debug, PartialEq, Eq, Structural)]
pub struct AbiVersion {
    pub major: u16,
    pub minor: u16,
}

/// Names a process by its id.
#[derive(Clone, Copy, Debug, PartialEq, Eq, Structural)]
pub struct ProcessHandle {
    pub pid: u32,
}

/// The lifecycle state of a process.
#[derive(Clone, Copy, Debug, PartialEq, Eq, Structural)]
pub enum ProcessState {
    Spawned,
    Ready,
    Running,
    Blocked,
    Exited(i32),
}

/// A process's address-space layout.
#[derive(Clone, Copy, Debug, PartialEq, Eq, Structural)]
pub struct AddressSpace {
    pub asid: u32,
    pub code_base: u64,
    pub data_base: u64,
    pub stack_base: u64,
    pub span_bytes: u64,
    pub pml4_phys: u64,
}

/// The end of an address space's span, saturating at the top of memory.
pub open spec fn span_end(a: AddressSpace) -> int {
    if a.code_base + a.span_bytes > u64::MAX { u64::MAX as int } else { a.code_base + a.span_bytes }
}

impl AddressSpace {
    /// Whether the two spans `[code_base, code_base + span_bytes)` intersect
    /// (ends saturate at the top of memory).
    pub fn overlaps(&self, other: &AddressSpace) -> (r: bool)
        ensures
            r == (self.code_base < span_end(*other) && other.code_base < span_end(*self)),
    {
        let self_end = self.code_base.saturating_add(self.span_bytes);
        let other_end = other.code_base.saturating_add(other.span_bytes);
        self.code_base < other_end && other.code_base < self_end
    }
}

/// Why an isolation or IPC operation failed.
#[derive(Clone, Copy, Debug, PartialEq, Eq, Structural)]
pub enum IsolationError {
    NoSlots,
    UnknownProcess,
    BadExecutable,
    BadState,
    BadContext,
    QueueFull,
}

/// The header of a `SOSX` executable image.
#[derive(Clone, Copy, Debug, PartialEq, Eq, Structural)]
pub struct ExecutableHeader {
    pub abi: AbiVersion,
    pub entry_offset: u32,
    pub image_size: u32,
}

/// The header an image's first 16 bytes describe, when it is valid: the
/// `SOSX` magic, then the ABI (major, minor), the entry offset and the image
/// size, little-endian; the size must be non-zero and exceed the offset.
pub open spec fn header_spec(bytes: Seq<u8>) -> Option<ExecutableHeader> {
    if bytes.len() >= 16 && bytes[0] == 0x53u8 && bytes[1] == 0x4fu8 && bytes[2] == 0x53u8 && bytes[3] == 0x58u8
        && read32(bytes, 12) != 0 && read32(bytes, 8) < read32(bytes, 12) {
        Some(ExecutableHeader {
            abi: AbiVersion { major: read16(bytes, 4), minor: read16(bytes, 6) },
            entry_offset: read32(bytes, 8),
            image_size: read32(bytes, 12),
        })
    } else {
        None
    }
}

/// Parses the header of an executable image.
pub fn parse_executable_header(bytes: &[u8]) -> (r: Result<ExecutableHeader, IsolationError>)
    ensures
        match header_spec(bytes@) {
            Some(h) => r == Ok::<ExecutableHeader, IsolationError>(h),
            None => r == Err::<ExecutableHeader, IsolationError>(IsolationError::BadExecutable),
        },
{
    if bytes.len() < 16 {
        return Err(IsolationError::BadExecutable);
    }
    if bytes[0] != 0x53 || bytes[1] != 0x4f || bytes[2] != 0x53 || bytes[3] != 0x58 {
        return Err(IsolationError::BadExecutable);
    }
    let abi = AbiVersion { major: crate::bytes::get16(bytes, 4), minor: crate::bytes::get16(bytes, 6) };
    let entry_offset = crate::bytes::get32(bytes, 8);
    let image_size = crate::bytes::get32(bytes, 12);
    if image_size == 0 || entry_offset >= image_size {
        return Err(IsolationError::BadExecutable);
    }
    Ok(ExecutableHeader { abi, entry_offset, image_size })
}

/// Saved user-mode register state.
#[derive(Clone, Copy, Debug, PartialEq, Eq, Structural)]
pub struct CpuContext {
    pub rip: u64,
    pub rsp: u64,
    pub rflags: u64,
    pub cr3: u64,
}

impl CpuContext {
    /// A user-mode context entering at `entry` with stack `stack_top`, page
    /// table root `cr3`, and interrupts enabled (rflags 0x202).
    pub fn user(entry: u64, stack_top: u64, cr3: u64) -> (c: Self)
        ensures
            c == (CpuContext { rip: entry, rsp: stack_top, rflags: 0x202, cr3 }),
    {
        CpuContext { rip: entry, rsp: stack_top, rflags: 0x202, cr3 }
    }
}

/// The hardware operations a runtime needs: mapping user memory and loading
/// a context.
pub trait VmContextOps {
    /// What mapping `len` bytes at `vaddr` onto `paddr` in `aspace` returns,
    /// where the implementation says; none where it does not.
    open spec fn map_outcome(&self, aspace: AddressSpace, vaddr: u64, paddr: u64, len: u64) -> Option<Result<(), IsolationError>> {
        None
    }

    /// What loading `ctx` returns, where the implementation says.
    open spec fn install_outcome(&self, ctx: CpuContext) -> Option<Result<(), IsolationError>> {
        None
    }

    fn map_user_region(&self, aspace: &AddressSpace, vaddr: u64, paddr: u64, len: u64) -> (r: Result<(), IsolationError>)
        ensures
            self.map_outcome(*aspace, vaddr, paddr, len) matches Some(o) ==> r == o,
    ;

    fn install_context(&self, ctx: &CpuContext) -> (r: Result<(), IsolationError>)
        ensures
            self.install_outcome(*ctx) matches Some(o) ==> r == o,
    ;
}

/// What mapping the user layout of `a` through `vm` returns: the code,
/// data and stack regions in turn, the first failure ending it; none where
/// `vm` does not say what a mapping it reaches returns.
pub open spec fn layout_outcome<V: VmContextOps>(vm: V, a: AddressSpace) -> Option<Result<(), IsolationError>> {
    match vm.map_outcome(a, a.code_base, 0x2000_0000, 0x0020_0000) {
        None => None,
        Some(Err(e)) => Some(Err(e)),
        Some(Ok(())) => match vm.map_outcome(a, a.data_base, 0x2200_0000, 0x00D0_0000) {
            None => None,
            Some(Err(e)) => Some(Err(e)),
            Some(Ok(())) => vm.map_outcome(a, a.stack_base, 0x2F00_0000, 0x0010_0000),
        },
    }
}

/// One process slot.
#[derive(Clone, Copy, Debug, PartialEq, Eq, Structural)]
pub struct ProcessSlot {
    pub used: bool,
    pub pid: u32,
    pub state: ProcessState,
    pub aspace: AddressSpace,
    pub executable: Option<ExecutableHeader>,
}

impl ProcessSlot {
    /// An unused slot.
    pub open spec fn empty_spec() -> Self {
        ProcessSlot {
            used: false,
            pid: 0,
            state: ProcessState::Spawned,
            aspace: AddressSpace { asid: 0, code_base: 0, data_base: 0, stack_base: 0, span_bytes: 0, pml4_phys: 0 },
            executable: None,
        }
    }

    fn empty() -> (s: Self)
        ensures
            s == Self::empty_spec(),
    {
        ProcessSlot {
            used: false,
            pid: 0,
            state: ProcessState::Spawned,
            aspace: AddressSpace { asid: 0, code_base: 0, data_base: 0, stack_base: 0, span_bytes: 0, pml4_phys: 0 },
            executable: None,
        }
    }
}

/// One context slot.
#[derive(Clone, Copy, Debug, PartialEq, Eq, Structural)]
pub struct ContextSlot {
    pub used: bool,
    pub pid: u32,
    pub ctx: CpuContext,
}

impl ContextSlot {
    /// An unused slot.
    pub open spec fn empty_spec() -> Self {
        ContextSlot { used: false, pid: 0, ctx: CpuContext { rip: 0, rsp: 0, rflags: 0, cr3: 0 } }
    }

    fn empty() -> (s: Self)
        ensures
            s == Self::empty_spec(),
    {
        ContextSlot { used: false, pid: 0, ctx: CpuContext { rip: 0, rsp: 0, rflags: 0, cr3: 0 } }
    }
}

/// The layout given to the process with address-space id `asid`: a 16 MiB
/// span at `0x4000_0000 + asid * 16 MiB`, data 2 MiB in, stack 15 MiB in.
pub open spec fn layout_for(asid: u32, pml4_phys: u64) -> AddressSpace {
    let base = (0x4000_0000 + asid * 0x0100_0000) as u64;
    AddressSpace {
        asid,
        code_base: base,
        data_base: (base + 0x0020_0000) as u64,
        stack_base: (base + 0x00F0_0000) as u64,
        span_bytes: 0x0100_0000,
        pml4_phys,
    }
}

/// Processes with distinct address-space ids get disjoint spans.
pub proof fn lemma_distinct_asids_disjoint(a: u32, b: u32, pa: u64, pb: u64)
    requires
        a != b,
    ensures
        !(layout_for(a, pa).code_base < span_end(layout_for(b, pb))
            && layout_for(b, pb).code_base < span_end(layout_for(a, pa))),
{
    assert(a * 0x0100_0000 <= 0xffff_ffff * 0x0100_0000) by (nonlinear_arith)
        requires a <= 0xffff_ffffu32;
    assert(b * 0x0100_0000 <= 0xffff_ffff * 0x0100_0000) by (nonlinear_arith)
        requires b <= 0xffff_ffffu32;
    if a < b {
        assert(a * 0x0100_0000 + 0x0100_0000 <= b * 0x0100_0000) by (nonlinear_arith)
            requires a < b;
    } else {
        assert(b * 0x0100_0000 + 0x0100_0000 <= a * 0x0100_0000) by (nonlinear_arith)
            requires b < a;
    }
}

/// Whether the used process slots of `v` have address spaces laid out by
/// their own ids, ids below `next_asid`, and no id twice: live processes
/// then never share memory (see `lemma_live_processes_disjoint`).
pub open spec fn isolated(v: RuntimeView) -> bool {
    &&& forall|i: int| 0 <= i < v.processes.len() && (#[trigger] v.processes[i]).used ==> {
        &&& v.processes[i].aspace.asid < v.next_asid
        &&& v.processes[i].aspace == layout_for(v.processes[i].aspace.asid, v.processes[i].aspace.pml4_phys)
    }
    &&& forall|i: int, j: int| 0 <= i < v.processes.len() && 0 <= j < v.processes.len() && i != j
        && (#[trigger] v.processes[i]).used && (#[trigger] v.processes[j]).used
        ==> v.processes[i].aspace.asid != v.processes[j].aspace.asid
}

/// Whether no two used context slots of `v` belong to the same process.
pub open spec fn one_context_per_pid(v: RuntimeView) -> bool {
    forall|i: int, j: int| 0 <= i < v.contexts.len() && 0 <= j < v.contexts.len() && i != j
        && (#[trigger] v.contexts[i]).used && (#[trigger] v.contexts[j]).used
        ==> v.contexts[i].pid != v.contexts[j].pid
}

/// Two live processes of an isolated runtime have disjoint spans.
pub proof fn lemma_live_processes_disjoint(v: RuntimeView, i: int, j: int)
    requires
        isolated(v),
        0 <= i < v.processes.len(),
        0 <= j < v.processes.len(),
        i != j,
        v.processes[i].used,
        v.processes[j].used,
    ensures
        !(v.processes[i].aspace.code_base < span_end(v.processes[j].aspace)
            && v.processes[j].aspace.code_base < span_end(v.processes[i].aspace)),
{
    let a = v.processes[i].aspace;
    let b = v.processes[j].aspace;
    lemma_distinct_asids_disjoint(a.asid, b.asid, a.pml4_phys, b.pml4_phys);
}

/// Whether slot `i` is a used slot of process `pid`.
pub open spec fn proc_at(s: Seq<ProcessSlot>, pid: u32, i: int) -> bool {
    0 <= i < s.len() && s[i].used && s[i].pid == pid
}

/// The first used slot of process `pid`.
#[verifier::opaque]
pub open spec fn first_proc(s: Seq<ProcessSlot>, pid: u32) -> Option<int> {
    if exists|i: int| proc_at(s, pid, i) {
        Some(choose|i: int| proc_at(s, pid, i) && forall|j: int| 0 <= j < i ==> !proc_at(s, pid, j))
    } else {
        None
    }
}

/// The first used slot of `pid` is found.
pub proof fn lemma_first_proc(s: Seq<ProcessSlot>, pid: u32, i: int)
    requires
        proc_at(s, pid, i),
        forall|j: int| 0 <= j < i ==> !proc_at(s, pid, j),
    ensures
        first_proc(s, pid) == Some(i),
{
    reveal(first_proc);
    let c = choose|c: int| proc_at(s, pid, c) && forall|j: int| 0 <= j < c ==> !proc_at(s, pid, j);
    assert(proc_at(s, pid, c) && forall|j: int| 0 <= j < c ==> !proc_at(s, pid, j));
    if c < i {
        assert(!proc_at(s, pid, c));
    } else if c > i {
        assert(!proc_at(s, pid, i));
    }
}

/// The slot `first_proc` finds is a used slot of the process.
pub proof fn lemma_first_proc_found(s: Seq<ProcessSlot>, pid: u32)
    ensures
        first_proc(s, pid) matches Some(i) ==> proc_at(s, pid, i),
{
    reveal(first_proc);
    if exists|i: int| proc_at(s, pid, i) {
        let w = choose|i: int| proc_at(s, pid, i);
        lemma_least_proc(s, pid, w);
    }
}

proof fn lemma_least_proc(s: Seq<ProcessSlot>, pid: u32, w: int)
    requires
        proc_at(s, pid, w),
    ensures
        exists|i: int| proc_at(s, pid, i) && forall|j: int| 0 <= j < i ==> !proc_at(s, pid, j),
    decreases w,
{
    if exists|j: int| 0 <= j < w && proc_at(s, pid, j) {
        let j = choose|j: int| 0 <= j < w && proc_at(s, pid, j);
        lemma_least_proc(s, pid, j);
    } else {
        assert(forall|j: int| 0 <= j < w ==> !proc_at(s, pid, j));
    }
}

/// Whether slot `i` is a used context slot of process `pid`.
pub open spec fn ctx_at(s: Seq<ContextSlot>, pid: u32, i: int) -> bool {
    0 <= i < s.len() && s[i].used && s[i].pid == pid
}

/// The first used context slot of process `pid`.
#[verifier::opaque]
pub open spec fn first_ctx(s: Seq<ContextSlot>, pid: u32) -> Option<int> {
    if exists|i: int| ctx_at(s, pid, i) {
        Some(choose|i: int| ctx_at(s, pid, i) && forall|j: int| 0 <= j < i ==> !ctx_at(s, pid, j))
    } else {
        None
    }
}

proof fn lemma_first_ctx(s: Seq<ContextSlot>, pid: u32, i: int)
    requires
        ctx_at(s, pid, i),
        forall|j: int| 0 <= j < i ==> !ctx_at(s, pid, j),
    ensures
        first_ctx(s, pid) == Some(i),
{
    reveal(first_ctx);
    let c = choose|c: int| ctx_at(s, pid, c) && forall|j: int| 0 <= j < c ==> !ctx_at(s, pid, j);
    assert(ctx_at(s, pid, c) && forall|j: int| 0 <= j < c ==> !ctx_at(s, pid, j));
    if c < i {
        assert(!ctx_at(s, pid, c));
    } else if c > i {
        assert(!ctx_at(s, pid, i));
    }
}

/// The first unused process slot.
pub open spec fn first_free_proc(s: Seq<ProcessSlot>) -> Option<int> {
    if exists|i: int| 0 <= i < s.len() && !s[i].used {
        Some(choose|i: int| 0 <= i < s.len() && !s[i].used && forall|j: int| 0 <= j < i ==> s[j].used)
    } else {
        None
    }
}

proof fn lemma_least_free_proc(s: Seq<ProcessSlot>, w: int)
    requires
        0 <= w < s.len(),
        !s[w].used,
    ensures
        exists|i: int| 0 <= i < s.len() && !s[i].used && forall|j: int| 0 <= j < i ==> s[j].used,
    decreases w,
{
    if exists|j: int| 0 <= j < w && !s[j].used {
        let j = choose|j: int| 0 <= j < w && !s[j].used;
        lemma_least_free_proc(s, j);
    } else {
        assert(forall|j: int| 0 <= j < w ==> s[j].used);
    }
}

/// The slot `first_free_proc` picks is in range and unused, and every slot
/// before it is in use.
pub proof fn lemma_first_free_proc(s: Seq<ProcessSlot>)
    ensures
        first_free_proc(s) matches Some(i) ==> 0 <= i < s.len() && !s[i].used
            && forall|j: int| 0 <= j < i ==> s[j].used,
{
    if exists|i: int| 0 <= i < s.len() && !s[i].used {
        let w = choose|i: int| 0 <= i < s.len() && !s[i].used;
        lemma_least_free_proc(s, w);
    }
}

/// The first unused context slot.
pub open spec fn first_free_ctx(s: Seq<ContextSlot>) -> Option<int> {
    if exists|i: int| 0 <= i < s.len() && !s[i].used {
        Some(choose|i: int| 0 <= i < s.len() && !s[i].used && forall|j: int| 0 <= j < i ==> s[j].used)
    } else {
        None
    }
}

/// A counter step that saturates at the top.
pub open spec fn sat_inc32(x: u32) -> u32 {
    if x == u32::MAX { x } else { (x + 1) as u32 }
}

/// The abstract state of a runtime.
pub struct RuntimeView {
    pub next_pid: u32,
    pub next_asid: u32,
    pub next_pml4_phys: u64,
    pub processes: Seq<ProcessSlot>,
    pub contexts: Seq<ContextSlot>,
    pub current_pid: Option<u32>,
}

/// Process slots, context slots and the current process, for `P` processes
/// and `C` contexts.
pub struct IsolationRuntime<const P: usize, const C: usize> {
    next_pid: u32,
    next_asid: u32,
    next_pml4_phys: u64,
    processes: [ProcessSlot; P],
    contexts: [ContextSlot; C],
    current_pid: Option<u32>,
}

impl<const P: usize, const C: usize> View for IsolationRuntime<P, C> {
    type V = RuntimeView;

    closed spec fn view(&self) -> RuntimeView {
        RuntimeView {
            next_pid: self.next_pid,
            next_asid: self.next_asid,
            next_pml4_phys: self.next_pml4_phys,
            processes: self.processes@,
            contexts: self.contexts@,
            current_pid: self.current_pid,
        }
    }
}

impl<const P: usize, const C: usize> IsolationRuntime<P, C> {
    /// Every used process slot holds the layout of its address-space id.
    #[verifier::type_invariant]
    spec fn layouts_hold(self) -> bool {
        forall|i: int| #![trigger self.processes@[i]] 0 <= i < P && self.processes@[i].used
            ==> self.processes@[i].aspace == layout_for(self.processes@[i].aspace.asid, self.processes@[i].aspace.pml4_phys)
    }

    /// A runtime with all slots free; pids and address-space ids start at 1
    /// and page-table roots at `0x1000_0000`.
    pub fn new() -> (rt: Self)
        ensures
            isolated(rt@),
            one_context_per_pid(rt@),
            rt@.next_pid == 1,
            rt@.next_asid == 1,
            rt@.next_pml4_phys == 0x1000_0000,
            rt@.processes == Seq::new(P as nat, |i: int| ProcessSlot::empty_spec()),
            rt@.contexts == Seq::new(C as nat, |i: int| ContextSlot::empty_spec()),
            rt@.current_pid is None,
    {
        let rt = IsolationRuntime {
            next_pid: 1,
            next_asid: 1,
            next_pml4_phys: 0x1000_0000,
            processes: [ProcessSlot::empty(); P],
            contexts: [ContextSlot::empty(); C],
            current_pid: None,
        };
        assert(rt@.processes =~= Seq::new(P as nat, |i: int| ProcessSlot::empty_spec()));
        assert(rt@.contexts =~= Seq::new(C as nat, |i: int| ContextSlot::empty_spec()));
        rt
    }

    fn find_proc(&self, pid: u32) -> (r: Option<usize>)
        ensures
            r matches Some(i) ==> i < P && proc_at(self@.processes, pid, i as int)
                && first_proc(self@.processes, pid) == Some(i as int),
            r is None ==> first_proc(self@.processes, pid) is None,
    {
        reveal(first_proc);
        let mut i: usize = 0;
        while i < P
            invariant
                i <= P,
                forall|j: int| 0 <= j < i ==> !proc_at(self@.processes, pid, j),
            decreases P - i,
        {
            if self.processes[i].used && self.processes[i].pid == pid {
                proof {
                    lemma_first_proc(self@.processes, pid, i as int);
                }
                return Some(i);
            }
            i = i + 1;
        }
        None
    }

    fn find_ctx(&self, pid: u32) -> (r: Option<usize>)
        ensures
            r matches Some(i) ==> i < C && ctx_at(self@.contexts, pid, i as int)
                && first_ctx(self@.contexts, pid) == Some(i as int),
            r is None ==> first_ctx(self@.contexts, pid) is None,
            r is None ==> forall|j: int| !ctx_at(self@.contexts, pid, j),
    {
        reveal(first_ctx);
        let mut i: usize = 0;
        while i < C
            invariant
                i <= C,
                forall|j: int| 0 <= j < i ==> !ctx_at(self@.contexts, pid, j),
            decreases C - i,
        {
            if self.contexts[i].used && self.contexts[i].pid == pid {
                proof {
                    lemma_first_ctx(self@.contexts, pid, i as int);
                }
                return Some(i);
            }
            i = i + 1;
        }
        None
    }

    /// Takes the first free process slot for a new process with the next
    /// pid, address-space id and page-table root (each counter saturates).
    pub fn spawn_process(&mut self) -> (r: Result<ProcessHandle, IsolationError>)
        ensures
            isolated(old(self)@) && old(self)@.next_asid < u32::MAX ==> isolated(final(self)@),
            one_context_per_pid(old(self)@) ==> one_context_per_pid(final(self)@),
            match first_free_proc(old(self)@.processes) {
                None => r == Err::<ProcessHandle, IsolationError>(IsolationError::NoSlots) && final(self)@ == old(self)@,
                Some(idx) => {
                    &&& r == Ok::<ProcessHandle, IsolationError>(ProcessHandle { pid: old(self)@.next_pid })
                    &&& final(self)@ == (RuntimeView {
                        next_pid: sat_inc32(old(self)@.next_pid),
                        next_asid: sat_inc32(old(self)@.next_asid),
                        next_pml4_phys: if old(self)@.next_pml4_phys > u64::MAX - 0x1000 {
                            u64::MAX
                        } else {
                            (old(self)@.next_pml4_phys + 0x1000) as u64
                        },
                        processes: old(self)@.processes.update(idx, ProcessSlot {
                            used: true,
                            pid: old(self)@.next_pid,
                            state: ProcessState::Spawned,
                            aspace: layout_for(old(self)@.next_asid, old(self)@.next_pml4_phys),
                            executable: None,
                        }),
                        ..old(self)@
                    })
                },
            },
    {
        proof {
            use_type_invariant(&*self);
        }
        let mut idx: usize = 0;
        while idx < P
            invariant
                idx <= P,
                forall|j: int| 0 <= j < idx ==> self.processes@[j].used,
            ensures
                idx <= P,
                forall|j: int| 0 <= j < idx ==> self.processes@[j].used,
                idx < P ==> !self.processes@[idx as int].used,
            decreases P - idx,
        {
            if !self.processes[idx].used {
                break;
            }
            idx = idx + 1;
        }
        if idx == P {
            return Err(IsolationError::NoSlots);
        }
        proof {
            let c = choose|i: int| 0 <= i < P && !self@.processes[i].used && forall|j: int| 0 <= j < i ==> self@.processes[j].used;
            assert(0 <= idx < P && !self@.processes[idx as int].used);
            if c < idx {
                assert(self@.processes[c].used);
            } else if c > idx {
                assert(self@.processes[idx as int].used);
            }
        }
        let pid = self.next_pid;
        self.next_pid = self.next_pid.saturating_add(1);
        let asid = self.next_asid;
        self.next_asid = self.next_asid.saturating_add(1);
        let pml4_phys = self.next_pml4_phys;
        self.next_pml4_phys = self.next_pml4_phys.saturating_add(0x1000);
        let base: u64 = 0x4000_0000u64 + (asid as u64) * 0x0100_0000u64;
        self.processes[idx] = ProcessSlot {
            used: true,
            pid,
            state: ProcessState::Spawned,
            aspace: AddressSpace {
                asid,
                code_base: base,
                data_base: base + 0x0020_0000,
                stack_base: base + 0x00F0_0000,
                span_bytes: 0x0100_0000,
                pml4_phys,
            },
            executable: None,
        };
        Ok(ProcessHandle { pid })
    }

    /// Parses `image`'s header and attaches it to the process, which becomes
    /// ready.
    pub fn load_executable(&mut self, handle: ProcessHandle, image: &[u8]) -> (r: Result<(), IsolationError>)
        ensures
            isolated(old(self)@) ==> isolated(final(self)@),
            one_context_per_pid(old(self)@) ==> one_context_per_pid(final(self)@),
            match header_spec(image@) {
                None => r == Err::<(), IsolationError>(IsolationError::BadExecutable) && final(self)@ == old(self)@,
                Some(h) => match first_proc(old(self)@.processes, handle.pid) {
                    None => r == Err::<(), IsolationError>(IsolationError::UnknownProcess) && final(self)@ == old(self)@,
                    Some(i) => r == Ok::<(), IsolationError>(()) && final(self)@ == (RuntimeView {
                        processes: old(self)@.processes.update(i, ProcessSlot {
                            executable: Some(h),
                            state: ProcessState::Ready,
                            ..old(self)@.processes[i]
                        }),
                        ..old(self)@
                    }),
                },
            },
    {
        proof {
            use_type_invariant(&*self);
        }
        let header = match parse_executable_header(image) {
            Ok(h) => h,
            Err(e) => return Err(e),
        };
        let idx = match self.find_proc(handle.pid) {
            Some(i) => i,
            None => return Err(IsolationError::UnknownProcess),
        };
        let mut slot = self.processes[idx];
        slot.executable = Some(header);
        slot.state = ProcessState::Ready;
        self.processes[idx] = slot;
        assert(self@.processes =~= old(self)@.processes.update(idx as int, slot));
        Ok(())
    }

    /// The user-mode context for the process's loaded image: entry at
    /// `code_base + entry_offset`, stack top at `stack_base + 0xFF000`.
    pub fn build_context(&self, handle: ProcessHandle) -> (r: Result<CpuContext, IsolationError>)
        ensures
            match first_proc(self@.processes, handle.pid) {
                None => r == Err::<CpuContext, IsolationError>(IsolationError::UnknownProcess),
                Some(i) => match self@.processes[i].executable {
                    None => r == Err::<CpuContext, IsolationError>(IsolationError::BadState),
                    Some(h) => r == Ok::<CpuContext, IsolationError>(CpuContext {
                        rip: (self@.processes[i].aspace.code_base + h.entry_offset) as u64,
                        rsp: (self@.processes[i].aspace.stack_base + 0x000F_F000) as u64,
                        rflags: 0x202,
                        cr3: self@.processes[i].aspace.pml4_phys,
                    }),
                },
            },
    {
        proof {
            use_type_invariant(self);
        }
        let idx = match self.find_proc(handle.pid) {
            Some(i) => i,
            None => return Err(IsolationError::UnknownProcess),
        };
        let proc = self.processes[idx];
        let exec = match proc.executable {
            Some(e) => e,
            None => return Err(IsolationError::BadState),
        };
        assert(proc.aspace.code_base <= 0x4000_0000 + 0xffff_ffff * 0x0100_0000) by (nonlinear_arith)
            requires
                proc.aspace == layout_for(proc.aspace.asid, proc.aspace.pml4_phys),
                proc.aspace.asid <= 0xffff_ffffu32,
        {
            assert(proc.aspace.asid * 0x0100_0000 <= 0xffff_ffff * 0x0100_0000);
        }
        let entry = proc.aspace.code_base + exec.entry_offset as u64;
        let stack_top = proc.aspace.stack_base + 0x000F_F000;
        Ok(CpuContext::user(entry, stack_top, proc.aspace.pml4_phys))
    }

    /// Stores `ctx` for the process: replaces its context when it has one,
    /// else takes the first free context slot.
    pub fn install_context_slot(&mut self, handle: ProcessHandle, ctx: CpuContext) -> (r: Result<(), IsolationError>)
        ensures
            isolated(old(self)@) ==> isolated(final(self)@),
            one_context_per_pid(old(self)@) ==> one_context_per_pid(final(self)@),
            match first_ctx(old(self)@.contexts, handle.pid) {
                Some(i) => r == Ok::<(), IsolationError>(()) && final(self)@ == (RuntimeView {
                    contexts: old(self)@.contexts.update(i, ContextSlot { ctx, ..old(self)@.contexts[i] }),
                    ..old(self)@
                }),
                None => match first_free_ctx(old(self)@.contexts) {
                    Some(i) => r == Ok::<(), IsolationError>(()) && final(self)@ == (RuntimeView {
                        contexts: old(self)@.contexts.update(i, ContextSlot { used: true, pid: handle.pid, ctx }),
                        ..old(self)@
                    }),
                    None => r == Err::<(), IsolationError>(IsolationError::NoSlots) && final(self)@ == old(self)@,
                },
            },
    {
        proof {
            use_type_invariant(&*self);
        }
        match self.find_ctx(handle.pid) {
            Some(i) => {
                let mut slot = self.contexts[i];
                slot.ctx = ctx;
                self.contexts[i] = slot;
                assert(self@.contexts =~= old(self)@.contexts.update(i as int, slot));
                return Ok(());
            },
            None => {},
        }
        let mut idx: usize = 0;
        while idx < C
            invariant
                idx <= C,
                forall|j: int| 0 <= j < idx ==> self.contexts@[j].used,
            ensures
                idx <= C,
                forall|j: int| 0 <= j < idx ==> self.contexts@[j].used,
                idx < C ==> !self.contexts@[idx as int].used,
            decreases C - idx,
        {
            if !self.contexts[idx].used {
                break;
            }
            idx = idx + 1;
        }
        if idx == C {
            return Err(IsolationError::NoSlots);
        }
        proof {
            let c = choose|i: int| 0 <= i < C && !self@.contexts[i].used && forall|j: int| 0 <= j < i ==> self@.contexts[j].used;
            assert(0 <= idx < C && !self@.contexts[idx as int].used);
            if c < idx {
                assert(self@.contexts[c].used);
            } else if c > idx {
                assert(self@.contexts[idx as int].used);
            }
        }
        self.contexts[idx] = ContextSlot { used: true, pid: handle.pid, ctx };
        assert(self@.contexts =~= old(self)@.contexts.update(idx as int, ContextSlot { used: true, pid: handle.pid, ctx }));
        proof {
            if one_context_per_pid(old(self)@) {
                let cs = self@.contexts;
                let oc = old(self)@.contexts;
                assert forall|i: int, j: int| 0 <= i < cs.len() && 0 <= j < cs.len() && i != j
                    && (#[trigger] cs[i]).used && (#[trigger] cs[j]).used implies cs[i].pid != cs[j].pid by {
                    if i == idx {
                        assert(!ctx_at(oc, handle.pid, j));
                        assert(cs[j] == oc[j]);
                    } else if j == idx {
                        assert(!ctx_at(oc, handle.pid, i));
                        assert(cs[i] == oc[i]);
                    } else {
                        assert(cs[i] == oc[i] && cs[j] == oc[j]);
                        assert(oc[i].used && oc[j].used);
                    }
                }
            }
        }
        Ok(())
    }

    /// Switches to the process: it must be ready or running and have a
    /// context, which `vm` loads. The previously current process, if still
    /// running, becomes ready; the process becomes the running, current one.
    pub fn switch_to<V: VmContextOps>(&mut self, handle: ProcessHandle, vm: &V) -> (r: Result<(), IsolationError>)
        ensures
            isolated(old(self)@) ==> isolated(final(self)@),
            one_context_per_pid(old(self)@) ==> one_context_per_pid(final(self)@),
            match first_proc(old(self)@.processes, handle.pid) {
                None => r == Err::<(), IsolationError>(IsolationError::UnknownProcess) && final(self)@ == old(self)@,
                Some(i) => {
                    let st = old(self)@.processes[i].state;
                    if !(st == ProcessState::Ready || st == ProcessState::Running) {
                        r == Err::<(), IsolationError>(IsolationError::BadState) && final(self)@ == old(self)@
                    } else if first_ctx(old(self)@.contexts, handle.pid) is None {
                        r == Err::<(), IsolationError>(IsolationError::BadContext) && final(self)@ == old(self)@
                    } else {
                        &&& (vm.install_outcome(old(self)@.contexts[first_ctx(old(self)@.contexts, handle.pid)->0].ctx) matches Some(o)
                            ==> (o is Ok ==> r is Ok) && (o matches Err(e) ==> r == Err::<(), IsolationError>(e)))
                        &&& match r {
                            Err(_) => final(self)@ == old(self)@,
                            Ok(()) => {
                                let demoted = match old(self)@.current_pid {
                                    Some(prev) => match first_proc(old(self)@.processes, prev) {
                                        Some(k) => if old(self)@.processes[k].state == ProcessState::Running {
                                            old(self)@.processes.update(k, ProcessSlot { state: ProcessState::Ready, ..old(self)@.processes[k] })
                                        } else {
                                            old(self)@.processes
                                        },
                                        None => old(self)@.processes,
                                    },
                                    None => old(self)@.processes,
                                };
                                final(self)@ == (RuntimeView {
                                    processes: demoted.update(i, ProcessSlot { state: ProcessState::Running, ..demoted[i] }),
                                    current_pid: Some(handle.pid),
                                    ..old(self)@
                                })
                            },
                        }
                    }
                },
            },
    {
        proof {
            use_type_invariant(&*self);
        }
        let idx = match self.find_proc(handle.pid) {
            Some(i) => i,
            None => return Err(IsolationError::UnknownProcess),
        };
        match self.processes[idx].state {
            ProcessState::Ready | ProcessState::Running => {},
            _ => return Err(IsolationError::BadState),
        }
        let ci = match self.find_ctx(handle.pid) {
            Some(i) => i,
            None => return Err(IsolationError::BadContext),
        };
        let ctx = self.contexts[ci].ctx;
        assert(ctx == old(self)@.contexts[first_ctx(old(self)@.contexts, handle.pid)->0].ctx);
        let installed = vm.install_context(&ctx);
        if let Err(e) = installed {
            return Err(e);
        }
        if let Some(prev) = self.current_pid {
            if let Some(prev_idx) = self.find_proc(prev) {
                if self.processes[prev_idx].state == ProcessState::Running {
                    let mut slot = self.processes[prev_idx];
                    slot.state = ProcessState::Ready;
                    self.processes[prev_idx] = slot;
                }
            }
        }
        let mut slot = self.processes[idx];
        slot.state = ProcessState::Running;
        self.processes[idx] = slot;
        self.current_pid = Some(handle.pid);
        Ok(())
    }

    /// Maps the process's code (2 MiB from `0x2000_0000`), data (13 MiB from
    /// `0x2200_0000`) and stack (1 MiB from `0x2F00_0000`) regions through
    /// `vm`, stopping at the first failure.
    pub fn map_user_layout<V: VmContextOps>(&self, handle: ProcessHandle, vm: &V) -> (r: Result<(), IsolationError>)
        ensures
            match first_proc(self@.processes, handle.pid) {
                None => r == Err::<(), IsolationError>(IsolationError::UnknownProcess),
                Some(i) => layout_outcome(*vm, self@.processes[i].aspace) matches Some(o) ==> r == o,
            },
    {
        let idx = match self.find_proc(handle.pid) {
            Some(i) => i,
            None => return Err(IsolationError::UnknownProcess),
        };
        let aspace = self.processes[idx].aspace;
        match vm.map_user_region(&aspace, aspace.code_base, 0x2000_0000, 0x0020_0000) {
            Ok(()) => {},
            Err(e) => return Err(e),
        }
        match vm.map_user_region(&aspace, aspace.data_base, 0x2200_0000, 0x00D0_0000) {
            Ok(()) => {},
            Err(e) => return Err(e),
        }
        vm.map_user_region(&aspace, aspace.stack_base, 0x2F00_0000, 0x0010_0000)
    }

    /// Sets the process's state.
    pub fn transition(&mut self, handle: ProcessHandle, new_state: ProcessState) -> (r: Result<(), IsolationError>)
        ensures
            isolated(old(self)@) ==> isolated(final(self)@),
            one_context_per_pid(old(self)@) ==> one_context_per_pid(final(self)@),
            match first_proc(old(self)@.processes, handle.pid) {
                None => r == Err::<(), IsolationError>(IsolationError::UnknownProcess) && final(self)@ == old(self)@,
                Some(i) => r == Ok::<(), IsolationError>(()) && final(self)@ == (RuntimeView {
                    processes: old(self)@.processes.update(i, ProcessSlot { state: new_state, ..old(self)@.processes[i] }),
                    ..old(self)@
                }),
            },
    {
        proof {
            use_type_invariant(&*self);
        }
        let idx = match self.find_proc(handle.pid) {
            Some(i) => i,
            None => return Err(IsolationError::UnknownProcess),
        };
        let mut slot = self.processes[idx];
        slot.state = new_state;
        self.processes[idx] = slot;
        assert(self@.processes =~= old(self)@.processes.update(idx as int, slot));
        Ok(())
    }

    /// The process's state.
    pub fn state_of(&self, handle: ProcessHandle) -> (r: Result<ProcessState, IsolationError>)
        ensures
            match first_proc(self@.processes, handle.pid) {
                None => r == Err::<ProcessState, IsolationError>(IsolationError::UnknownProcess),
                Some(i) => r == Ok::<ProcessState, IsolationError>(self@.processes[i].state),
            },
    {
        match self.find_proc(handle.pid) {
            Some(i) => Ok(self.processes[i].state),
            None => Err(IsolationError::UnknownProcess),
        }
    }

    /// The process's address space.
    pub fn address_space_of(&self, handle: ProcessHandle) -> (r: Result<AddressSpace, IsolationError>)
        ensures
            match first_proc(self@.processes, handle.pid) {
                None => r == Err::<AddressSpace, IsolationError>(IsolationError::UnknownProcess),
                Some(i) => r == Ok::<AddressSpace, IsolationError>(self@.processes[i].aspace),
            },
    {
        match self.find_proc(handle.pid) {
            Some(i) => Ok(self.processes[i].aspace),
            None => Err(IsolationError::UnknownProcess),
        }
    }

    /// Frees every context slot of the process, then its process slot; it
    /// stops being current.
    pub fn terminate(&mut self, handle: ProcessHandle) -> (r: Result<(), IsolationError>)
        ensures
            isolated(old(self)@) ==> isolated(final(self)@),
            one_context_per_pid(old(self)@) ==> one_context_per_pid(final(self)@),
            final(self)@.contexts == Seq::new(C as nat, |j: int|
                if ctx_at(old(self)@.contexts, handle.pid, j) { ContextSlot::empty_spec() } else { old(self)@.contexts[j] }),
            final(self)@.next_pid == old(self)@.next_pid,
            final(self)@.next_asid == old(self)@.next_asid,
            final(self)@.next_pml4_phys == old(self)@.next_pml4_phys,
            match first_proc(old(self)@.processes, handle.pid) {
                None => r == Err::<(), IsolationError>(IsolationError::UnknownProcess)
                    && final(self)@.processes == old(self)@.processes
                    && final(self)@.current_pid == old(self)@.current_pid,
                Some(i) => r == Ok::<(), IsolationError>(())
                    && final(self)@.processes == old(self)@.processes.update(i, ProcessSlot::empty_spec())
                    && final(self)@.current_pid == (if old(self)@.current_pid == Some(handle.pid) {
                        None
                    } else {
                        old(self)@.current_pid
                    }),
            },
    {
        proof {
            use_type_invariant(&*self);
        }
        let mut k: usize = 0;
        while k < C
            invariant
                k <= C,
                self@.processes == old(self)@.processes,
                self@.current_pid == old(self)@.current_pid,
                self@.next_pid == old(self)@.next_pid,
                self@.next_asid == old(self)@.next_asid,
                self@.next_pml4_phys == old(self)@.next_pml4_phys,
                forall|j: int| 0 <= j < k ==> self@.contexts[j]
                    == (if ctx_at(old(self)@.contexts, handle.pid, j) { ContextSlot::empty_spec() } else { old(self)@.contexts[j] }),
                forall|j: int| k <= j < C ==> self@.contexts[j] == old(self)@.contexts[j],
            decreases C - k,
        {
            proof {
                use_type_invariant(&*self);
            }
            if self.contexts[k].used && self.contexts[k].pid == handle.pid {
                self.contexts[k] = ContextSlot::empty();
            }
            assert(self@.contexts[k as int] == (if ctx_at(old(self)@.contexts, handle.pid, k as int) {
                ContextSlot::empty_spec()
            } else {
                old(self)@.contexts[k as int]
            }));
            k = k + 1;
        }
        assert(self@.contexts =~= Seq::new(C as nat, |j: int|
            if ctx_at(old(self)@.contexts, handle.pid, j) { ContextSlot::empty_spec() } else { old(self)@.contexts[j] }));
        match self.find_proc(handle.pid) {
            Some(idx) => {
                if self.current_pid == Some(handle.pid) {
                    self.current_pid = None;
                }
                self.processes[idx] = ProcessSlot::empty();
                assert(self@.processes =~= old(self)@.processes.update(idx as int, ProcessSlot::empty_spec()));
                Ok(())
            },
            None => Err(IsolationError::UnknownProcess),
        }
    }
}

impl<const P: usize, const C: usize> Default for IsolationRuntime<P, C> {
    fn default() -> (rt: Self)
        ensures
            rt@.next_pid == 1,
            rt@.processes == Seq::new(P as nat, |i: int| ProcessSlot::empty_spec()),
            rt@.contexts == Seq::new(C as nat, |i: int| ContextSlot::empty_spec()),
            rt@.current_pid is None,
    {
        Self::new()
    }
}

} // verus!
