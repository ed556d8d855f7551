//! The monitor: the services of the kernel, the requests that go to them, and what is
//! shown on the console.
use crate::arch;
use crate::arch::Platform;
use crate::fixed;
use crate::fixed::InlineString;
use crate::ipc;
use crate::ipc::{CapabilityId, EndpointId, IpcError, IpcRights, IpcTable, IpcView, Message, RequestKind};
use crate::kernel::task;
use crate::kernel::task::{Pid, SharedTaskTable, TableView, TaskError, TaskKind, TaskState};
use crate::lines;
use crate::lines::Line;
use crate::text;
use vstd::prelude::*;

pub mod api;
pub mod boot;
pub mod commands;
pub mod demos;
pub mod laws;
pub mod report;
pub mod shell;

verus! {

pub const MAX_SERVICES: usize = 8;

pub const MAX_TRACE: usize = 64;

pub const MAX_ARGS: usize = 8;

/// The services.
#[derive(Clone, Copy, Debug, PartialEq, Eq, Structural)]
pub enum Service {
    Kernel,
    Console,
    Vfs,
    Proc,
    Net,
}

impl Service {
    pub open spec fn spec_name(self) -> &'static str {
        match self {
            Service::Kernel => "kernel",
            Service::Console => "console",
            Service::Vfs => "vfs",
            Service::Proc => "proc",
            Service::Net => "net",
        }
    }

    pub fn name(self) -> (name: &'static str)
        ensures
            name == self.spec_name(),
    {
        match self {
            Service::Kernel => "kernel",
            Service::Console => "console",
            Service::Vfs => "vfs",
            Service::Proc => "proc",
            Service::Net => "net",
        }
    }
}

/// The service to which a request belongs.
pub open spec fn service_of(request: RequestKind) -> Service {
    match request {
        RequestKind::KernelListServices | RequestKind::KernelListTasks => Service::Kernel,
        RequestKind::ConsoleWrite | RequestKind::ConsolePrompt => Service::Console,
        RequestKind::VfsReadFile
        | RequestKind::VfsWriteFile
        | RequestKind::VfsListDir => Service::Vfs,
        RequestKind::NetStatus | RequestKind::NetPing => Service::Net,
        _ => Service::Proc,
    }
}

/// Whether a service takes a request.
pub fn service_accepts(service: Service, request: RequestKind) -> (accepted: bool)
    ensures
        accepted == (service_of(request) == service),
{
    match service {
        Service::Kernel => matches!(
            request,
            RequestKind::KernelListServices | RequestKind::KernelListTasks
        ),
        Service::Console => matches!(
            request,
            RequestKind::ConsoleWrite | RequestKind::ConsolePrompt
        ),
        Service::Vfs => matches!(
            request,
            RequestKind::VfsReadFile | RequestKind::VfsWriteFile | RequestKind::VfsListDir
        ),
        Service::Proc => matches!(
            request,
            RequestKind::ProcExec
                | RequestKind::ProcFork
                | RequestKind::ProcClone
                | RequestKind::ProcExit
                | RequestKind::ProcWait4
                | RequestKind::ProcSignal
                | RequestKind::ProcFutex
                | RequestKind::ProcSched
                | RequestKind::ProcAffinity
                | RequestKind::ProcWaitQueue
                | RequestKind::ProcTimer
        ),
        Service::Net => matches!(request, RequestKind::NetStatus | RequestKind::NetPing),
    }
}

/// A capability that a task used before.
#[derive(Clone, Copy, Debug, PartialEq, Eq, Structural)]
pub struct CachedCapability {
    pub pid: Pid,
    pub capability: CapabilityId,
}

/// A service that runs: its endpoint, the capability of its owner, and its task.
#[derive(Clone, Copy, Debug, PartialEq, Eq, Structural)]
pub struct ServiceEntry {
    pub name: Service,
    pub endpoint: EndpointId,
    pub owner_capability: CapabilityId,
    pub pid: Pid,
}

/// The last requests, the oldest first.
pub struct Trace {
    lines: Vec<InlineString<96>>,
    head: usize,
}

/// The place at which the lines start.
spec fn trace_start(count: int, head: int) -> int {
    if count < 64 {
        0
    } else {
        head
    }
}

impl View for Trace {
    type V = Seq<Seq<u8>>;

    closed spec fn view(&self) -> Seq<Seq<u8>> {
        Seq::new(
            self.lines@.len(),
            |i: int|
                self.lines@[(trace_start(self.lines@.len() as int, self.head as int) + i) % 64]@,
        )
    }
}

/// The requests after one more; the oldest leaves if there are too many.
pub open spec fn traced(trace: Seq<Seq<u8>>, line: Seq<u8>) -> Seq<Seq<u8>> {
    if trace.len() < 64 {
        trace.push(line)
    } else {
        trace.drop_first().push(line)
    }
}

impl Trace {
    pub closed spec fn wf(&self) -> bool {
        &&& self.lines@.len() <= 64
        &&& self.head < 64
        &&& self.lines@.len() < 64 ==> self.head == self.lines@.len()
    }

    pub fn new() -> (trace: Self)
        ensures
            trace.wf(),
            trace@ == Seq::<Seq<u8>>::empty(),
    {
        let trace = Trace { lines: Vec::new(), head: 0 };
        assert(trace@ =~= Seq::<Seq<u8>>::empty());
        trace
    }

    pub fn len(&self) -> (count: usize)
        requires
            self.wf(),
        ensures
            count == self@.len(),
            count <= 64,
    {
        self.lines.len()
    }

    /// Line `index`, counted from the oldest.
    pub fn line(&self, index: usize) -> (line: &InlineString<96>)
        requires
            self.wf(),
            index < self@.len(),
        ensures
            line@ == self@[index as int],
    {
        let start: usize = if self.lines.len() < MAX_TRACE {
            0
        } else {
            self.head
        };
        &self.lines[(start + index) % MAX_TRACE]
    }

    pub fn push(&mut self, line: InlineString<96>)
        requires
            old(self).wf(),
        ensures
            final(self).wf(),
            final(self)@ == traced(old(self)@, line@),
    {
        if self.lines.len() < MAX_TRACE {
            self.lines.push(line);
        } else {
            self.lines.set(self.head, line);
        }
        self.head = (self.head + 1) % MAX_TRACE;
        assert(self@ =~= traced(old(self)@, line@));
    }
}

/// What the kernel found of itself at the start.
#[derive(Clone, Copy, Debug, PartialEq, Eq, Structural)]
pub struct Checks {
    pub task_lifecycle: bool,
    pub ipc: bool,
    pub vfs_namespace: bool,
}

/// The machine under the kernel.
#[derive(Clone, Copy, Debug, PartialEq, Eq, Structural)]
pub struct Machine {
    pub platform: Platform,
    pub online_cpus: usize,
}

/// The kernel with its monitor.
pub struct Kernel {
    shell_pid: Pid,
    tasks: SharedTaskTable,
    services: Vec<ServiceEntry>,
    table: IpcTable,
    client_capabilities: Vec<Option<CachedCapability>>,
    trace: Trace,
    output: Vec<u8>,
    machine: Machine,
    checks: Checks,
}

/// The kernel: its shell, its tasks, the services that run, the messages, the capabilities
/// that were used before, the last requests, and all that was shown on the console.
#[verifier::ext_equal]
pub struct KernelView {
    pub shell_pid: Pid,
    pub tasks: TableView,
    pub services: Seq<ServiceEntry>,
    pub table: IpcView,
    pub client_capabilities: Seq<Option<CachedCapability>>,
    pub trace: Seq<Seq<u8>>,
    pub output: Seq<u8>,
    pub machine: Machine,
    pub checks: Checks,
}

impl View for Kernel {
    type V = KernelView;

    closed spec fn view(&self) -> KernelView {
        KernelView {
            shell_pid: self.shell_pid,
            tasks: self.tasks@,
            services: self.services@,
            table: self.table@,
            client_capabilities: self.client_capabilities@,
            trace: self.trace@,
            output: self.output@,
            machine: self.machine,
            checks: self.checks,
        }
    }
}

impl KernelView {
    /// A kernel that has not started.
    pub open spec fn fresh(machine: Machine) -> Self {
        KernelView {
            shell_pid: 0,
            tasks: TableView::empty(),
            services: Seq::empty(),
            table: IpcView::empty(),
            client_capabilities: Seq::new(256, |i: int| None),
            trace: Seq::empty(),
            output: Seq::empty(),
            machine,
            checks: Checks { task_lifecycle: false, ipc: false, vfs_namespace: false },
        }
    }

    /// The tables have their sizes.
    pub open spec fn sized(self) -> bool {
        &&& self.services.len() <= 8
        &&& self.client_capabilities.len() == 256
    }

    /// The kernel with other tasks.
    pub open spec fn with_tasks(self, tasks: TableView) -> Self {
        KernelView { tasks, ..self }
    }
}

/// The first service from `from` on of that name, or the number of services.
pub open spec fn service_from(services: Seq<ServiceEntry>, name: Service, from: int) -> int
    decreases services.len() - from,
{
    if from >= services.len() || from < 0 {
        services.len() as int
    } else if services[from].name == name {
        from
    } else {
        service_from(services, name, from + 1)
    }
}

/// The capability that a task used before for a service.
pub open spec fn remembered(slot: Option<CachedCapability>, caller: Pid) -> Option<CapabilityId> {
    match slot {
        Some(entry) => if entry.pid == caller {
            Some(entry.capability)
        } else {
            None
        },
        None => None,
    }
}

/// The capability with which `caller` sends to a service: the one that it used before, or
/// one that it holds, or a new one; before a new one is granted, those of tasks that have
/// exited go.
#[verifier::opaque]
pub open spec fn admitted(view: KernelView, caller: Pid, index: int) -> (
    IpcView,
    Result<CapabilityId, IpcError>,
) {
    let service = view.services[index];
    match remembered(view.client_capabilities[index * 32 + caller % 32], caller) {
        Some(capability) => (view.table, Ok(capability)),
        None => match ipc::capability_found(
            view.table,
            caller,
            service.endpoint,
            IpcRights::Send,
        ) {
            Some(capability) => (view.table, Ok(capability)),
            None => ipc::granted(
                ipc::retained(view.table, |pid: u32| view.tasks.live(pid)),
                service.pid,
                service.owner_capability,
                caller,
                IpcRights::Send,
            ),
        },
    }
}

/// A message on its way to a service: sent by `caller`, and taken by the service at once.
#[verifier::opaque]
pub open spec fn exchanged(
    table: IpcView,
    caller: Pid,
    capability: CapabilityId,
    service: ServiceEntry,
    request: RequestKind,
    payload: Seq<u8>,
) -> (IpcView, Result<(), IpcError>) {
    if payload.len() > ipc::MAX_PAYLOAD_BYTES {
        (table, Err(IpcError::PayloadTooLarge))
    } else {
        let (sent, id) = ipc::sent(
            table,
            caller,
            capability,
            Message::spec_new(request, payload),
        );
        match id {
            Err(error) => (sent, Err(error)),
            Ok(id) => {
                let (taken, envelope) = ipc::taken(sent, service.pid, service.owner_capability);
                match envelope {
                    Err(error) => (taken, Err(error)),
                    Ok(envelope) => if envelope.id != id || envelope.sender != caller
                        || envelope.message@.opcode != request.spec_opcode()
                        || envelope.message@.payload != payload {
                        (taken, Err(IpcError::ProtocolViolation))
                    } else {
                        (taken, Ok(()))
                    },
                }
            },
        }
    }
}

/// A request of `caller` to a service.
#[verifier::opaque]
pub open spec fn routed(
    view: KernelView,
    caller: Pid,
    name: Service,
    request: RequestKind,
    payload: Seq<u8>,
) -> (KernelView, Result<(), IpcError>) {
    let index = service_from(view.services, name, 0);
    if index >= view.services.len() {
        (view, Err(IpcError::InvalidEndpoint))
    } else if service_of(request) != name {
        (view, Err(IpcError::ProtocolViolation))
    } else {
        let (table, capability) = admitted(view, caller, index);
        match capability {
            Err(error) => (KernelView { table, ..view }, Err(error)),
            Ok(capability) => {
                let (after, result) = exchanged(
                    table,
                    caller,
                    capability,
                    view.services[index],
                    request,
                    payload,
                );
                (
                    KernelView {
                        table: after,
                        client_capabilities: view.client_capabilities.update(
                            index * 32 + caller % 32,
                            Some(CachedCapability { pid: caller, capability }),
                        ),
                        ..view
                    },
                    result,
                )
            },
        }
    }
}

/// What the trace says of a request.
pub open spec fn trace_line(
    caller: Pid,
    name: Service,
    request: RequestKind,
    detail: Option<Seq<u8>>,
    result: Result<(), IpcError>,
) -> Seq<u8> {
    let head = lines::none().push(text::literal("pid=")).push(
        fixed::decimal(caller as nat),
    ).push(text::literal(" -> ")).push(text::literal(name.spec_name()));
    match result {
        Err(error) => lines::filled(
            head.push(text::literal(": denied (")).push(text::utf8(ipc::error_text(error))).push(
                text::literal(")"),
            ),
            96,
        ),
        Ok(_) => {
            let line = lines::filled(
                head.push(text::literal(": ")).push(text::utf8(request.spec_name())).push(
                    text::literal("["),
                ).push(fixed::decimal(request.spec_opcode() as nat)).push(text::literal("]")),
                96,
            );
            match detail {
                Some(detail) => fixed::written(
                    line,
                    lines::none().push(text::literal(" ")).push(detail),
                    96,
                ),
                None => line,
            }
        },
    }
}

/// A request of `caller` to a service, with what the trace keeps of it, and whether it went
/// through.
#[verifier::opaque]
pub open spec fn logged(
    view: KernelView,
    caller: Pid,
    name: Service,
    request: RequestKind,
    detail: Option<Seq<u8>>,
) -> (KernelView, bool) {
    let payload = match detail {
        Some(detail) => detail,
        None => Seq::empty(),
    };
    let (after, result) = routed(view, caller, name, request, payload);
    (
        if view.machine.platform.info().ipc_trace_supported {
            KernelView {
                trace: traced(after.trace, trace_line(caller, name, request, detail, result)),
                ..after
            }
        } else {
            after
        },
        result is Ok,
    )
}

/// Text of a task on the console, if the console takes it.
#[verifier::opaque]
pub open spec fn shown(view: KernelView, caller: Pid, bytes: Seq<u8>) -> KernelView {
    let (after, accepted) = logged(view, caller, Service::Console, RequestKind::ConsoleWrite, None);
    if accepted {
        KernelView { output: after.output + bytes, ..after }
    } else {
        after
    }
}

/// A line of the shell on the console.
pub open spec fn lined(view: KernelView, bytes: Seq<u8>) -> KernelView {
    shown(view, view.shell_pid, bytes.push(10))
}

/// A line of a text that stands in the source.
pub open spec fn said(view: KernelView, text: &str) -> KernelView {
    lined(view, text::literal(text))
}

/// A line of what a buffer holds of pieces.
pub open spec fn told(view: KernelView, pieces: Seq<Seq<u8>>, capacity: nat) -> KernelView {
    lined(view, lines::filled(pieces, capacity))
}

/// A line with what went wrong.
pub open spec fn failed(view: KernelView, error: TaskError) -> KernelView {
    lined(view, text::utf8(task::error_text(error)))
}

/// A line that no service sees.
pub open spec fn raw_lined(view: KernelView, bytes: Seq<u8>) -> KernelView {
    KernelView { output: view.output + bytes.push(10), ..view }
}

/// A task in a state; where that cannot be, nothing changes.
#[verifier::opaque]
pub open spec fn put(view: KernelView, pid: Pid, state: TaskState) -> KernelView {
    view.with_tasks(task::state_set(view.tasks, pid, state).0)
}

/// Tasks spread over the processors.
#[verifier::opaque]
pub open spec fn spread(view: KernelView) -> (KernelView, Result<usize, TaskError>) {
    let (tasks, result) = task::rebalanced(view.tasks, view.machine.online_cpus);
    (view.with_tasks(tasks), result)
}

/// A new task, with the tasks spread over the processors.
#[verifier::opaque]
pub open spec fn started(
    view: KernelView,
    parent: Option<Pid>,
    name: &'static str,
    kind: TaskKind,
) -> (KernelView, Result<Pid, TaskError>) {
    let (tasks, result) = task::spawned(
        view.tasks,
        parent,
        name,
        kind,
        task::TaskRelation::Fork,
    );
    match result {
        Ok(pid) => (spread(view.with_tasks(tasks)).0, Ok(pid)),
        Err(error) => (view.with_tasks(tasks), Err(error)),
    }
}

/// Why a service cannot be registered.
#[derive(Clone, Copy, Debug, PartialEq, Eq, Structural)]
pub enum RegisterError {
    Full,
    Task(TaskError),
    Ipc(IpcError),
}

/// The text that describes an error.
pub open spec fn register_text(error: RegisterError) -> Seq<char> {
    match error {
        RegisterError::Full => "error: service table is full"@,
        RegisterError::Task(error) => task::error_text(error),
        RegisterError::Ipc(error) => ipc::error_text(error),
    }
}

impl RegisterError {
    pub fn message(self) -> (text: &'static str)
        ensures
            text@ == register_text(self),
    {
        match self {
            RegisterError::Full => "error: service table is full",
            RegisterError::Task(error) => error.message(),
            RegisterError::Ipc(error) => error.message(),
        }
    }
}

/// A service with an endpoint of a task.
pub open spec fn endpoint_registered(view: KernelView, owner: Pid, name: Service) -> (
    KernelView,
    Result<(), RegisterError>,
) {
    if view.services.len() >= 8 {
        (view, Err(RegisterError::Full))
    } else {
        let (table, ids) = ipc::created(view.table, owner);
        match ids {
            Err(error) => (KernelView { table, ..view }, Err(RegisterError::Ipc(error))),
            Ok(ids) => {
                let entry = ServiceEntry {
                    name,
                    endpoint: ids.0,
                    owner_capability: ids.1,
                    pid: owner,
                };
                (KernelView { table, services: view.services.push(entry), ..view }, Ok(()))
            },
        }
    }
}

/// A service with a task of its own, which waits.
pub open spec fn registered(view: KernelView, parent: Pid, name: Service) -> (
    KernelView,
    Result<(), RegisterError>,
) {
    if view.services.len() >= 8 {
        (view, Err(RegisterError::Full))
    } else {
        let (with_task, result) = started(view, Some(parent), name.spec_name(), TaskKind::Service);
        match result {
            Err(error) => (with_task, Err(RegisterError::Task(error))),
            Ok(pid) => {
                let (after, result) = endpoint_registered(with_task, pid, name);
                match result {
                    Err(error) => (after, Err(error)),
                    Ok(_) => (put(after, pid, TaskState::Waiting), Ok(())),
                }
            },
        }
    }
}

impl Kernel {
    /// The tables are in order.
    pub closed spec fn wf(&self) -> bool {
        &&& self.tasks.wf()
        &&& self.table.wf()
        &&& self.trace.wf()
        &&& self@.sized()
    }

    pub fn new(machine: Machine) -> (kernel: Self)
        ensures
            kernel.wf(),
            kernel@ == KernelView::fresh(machine),
    {
        let kernel = Kernel {
            shell_pid: 0,
            tasks: SharedTaskTable::new(),
            services: Vec::new(),
            table: IpcTable::new(),
            client_capabilities: vec![None; 256],
            trace: Trace::new(),
            output: Vec::new(),
            machine,
            checks: Checks { task_lifecycle: false, ipc: false, vfs_namespace: false },
        };
        assert(kernel@ =~= KernelView::fresh(machine));
        kernel
    }

    /// Hands out what was shown since the last time.
    pub fn take_output(&mut self) -> (bytes: Vec<u8>)
        requires
            old(self).wf(),
        ensures
            final(self).wf(),
            bytes@ == old(self)@.output,
            final(self)@ == (KernelView { output: Seq::empty(), ..old(self)@ }),
    {
        let mut bytes: Vec<u8> = Vec::new();
        core::mem::swap(&mut bytes, &mut self.output);
        assert(self.output@ =~= Seq::<u8>::empty());
        bytes
    }

    fn find_service(&self, name: Service) -> (index: usize)
        ensures
            index == service_from(self@.services, name, 0),
            index <= self@.services.len(),
    {
        let mut index: usize = 0;
        while index < self.services.len()
            invariant
                index <= self.services@.len(),
                service_from(self.services@, name, 0) == service_from(
                    self.services@,
                    name,
                    index as int,
                ),
            decreases self.services@.len() - index,
        {
            if self.services[index].name == name {
                return index;
            }
            index += 1;
        }
        index
    }

    fn obtain_capability(&mut self, caller: Pid, index: usize) -> (capability: Result<CapabilityId, IpcError>)
        requires
            old(self).wf(),
            index < old(self)@.services.len(),
        ensures
            final(self).wf(),
            final(self)@ == (KernelView {
                table: admitted(old(self)@, caller, index as int).0,
                ..old(self)@
            }),
            capability == admitted(old(self)@, caller, index as int).1,
    {
        reveal(admitted);
        let service = self.services[index];
        if let Some(entry) = self.client_capabilities[index * 32 + caller as usize % 32] {
            if entry.pid == caller {
                return Ok(entry.capability);
            }
        }
        if let Some(capability) = self.table.capability_for(
            caller,
            service.endpoint,
            IpcRights::Send,
        ) {
            return Ok(capability);
        }
        let tasks = &self.tasks;
        let ghost view = self@;
        let lives = |pid: u32| -> (kept: bool)
            ensures
                kept == tasks@.live(pid),
            {
                match tasks.get_by_pid(pid) {
                    Some(task) => !matches!(task.state, TaskState::Zombie(_)),
                    None => false,
                }
            };
        self.table.retain_subjects(lives);
        proof {
            let kept = ipc::retained(view.table, |pid: u32| view.tasks.live(pid));
            assert(self.table@.capabilities =~= kept.capabilities);
            assert(self.table@.reply_tokens =~= kept.reply_tokens);
            assert(self.table@ =~= kept);
        }
        self.table.grant(service.pid, service.owner_capability, caller, IpcRights::Send)
    }

    fn exchange(
        &mut self,
        caller: Pid,
        capability: CapabilityId,
        service: ServiceEntry,
        request: RequestKind,
        payload: &[u8],
    ) -> (result: Result<(), IpcError>)
        requires
            old(self).wf(),
        ensures
            final(self).wf(),
            final(self)@ == (KernelView {
                table: exchanged(
                    old(self)@.table,
                    caller,
                    capability,
                    service,
                    request,
                    payload@,
                ).0,
                ..old(self)@
            }),
            result == exchanged(
                old(self)@.table,
                caller,
                capability,
                service,
                request,
                payload@,
            ).1,
    {
        reveal(exchanged);
        let message = match Message::new(request, payload) {
            Ok(message) => message,
            Err(error) => {
                return Err(error);
            },
        };
        let id: u64 = match self.table.send(caller, capability, message) {
            Ok(id) => id,
            Err(error) => {
                return Err(error);
            },
        };
        let envelope = match self.table.receive(service.pid, service.owner_capability) {
            Ok(envelope) => envelope,
            Err(error) => {
                return Err(error);
            },
        };
        if envelope.id != id || envelope.sender != caller || envelope.message.opcode()
            != request.opcode() || !text::equal(envelope.message.payload(), payload) {
            return Err(IpcError::ProtocolViolation);
        }
        Ok(())
    }

    /// A request of `caller` to a service.
    pub fn route_ipc(
        &mut self,
        caller: Pid,
        name: Service,
        request: RequestKind,
        payload: &[u8],
    ) -> (result: Result<(), IpcError>)
        requires
            old(self).wf(),
        ensures
            final(self).wf(),
            (final(self)@, result) == routed(old(self)@, caller, name, request, payload@),
    {
        reveal(routed);
        let index: usize = self.find_service(name);
        if index >= self.services.len() {
            return Err(IpcError::InvalidEndpoint);
        }
        if !service_accepts(name, request) {
            return Err(IpcError::ProtocolViolation);
        }
        let service = self.services[index];
        match self.obtain_capability(caller, index) {
            Err(error) => Err(error),
            Ok(capability) => {
                self.client_capabilities.set(
                    index * 32 + caller as usize % 32,
                    Some(CachedCapability { pid: caller, capability }),
                );
                self.exchange(caller, capability, service, request, payload)
            },
        }
    }

    /// A request of `caller` to a service, with what the trace keeps of it.
    pub fn log_ipc(
        &mut self,
        caller: Pid,
        name: Service,
        request: RequestKind,
        detail: Option<&[u8]>,
    ) -> (accepted: bool)
        requires
            old(self).wf(),
            detail matches Some(told) ==> vstd::utf8::valid_utf8(told@),
        ensures
            final(self).wf(),
            (final(self)@, accepted) == logged(
                old(self)@,
                caller,
                name,
                request,
                match detail {
                    Some(detail) => Some(detail@),
                    None => None,
                },
            ),
    {
        reveal(logged);
        proof {
            lemma_routed_machine(old(self)@, caller, name, request, match detail {
                Some(detail) => detail@,
                None => Seq::empty(),
            });
        }
        let empty: Vec<u8> = Vec::new();
        assert(empty@ =~= Seq::<u8>::empty());
        let result = match detail {
            Some(detail) => self.route_ipc(caller, name, request, detail),
            None => self.route_ipc(caller, name, request, empty.as_slice()),
        };
        if !arch::supports_ipc_trace(self.machine.platform) {
            return result.is_ok();
        }
        let head = Line::new().text("pid=").number(caller as u64).text(" -> ").text(name.name());
        let mut line: InlineString<96> = match result {
            Err(error) => head.text(": denied (").word(error.message()).text(")").fill(),
            Ok(_) => head.text(": ").word(request.as_str()).text("[").number(
                request.opcode() as u64,
            ).text("]").fill(),
        };
        if result.is_ok() {
            if let Some(detail) = detail {
                Line::new().text(" ").bytes(detail).append(&mut line);
            }
        }
        self.trace.push(line);
        result.is_ok()
    }

    /// Shows text of a task.
    pub(crate) fn show(&mut self, caller: Pid, bytes: &[u8])
        requires
            old(self).wf(),
        ensures
            final(self).wf(),
            final(self)@ == shown(old(self)@, caller, bytes@),
    {
        reveal(shown);
        if self.log_ipc(caller, Service::Console, RequestKind::ConsoleWrite, None) {
            self.raw_write(bytes);
        }
    }

    /// Shows a line of a task.
    pub(crate) fn show_line(&mut self, caller: Pid, bytes: &[u8])
        requires
            old(self).wf(),
        ensures
            final(self).wf(),
            final(self)@ == shown(old(self)@, caller, bytes@.push(10)),
    {
        reveal(shown);
        if self.log_ipc(caller, Service::Console, RequestKind::ConsoleWrite, None) {
            self.raw_write_line(bytes);
        }
    }

    /// Shows text, whoever asks.
    pub(crate) fn raw_write(&mut self, bytes: &[u8])
        requires
            old(self).wf(),
        ensures
            final(self).wf(),
            final(self)@ == (KernelView { output: old(self)@.output + bytes@, ..old(self)@ }),
    {
        let mut index: usize = 0;
        while index < bytes.len()
            invariant
                index <= bytes@.len(),
                self.wf(),
                self@ == (KernelView {
                    output: old(self)@.output + bytes@.take(index as int),
                    ..old(self)@
                }),
            decreases bytes@.len() - index,
        {
            let ghost before = self@.output;
            self.output.push(bytes[index]);
            index += 1;
            assert(before.push(bytes@[index - 1]) =~= old(self)@.output + bytes@.take(index as int));
        }
        assert(bytes@.take(index as int) =~= bytes@);
        assert(self@.output =~= old(self)@.output + bytes@);
    }

    /// Shows a line, whoever asks.
    pub(crate) fn raw_write_line(&mut self, bytes: &[u8])
        requires
            old(self).wf(),
        ensures
            final(self).wf(),
            final(self)@ == raw_lined(old(self)@, bytes@),
    {
        self.raw_write(bytes);
        self.output.push(10);
        assert(self@.output =~= old(self)@.output + bytes@.push(10));
    }

    /// Shows text of the shell.
    pub fn write(&mut self, text: &str)
        requires
            old(self).wf(),
        ensures
            final(self).wf(),
            final(self)@ == shown(old(self)@, old(self)@.shell_pid, text::literal(text)),
    {
        self.show(self.shell_pid, text::literal_bytes(text));
    }

    /// Shows a line of the shell.
    pub fn write_line(&mut self, text: &str)
        requires
            old(self).wf(),
        ensures
            final(self).wf(),
            final(self)@ == said(old(self)@, text),
    {
        self.show_line(self.shell_pid, text::literal_bytes(text));
    }

    pub(crate) fn write_bytes_line(&mut self, bytes: &[u8])
        requires
            old(self).wf(),
        ensures
            final(self).wf(),
            final(self)@ == lined(old(self)@, bytes@),
    {
        self.show_line(self.shell_pid, bytes);
    }

    pub(crate) fn write_filled<const N: usize>(&mut self, line: Line)
        requires
            old(self).wf(),
        ensures
            final(self).wf(),
            final(self)@ == told(old(self)@, line@, N as nat),
    {
        let buffer: InlineString<N> = line.fill();
        self.show_line(self.shell_pid, buffer.as_bytes());
    }

    pub(crate) fn write_error(&mut self, error: TaskError)
        requires
            old(self).wf(),
        ensures
            final(self).wf(),
            final(self)@ == failed(old(self)@, error),
    {
        self.show_line(self.shell_pid, text::utf8_bytes(error.message()));
    }

    pub(crate) fn set_state(&mut self, pid: Pid, state: TaskState)
        requires
            old(self).wf(),
        ensures
            final(self).wf(),
            final(self)@ == put(old(self)@, pid, state),
    {
        reveal(put);
        let _ = self.tasks.set_state(pid, state);
    }

    pub(crate) fn rebalance_tasks(&mut self) -> (result: Result<usize, TaskError>)
        requires
            old(self).wf(),
        ensures
            final(self).wf(),
            (final(self)@, result) == spread(old(self)@),
    {
        reveal(spread);
        self.tasks.rebalance(self.machine.online_cpus)
    }

    pub(crate) fn spawn_task(
        &mut self,
        parent: Option<Pid>,
        name: &'static str,
        kind: TaskKind,
    ) -> (result: Result<Pid, TaskError>)
        requires
            old(self).wf(),
        ensures
            final(self).wf(),
            (final(self)@, result) == started(old(self)@, parent, name, kind),
    {
        reveal(started);
        match self.tasks.spawn(parent, name, kind) {
            Err(error) => Err(error),
            Ok(pid) => {
                let _ = self.rebalance_tasks();
                Ok(pid)
            },
        }
    }

    /// Registers a service with an endpoint of a task.
    pub fn register_kernel_endpoint(&mut self, owner: Pid, name: Service) -> (result: Result<
        (),
        RegisterError,
    >)
        requires
            old(self).wf(),
        ensures
            final(self).wf(),
            (final(self)@, result) == endpoint_registered(old(self)@, owner, name),
    {
        if self.services.len() >= MAX_SERVICES {
            return Err(RegisterError::Full);
        }
        match self.table.create_endpoint(owner) {
            Err(error) => Err(RegisterError::Ipc(error)),
            Ok((endpoint, owner_capability)) => {
                self.services.push(ServiceEntry { name, endpoint, owner_capability, pid: owner });
                Ok(())
            },
        }
    }

    /// Registers a service with a task of its own.
    pub fn register_service(&mut self, parent: Pid, name: Service) -> (result: Result<
        (),
        RegisterError,
    >)
        requires
            old(self).wf(),
        ensures
            final(self).wf(),
            (final(self)@, result) == registered(old(self)@, parent, name),
    {
        if self.services.len() >= MAX_SERVICES {
            return Err(RegisterError::Full);
        }
        match self.spawn_task(Some(parent), name.name(), TaskKind::Service) {
            Err(error) => Err(RegisterError::Task(error)),
            Ok(pid) => match self.register_kernel_endpoint(pid, name) {
                Err(error) => Err(error),
                Ok(_) => {
                    self.set_state(pid, TaskState::Waiting);
                    Ok(())
                },
            },
        }
    }
}

/// Showing text leaves all but the messages, the trace and the output as they are.
pub proof fn lemma_shown_keeps(view: KernelView, caller: Pid, bytes: Seq<u8>)
    ensures
        ({
            let after = shown(view, caller, bytes);
            &&& after.shell_pid == view.shell_pid
            &&& after.tasks == view.tasks
            &&& after.services == view.services
            &&& after.machine == view.machine
            &&& after.checks == view.checks
        }),
{
    reveal(shown);
    reveal(logged);
    reveal(routed);
}

/// A request leaves the machine as it is.
proof fn lemma_routed_machine(
    view: KernelView,
    caller: Pid,
    name: Service,
    request: RequestKind,
    payload: Seq<u8>,
)
    ensures
        routed(view, caller, name, request, payload).0.machine == view.machine,
{
    reveal(routed);
}

} // verus!
