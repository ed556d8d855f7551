//! The commands of the shell that show what the kernel holds: services, tasks, requests and
//! the network.
use crate::apps;
use crate::arch;
use crate::c_fastpath;
use crate::fixed;
use crate::fixed::InlineString;
use crate::kernel::monitor;
use crate::kernel::monitor::{Kernel, KernelView, ServiceEntry};
use crate::kernel::task;
use crate::kernel::task::{SchedulingPolicy, Task, TaskKind, TaskState};
use crate::lines;
use crate::lines::Line;
use crate::net;
use crate::net::{NetStatus, PingReply};
use crate::text;
use vstd::prelude::*;

verus! {

/// The line on a service.
pub open spec fn service_pieces(entry: ServiceEntry) -> Seq<Seq<u8>> {
    lines::none().push(text::literal(entry.name.spec_name())).push(
        text::literal(" endpoint="),
    ).push(fixed::decimal(entry.endpoint.0 as nat)).push(text::literal(" pid=")).push(
        fixed::decimal(entry.pid as nat),
    )
}

/// A line for each of the first services.
pub open spec fn services_shown(
    view: KernelView,
    services: Seq<ServiceEntry>,
    count: nat,
) -> KernelView
    decreases count,
{
    if count == 0 {
        view
    } else {
        monitor::told(
            services_shown(view, services, (count - 1) as nat),
            service_pieces(services[count - 1]),
            96,
        )
    }
}

/// The name of a kind of task.
pub open spec fn kind_name(kind: TaskKind) -> &'static str {
    match kind {
        TaskKind::Kernel => "kernel",
        TaskKind::Service => "service",
        TaskKind::User => "user",
        TaskKind::Shell => "shell",
    }
}

/// The name of a kind of task.
pub fn task_kind_name(kind: TaskKind) -> (name: &'static str)
    ensures
        name == kind_name(kind),
{
    match kind {
        TaskKind::Kernel => "kernel",
        TaskKind::Service => "service",
        TaskKind::User => "user",
        TaskKind::Shell => "shell",
    }
}

/// What a state is called.
pub open spec fn state_pieces(state: TaskState) -> Seq<Seq<u8>> {
    match state {
        TaskState::Ready => lines::none().push(text::literal("ready")),
        TaskState::Running => lines::none().push(text::literal("running")),
        TaskState::Waiting => lines::none().push(text::literal("waiting")),
        TaskState::FutexWait(address) => lines::none().push(text::literal("futex(0x")).push(
            fixed::hexadecimal(address as nat),
        ).push(text::literal(")")),
        TaskState::WaitQueue(key) => lines::none().push(text::literal("waitq(0x")).push(
            fixed::hexadecimal(key as nat),
        ).push(text::literal(")")),
        TaskState::ChildWait => lines::none().push(text::literal("wait-child")),
        TaskState::IpcWait => lines::none().push(text::literal("wait-ipc")),
        TaskState::Sleeping(_, deadline) => lines::none().push(text::literal("sleep(")).push(
            fixed::decimal(deadline as nat),
        ).push(text::literal(")")),
        TaskState::Zombie(code) => (lines::none().push(text::literal("zombie("))
            + lines::signed_pieces(code as int)).push(text::literal(")")),
    }
}

/// Writes what a state is called.
pub fn render_state(state: TaskState, out: &mut InlineString<24>)
    ensures
        final(out)@ == lines::filled(state_pieces(state), 24),
{
    let line = match state {
        TaskState::Ready => Line::new().text("ready"),
        TaskState::Running => Line::new().text("running"),
        TaskState::Waiting => Line::new().text("waiting"),
        TaskState::FutexWait(address) => Line::new().text("futex(0x").hexadecimal(address).text(
            ")",
        ),
        TaskState::WaitQueue(key) => Line::new().text("waitq(0x").hexadecimal(key).text(")"),
        TaskState::ChildWait => Line::new().text("wait-child"),
        TaskState::IpcWait => Line::new().text("wait-ipc"),
        TaskState::Sleeping(_, deadline) => Line::new().text("sleep(").number(deadline).text(")"),
        TaskState::Zombie(code) => Line::new().text("zombie(").signed(code as i64).text(")"),
    };
    *out = line.fill();
}

/// The name of a policy.
pub open spec fn policy_name(policy: SchedulingPolicy) -> Seq<char> {
    match policy {
        SchedulingPolicy::Normal => "other"@,
        SchedulingPolicy::Fifo => "fifo"@,
        SchedulingPolicy::RoundRobin => "rr"@,
    }
}

/// The numbers of a task and of those around it.
pub open spec fn identity_pieces(task: Task) -> Seq<Seq<u8>> {
    lines::none().push(text::literal("pid=")).push(fixed::decimal(task.pid as nat)).push(
        text::literal(" tid="),
    ).push(fixed::decimal(task.tid as nat)).push(text::literal(" tgid=")).push(
        fixed::decimal(task.tgid as nat),
    ).push(text::literal(" ppid=")).push(
        fixed::decimal(
            (match task.parent {
                Some(parent) => parent,
                None => 0,
            }) as nat,
        ),
    ).push(text::literal(" pgid=")).push(fixed::decimal(task.pgid as nat)).push(
        text::literal(" sid="),
    ).push(fixed::decimal(task.sid as nat))
}

/// The line on a task.
#[verifier::opaque]
pub open spec fn task_pieces(task: Task) -> Seq<Seq<u8>> {
    (identity_pieces(task).push(text::literal(" cpu=")).push(fixed::decimal(task.cpu as nat)).push(
        text::literal(" mask=0x"),
    ).push(fixed::hexadecimal(task.cpu_affinity as nat)).push(text::literal(" policy=")).push(
        text::utf8(policy_name(task.scheduling_policy)),
    ).push(text::literal(" nice=")) + lines::signed_pieces(task.nice as int)).push(
        text::literal(" rt="),
    ).push(fixed::decimal(task.rt_priority as nat)).push(text::literal(" ticks=")).push(
        fixed::decimal(task.runtime_ticks as nat),
    ).push(text::literal(" timers=")).push(fixed::decimal(task.timer_expirations as nat)).push(
        text::literal(" kind="),
    ).push(text::literal(kind_name(task.kind))).push(text::literal(" state=")).push(
        lines::filled(state_pieces(task.state), 24),
    ).push(text::literal(" sig=0x")).push(fixed::hexadecimal(task.pending_signals as nat)).push(
        text::literal(" flags=0x"),
    ).push(fixed::hexadecimal(task.clone_flags as nat)).push(text::literal(" name=")).push(
        text::literal(task.name),
    )
}

/// A line for each task in the first slots.
pub open spec fn tasks_shown(view: KernelView, count: nat) -> KernelView
    decreases count,
{
    if count == 0 {
        view
    } else {
        let before = tasks_shown(view, (count - 1) as nat);
        match view.tasks.tasks[count - 1] {
            Some(task) => monitor::raw_lined(before, lines::filled(task_pieces(task), 256)),
            None => before,
        }
    }
}

/// The line on how many tasks there are.
pub open spec fn count_pieces(view: KernelView) -> Seq<Seq<u8>> {
    lines::none().push(text::literal("tasks=")).push(
        fixed::decimal(task::used(view.tasks.tasks, 32)),
    ).push(text::literal(" zombies=")).push(
        fixed::decimal(task::zombies(view.tasks.tasks, 32)),
    ).push(text::literal(" timers=")).push(fixed::decimal(task::used(view.tasks.timers, 32)))
}

/// What is shown of the tasks.
#[verifier::opaque]
pub open spec fn all_tasks_shown(view: KernelView) -> KernelView {
    tasks_shown(monitor::raw_lined(view, lines::filled(count_pieces(view), 64)), 32)
}

/// The first lines of the trace.
pub open spec fn trace_shown(view: KernelView, count: nat) -> KernelView
    decreases count,
{
    if count == 0 {
        view
    } else {
        monitor::raw_lined(trace_shown(view, (count - 1) as nat), view.trace[count - 1])
    }
}

/// What is shown of the requests.
#[verifier::opaque]
pub open spec fn whole_trace_shown(view: KernelView) -> KernelView {
    if !view.machine.platform.info().ipc_trace_supported {
        monitor::raw_lined(view, text::literal("ipc trace unavailable on this platform"))
    } else if view.trace.len() == 0 {
        monitor::raw_lined(view, text::literal("ipc trace is empty"))
    } else {
        trace_shown(view, view.trace.len())
    }
}

/// An address in dotted decimal.
pub open spec fn ipv4_text(ip: Seq<u8>) -> Seq<u8> {
    lines::filled(net::ipv4_pieces(ip), 16)
}

/// What is shown of the network card.
#[verifier::opaque]
pub open spec fn card_shown(view: KernelView, status: Option<NetStatus>) -> KernelView {
    match status {
        None => monitor::said(view, "eth0: no carrier"),
        Some(status) => {
            let view = monitor::told(
                view,
                lines::none().push(
                    text::literal(
                        "eth0: flags=4163<UP,BROADCAST,RUNNING,MULTICAST>  mtu 1500  io=0x",
                    ),
                ).push(fixed::hexadecimal(status.io_base as nat)),
                128,
            );
            let view = monitor::told(
                view,
                lines::none().push(text::literal("    inet ")).push(ipv4_text(status.ip@)).push(
                    text::literal("  netmask "),
                ).push(ipv4_text(status.netmask@)).push(text::literal("  gateway ")).push(
                    ipv4_text(status.gateway@),
                ),
                128,
            );
            monitor::told(
                view,
                lines::none().push(text::literal("    ether ")).push(
                    lines::filled(net::mac_pieces(status.mac@), 24),
                ),
                64,
            )
        },
    }
}

/// The network of an address.
pub open spec fn network_of(status: NetStatus) -> Seq<u8> {
    seq![
        status.ip[0] & status.netmask[0],
        status.ip[1] & status.netmask[1],
        status.ip[2] & status.netmask[2],
        status.ip[3] & status.netmask[3],
    ]
}

/// What is shown of the ways into the network.
#[verifier::opaque]
pub open spec fn routes_shown(view: KernelView, status: Option<NetStatus>) -> KernelView {
    match status {
        None => monitor::said(view, "Kernel IP routing table is empty"),
        Some(status) => {
            let view = monitor::told(
                view,
                lines::none().push(text::literal("default via ")).push(
                    ipv4_text(status.gateway@),
                ).push(text::literal(" dev eth0")),
                64,
            );
            monitor::told(
                view,
                lines::none().push(ipv4_text(network_of(status))).push(
                    text::literal("/24 dev eth0 src "),
                ).push(ipv4_text(status.ip@)),
                64,
            )
        },
    }
}

/// The address that is to be asked for an echo, if the text is one.
#[verifier::opaque]
pub open spec fn ping_started(view: KernelView, text: Seq<u8>) -> (KernelView, Option<Seq<u8>>) {
    match c_fastpath::ipv4_address(text) {
        None => (monitor::said(view, "ping: invalid IPv4 address"), None),
        Some(target) => (
            monitor::told(
                view,
                lines::none().push(text::literal("PING ")).push(ipv4_text(target)).push(
                    text::literal(" ("),
                ).push(ipv4_text(target)).push(text::literal("): 10 data bytes")),
                64,
            ),
            Some(target),
        ),
    }
}

/// The answer to an echo, or why there is none.
#[verifier::opaque]
pub open spec fn ping_answered(
    view: KernelView,
    reply: Result<PingReply, &'static str>,
) -> KernelView {
    match reply {
        Ok(reply) => monitor::told(
            view,
            lines::none().push(fixed::decimal(reply.bytes as nat)).push(
                text::literal(" bytes from "),
            ).push(ipv4_text(reply.from@)).push(text::literal(": icmp_seq=")).push(
                fixed::decimal(reply.seq as nat),
            ).push(text::literal(" ttl=")).push(fixed::decimal(reply.ttl as nat)),
            96,
        ),
        Err(error) => monitor::told(
            view,
            lines::none().push(text::literal("ping: ")).push(text::literal(error)),
            96,
        ),
    }
}

fn address_text(ip: [u8; 4]) -> (text: InlineString<16>)
    ensures
        text@ == ipv4_text(ip@),
{
    let mut text: InlineString<16> = InlineString::new();
    net::format_ipv4(ip, &mut text);
    text
}

impl Kernel {
    pub fn show_services(&mut self)
        requires
            old(self).wf(),
        ensures
            final(self).wf(),
            final(self)@ == services_shown(
                old(self)@,
                old(self)@.services,
                old(self)@.services.len(),
            ),
    {
        let mut index: usize = 0;
        while index < self.services.len()
            invariant
                index <= self@.services.len(),
                self.wf(),
                self@.services == old(self)@.services,
                self@ == services_shown(old(self)@, old(self)@.services, index as nat),
            decreases self@.services.len() - index,
        {
            let entry = self.services[index];
            proof {
                monitor::lemma_shown_keeps(
                    self@,
                    self@.shell_pid,
                    lines::filled(service_pieces(entry), 96).push(10),
                );
            }
            self.write_filled::<96>(
                Line::new().text(entry.name.name()).text(" endpoint=").number(
                    entry.endpoint.raw(),
                ).text(" pid=").number(entry.pid as u64),
            );
            index += 1;
        }
    }

    fn show_task(&mut self, task: Task)
        requires
            old(self).wf(),
        ensures
            final(self).wf(),
            final(self)@ == monitor::raw_lined(
                old(self)@,
                lines::filled(task_pieces(task), 256),
            ),
    {
        reveal(task_pieces);
        let mut state: InlineString<24> = InlineString::new();
        render_state(task.state, &mut state);
        let parent: u32 = match task.parent {
            Some(parent) => parent,
            None => 0,
        };
        let line = Line::new().text("pid=").number(task.pid as u64).text(" tid=").number(
            task.tid as u64,
        ).text(" tgid=").number(task.tgid as u64).text(" ppid=").number(parent as u64).text(
            " pgid=",
        ).number(task.pgid as u64).text(" sid=").number(task.sid as u64);
        assert(line@ == identity_pieces(task));
        let line = line.text(" cpu=").number(task.cpu as u64).text(" mask=0x").hexadecimal(
            task.cpu_affinity,
        ).text(" policy=").word(task.scheduling_policy.name()).text(" nice=").signed(
            task.nice as i64,
        ).text(" rt=").number(task.rt_priority as u64).text(" ticks=").number(
            task.runtime_ticks,
        ).text(" timers=").number(task.timer_expirations as u64).text(" kind=").text(
            task_kind_name(task.kind),
        ).text(" state=").bytes(state.as_bytes()).text(" sig=0x").hexadecimal(
            task.pending_signals,
        ).text(" flags=0x").hexadecimal(task.clone_flags).text(" name=").text(task.name);
        let buffer: InlineString<256> = line.fill();
        self.raw_write_line(buffer.as_bytes());
    }

    pub fn show_tasks(&mut self)
        requires
            old(self).wf(),
        ensures
            final(self).wf(),
            final(self)@ == all_tasks_shown(old(self)@),
    {
        reveal(all_tasks_shown);
        let summary: InlineString<64> = Line::new().text("tasks=").number(
            self.tasks.active_count() as u64,
        ).text(" zombies=").number(self.tasks.zombie_count() as u64).text(" timers=").number(
            self.tasks.timer_count() as u64,
        ).fill();
        self.raw_write_line(summary.as_bytes());
        let ghost begun = self@;
        let mut index: usize = 0;
        while index < 32
            invariant
                index <= 32,
                self.wf(),
                self@.tasks == begun.tasks,
                begun.tasks.tasks.len() == 32,
                self@ == tasks_shown(begun, index as nat),
            decreases 32 - index,
        {
            if let Some(task) = self.tasks.get(index) {
                self.show_task(task);
            }
            index += 1;
        }
    }

    pub fn show_ipc_trace(&mut self)
        requires
            old(self).wf(),
        ensures
            final(self).wf(),
            final(self)@ == whole_trace_shown(old(self)@),
    {
        reveal(whole_trace_shown);
        if !arch::supports_ipc_trace(self.machine.platform) {
            self.raw_write_line(text::literal_bytes("ipc trace unavailable on this platform"));
            return ;
        }
        let count: usize = self.trace.len();
        if count == 0 {
            self.raw_write_line(text::literal_bytes("ipc trace is empty"));
            return ;
        }
        let mut index: usize = 0;
        while index < count
            invariant
                index <= count,
                count == old(self)@.trace.len(),
                self.wf(),
                self@.trace == old(self)@.trace,
                self@ == trace_shown(old(self)@, index as nat),
            decreases count - index,
        {
            let bytes = apps::copied(self.trace.line(index).as_bytes());
            self.raw_write_line(bytes.as_slice());
            index += 1;
        }
    }

    pub fn show_ifconfig(&mut self, status: Option<NetStatus>)
        requires
            old(self).wf(),
        ensures
            final(self).wf(),
            final(self)@ == card_shown(old(self)@, status),
    {
        reveal(card_shown);
        let status = match status {
            Some(status) => status,
            None => {
                self.write_line("eth0: no carrier");
                return ;
            },
        };
        let ip = address_text(status.ip);
        let mask = address_text(status.netmask);
        let gateway = address_text(status.gateway);
        let mut mac: InlineString<24> = InlineString::new();
        net::format_mac(status.mac, &mut mac);
        self.write_filled::<128>(
            Line::new().text(
                "eth0: flags=4163<UP,BROADCAST,RUNNING,MULTICAST>  mtu 1500  io=0x",
            ).hexadecimal(status.io_base as u64),
        );
        self.write_filled::<128>(
            Line::new().text("    inet ").bytes(ip.as_bytes()).text("  netmask ").bytes(
                mask.as_bytes(),
            ).text("  gateway ").bytes(gateway.as_bytes()),
        );
        self.write_filled::<64>(Line::new().text("    ether ").bytes(mac.as_bytes()));
    }

    pub fn show_route(&mut self, status: Option<NetStatus>)
        requires
            old(self).wf(),
        ensures
            final(self).wf(),
            final(self)@ == routes_shown(old(self)@, status),
    {
        reveal(routes_shown);
        let status = match status {
            Some(status) => status,
            None => {
                self.write_line("Kernel IP routing table is empty");
                return ;
            },
        };
        let gateway = address_text(status.gateway);
        let masked: [u8; 4] = [
            status.ip[0] & status.netmask[0],
            status.ip[1] & status.netmask[1],
            status.ip[2] & status.netmask[2],
            status.ip[3] & status.netmask[3],
        ];
        assert(masked@ =~= network_of(status));
        let network = address_text(masked);
        let source = address_text(status.ip);
        self.write_filled::<64>(
            Line::new().text("default via ").bytes(gateway.as_bytes()).text(" dev eth0"),
        );
        self.write_filled::<64>(
            Line::new().bytes(network.as_bytes()).text("/24 dev eth0 src ").bytes(
                source.as_bytes(),
            ),
        );
    }

    /// Starts to ask a host for an echo.
    pub fn ping_host(&mut self, text: &[u8]) -> (target: Option<[u8; 4]>)
        requires
            old(self).wf(),
        ensures
            final(self).wf(),
            final(self)@ == ping_started(old(self)@, text@).0,
            match target {
                Some(target) => ping_started(old(self)@, text@).1 == Some(target@),
                None => ping_started(old(self)@, text@).1 is None,
            },
    {
        reveal(ping_started);
        match c_fastpath::parse_ipv4_bytes(text) {
            None => {
                self.write_line("ping: invalid IPv4 address");
                None
            },
            Some(target) => {
                let name = address_text(target);
                self.write_filled::<64>(
                    Line::new().text("PING ").bytes(name.as_bytes()).text(" (").bytes(
                        name.as_bytes(),
                    ).text("): 10 data bytes"),
                );
                Some(target)
            },
        }
    }

    /// Shows the answer to an echo.
    pub fn show_ping(&mut self, reply: Result<PingReply, &'static str>)
        requires
            old(self).wf(),
        ensures
            final(self).wf(),
            final(self)@ == ping_answered(old(self)@, reply),
    {
        reveal(ping_answered);
        match reply {
            Ok(reply) => {
                let source = address_text(reply.from);
                self.write_filled::<96>(
                    Line::new().number(reply.bytes as u64).text(" bytes from ").bytes(
                        source.as_bytes(),
                    ).text(": icmp_seq=").number(reply.seq as u64).text(" ttl=").number(
                        reply.ttl as u64,
                    ),
                );
            },
            Err(error) => self.write_filled::<96>(Line::new().text("ping: ").text(error)),
        }
    }
}

} // verus!
