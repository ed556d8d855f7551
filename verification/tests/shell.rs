use rustix_vkernel::arch::Platform;
use rustix_vkernel::ipc::{IpcError, RequestKind};
use rustix_vkernel::kernel::monitor::report::{render_state, task_kind_name};
use rustix_vkernel::kernel::monitor::shell::ShellStep;
use rustix_vkernel::kernel::monitor::{service_accepts, Machine, RegisterError, Service};
use rustix_vkernel::kernel::task::{TaskKind, TaskState};
use rustix_vkernel::kernel::{Kernel, SysApi};
use rustix_vkernel::fixed::InlineString;
use rustix_vkernel::linux::errno::Errno;
use rustix_vkernel::net::{NetStatus, PingReply};

fn started(network: bool) -> Kernel {
    let mut kernel = Kernel::new(Machine { platform: Platform::X86_64, online_cpus: 2 });
    kernel.boot(true, network);
    kernel
}

fn shown(kernel: &mut Kernel) -> String {
    String::from_utf8(kernel.take_output()).unwrap()
}

fn said(kernel: &mut Kernel, line: &str) -> String {
    assert!(matches!(kernel.shell_command(line, 1_000), ShellStep::Done));
    shown(kernel)
}

fn letters(text: &str) -> Vec<char> {
    text.chars().collect()
}

#[test]
fn every_service_takes_its_own_requests() {
    assert!(service_accepts(Service::Console, RequestKind::ConsolePrompt));
    assert!(service_accepts(Service::Proc, RequestKind::ProcTimer));
    assert!(!service_accepts(Service::Vfs, RequestKind::ProcTimer));
    assert!(!service_accepts(Service::Net, RequestKind::ConsoleWrite));
    assert_eq!(Service::Vfs.name(), "vfs");
}

#[test]
fn a_kernel_greets() {
    let mut kernel = started(false);
    kernel.run();
    assert_eq!(
        shown(&mut kernel),
        "Rustix v-kernel (x86_64)\n\
         [task] lifecycle=ok ipc=ok vfs=ok active=5 zombies=0\n\
         [monitor] ring0 compatibility UI; isolated services use Ring 3 IPC\n"
    );
}

#[test]
fn text_is_shown_only_by_a_console_that_runs() {
    let mut kernel = Kernel::new(Machine { platform: Platform::X86_64, online_cpus: 1 });
    kernel.write_line("too early");
    assert_eq!(shown(&mut kernel), "");
    kernel.boot(false, false);
    kernel.write("a");
    kernel.write_line("b");
    assert_eq!(shown(&mut kernel), "ab\n");
}

#[test]
fn services_are_listed() {
    let mut kernel = started(true);
    let text = said(&mut kernel, "services");
    let names: Vec<&str> = text.lines().map(|line| line.split(' ').next().unwrap()).collect();
    assert_eq!(names, vec!["kernel", "console", "vfs", "proc", "net"]);
    assert!(text.lines().nth(1).unwrap().ends_with(" pid=2"));
}

#[test]
fn requests_are_refused_where_they_do_not_belong() {
    let mut kernel = started(false);
    assert_eq!(
        kernel.route_ipc(1, Service::Net, RequestKind::NetPing, b""),
        Err(IpcError::InvalidEndpoint)
    );
    assert_eq!(
        kernel.route_ipc(1, Service::Vfs, RequestKind::NetPing, b""),
        Err(IpcError::ProtocolViolation)
    );
    assert_eq!(
        kernel.route_ipc(1, Service::Vfs, RequestKind::VfsReadFile, &[b'x'; 193]),
        Err(IpcError::PayloadTooLarge)
    );
    assert_eq!(kernel.route_ipc(1, Service::Vfs, RequestKind::VfsReadFile, b"/etc"), Ok(()));
    assert_eq!(
        kernel.route_ipc(0, Service::Vfs, RequestKind::VfsReadFile, b"/etc"),
        Err(IpcError::InvalidRights)
    );
}

#[test]
fn the_service_table_is_bounded() {
    let mut kernel = started(true);
    assert_eq!(kernel.register_service(1, Service::Net), Ok(()));
    assert_eq!(kernel.register_service(1, Service::Net), Ok(()));
    assert_eq!(kernel.register_service(1, Service::Net), Ok(()));
    assert_eq!(kernel.register_service(1, Service::Net), Err(RegisterError::Full));
    assert_eq!(
        kernel.register_kernel_endpoint(1, Service::Net).err().map(|error| error.message()),
        Some("error: service table is full")
    );
}

#[test]
fn requests_leave_a_trace() {
    let mut kernel = started(false);
    assert!(!kernel.log_ipc(5, Service::Net, RequestKind::NetPing, Some(b"10.0.2.2")));
    assert!(kernel.log_ipc(5, Service::Vfs, RequestKind::VfsReadFile, Some(b"/etc/motd")));
    assert_eq!(
        said(&mut kernel, "ipc"),
        "pid=5 -> net: denied (ipc: invalid or stale endpoint)\n\
         pid=5 -> vfs: pread64[3] /etc/motd\n"
    );
    for _ in 0..70 {
        assert!(kernel.log_ipc(5, Service::Console, RequestKind::ConsoleWrite, None));
    }
    let text = said(&mut kernel, "ipc");
    assert_eq!(text.lines().count(), 64);
    assert!(text.lines().all(|line| line == "pid=5 -> console: write[1]"));
}

#[test]
fn a_platform_without_a_trace_says_so() {
    let mut kernel = Kernel::new(Machine { platform: Platform::QemuVirt, online_cpus: 1 });
    kernel.boot(true, false);
    assert_eq!(said(&mut kernel, "ipc"), "ipc trace unavailable on this platform\n");
}

#[test]
fn plain_commands_answer() {
    let mut kernel = started(false);
    assert_eq!(said(&mut kernel, ""), "");
    assert_eq!(said(&mut kernel, "  pwd  "), "/\n");
    assert_eq!(said(&mut kernel, "whoami"), "root\n");
    assert_eq!(said(&mut kernel, "uname"), "Rustix v-kernel x86_64\n");
    assert_eq!(said(&mut kernel, "bogus words"), "unknown command: bogus words\n");
    assert!(said(&mut kernel, "help").starts_with("帮助: help uname"));
    assert!(said(&mut kernel, "apps").starts_with("/bin/hello - hello app using"));
}

#[test]
fn tasks_are_listed() {
    let mut kernel = started(false);
    let text = said(&mut kernel, "ps");
    let mut lines = text.lines();
    assert_eq!(lines.next(), Some("tasks=5 zombies=0 timers=0"));
    let first = lines.next().unwrap();
    assert!(first.starts_with("pid=1 tid=1 tgid=1 ppid=0 pgid=1 sid=1 cpu="));
    assert!(first.ends_with("kind=kernel state=running sig=0x0 flags=0x0 name=kernel"));
    assert_eq!(lines.count(), 4);
}

#[test]
fn forked_children_wait_for_their_release() {
    let mut kernel = started(false);
    assert_eq!(
        said(&mut kernel, "fork -3"),
        "fork: parent sees child pid=6, child return value would be 0\n\
         fork: child pid=6 exited status=-3; run `wait4 6`\n"
    );
    assert_eq!(said(&mut kernel, "wait4 6"), "reaped pid=6 status=-3\n");
    assert_eq!(said(&mut kernel, "wait4 6"), "wait4: no such child\n");
    assert_eq!(said(&mut kernel, "wait4 x"), "wait4: invalid pid\n");
    assert_eq!(said(&mut kernel, "wait 0"), "wait: invalid pid\n");
    assert_eq!(said(&mut kernel, "wait all"), "wait: no exited children\n");
    assert_eq!(said(&mut kernel, "wait4 1 2 3"), "usage: wait4 [pid|0|all] [nohang]\n");
    assert_eq!(said(&mut kernel, "fork x"), "fork: invalid exit status\n");
    assert_eq!(said(&mut kernel, "fork 1 2"), "usage: fork [exit-status]\n");
    said(&mut kernel, "fork 1");
    said(&mut kernel, "fork 2");
    assert_eq!(said(&mut kernel, "wait all"), "reaped pid=7 status=1\nreaped pid=8 status=2\n");
    said(&mut kernel, "fork 1");
    said(&mut kernel, "fork 2");
    assert_eq!(said(&mut kernel, "wait4 all nohang"), "reaped pid=9 status=1\n");
    assert_eq!(said(&mut kernel, "wait4 all"), "reaped pid=10 status=2\n");
    assert_eq!(said(&mut kernel, "wait4 all"), "wait4: no exited children\n");
}

#[test]
fn clones_are_threads_or_processes() {
    let mut kernel = started(false);
    assert_eq!(
        said(&mut kernel, "clone"),
        "clone: pid=6 tid=6 tgid=5 pgid=1 sid=1 flags=0x10f00\n"
    );
    assert_eq!(
        said(&mut kernel, "clone process"),
        "clone: pid=7 tid=7 tgid=7 pgid=1 sid=1 flags=0x700\n"
    );
    assert_eq!(said(&mut kernel, "clone both"), "usage: clone [thread|process]\n");
    assert_eq!(said(&mut kernel, "wait"), "reaped pid=7 status=0\n");
}

#[test]
fn signals_are_queued() {
    let mut kernel = started(false);
    assert_eq!(said(&mut kernel, "kill"), "usage: kill <pid> [signal]\n");
    assert_eq!(said(&mut kernel, "kill 0"), "kill: invalid pid\n");
    assert_eq!(said(&mut kernel, "kill 5 300"), "kill: invalid signal\n");
    assert_eq!(said(&mut kernel, "kill 5 10"), "signal 10 queued for pid=5\n");
    assert_eq!(said(&mut kernel, "kill 50"), "error: task does not exist\n");
    assert_eq!(said(&mut kernel, "kill 5 99"), "error: invalid signal\n");
}

#[test]
fn priorities_and_processors_are_set() {
    let mut kernel = started(false);
    assert_eq!(said(&mut kernel, "nice 5 -5"), "nice: updated\n");
    assert_eq!(said(&mut kernel, "nice 5 99"), "error: nice must be between -20 and 19\n");
    assert_eq!(said(&mut kernel, "nice 5 200"), "nice: invalid pid or value\n");
    assert_eq!(said(&mut kernel, "nice 5"), "usage: nice <pid> <-20..19>\n");
    assert_eq!(said(&mut kernel, "chrt 5 fifo 10"), "chrt: updated\n");
    assert_eq!(said(&mut kernel, "chrt 5 other"), "chrt: updated\n");
    assert_eq!(
        said(&mut kernel, "chrt 5 rr"),
        "chrt: real-time policy requires a priority\n"
    );
    assert_eq!(said(&mut kernel, "chrt 5 idle"), "chrt: invalid policy\n");
    assert_eq!(said(&mut kernel, "chrt x rr 5"), "chrt: invalid pid\n");
    assert_eq!(said(&mut kernel, "chrt 5 rr x"), "chrt: invalid priority\n");
    assert_eq!(said(&mut kernel, "taskset 5 0x2"), "taskset: pid=5 mask=0x2\n");
    assert_eq!(said(&mut kernel, "taskset 5 xyz"), "taskset: invalid hexadecimal mask\n");
    assert_eq!(said(&mut kernel, "taskset 5"), "usage: taskset <pid> <hex-mask>\n");
    assert!(said(&mut kernel, "rebalance").starts_with("rebalance: cpus=2 migrations="));
}

#[test]
fn demonstrations_run_to_their_end() {
    let mut kernel = started(false);
    assert_eq!(
        said(&mut kernel, "sigdemo"),
        "rt_sigframe: pid=6 sig=10 handler=0x401000 restorer=0xffffffff80001000 ip=0x400006 sp=0x7fffff9000\n\
         reaped pid=6 status=0\n"
    );
    assert_eq!(
        said(&mut kernel, "futexdemo"),
        "futex: addr=0x70001000 wait=ok wake=1 value-check=EAGAIN\nreaped pid=7 status=0\n"
    );
    assert_eq!(
        said(&mut kernel, "waitqdemo"),
        "wait-queue: key=0x51 wake=1\nreaped pid=8 status=0\n"
    );
    assert_eq!(
        said(&mut kernel, "timerdemo"),
        "timer: id=1 expired=3 rearmed=1 notifications=3\nreaped pid=9 status=0\n"
    );
}

#[test]
fn a_sleeper_is_watched_until_it_wakes() {
    let mut kernel = started(false);
    assert_eq!(
        said(&mut kernel, "sleep 0"),
        "sleep: milliseconds must be between 1 and 5000\n"
    );
    assert_eq!(said(&mut kernel, "sleep"), "usage: sleep <milliseconds>\n");
    let sleeper = match kernel.shell_command("sleep 2", 1_000) {
        ShellStep::Sleep(sleeper) => sleeper,
        other => panic!("{:?}", other),
    };
    assert!(!kernel.watch_sleeper(sleeper, 1_500_000));
    assert!(kernel.watch_sleeper(sleeper, 2_001_000));
    assert_eq!(
        shown(&mut kernel),
        "sleep: 2 ms expired=1 wake=1\nreaped pid=6 status=0\n"
    );
}

#[test]
fn files_are_asked_for() {
    let mut kernel = started(false);
    assert!(matches!(kernel.shell_command("ls", 0), ShellStep::ListDir(path) if path == letters("/")));
    kernel.list_entries(&letters("/"), Ok(&[b"bin".to_vec(), b"etc".to_vec()]));
    kernel.list_entries(&letters("/x"), Err("no such directory"));
    assert_eq!(shown(&mut kernel), "bin\netc\nerror: /x: no such directory\n");
    assert_eq!(said(&mut kernel, "cat"), "usage: cat <path>\n");
    assert!(matches!(kernel.shell_command("cat /a", 0), ShellStep::ReadFile(path) if path == letters("/a")));
    kernel.cat_path(&letters("/a"), Some(b"text"));
    kernel.cat_path(&letters("/b"), None);
    assert_eq!(shown(&mut kernel), "texterror: /b: no such file\n");
    assert!(matches!(
        kernel.shell_command("touch /a", 0),
        ShellStep::CreateFile(command, path) if command == letters("touch") && path == letters("/a")
    ));
    kernel.report_creation(&letters("touch"), &letters("/a"), Some("exists"));
    kernel.report_creation(&letters("touch"), &letters("/a"), None);
    assert_eq!(shown(&mut kernel), "touch: /a: exists\n");
    assert!(matches!(kernel.shell_command("mkdir /d", 0), ShellStep::CreateDir(_)));
    assert!(matches!(kernel.shell_command("vi /d", 0), ShellStep::Edit(_)));
    kernel.report_editor(&letters("/d"), false);
    kernel.report_editor(&letters("/d"), true);
    assert_eq!(shown(&mut kernel), "editor: cannot open /d\n");
    assert!(matches!(kernel.shell_command("clear", 0), ShellStep::Clear));
}

#[test]
fn programs_run_and_end() {
    let mut kernel = started(false);
    let (path, argv) = match kernel.shell_command("echo hello world", 0) {
        ShellStep::Execute(path, argv, false) => (path, argv),
        other => panic!("{:?}", other),
    };
    assert_eq!(path, letters("/bin/echo"));
    assert_eq!(argv.len(), 3);
    let (pid, program) = kernel.launch(&path, true, true).unwrap();
    assert_eq!((pid, program.path), (6, "/bin/echo"));
    kernel.conclude(pid, 3, false);
    assert_eq!(shown(&mut kernel), "program exited with status 3\n");
    let (pid, _) = kernel.launch(&path, true, true).unwrap();
    kernel.conclude(pid, 0, true);
    assert_eq!(shown(&mut kernel), "[7] zombie exit=0; run `wait 7`\n");
    assert!(kernel.launch(&path, false, true).is_none());
    assert!(kernel.launch(&path, true, false).is_none());
    assert!(kernel.launch(&letters("/bin/none"), true, true).is_none());
    assert_eq!(
        shown(&mut kernel),
        "error: /bin/echo: no such executable\n\
         error: /bin/echo: not executable\n\
         error: /bin/none: loader missing\n"
    );
    assert!(matches!(
        kernel.shell_command("exec-bg /bin/calc 1 + 2", 0),
        ShellStep::Execute(_, argv, true) if argv.len() == 4
    ));
    assert_eq!(said(&mut kernel, "exec"), "usage: exec <path> [args]\n");
}

#[test]
fn the_network_is_shown() {
    let mut kernel = started(true);
    assert!(matches!(kernel.shell_command("ifconfig", 0), ShellStep::Ifconfig));
    assert!(matches!(kernel.shell_command("route", 0), ShellStep::Route));
    let status = NetStatus {
        mac: [0x52, 0x54, 0, 0x12, 0x34, 0x56],
        ip: [10, 0, 2, 15],
        netmask: [255, 255, 255, 0],
        gateway: [10, 0, 2, 2],
        dns: [10, 0, 2, 3],
        io_base: 0xc000,
        up: true,
    };
    kernel.show_ifconfig(Some(status));
    kernel.show_ifconfig(None);
    kernel.show_route(Some(status));
    kernel.show_route(None);
    assert_eq!(
        shown(&mut kernel),
        "eth0: flags=4163<UP,BROADCAST,RUNNING,MULTICAST>  mtu 1500  io=0xc000\n    \
         inet 10.0.2.15  netmask 255.255.255.0  gateway 10.0.2.2\n    \
         ether 52:54:00:12:34:56\n\
         eth0: no carrier\n\
         default via 10.0.2.2 dev eth0\n\
         10.0.2.0/24 dev eth0 src 10.0.2.15\n\
         Kernel IP routing table is empty\n"
    );
    assert!(matches!(
        kernel.shell_command("ping 10.0.2.2", 0),
        ShellStep::Ping([10, 0, 2, 2])
    ));
    kernel.show_ping(Ok(PingReply { from: [10, 0, 2, 2], seq: 1, ttl: 64, bytes: 18 }));
    kernel.show_ping(Err("net: timeout"));
    assert_eq!(
        shown(&mut kernel),
        "PING 10.0.2.2 (10.0.2.2): 10 data bytes\n\
         18 bytes from 10.0.2.2: icmp_seq=1 ttl=64\n\
         ping: net: timeout\n"
    );
    assert_eq!(said(&mut kernel, "ping x"), "ping: invalid IPv4 address\n");
    assert_eq!(said(&mut kernel, "ping"), "usage: ping <ipv4>\n");
}

#[test]
fn the_last_command_ends_the_kernel() {
    let mut kernel = started(false);
    assert!(matches!(kernel.shell_command("quit", 0), ShellStep::Shutdown));
    assert_eq!(shown(&mut kernel), "Shutting down v-kernel.\n");
}

#[test]
fn programs_see_themselves() {
    let mut kernel = started(false);
    let (pid, _) = kernel.launch(&letters("/bin/hello"), true, true).unwrap();
    let mut api = SysApi::new(&mut kernel, pid);
    assert_eq!((api.pid(), api.ppid(), api.tgid(), api.pgid(), api.sid()), (6, 5, 6, 1, 1));
    api.write("a");
    api.write_line("b");
    api.write_line_num("n=", -4);
    assert!(api.prompt());
    assert_eq!(api.read_file("/etc/motd", Some("hi")), Ok("hi"));
    assert_eq!(
        api.read_path("/etc/none", None),
        Err("error: requested file is not available")
    );
    assert_eq!(api.write_file("/tmp/x"), Ok(()));
    assert!(!api.sleep_ms(0, 0));
    assert!(api.sleep_ms(3, 1_000));
    assert!(api.sleep_on(2_000_000));
    assert!(!api.sleep_on(3_001_000));
    assert_eq!(shown(&mut kernel), "ab\nn=-4\n");
}

#[test]
fn programs_of_no_task_are_refused() {
    let mut kernel = started(false);
    let mut api = SysApi::new(&mut kernel, 0);
    assert_eq!((api.ppid(), api.tgid()), (0, 0));
    assert_eq!(api.read_path("/etc/motd", Some(b"x")), Err("error: IPC access denied"));
    assert_eq!(api.write_file("/tmp/x"), Err(Errno::Access));
    assert!(!api.prompt());
    api.write_line("lost");
    assert_eq!(shown(&mut kernel), "");
}

#[test]
fn states_and_kinds_have_names() {
    let mut out = InlineString::<24>::new();
    render_state(TaskState::Zombie(-9), &mut out);
    assert_eq!(out.as_str(), "zombie(-9)");
    render_state(TaskState::FutexWait(0x1000), &mut out);
    assert_eq!(out.as_str(), "futex(0x1000)");
    render_state(TaskState::Sleeping(1, 77), &mut out);
    assert_eq!(out.as_str(), "sleep(77)");
    render_state(TaskState::ChildWait, &mut out);
    assert_eq!(out.as_str(), "wait-child");
    assert_eq!(task_kind_name(TaskKind::Service), "service");
}

#[test]
fn a_line_starts_at_most_one_task() {
    let mut kernel = started(false);
    for line in ["fork", "clone", "sigdemo", "futexdemo", "timerdemo", "ps", "wait all", "x"] {
        let before = said(&mut kernel, "fork");
        let number: u32 = before.split("pid=").nth(1).unwrap().split(',').next().unwrap().parse().unwrap();
        let _ = kernel.shell_command(line, 5);
        let _ = shown(&mut kernel);
        let after = said(&mut kernel, "fork");
        let next: u32 = after.split("pid=").nth(1).unwrap().split(',').next().unwrap().parse().unwrap();
        assert!(next <= number + 2);
        let _ = said(&mut kernel, "wait all");
    }
}
