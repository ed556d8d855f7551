//! The shell: what a line means, what it needs from the machine, and how it goes on.
use crate::apps;
use crate::apps::Program;
use crate::arch;
use crate::chars;
use crate::fixed;
use crate::ipc::RequestKind;
use crate::kernel::monitor;
use crate::kernel::monitor::commands;
use crate::kernel::monitor::demos;
use crate::kernel::monitor::demos::Sleeper;
use crate::kernel::monitor::laws;
use crate::kernel::monitor::report;
use crate::kernel::monitor::{Kernel, KernelView, Service};
use crate::kernel::task;
use crate::kernel::task::{Pid, TaskError, TaskKind, TaskState};
use crate::lines;
use crate::lines::Line;
use crate::text;
use vstd::prelude::*;

verus! {

/// What a line needs before it can go on.
#[derive(Debug)]
pub enum ShellStep {
    /// Nothing.
    Done,
    /// The end of the kernel.
    Shutdown,
    /// The names in a directory.
    ListDir(Vec<char>),
    /// The text of a file.
    ReadFile(Vec<char>),
    /// A new file, for a command.
    CreateFile(Vec<char>, Vec<char>),
    /// A new directory.
    CreateDir(Vec<char>),
    /// An empty screen.
    Clear,
    /// A file in the editor.
    Edit(Vec<char>),
    /// A program with its words, in the background or not.
    Execute(Vec<char>, Vec<Vec<char>>, bool),
    /// What the network card is.
    Ifconfig,
    /// The ways into the network.
    Route,
    /// An echo of a host.
    Ping([u8; 4]),
    /// Time, until a child is awake.
    Sleep(Sleeper),
}

/// What a line needs before it can go on.
#[verifier::ext_equal]
pub enum ShellStepView {
    Done,
    Shutdown,
    ListDir(Seq<char>),
    ReadFile(Seq<char>),
    CreateFile(Seq<char>, Seq<char>),
    CreateDir(Seq<char>),
    Clear,
    Edit(Seq<char>),
    Execute(Seq<char>, Seq<Seq<char>>, bool),
    Ifconfig,
    Route,
    Ping(Seq<u8>),
    Sleep(Sleeper),
}

impl View for ShellStep {
    type V = ShellStepView;

    open spec fn view(&self) -> ShellStepView {
        match *self {
            ShellStep::Done => ShellStepView::Done,
            ShellStep::Shutdown => ShellStepView::Shutdown,
            ShellStep::ListDir(path) => ShellStepView::ListDir(path@),
            ShellStep::ReadFile(path) => ShellStepView::ReadFile(path@),
            ShellStep::CreateFile(command, path) => ShellStepView::CreateFile(command@, path@),
            ShellStep::CreateDir(path) => ShellStepView::CreateDir(path@),
            ShellStep::Clear => ShellStepView::Clear,
            ShellStep::Edit(path) => ShellStepView::Edit(path@),
            ShellStep::Execute(path, argv, background) => ShellStepView::Execute(
                path@,
                chars::views(argv@),
                background,
            ),
            ShellStep::Ifconfig => ShellStepView::Ifconfig,
            ShellStep::Route => ShellStepView::Route,
            ShellStep::Ping(target) => ShellStepView::Ping(target@),
            ShellStep::Sleep(sleeper) => ShellStepView::Sleep(sleeper),
        }
    }
}

/// The words of a line, of which only the first eight count.
pub open spec fn words_of(line: Seq<char>) -> Seq<Seq<char>> {
    if chars::words_from(line, 0).len() <= monitor::MAX_ARGS {
        chars::words_from(line, 0)
    } else {
        chars::words_from(line, 0).take(monitor::MAX_ARGS as int)
    }
}

/// A line for each of the first programs.
pub open spec fn programs_shown(view: KernelView, count: nat) -> KernelView
    decreases count,
{
    if count == 0 {
        view
    } else {
        let program = apps::program_at(count - 1);
        monitor::told(
            programs_shown(view, (count - 1) as nat),
            lines::none().push(text::literal(program.path)).push(text::literal(" - ")).push(
                text::literal(program.summary),
            ),
            96,
        )
    }
}

/// What help there is.
#[verifier::opaque]
pub open spec fn helped(view: KernelView) -> KernelView {
    let view = monitor::said(
        view,
        "帮助: help uname pwd whoami services ps apps ls cat exec execve exec-bg fork clone wait wait4 kill sigdemo futexdemo waitqdemo timerdemo sleep nice chrt taskset rebalance touch mkfile mkdir clear ipc ifconfig route ping shutdown",
    );
    let view = monitor::said(view, "编辑: edit <path>, vi <path>, nano <path>");
    monitor::said(view, "应用: hello game echo calc settings video-player audio-player")
}

/// The commands that show what the kernel holds.
#[verifier::opaque]
pub open spec fn report_run(view: KernelView, name: Seq<char>) -> Option<KernelView> {
    if name == "help"@ {
        Some(helped(view))
    } else if name == "uname"@ {
        Some(monitor::said(view, view.machine.platform.info().uname))
    } else if name == "pwd"@ {
        Some(monitor::said(view, "/"))
    } else if name == "whoami"@ {
        Some(monitor::said(view, "root"))
    } else if name == "services"@ {
        let view = monitor::logged(
            view,
            view.shell_pid,
            Service::Kernel,
            RequestKind::KernelListServices,
            None,
        ).0;
        Some(report::services_shown(view, view.services, view.services.len()))
    } else if name == "ps"@ {
        let view = monitor::logged(
            view,
            view.shell_pid,
            Service::Kernel,
            RequestKind::KernelListTasks,
            None,
        ).0;
        Some(report::all_tasks_shown(view))
    } else if name == "apps"@ {
        Some(programs_shown(view, 7))
    } else if name == "ipc"@ {
        Some(report::whole_trace_shown(view))
    } else {
        None
    }
}

/// The commands that act on tasks.
#[verifier::opaque]
pub open spec fn task_run(view: KernelView, words: Seq<Seq<char>>, now_ns: u64) -> Option<
    (KernelView, ShellStepView),
> {
    let name = words[0];
    if name == "fork"@ {
        Some((commands::fork_run(view, words), ShellStepView::Done))
    } else if name == "clone"@ {
        Some((commands::clone_run(view, words), ShellStepView::Done))
    } else if name == "wait"@ {
        Some((commands::wait_run(view, words), ShellStepView::Done))
    } else if name == "wait4"@ {
        Some((commands::wait4_run(view, words), ShellStepView::Done))
    } else if name == "kill"@ {
        Some((commands::kill_run(view, words), ShellStepView::Done))
    } else if name == "sigdemo"@ {
        Some((demos::signal_shown(view), ShellStepView::Done))
    } else if name == "futexdemo"@ {
        Some((demos::futex_shown(view), ShellStepView::Done))
    } else if name == "waitqdemo"@ {
        Some((demos::queue_shown(view), ShellStepView::Done))
    } else if name == "timerdemo"@ {
        Some((demos::timer_shown(view, now_ns), ShellStepView::Done))
    } else if name == "sleep"@ {
        match demos::sleep_started(view, words, now_ns) {
            (view, Some(sleeper)) => Some((view, ShellStepView::Sleep(sleeper))),
            (view, None) => Some((view, ShellStepView::Done)),
        }
    } else if name == "nice"@ {
        Some((commands::nice_run(view, words), ShellStepView::Done))
    } else if name == "chrt"@ {
        Some((commands::chrt_run(view, words), ShellStepView::Done))
    } else if name == "taskset"@ {
        Some((commands::taskset_run(view, words), ShellStepView::Done))
    } else if name == "rebalance"@ {
        Some((commands::rebalance_run(view), ShellStepView::Done))
    } else {
        None
    }
}

/// The use of a command that needs a word behind it.
pub open spec fn usage(name: Seq<char>) -> Option<&'static str> {
    if name == "cat"@ {
        Some("usage: cat <path>")
    } else if name == "mkfile"@ {
        Some("usage: mkfile <path>")
    } else if name == "touch"@ {
        Some("usage: touch <path>")
    } else if name == "mkdir"@ {
        Some("usage: mkdir <path>")
    } else if name == "edit"@ || name == "vi"@ || name == "nano"@ {
        Some("usage: edit <path>")
    } else if name == "exec"@ {
        Some("usage: exec <path> [args]")
    } else if name == "execve"@ {
        Some("usage: execve <path> [args]")
    } else if name == "exec-bg"@ {
        Some("usage: exec-bg <path> [args]")
    } else if name == "ping"@ {
        Some("usage: ping <ipv4>")
    } else {
        None
    }
}

/// A program that is asked for.
pub open spec fn execution(
    view: KernelView,
    path: Seq<char>,
    argv: Seq<Seq<char>>,
    background: bool,
) -> (KernelView, ShellStepView) {
    (
        monitor::logged(
            view,
            view.shell_pid,
            Service::Proc,
            RequestKind::ProcExec,
            Some(chars::encoded(path)),
        ).0,
        ShellStepView::Execute(path, argv, background),
    )
}

/// The commands that need a word behind them.
#[verifier::opaque]
pub open spec fn path_run(view: KernelView, words: Seq<Seq<char>>) -> Option<
    (KernelView, ShellStepView),
> {
    let name = words[0];
    match usage(name) {
        None => None,
        Some(usage) => if words.len() <= 1 {
            Some((monitor::said(view, usage), ShellStepView::Done))
        } else {
            let path = words[1];
            if name == "cat"@ {
                Some(
                    (
                        monitor::logged(
                            view,
                            view.shell_pid,
                            Service::Vfs,
                            RequestKind::VfsReadFile,
                            Some(chars::encoded(path)),
                        ).0,
                        ShellStepView::ReadFile(path),
                    ),
                )
            } else if name == "mkfile"@ || name == "touch"@ {
                Some((view, ShellStepView::CreateFile(name, path)))
            } else if name == "mkdir"@ {
                Some((view, ShellStepView::CreateDir(path)))
            } else if name == "edit"@ || name == "vi"@ || name == "nano"@ {
                Some((view, ShellStepView::Edit(path)))
            } else if name == "ping"@ {
                let view = monitor::logged(
                    view,
                    view.shell_pid,
                    Service::Net,
                    RequestKind::NetPing,
                    Some(chars::encoded(path)),
                ).0;
                match report::ping_started(view, chars::encoded(path)) {
                    (view, Some(target)) => Some((view, ShellStepView::Ping(target))),
                    (view, None) => Some((view, ShellStepView::Done)),
                }
            } else {
                Some(execution(view, path, words.skip(1), name == "exec-bg"@))
            }
        },
    }
}

/// The other commands.
#[verifier::opaque]
pub open spec fn other_run(view: KernelView, line: Seq<char>, words: Seq<Seq<char>>) -> (
    KernelView,
    ShellStepView,
) {
    let name = words[0];
    if name == "ls"@ {
        let path = if words.len() > 1 {
            words[1]
        } else {
            "/"@
        };
        (
            monitor::logged(
                view,
                view.shell_pid,
                Service::Vfs,
                RequestKind::VfsListDir,
                Some(chars::encoded(path)),
            ).0,
            ShellStepView::ListDir(path),
        )
    } else if name == "clear"@ {
        (view, ShellStepView::Clear)
    } else if name == "ifconfig"@ || name == "route"@ {
        (
            monitor::logged(view, view.shell_pid, Service::Net, RequestKind::NetStatus, None).0,
            if name == "route"@ {
                ShellStepView::Route
            } else {
                ShellStepView::Ifconfig
            },
        )
    } else if name == "shutdown"@ || name == "poweroff"@ || name == "exit"@ || name == "quit"@ {
        (monitor::said(view, "Shutting down v-kernel."), ShellStepView::Shutdown)
    } else {
        match apps::command_path(name) {
            Some(path) => execution(view, path@, words, false),
            None => (
                monitor::told(
                    view,
                    lines::none().push(text::literal("unknown command: ")).push(
                        chars::encoded(line),
                    ),
                    96,
                ),
                ShellStepView::Done,
            ),
        }
    }
}

/// Whether the words of a line let a task take a signal.
pub open spec fn signals(words: Seq<Seq<char>>) -> bool {
    words.len() > 0 && words[0] == "sigdemo"@
}

/// What a line does, and what it needs before it can go on.
pub open spec fn commanded(view: KernelView, line: Seq<char>, now_ns: u64) -> (
    KernelView,
    ShellStepView,
) {
    let words = words_of(line);
    if words.len() == 0 {
        (view, ShellStepView::Done)
    } else {
        match report_run(view, words[0]) {
            Some(after) => (after, ShellStepView::Done),
            None => match task_run(view, words, now_ns) {
                Some(result) => result,
                None => match path_run(view, words) {
                    Some(result) => result,
                    None => other_run(view, line, words),
                },
            },
        }
    }
}

/// A line for each of the first names.
pub open spec fn names_shown(view: KernelView, names: Seq<Seq<u8>>, count: nat) -> KernelView
    decreases count,
{
    if count == 0 {
        view
    } else {
        monitor::lined(names_shown(view, names, (count - 1) as nat), names[count - 1])
    }
}

/// A line on a path: what stands before it, and what behind.
pub open spec fn path_told(
    view: KernelView,
    before: &str,
    path: Seq<char>,
    after: &str,
) -> KernelView {
    monitor::told(
        view,
        lines::none().push(text::literal(before)).push(chars::encoded(path)).push(
            text::literal(after),
        ),
        96,
    )
}

/// A program with a task, in the shape of a path, or why it cannot start.
#[verifier::opaque]
pub open spec fn image_set(view: KernelView, pid: Pid, path: &'static str) -> (
    KernelView,
    Result<(), TaskError>,
) {
    let (tasks, result) = task::executed(view.tasks, pid, path);
    (view.with_tasks(tasks), result)
}

/// A program that starts: the path must be there and executable, and a program must belong
/// to it.
#[verifier::opaque]
pub open spec fn launched(view: KernelView, path: Seq<char>, exists_there: bool, executable: bool) -> (
    KernelView,
    Option<(Pid, Program)>,
) {
    if !exists_there {
        (path_told(view, "error: ", path, ": no such executable"), None)
    } else if !executable {
        (path_told(view, "error: ", path, ": not executable"), None)
    } else {
        match apps::program_with(path, 0) {
            None => (path_told(view, "error: ", path, ": loader missing"), None),
            Some(program) => match monitor::started(
                view,
                Some(view.shell_pid),
                program.path,
                TaskKind::User,
            ) {
                (view, Err(error)) => (monitor::failed(view, error), None),
                (view, Ok(pid)) => match image_set(view, pid, program.path) {
                    (view, Err(error)) => (monitor::failed(view, error), None),
                    (view, Ok(_)) => (
                        monitor::put(view, pid, TaskState::Running),
                        Some((pid, program)),
                    ),
                },
            },
        }
    }
}

/// A program that has ended with a status.
#[verifier::opaque]
pub open spec fn concluded(view: KernelView, pid: Pid, status: i32, background: bool) -> KernelView {
    match commands::ended(view, pid, status) {
        (view, Err(error)) => monitor::failed(view, error),
        (view, Ok(_)) => if background {
            monitor::told(
                view,
                (lines::none().push(text::literal("[")).push(fixed::decimal(pid as nat)).push(
                    text::literal("] zombie exit="),
                ) + lines::signed_pieces(status as int)).push(text::literal("; run `wait ")).push(
                    fixed::decimal(pid as nat),
                ).push(text::literal("`")),
                96,
            )
        } else {
            match commands::reaped(view, Some(pid), 0) {
                (view, Ok(Some(result))) => if result.status != 0 {
                    monitor::told(
                        view,
                        lines::none().push(text::literal("program exited with status "))
                            + lines::signed_pieces(result.status as int),
                        96,
                    )
                } else {
                    view
                },
                (view, _) => monitor::said(view, "error: foreground child could not be reaped"),
            }
        },
    }
}

/// A copy of the words from `from` on.
fn copied_words(words: &[Vec<char>], from: usize) -> (copy: Vec<Vec<char>>)
    requires
        from <= words@.len(),
    ensures
        chars::views(copy@) == chars::views(words@).skip(from as int),
{
    let mut copy: Vec<Vec<char>> = Vec::new();
    let mut index: usize = from;
    assert(chars::views(copy@) =~= chars::views(words@).subrange(from as int, from as int));
    while index < words.len()
        invariant
            from <= index <= words@.len(),
            chars::views(copy@) == chars::views(words@).subrange(from as int, index as int),
        decreases words@.len() - index,
    {
        let ghost before = copy@;
        let word = words[index].as_slice();
        copy.push(chars::part(word, 0, word.len()));
        assert(word@.subrange(0, word@.len() as int) =~= word@);
        assert(chars::views(copy@) =~= chars::views(before).push(word@));
        index += 1;
        assert(chars::views(copy@) =~= chars::views(words@).subrange(from as int, index as int));
    }
    assert(chars::views(copy@) =~= chars::views(words@).skip(from as int));
    copy
}

fn copied_word(word: &[char]) -> (copy: Vec<char>)
    ensures
        copy@ == word@,
{
    let copy = chars::part(word, 0, word.len());
    assert(copy@ =~= word@);
    copy
}

/// The words of a line, of which only the first eight count.
pub fn parse_words(line: &[char]) -> (words: Vec<Vec<char>>)
    ensures
        chars::views(words@) == words_of(line@),
{
    chars::split_whitespace(line, monitor::MAX_ARGS)
}

impl Kernel {
    fn show_programs(&mut self)
        requires
            old(self).wf(),
        ensures
            final(self).wf(),
            final(self)@ == programs_shown(old(self)@, 7),
    {
        let mut index: usize = 0;
        while index < apps::PROGRAM_COUNT
            invariant
                index <= 7,
                self.wf(),
                self@ == programs_shown(old(self)@, index as nat),
            decreases 7 - index,
        {
            let program = apps::program(index);
            self.write_filled::<96>(
                Line::new().text(program.path).text(" - ").text(program.summary),
            );
            index += 1;
        }
    }

    fn show_help(&mut self)
        requires
            old(self).wf(),
        ensures
            final(self).wf(),
            final(self)@ == helped(old(self)@),
    {
        reveal(helped);
        self.write_line(
            "帮助: help uname pwd whoami services ps apps ls cat exec execve exec-bg fork clone wait wait4 kill sigdemo futexdemo waitqdemo timerdemo sleep nice chrt taskset rebalance touch mkfile mkdir clear ipc ifconfig route ping shutdown",
        );
        self.write_line("编辑: edit <path>, vi <path>, nano <path>");
        self.write_line("应用: hello game echo calc settings video-player audio-player");
    }

    fn report_command(&mut self, name: &[char]) -> (known: bool)
        requires
            old(self).wf(),
        ensures
            final(self).wf(),
            known == report_run(old(self)@, name@) is Some,
            known ==> report_run(old(self)@, name@) == Some(final(self)@),
            !known ==> final(self)@ == old(self)@,
    {
        reveal(report_run);
        if chars::is(name, "help") {
            self.show_help();
        } else if chars::is(name, "uname") {
            self.write_line(arch::uname(self.machine.platform));
        } else if chars::is(name, "pwd") {
            self.write_line("/");
        } else if chars::is(name, "whoami") {
            self.write_line("root");
        } else if chars::is(name, "services") {
            let _ = self.log_ipc(
                self.shell_pid,
                Service::Kernel,
                RequestKind::KernelListServices,
                None,
            );
            self.show_services();
        } else if chars::is(name, "ps") {
            let _ = self.log_ipc(
                self.shell_pid,
                Service::Kernel,
                RequestKind::KernelListTasks,
                None,
            );
            self.show_tasks();
        } else if chars::is(name, "apps") {
            self.show_programs();
        } else if chars::is(name, "ipc") {
            self.show_ipc_trace();
        } else {
            return false;
        }
        true
    }

    fn task_command(&mut self, words: &[Vec<char>], now_ns: u64) -> (step: Option<ShellStep>)
        requires
            old(self).wf(),
            words@.len() > 0,
            signals(chars::views(words@)) ==> old(self)@.tasks.next_pid <= 0x7ff_ffff,
        ensures
            final(self).wf(),
            match step {
                Some(step) => task_run(old(self)@, chars::views(words@), now_ns) == Some(
                    (final(self)@, step@),
                ),
                None => task_run(old(self)@, chars::views(words@), now_ns) is None && final(self)@
                    == old(self)@,
            },
    {
        reveal(task_run);
        let name = words[0].as_slice();
        assert(name@ == chars::views(words@)[0]);
        if chars::is(name, "fork") {
            self.fork_command(words);
        } else if chars::is(name, "clone") {
            self.clone_command(words);
        } else if chars::is(name, "wait") {
            self.wait_command(words);
        } else if chars::is(name, "wait4") {
            self.wait4_command(words);
        } else if chars::is(name, "kill") {
            self.kill_command(words);
        } else if chars::is(name, "sigdemo") {
            self.signal_demo();
        } else if chars::is(name, "futexdemo") {
            self.futex_demo();
        } else if chars::is(name, "waitqdemo") {
            self.wait_queue_demo();
        } else if chars::is(name, "timerdemo") {
            self.timer_demo(now_ns);
        } else if chars::is(name, "sleep") {
            if let Some(sleeper) = self.sleep_command(words, now_ns) {
                return Some(ShellStep::Sleep(sleeper));
            }
        } else if chars::is(name, "nice") {
            self.nice_command(words);
        } else if chars::is(name, "chrt") {
            self.chrt_command(words);
        } else if chars::is(name, "taskset") {
            self.taskset_command(words);
        } else if chars::is(name, "rebalance") {
            self.rebalance_command();
        } else {
            return None;
        }
        Some(ShellStep::Done)
    }

    fn usage_of(name: &[char]) -> (text: Option<&'static str>)
        ensures
            text == usage(name@),
    {
        if chars::is(name, "cat") {
            Some("usage: cat <path>")
        } else if chars::is(name, "mkfile") {
            Some("usage: mkfile <path>")
        } else if chars::is(name, "touch") {
            Some("usage: touch <path>")
        } else if chars::is(name, "mkdir") {
            Some("usage: mkdir <path>")
        } else if chars::is(name, "edit") || chars::is(name, "vi") || chars::is(name, "nano") {
            Some("usage: edit <path>")
        } else if chars::is(name, "exec") {
            Some("usage: exec <path> [args]")
        } else if chars::is(name, "execve") {
            Some("usage: execve <path> [args]")
        } else if chars::is(name, "exec-bg") {
            Some("usage: exec-bg <path> [args]")
        } else if chars::is(name, "ping") {
            Some("usage: ping <ipv4>")
        } else {
            None
        }
    }

    /// Asks for a program.
    pub fn exec_path(&mut self, path: Vec<char>, argv: Vec<Vec<char>>, background: bool) -> (step:
        ShellStep)
        requires
            old(self).wf(),
        ensures
            final(self).wf(),
            (final(self)@, step@) == execution(
                old(self)@,
                path@,
                chars::views(argv@),
                background,
            ),
    {
        let detail = chars::encode(path.as_slice());
        let _ = self.log_ipc(
            self.shell_pid,
            Service::Proc,
            RequestKind::ProcExec,
            Some(detail.as_slice()),
        );
        ShellStep::Execute(path, argv, background)
    }

    fn path_command(&mut self, words: &[Vec<char>]) -> (step: Option<ShellStep>)
        requires
            old(self).wf(),
            words@.len() > 0,
        ensures
            final(self).wf(),
            match step {
                Some(step) => path_run(old(self)@, chars::views(words@)) == Some(
                    (final(self)@, step@),
                ),
                None => path_run(old(self)@, chars::views(words@)) is None && final(self)@ == old(
                    self,
                )@,
            },
    {
        reveal(path_run);
        let name = words[0].as_slice();
        assert(name@ == chars::views(words@)[0]);
        let usage = match Self::usage_of(name) {
            Some(usage) => usage,
            None => {
                return None;
            },
        };
        if words.len() <= 1 {
            self.write_line(usage);
            return Some(ShellStep::Done);
        }
        let path = words[1].as_slice();
        assert(path@ == chars::views(words@)[1]);
        if chars::is(name, "cat") {
            let detail = chars::encode(path);
            let _ = self.log_ipc(
                self.shell_pid,
                Service::Vfs,
                RequestKind::VfsReadFile,
                Some(detail.as_slice()),
            );
            return Some(ShellStep::ReadFile(copied_word(path)));
        }
        if chars::is(name, "mkfile") || chars::is(name, "touch") {
            return Some(ShellStep::CreateFile(copied_word(name), copied_word(path)));
        }
        if chars::is(name, "mkdir") {
            return Some(ShellStep::CreateDir(copied_word(path)));
        }
        if chars::is(name, "edit") || chars::is(name, "vi") || chars::is(name, "nano") {
            return Some(ShellStep::Edit(copied_word(path)));
        }
        if chars::is(name, "ping") {
            let detail = chars::encode(path);
            let _ = self.log_ipc(
                self.shell_pid,
                Service::Net,
                RequestKind::NetPing,
                Some(detail.as_slice()),
            );
            return match self.ping_host(detail.as_slice()) {
                Some(target) => Some(ShellStep::Ping(target)),
                None => Some(ShellStep::Done),
            };
        }
        let background = chars::is(name, "exec-bg");
        Some(self.exec_path(copied_word(path), copied_words(words, 1), background))
    }

    fn other_command(&mut self, line: &[char], words: &[Vec<char>]) -> (step: ShellStep)
        requires
            old(self).wf(),
            words@.len() > 0,
        ensures
            final(self).wf(),
            (final(self)@, step@) == other_run(old(self)@, line@, chars::views(words@)),
    {
        reveal(other_run);
        let name = words[0].as_slice();
        assert(name@ == chars::views(words@)[0]);
        if chars::is(name, "ls") {
            let path = if words.len() > 1 {
                copied_word(words[1].as_slice())
            } else {
                chars::chars_of("/")
            };
            let detail = chars::encode(path.as_slice());
            let _ = self.log_ipc(
                self.shell_pid,
                Service::Vfs,
                RequestKind::VfsListDir,
                Some(detail.as_slice()),
            );
            return ShellStep::ListDir(path);
        }
        if chars::is(name, "clear") {
            return ShellStep::Clear;
        }
        let route = chars::is(name, "route");
        if chars::is(name, "ifconfig") || route {
            let _ = self.log_ipc(self.shell_pid, Service::Net, RequestKind::NetStatus, None);
            return if route {
                ShellStep::Route
            } else {
                ShellStep::Ifconfig
            };
        }
        if chars::is(name, "shutdown") || chars::is(name, "poweroff") || chars::is(name, "exit")
            || chars::is(name, "quit") {
            self.write_line("Shutting down v-kernel.");
            return ShellStep::Shutdown;
        }
        match apps::resolve_command(name) {
            Some(path) => {
                let argv = copied_words(words, 0);
                assert(chars::views(words@).skip(0) =~= chars::views(words@));
                self.exec_path(chars::chars_of(path), argv, false)
            },
            None => {
                let shown = chars::encode(line);
                self.write_filled::<96>(
                    Line::new().text("unknown command: ").bytes(shown.as_slice()),
                );
                ShellStep::Done
            },
        }
    }

    /// Does what a line says, as far as the machine is not needed for it. The stack of a
    /// task that takes a signal lies below the address that its number gives.
    pub fn shell_command(&mut self, line: &str, now_ns: u64) -> (step: ShellStep)
        requires
            old(self).wf(),
            signals(words_of(chars::trimmed(line@))) ==> old(self)@.tasks.next_pid <= 0x7ff_ffff,
        ensures
            final(self).wf(),
            (final(self)@, step@) == commanded(old(self)@, chars::trimmed(line@), now_ns),
            final(self)@.tasks.next_pid <= old(self)@.tasks.next_pid + 1,
    {
        proof {
            laws::law_lines_keep_the_house(self@, chars::trimmed(line@), now_ns);
        }
        let whole = chars::chars_of(line);
        let trimmed = chars::trim(whole.as_slice());
        let words = parse_words(trimmed.as_slice());
        if words.len() == 0 {
            return ShellStep::Done;
        }
        assert(words@[0]@ == chars::views(words@)[0]);
        if self.report_command(words[0].as_slice()) {
            return ShellStep::Done;
        }
        if let Some(step) = self.task_command(words.as_slice(), now_ns) {
            return step;
        }
        if let Some(step) = self.path_command(words.as_slice()) {
            return step;
        }
        self.other_command(trimmed.as_slice(), words.as_slice())
    }

    /// Shows the names in a directory, or why there are none.
    pub fn list_entries(&mut self, path: &[char], names: Result<&[Vec<u8>], &str>)
        requires
            old(self).wf(),
        ensures
            final(self).wf(),
            final(self)@ == (match names {
                Ok(names) => names_shown(
                    old(self)@,
                    fixed::piece_views(names@),
                    names@.len(),
                ),
                Err(error) => monitor::told(
                    old(self)@,
                    lines::none().push(text::literal("error: ")).push(chars::encoded(path@)).push(
                        text::literal(": "),
                    ).push(text::literal(error)),
                    96,
                ),
            }),
    {
        match names {
            Ok(names) => {
                let mut index: usize = 0;
                while index < names.len()
                    invariant
                        index <= names@.len(),
                        self.wf(),
                        self@ == names_shown(
                            old(self)@,
                            fixed::piece_views(names@),
                            index as nat,
                        ),
                    decreases names@.len() - index,
                {
                    self.write_bytes_line(names[index].as_slice());
                    index += 1;
                }
            },
            Err(error) => {
                let shown = chars::encode(path);
                self.write_filled::<96>(
                    Line::new().text("error: ").bytes(shown.as_slice()).text(": ").text(error),
                );
            },
        }
    }

    fn tell_path(&mut self, before: &str, path: &[char], after: &str)
        requires
            old(self).wf(),
        ensures
            final(self).wf(),
            final(self)@ == path_told(old(self)@, before, path@, after),
    {
        let shown = chars::encode(path);
        self.write_filled::<96>(Line::new().text(before).bytes(shown.as_slice()).text(after));
    }

    /// Shows the text of a file, or that there is none.
    pub fn cat_path(&mut self, path: &[char], contents: Option<&[u8]>)
        requires
            old(self).wf(),
        ensures
            final(self).wf(),
            final(self)@ == (match contents {
                Some(bytes) => monitor::shown(old(self)@, old(self)@.shell_pid, bytes@),
                None => path_told(old(self)@, "error: ", path@, ": no such file"),
            }),
    {
        match contents {
            Some(bytes) => self.show(self.shell_pid, bytes),
            None => self.tell_path("error: ", path, ": no such file"),
        }
    }

    /// Shows why a command could not make a file or a directory.
    pub fn report_creation(&mut self, command: &[char], path: &[char], error: Option<&str>)
        requires
            old(self).wf(),
        ensures
            final(self).wf(),
            final(self)@ == (match error {
                Some(error) => monitor::told(
                    old(self)@,
                    lines::none().push(chars::encoded(command@)).push(text::literal(": ")).push(
                        chars::encoded(path@),
                    ).push(text::literal(": ")).push(text::literal(error)),
                    96,
                ),
                None => old(self)@,
            }),
    {
        if let Some(error) = error {
            let name = chars::encode(command);
            let shown = chars::encode(path);
            self.write_filled::<96>(
                Line::new().bytes(name.as_slice()).text(": ").bytes(shown.as_slice()).text(
                    ": ",
                ).text(error),
            );
        }
    }

    /// Shows that the editor could not open a file.
    pub fn report_editor(&mut self, path: &[char], opened: bool)
        requires
            old(self).wf(),
        ensures
            final(self).wf(),
            final(self)@ == (if opened {
                old(self)@
            } else {
                path_told(old(self)@, "editor: cannot open ", path@, "")
            }),
    {
        if !opened {
            self.tell_path("editor: cannot open ", path, "");
        }
    }

    fn set_image(&mut self, pid: Pid, path: &'static str) -> (result: Result<(), TaskError>)
        requires
            old(self).wf(),
        ensures
            final(self).wf(),
            (final(self)@, result) == image_set(old(self)@, pid, path),
    {
        reveal(image_set);
        self.tasks.execve(pid, path)
    }

    /// Starts a program.
    pub fn launch(&mut self, path: &[char], exists_there: bool, executable: bool) -> (started:
        Option<(Pid, Program)>)
        requires
            old(self).wf(),
        ensures
            final(self).wf(),
            (final(self)@, started) == launched(old(self)@, path@, exists_there, executable),
    {
        reveal(launched);
        if !exists_there {
            self.tell_path("error: ", path, ": no such executable");
            return None;
        }
        if !executable {
            self.tell_path("error: ", path, ": not executable");
            return None;
        }
        let program = match apps::lookup(path) {
            Some(program) => program,
            None => {
                self.tell_path("error: ", path, ": loader missing");
                return None;
            },
        };
        let pid: Pid = match self.spawn_task(Some(self.shell_pid), program.path, TaskKind::User) {
            Ok(pid) => pid,
            Err(error) => {
                self.write_error(error);
                return None;
            },
        };
        if let Err(error) = self.set_image(pid, program.path) {
            self.write_error(error);
            return None;
        }
        self.set_state(pid, TaskState::Running);
        Some((pid, program))
    }

    /// Ends a program with its status.
    pub fn conclude(&mut self, pid: Pid, status: i32, background: bool)
        requires
            old(self).wf(),
        ensures
            final(self).wf(),
            final(self)@ == concluded(old(self)@, pid, status, background),
    {
        reveal(concluded);
        if let Err(error) = self.end_task(pid, status) {
            self.write_error(error);
            return ;
        }
        if background {
            self.write_filled::<96>(
                Line::new().text("[").number(pid as u64).text("] zombie exit=").signed(
                    status as i64,
                ).text("; run `wait ").number(pid as u64).text("`"),
            );
            return ;
        }
        match self.reap(Some(pid), 0) {
            Ok(Some(result)) => {
                if result.status != 0 {
                    self.write_filled::<96>(
                        Line::new().text("program exited with status ").signed(
                            result.status as i64,
                        ),
                    );
                }
            },
            _ => self.write_line("error: foreground child could not be reaped"),
        }
    }
}

} // verus!
