//! What a program asks of the kernel.
use crate::fixed;
use crate::ipc::RequestKind;
use crate::kernel::monitor;
use crate::kernel::monitor::demos;
use crate::kernel::monitor::{Kernel, KernelView, Service};
use crate::kernel::task;
use crate::kernel::task::{Pid, Task};
use crate::lines;
use crate::lines::Line;
use crate::linux::errno::Errno;
use crate::text;
use vstd::prelude::*;

verus! {

/// The kernel as a program sees it.
pub struct SysApi<'a> {
    pub kernel: &'a mut Kernel,
    pub pid: Pid,
}

/// The task of a program, if it is there.
pub open spec fn task_of(view: KernelView, pid: Pid) -> Option<Task> {
    view.tasks.task(pid)
}

/// A program that falls asleep, and whether it sleeps.
pub open spec fn dozed(view: KernelView, pid: Pid, milliseconds: u32, now_ns: u64) -> (
    KernelView,
    bool,
) {
    if milliseconds == 0 {
        (view, false)
    } else {
        let (after, error) = demos::asleep(
            view,
            pid,
            now_ns,
            (milliseconds * 1_000_000) as u64,
        );
        (after, error is None)
    }
}

/// A request of a program to read or write a file, and whether it may.
pub open spec fn file_asked(view: KernelView, pid: Pid, request: RequestKind, path: &str) -> (
    KernelView,
    bool,
) {
    monitor::logged(view, pid, Service::Vfs, request, Some(text::literal(path)))
}

/// A text that was read, or why it was not.
pub open spec fn read_answer<T>(allowed: bool, contents: Option<T>) -> Result<T, &'static str> {
    if !allowed {
        Err("error: IPC access denied")
    } else {
        match contents {
            Some(contents) => Ok(contents),
            None => Err("error: requested file is not available"),
        }
    }
}

impl Kernel {
    /// Asks for a line of text for a task; without leave there is none.
    pub fn prompt_for(&mut self, caller: Pid) -> (allowed: bool)
        requires
            old(self).wf(),
        ensures
            final(self).wf(),
            (final(self)@, allowed) == monitor::logged(
                old(self)@,
                caller,
                Service::Console,
                RequestKind::ConsolePrompt,
                None,
            ),
    {
        self.log_ipc(caller, Service::Console, RequestKind::ConsolePrompt, None)
    }

    /// Asks for a line of text for the shell; without leave there is none.
    pub fn prompt(&mut self) -> (allowed: bool)
        requires
            old(self).wf(),
        ensures
            final(self).wf(),
            (final(self)@, allowed) == monitor::logged(
                old(self)@,
                old(self)@.shell_pid,
                Service::Console,
                RequestKind::ConsolePrompt,
                None,
            ),
    {
        self.prompt_for(self.shell_pid)
    }

    fn ask_file(&mut self, pid: Pid, request: RequestKind, path: &str) -> (allowed: bool)
        requires
            old(self).wf(),
        ensures
            final(self).wf(),
            (final(self)@, allowed) == file_asked(old(self)@, pid, request, path),
    {
        self.log_ipc(pid, Service::Vfs, request, Some(text::literal_bytes(path)))
    }

    fn find_task(&self, pid: Pid) -> (task: Option<Task>)
        requires
            self.wf(),
        ensures
            task == task_of(self@, pid),
    {
        self.tasks.get_by_pid(pid)
    }

    fn doze(&mut self, pid: Pid, milliseconds: u32, now_ns: u64) -> (asleep: bool)
        requires
            old(self).wf(),
        ensures
            final(self).wf(),
            (final(self)@, asleep) == dozed(old(self)@, pid, milliseconds, now_ns),
    {
        if milliseconds == 0 {
            return false;
        }
        self.lay_to_sleep(pid, now_ns, milliseconds as u64 * 1_000_000).is_none()
    }
}

impl<'a> SysApi<'a> {
    /// The kernel as it is.
    pub open spec fn kernel(&self) -> KernelView {
        self.kernel@
    }

    pub open spec fn wf(&self) -> bool {
        self.kernel.wf()
    }

    pub fn new(kernel: &'a mut Kernel, pid: Pid) -> (api: Self)
        requires
            old(kernel).wf(),
        ensures
            api.wf(),
            api.kernel() == old(kernel)@,
            api.pid == pid,
            *final(api.kernel) == *final(kernel),
    {
        SysApi { kernel, pid }
    }

    pub fn pid(&self) -> (pid: Pid)
        ensures
            pid == self.pid,
    {
        self.pid
    }

    pub fn ppid(&self) -> (pid: Pid)
        requires
            self.wf(),
        ensures
            pid == (match task_of(self.kernel(), self.pid) {
                Some(task) => match task.parent {
                    Some(parent) => parent,
                    None => 0,
                },
                None => 0,
            }),
    {
        match self.kernel.find_task(self.pid) {
            Some(task) => match task.parent {
                Some(parent) => parent,
                None => 0,
            },
            None => 0,
        }
    }

    pub fn tgid(&self) -> (pid: Pid)
        requires
            self.wf(),
        ensures
            pid == (match task_of(self.kernel(), self.pid) {
                Some(task) => task.tgid,
                None => 0,
            }),
    {
        match self.kernel.find_task(self.pid) {
            Some(task) => task.tgid,
            None => 0,
        }
    }

    pub fn pgid(&self) -> (pid: Pid)
        requires
            self.wf(),
        ensures
            pid == (match task_of(self.kernel(), self.pid) {
                Some(task) => task.pgid,
                None => 0,
            }),
    {
        match self.kernel.find_task(self.pid) {
            Some(task) => task.pgid,
            None => 0,
        }
    }

    pub fn sid(&self) -> (pid: Pid)
        requires
            self.wf(),
        ensures
            pid == (match task_of(self.kernel(), self.pid) {
                Some(task) => task.sid,
                None => 0,
            }),
    {
        match self.kernel.find_task(self.pid) {
            Some(task) => task.sid,
            None => 0,
        }
    }

    /// Shows text.
    pub fn write(&mut self, text: &str)
        requires
            old(self).wf(),
        ensures
            final(self).wf(),
            final(self).pid == old(self).pid,
            *final(final(self).kernel) == *final(old(self).kernel),
            final(self).kernel() == monitor::shown(
                old(self).kernel(),
                old(self).pid,
                text::literal(text),
            ),
    {
        self.kernel.show(self.pid, text::literal_bytes(text));
    }

    /// Shows a line.
    pub fn write_line(&mut self, text: &str)
        requires
            old(self).wf(),
        ensures
            final(self).wf(),
            final(self).pid == old(self).pid,
            *final(final(self).kernel) == *final(old(self).kernel),
            final(self).kernel() == monitor::shown(
                old(self).kernel(),
                old(self).pid,
                text::literal(text).push(10),
            ),
    {
        self.kernel.show_line(self.pid, text::literal_bytes(text));
    }

    /// Shows bytes.
    pub fn write_bytes(&mut self, bytes: &[u8])
        requires
            old(self).wf(),
        ensures
            final(self).wf(),
            final(self).pid == old(self).pid,
            *final(final(self).kernel) == *final(old(self).kernel),
            final(self).kernel() == monitor::shown(old(self).kernel(), old(self).pid, bytes@),
    {
        self.kernel.show(self.pid, bytes);
    }

    /// Shows a line with a number at its end.
    pub fn write_line_num(&mut self, prefix: &str, value: i32)
        requires
            old(self).wf(),
        ensures
            final(self).wf(),
            final(self).pid == old(self).pid,
            *final(final(self).kernel) == *final(old(self).kernel),
            final(self).kernel() == monitor::shown(
                old(self).kernel(),
                old(self).pid,
                lines::filled(
                    lines::none().push(text::literal(prefix)) + lines::signed_pieces(value as int),
                    64,
                ).push(10),
            ),
    {
        let line: fixed::InlineString<64> = Line::new().text(prefix).signed(value as i64).fill();
        self.kernel.show_line(self.pid, line.as_bytes());
    }

    /// Asks for a line of text; without leave there is none.
    pub fn prompt(&mut self) -> (allowed: bool)
        requires
            old(self).wf(),
        ensures
            final(self).wf(),
            final(self).pid == old(self).pid,
            *final(final(self).kernel) == *final(old(self).kernel),
            (final(self).kernel(), allowed) == monitor::logged(
                old(self).kernel(),
                old(self).pid,
                Service::Console,
                RequestKind::ConsolePrompt,
                None,
            ),
    {
        self.kernel.prompt_for(self.pid)
    }

    /// Hands out the text of a file that comes with the kernel.
    pub fn read_file(&mut self, path: &str, contents: Option<&'static str>) -> (result: Result<
        &'static str,
        &'static str,
    >)
        requires
            old(self).wf(),
        ensures
            final(self).wf(),
            final(self).pid == old(self).pid,
            *final(final(self).kernel) == *final(old(self).kernel),
            final(self).kernel() == file_asked(
                old(self).kernel(),
                old(self).pid,
                RequestKind::VfsReadFile,
                path,
            ).0,
            result == read_answer(
                file_asked(
                    old(self).kernel(),
                    old(self).pid,
                    RequestKind::VfsReadFile,
                    path,
                ).1,
                contents,
            ),
    {
        if !self.kernel.ask_file(self.pid, RequestKind::VfsReadFile, path) {
            return Err("error: IPC access denied");
        }
        match contents {
            Some(contents) => Ok(contents),
            None => Err("error: requested file is not available"),
        }
    }

    /// Hands out the bytes of a file.
    pub fn read_path<'b>(&mut self, path: &str, contents: Option<&'b [u8]>) -> (result: Result<
        &'b [u8],
        &'static str,
    >)
        requires
            old(self).wf(),
        ensures
            final(self).wf(),
            final(self).pid == old(self).pid,
            *final(final(self).kernel) == *final(old(self).kernel),
            final(self).kernel() == file_asked(
                old(self).kernel(),
                old(self).pid,
                RequestKind::VfsReadFile,
                path,
            ).0,
            result == read_answer(
                file_asked(
                    old(self).kernel(),
                    old(self).pid,
                    RequestKind::VfsReadFile,
                    path,
                ).1,
                contents,
            ),
    {
        if !self.kernel.ask_file(self.pid, RequestKind::VfsReadFile, path) {
            return Err("error: IPC access denied");
        }
        match contents {
            Some(contents) => Ok(contents),
            None => Err("error: requested file is not available"),
        }
    }

    /// Asks for leave to write a file.
    pub fn write_file(&mut self, path: &str) -> (result: Result<(), Errno>)
        requires
            old(self).wf(),
        ensures
            final(self).wf(),
            final(self).pid == old(self).pid,
            *final(final(self).kernel) == *final(old(self).kernel),
            final(self).kernel() == file_asked(
                old(self).kernel(),
                old(self).pid,
                RequestKind::VfsWriteFile,
                path,
            ).0,
            result == (if file_asked(
                old(self).kernel(),
                old(self).pid,
                RequestKind::VfsWriteFile,
                path,
            ).1 {
                Ok::<(), Errno>(())
            } else {
                Err(Errno::Access)
            }),
    {
        if self.kernel.ask_file(self.pid, RequestKind::VfsWriteFile, path) {
            Ok(())
        } else {
            Err(Errno::Access)
        }
    }

    /// Falls asleep, and says whether it does.
    pub fn sleep_ms(&mut self, milliseconds: u32, now_ns: u64) -> (asleep: bool)
        requires
            old(self).wf(),
        ensures
            final(self).wf(),
            final(self).pid == old(self).pid,
            *final(final(self).kernel) == *final(old(self).kernel),
            (final(self).kernel(), asleep) == dozed(
                old(self).kernel(),
                old(self).pid,
                milliseconds,
                now_ns,
            ),
    {
        self.kernel.doze(self.pid, milliseconds, now_ns)
    }

    /// Looks at the clock, and says whether the program still sleeps.
    pub fn sleep_on(&mut self, now_ns: u64) -> (asleep: bool)
        requires
            old(self).wf(),
        ensures
            final(self).wf(),
            final(self).pid == old(self).pid,
            *final(final(self).kernel) == *final(old(self).kernel),
            final(self).kernel() == old(self).kernel().with_tasks(
                task::polled(old(self).kernel().tasks, now_ns, 32).0,
            ),
            asleep == demos::sleeps(final(self).kernel(), old(self).pid),
    {
        self.kernel.poll_task_timers(now_ns);
        self.kernel.sleeping(self.pid)
    }
}

} // verus!
