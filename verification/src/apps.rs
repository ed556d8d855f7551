//! The programs that come with the kernel: what each shows, asks for and returns.
use crate::chars;
use crate::fixed;
use crate::lines;
use crate::lines::Line;
use crate::text;
use vstd::prelude::*;
use vstd::string::*;

pub mod game;
pub mod players;
pub mod settings;

verus! {

/// The programs.
#[derive(Clone, Copy, Debug, PartialEq, Eq, Structural)]
pub enum ProgramId {
    Hello,
    Game,
    Echo,
    Calc,
    Settings,
    VideoPlayer,
    AudioPlayer,
}

/// A program: where it lies and what it is.
#[derive(Clone, Copy, Debug)]
pub struct Program {
    pub path: &'static str,
    pub summary: &'static str,
    pub entry: ProgramId,
}

pub const PROGRAM_COUNT: usize = 7;

/// Program `index`.
pub open spec fn program_at(index: int) -> Program {
    if index == 0 {
        Program {
            path: "/bin/hello",
            summary: "hello app using console/vfs IPC",
            entry: ProgramId::Hello,
        }
    } else if index == 1 {
        Program {
            path: "/bin/game",
            summary: "interactive ASCII dungeon game",
            entry: ProgramId::Game,
        }
    } else if index == 2 {
        Program {
            path: "/bin/echo",
            summary: "Linux-style echo utility",
            entry: ProgramId::Echo,
        }
    } else if index == 3 {
        Program {
            path: "/bin/calc",
            summary: "tiny integer calculator",
            entry: ProgramId::Calc,
        }
    } else if index == 4 {
        Program {
            path: "/bin/settings",
            summary: "Linux-style settings utility backed by /etc/rustix/settings.conf",
            entry: ProgramId::Settings,
        }
    } else if index == 5 {
        Program {
            path: "/bin/video-player",
            summary: "safe demo video player for .rvf assets",
            entry: ProgramId::VideoPlayer,
        }
    } else {
        Program {
            path: "/bin/audio-player",
            summary: "safe demo audio player for .rta assets",
            entry: ProgramId::AudioPlayer,
        }
    }
}

/// Program `index`.
pub fn program(index: usize) -> (program: Program)
    requires
        index < PROGRAM_COUNT,
    ensures
        program == program_at(index as int),
{
    if index == 0 {
        Program {
            path: "/bin/hello",
            summary: "hello app using console/vfs IPC",
            entry: ProgramId::Hello,
        }
    } else if index == 1 {
        Program {
            path: "/bin/game",
            summary: "interactive ASCII dungeon game",
            entry: ProgramId::Game,
        }
    } else if index == 2 {
        Program {
            path: "/bin/echo",
            summary: "Linux-style echo utility",
            entry: ProgramId::Echo,
        }
    } else if index == 3 {
        Program {
            path: "/bin/calc",
            summary: "tiny integer calculator",
            entry: ProgramId::Calc,
        }
    } else if index == 4 {
        Program {
            path: "/bin/settings",
            summary: "Linux-style settings utility backed by /etc/rustix/settings.conf",
            entry: ProgramId::Settings,
        }
    } else if index == 5 {
        Program {
            path: "/bin/video-player",
            summary: "safe demo video player for .rvf assets",
            entry: ProgramId::VideoPlayer,
        }
    } else {
        Program {
            path: "/bin/audio-player",
            summary: "safe demo audio player for .rta assets",
            entry: ProgramId::AudioPlayer,
        }
    }
}

/// The programs.
pub fn programs() -> (list: Vec<Program>)
    ensures
        list@ == Seq::new(7, |i: int| program_at(i)),
{
    let mut list: Vec<Program> = Vec::new();
    let mut index: usize = 0;
    while index < PROGRAM_COUNT
        invariant
            index <= 7,
            list@ == Seq::new(index as nat, |i: int| program_at(i)),
        decreases 7 - index,
    {
        list.push(program(index));
        index += 1;
        assert(list@ =~= Seq::new(index as nat, |i: int| program_at(i)));
    }
    list
}

/// The first program from `from` on that lies at a path.
pub open spec fn program_with(path: Seq<char>, from: int) -> Option<Program>
    decreases 7 - from,
{
    if from >= 7 {
        None
    } else if program_at(from).path@ == path {
        Some(program_at(from))
    } else {
        program_with(path, from + 1)
    }
}

/// The program that lies at a path.
pub fn lookup(path: &[char]) -> (found: Option<Program>)
    ensures
        found == program_with(path@, 0),
{
    let mut index: usize = 0;
    while index < PROGRAM_COUNT
        invariant
            index <= 7,
            program_with(path@, index as int) == program_with(path@, 0),
        decreases 7 - index,
    {
        let candidate = program(index);
        if chars::is(path, candidate.path) {
            return Some(candidate);
        }
        index += 1;
    }
    None
}

/// The path of the program that a command names.
pub open spec fn command_path(command: Seq<char>) -> Option<&'static str> {
    if command == "hello"@ {
        Some("/bin/hello")
    } else if command == "game"@ {
        Some("/bin/game")
    } else if command == "echo"@ {
        Some("/bin/echo")
    } else if command == "calc"@ {
        Some("/bin/calc")
    } else if command == "settings"@ {
        Some("/bin/settings")
    } else if command == "video-player"@ || command == "video"@ {
        Some("/bin/video-player")
    } else if command == "audio-player"@ || command == "audio"@ {
        Some("/bin/audio-player")
    } else {
        None
    }
}

/// The path of the program that a command names.
pub fn resolve_command(command: &[char]) -> (path: Option<&'static str>)
    ensures
        path == command_path(command@),
{
    if chars::is(command, "hello") {
        Some("/bin/hello")
    } else if chars::is(command, "game") {
        Some("/bin/game")
    } else if chars::is(command, "echo") {
        Some("/bin/echo")
    } else if chars::is(command, "calc") {
        Some("/bin/calc")
    } else if chars::is(command, "settings") {
        Some("/bin/settings")
    } else if chars::is(command, "video-player") || chars::is(command, "video") {
        Some("/bin/video-player")
    } else if chars::is(command, "audio-player") || chars::is(command, "audio") {
        Some("/bin/audio-player")
    } else {
        None
    }
}

/// Something that a program does.
#[derive(Debug)]
pub enum AppStep {
    /// A line of text on the console.
    Line(Vec<u8>),
    /// Text on the console, without an end of line.
    Text(Vec<u8>),
    /// The screen is cleared.
    Clear,
    /// Nothing for so many milliseconds.
    Sleep(u32),
    /// A tone of so many vibrations a second.
    Tone(u32),
    /// No tone.
    Silence,
}

/// Something that a program does.
#[verifier::ext_equal]
pub enum StepView {
    Line(Seq<u8>),
    Text(Seq<u8>),
    Clear,
    Sleep(u32),
    Tone(u32),
    Silence,
}

impl View for AppStep {
    type V = StepView;

    open spec fn view(&self) -> StepView {
        match *self {
            AppStep::Line(bytes) => StepView::Line(bytes@),
            AppStep::Text(bytes) => StepView::Text(bytes@),
            AppStep::Clear => StepView::Clear,
            AppStep::Sleep(time) => StepView::Sleep(time),
            AppStep::Tone(frequency) => StepView::Tone(frequency),
            AppStep::Silence => StepView::Silence,
        }
    }
}

/// What a program does, one after the other.
pub struct Script {
    steps: Vec<AppStep>,
}

/// What steps are.
pub open spec fn step_views(steps: Seq<AppStep>) -> Seq<StepView> {
    steps.map_values(|step: AppStep| step@)
}

impl View for Script {
    type V = Seq<StepView>;

    closed spec fn view(&self) -> Seq<StepView> {
        step_views(self.steps@)
    }
}

/// A line of a text that stands in the source.
pub open spec fn said(text: &str) -> StepView {
    StepView::Line(text::literal(text))
}

impl Script {
    pub fn new() -> (script: Self)
        ensures
            script@ == Seq::<StepView>::empty(),
    {
        let script = Script { steps: Vec::new() };
        assert(script@ =~= Seq::<StepView>::empty());
        script
    }

    /// The steps.
    pub fn into_steps(self) -> (steps: Vec<AppStep>)
        ensures
            step_views(steps@) == self@,
    {
        self.steps
    }

    pub fn step(&mut self, step: AppStep)
        ensures
            final(self)@ == old(self)@.push(step@),
    {
        self.steps.push(step);
        assert(self@ =~= old(self)@.push(step@));
    }

    /// A line.
    pub fn line(&mut self, bytes: Vec<u8>)
        ensures
            final(self)@ == old(self)@.push(StepView::Line(bytes@)),
    {
        self.step(AppStep::Line(bytes));
    }

    /// A line of a text that stands in the source.
    pub fn say(&mut self, text: &str)
        ensures
            final(self)@ == old(self)@.push(said(text)),
    {
        self.line(copied(text::literal_bytes(text)));
    }
}

/// A copy of bytes.
pub fn copied(bytes: &[u8]) -> (copy: Vec<u8>)
    ensures
        copy@ == bytes@,
{
    let mut copy: Vec<u8> = Vec::new();
    let mut index: usize = 0;
    while index < bytes.len()
        invariant
            index <= bytes@.len(),
            copy@ == bytes@.take(index as int),
        decreases bytes@.len() - index,
    {
        copy.push(bytes[index]);
        index += 1;
        assert(copy@ =~= bytes@.take(index as int));
    }
    assert(bytes@.take(index as int) =~= bytes@);
    copy
}

/// What a buffer of a capacity holds of pieces, as a line.
pub open spec fn wrote(pieces: Seq<Seq<u8>>, capacity: nat) -> StepView {
    StepView::Line(lines::filled(pieces, capacity))
}

/// The bytes that a buffer of 96 holds of a line.
pub(crate) fn filled96(line: Line) -> (bytes: Vec<u8>)
    ensures
        bytes@ == lines::filled(line@, 96),
{
    let buffer = line.fill::<96>();
    copied(buffer.as_bytes())
}

/// What the words behind the first are in one line of at most 256 bytes.
pub open spec fn echoed(argv: Seq<Seq<char>>, count: nat) -> Seq<u8>
    decreases count,
{
    if count <= 1 {
        Seq::empty()
    } else {
        let before = echoed(argv, (count - 1) as nat);
        let spaced = if count > 2 {
            fixed::appended(before, seq![32u8], 256)
        } else {
            before
        };
        fixed::appended(spaced, chars::encoded(argv[count - 1]), 256)
    }
}

/// Shows its arguments.
pub fn echo_main(argv: &[Vec<char>]) -> (result: (Script, i32))
    ensures
        result.0@ == seq![StepView::Line(echoed(chars::views(argv@), argv@.len()))],
        result.1 == 0,
{
    let mut line: fixed::InlineString<256> = fixed::InlineString::new();
    let mut index: usize = 1;
    let count: usize = argv.len();
    assert(line@ =~= echoed(chars::views(argv@), 1));
    while index < count
        invariant
            1 <= index,
            count == argv@.len(),
            index <= count || (count == 0 && index == 1),
            line@ == echoed(chars::views(argv@), index as nat),
        decreases count - index,
    {
        let ghost before = line@;
        if index > 1 {
            let pushed = line.push_byte(32);
            assert(line@ =~= fixed::appended(before, seq![32u8], 256));
        }
        let word = chars::encode(argv[index].as_slice());
        assert(chars::views(argv@)[index as int] == argv@[index as int]@);
        let _ = line.push_bytes(word.as_slice());
        index += 1;
    }
    let mut script = Script::new();
    if count == 0 {
        assert(echoed(chars::views(argv@), 0) =~= echoed(chars::views(argv@), 1));
    }
    script.line(copied(line.as_bytes()));
    assert(script@ =~= seq![StepView::Line(echoed(chars::views(argv@), argv@.len()))]);
    (script, 0)
}

/// The number that a text writes with an optional sign; no digits at all write zero, and
/// a number that does not fit is the largest.
pub open spec fn signed_number(text: Seq<char>) -> Option<int> {
    let negative = text.len() > 0 && text[0] == '-';
    let digits = if negative {
        text.skip(1)
    } else {
        text
    };
    match chars::digits_value(digits, i32::MAX as int) {
        Some(value) => Some(
            if negative {
                -value
            } else {
                value
            },
        ),
        None => None,
    }
}

/// The number that a text writes with an optional sign.
pub fn parse_i32(text: &[char]) -> (number: Option<i32>)
    ensures
        match number {
            Some(value) => signed_number(text@) == Some(value as int),
            None => signed_number(text@) is None,
        },
        number matches Some(value) ==> value >= -i32::MAX,
{
    let negative = text.len() > 0 && text[0] == '-';
    let start: usize = if negative {
        1
    } else {
        0
    };
    let ghost digits = text@.skip(start as int);
    let mut value: i32 = 0;
    let mut index: usize = start;
    assert(digits.take(0) =~= Seq::<char>::empty());
    assert(start == 0 ==> digits =~= text@);
    while index < text.len()
        invariant
            start <= index <= text@.len(),
            digits == text@.skip(start as int),
            value >= 0,
            chars::digits_value(digits.take(index - start), i32::MAX as int) == Some(value as int),
            signed_number(text@) == (match chars::digits_value(digits, i32::MAX as int) {
                Some(value) => Some(
                    if negative {
                        -value
                    } else {
                        value
                    },
                ),
                None => None,
            }),
        decreases text@.len() - index,
    {
        assert(digits.take(index - start + 1).drop_last() =~= digits.take(index - start));
        assert(digits[index - start] == text@[index as int]);
        let code: u32 = text[index] as u32;
        if code < 48 || code > 57 {
            proof {
                chars::lemma_bad_digit(digits, i32::MAX as int, index - start);
            }
            return None;
        }
        let wide: i64 = value as i64 * 10 + (code - 48) as i64;
        value = if wide > i32::MAX as i64 {
            i32::MAX
        } else {
            wide as i32
        };
        index += 1;
    }
    assert(digits.take(index - start) =~= digits);
    Some(
        if negative {
            -value
        } else {
            value
        },
    )
}

/// A number in the range of 32 bits with a sign.
pub open spec fn limited(value: int) -> int {
    if value > i32::MAX {
        i32::MAX as int
    } else if value < i32::MIN {
        i32::MIN as int
    } else {
        value
    }
}

/// A quotient rounded toward zero.
pub open spec fn quotient(value: int, divisor: int) -> int {
    let size = (if value < 0 {
        -value
    } else {
        value
    }) / (if divisor < 0 {
        -divisor
    } else {
        divisor
    });
    if (value < 0) == (divisor < 0) {
        size
    } else {
        -size
    }
}

/// What two numbers give under an operator, or what to say instead.
pub open spec fn calculated(left: int, operator: Seq<char>, right: int) -> Result<
    int,
    &'static str,
> {
    if operator == "+"@ {
        Ok(limited(left + right))
    } else if operator == "-"@ {
        Ok(limited(left - right))
    } else if operator == "*"@ || operator == "x"@ {
        Ok(limited(left * right))
    } else if operator == "/"@ {
        if right == 0 {
            Err("calc: division by zero")
        } else {
            Ok(quotient(left, right))
        }
    } else {
        Err("calc: unsupported operator")
    }
}

/// What the calculator shows and returns.
pub open spec fn calc(argv: Seq<Seq<char>>) -> (StepView, i32) {
    if argv.len() != 4 {
        (said("usage: calc <a> <op> <b>"), 1)
    } else {
        match (signed_number(argv[1]), signed_number(argv[3])) {
            (None, _) => (said("calc: invalid left operand"), 1),
            (_, None) => (said("calc: invalid right operand"), 1),
            (Some(left), Some(right)) => match calculated(left, argv[2], right) {
                Err(message) => (said(message), 1),
                Ok(value) => (wrote(lines::signed_pieces(value), 64), 0),
            },
        }
    }
}

fn narrow(value: i64) -> (result: i32)
    ensures
        result == limited(value as int),
{
    if value > i32::MAX as i64 {
        i32::MAX
    } else if value < i32::MIN as i64 {
        i32::MIN
    } else {
        value as i32
    }
}

fn divide(left: i32, right: i32) -> (result: i32)
    requires
        right != 0,
        left >= -i32::MAX,
    ensures
        result == quotient(left as int, right as int),
{
    let left_size: u32 = if left < 0 {
        (-(left as i64)) as u32
    } else {
        left as u32
    };
    let right_size: u32 = if right < 0 {
        (-(right as i64)) as u32
    } else {
        right as u32
    };
    let size: u32 = left_size / right_size;
    assert(size <= left_size) by (nonlinear_arith)
        requires
            right_size >= 1,
            size == left_size / right_size,
    ;
    if (left < 0) == (right < 0) {
        size as i32
    } else {
        -(size as i32)
    }
}

fn calculate(left: i32, operator: &[char], right: i32) -> (result: Result<i32, &'static str>)
    requires
        left >= -i32::MAX,
    ensures
        match result {
            Ok(value) => calculated(left as int, operator@, right as int) == Ok::<
                int,
                &'static str,
            >(value as int),
            Err(message) => calculated(left as int, operator@, right as int) == Err::<
                int,
                &'static str,
            >(message),
        },
{
    if chars::is(operator, "+") {
        Ok(narrow(left as i64 + right as i64))
    } else if chars::is(operator, "-") {
        Ok(narrow(left as i64 - right as i64))
    } else if chars::is(operator, "*") || chars::is(operator, "x") {
        assert(-0x4000_0000_0000_0000 <= left * right <= 0x4000_0000_0000_0000)
            by (nonlinear_arith)
            requires
                -0x8000_0000 <= left <= 0x7fff_ffff,
                -0x8000_0000 <= right <= 0x7fff_ffff,
        ;
        Ok(narrow(left as i64 * right as i64))
    } else if chars::is(operator, "/") {
        if right == 0 {
            return Err("calc: division by zero");
        }
        Ok(divide(left, right))
    } else {
        Err("calc: unsupported operator")
    }
}

/// Calculates with two numbers.
pub fn calc_main(argv: &[Vec<char>]) -> (result: (Script, i32))
    ensures
        (result.0@, result.1) == (
            seq![calc(chars::views(argv@)).0],
            calc(chars::views(argv@)).1,
        ),
{
    let mut script = Script::new();
    let ghost words = chars::views(argv@);
    if argv.len() != 4 {
        script.say("usage: calc <a> <op> <b>");
        assert(script@ =~= seq![calc(words).0]);
        return (script, 1);
    }
    assert(words[1] == argv@[1]@ && words[2] == argv@[2]@ && words[3] == argv@[3]@);
    let left: i32 = match parse_i32(argv[1].as_slice()) {
        None => {
            script.say("calc: invalid left operand");
            assert(script@ =~= seq![calc(words).0]);
            return (script, 1);
        },
        Some(value) => value,
    };
    let right: i32 = match parse_i32(argv[3].as_slice()) {
        None => {
            script.say("calc: invalid right operand");
            assert(script@ =~= seq![calc(words).0]);
            return (script, 1);
        },
        Some(value) => value,
    };
    match calculate(left, argv[2].as_slice(), right) {
        Err(message) => {
            script.say(message);
            assert(script@ =~= seq![calc(words).0]);
            (script, 1)
        },
        Ok(value) => {
            let line = Line::new().signed(value as i64);
            assert(line@ =~= lines::signed_pieces(value as int));
            let buffer = line.fill::<64>();
            script.line(copied(buffer.as_bytes()));
            assert(script@ =~= seq![calc(words).0]);
            (script, 0)
        },
    }
}

/// What a program can ask of its task.
#[derive(Clone, Copy, Debug, PartialEq, Eq, Structural)]
pub struct TaskNumbers {
    pub pid: u32,
    pub ppid: u32,
    pub tgid: u32,
    pub pgid: u32,
    pub sid: u32,
}

/// A number of 32 bits as one with a sign.
pub open spec fn as_signed(value: u32) -> int {
    if value >= 0x8000_0000 {
        value - 0x1_0000_0000
    } else {
        value as int
    }
}

/// A line with a name and a number, in a buffer of 64 bytes.
pub open spec fn numbered(prefix: &str, value: int) -> StepView {
    wrote(seq![text::literal(prefix)] + lines::signed_pieces(value), 64)
}

/// A line with a name and a number, in a buffer of 64 bytes.
pub fn write_line_num(script: &mut Script, prefix: &str, value: i64)
    ensures
        final(script)@ == old(script)@.push(numbered(prefix, value as int)),
{
    let line = Line::new().text(prefix).signed(value);
    assert(line@ =~= seq![text::literal(prefix)] + lines::signed_pieces(value as int));
    let buffer = line.fill::<64>();
    script.line(copied(buffer.as_bytes()));
}

fn signed_value(value: u32) -> (result: i64)
    ensures
        result == as_signed(value),
{
    if value >= 0x8000_0000 {
        value as i64 - 0x1_0000_0000
    } else {
        value as i64
    }
}

/// The line for an argument.
pub open spec fn argument_line(index: int, argument: Seq<char>) -> StepView {
    wrote(
        seq![
            text::literal("argv["),
            fixed::decimal(index as nat),
            text::literal("]="),
            chars::encoded(argument),
        ],
        96,
    )
}

/// The lines that say who runs with what.
pub open spec fn greeting(numbers: TaskNumbers, argv: Seq<Seq<char>>, count: nat) -> Seq<StepView>
    decreases count,
{
    if count == 0 {
        seq![
            said("Rustix v-kernel user program: /bin/hello"),
            said("model: proc service + vfs service + console service"),
            numbered("pid=", as_signed(numbers.pid)),
            numbered("ppid=", as_signed(numbers.ppid)),
            numbered("tgid=", as_signed(numbers.tgid)),
            numbered("pgid=", as_signed(numbers.pgid)),
            numbered("sid=", as_signed(numbers.sid)),
            numbered("argc=", argv.len() as int),
        ]
    } else {
        greeting(numbers, argv, (count - 1) as nat).push(
            argument_line(count - 1, argv[count - 1]),
        )
    }
}

/// The message of the day, or what to say instead.
pub open spec fn motd_steps(text: Result<Seq<u8>, &'static str>) -> Seq<StepView> {
    match text {
        Ok(bytes) => (if bytes.len() > 0 && bytes.last() == 10 {
            seq![said("--- /etc/motd ---"), StepView::Text(bytes)]
        } else {
            seq![
                said("--- /etc/motd ---"),
                StepView::Text(bytes),
                StepView::Line(Seq::empty()),
            ]
        }).push(said("--- end motd ---")),
        Err(message) => seq![said(message)],
    }
}

/// Says who runs with what. The message of the day is read after that.
pub fn hello_main(argv: &[Vec<char>], numbers: TaskNumbers) -> (script: Script)
    requires
        argv@.len() <= 8,
    ensures
        script@ == greeting(numbers, chars::views(argv@), argv@.len()),
{
    let mut script = Script::new();
    let ghost words = chars::views(argv@);
    script.say("Rustix v-kernel user program: /bin/hello");
    script.say("model: proc service + vfs service + console service");
    write_line_num(&mut script, "pid=", signed_value(numbers.pid));
    write_line_num(&mut script, "ppid=", signed_value(numbers.ppid));
    write_line_num(&mut script, "tgid=", signed_value(numbers.tgid));
    write_line_num(&mut script, "pgid=", signed_value(numbers.pgid));
    write_line_num(&mut script, "sid=", signed_value(numbers.sid));
    write_line_num(&mut script, "argc=", argv.len() as i64);
    assert(script@ =~= greeting(numbers, words, 0));
    let mut index: usize = 0;
    while index < argv.len()
        invariant
            index <= argv@.len() <= 8,
            words == chars::views(argv@),
            script@ == greeting(numbers, words, index as nat),
        decreases argv@.len() - index,
    {
        assert(words[index as int] == argv@[index as int]@);
        let word = chars::encode(argv[index].as_slice());
        let line = Line::new().text("argv[").number(index as u64).text("]=").bytes(word.as_slice());
        assert(line@ =~= seq![
            text::literal("argv["),
            fixed::decimal(index as nat),
            text::literal("]="),
            word@,
        ]);
        script.line(filled96(line));
        index += 1;
    }
    script
}

/// Shows the message of the day, or why it could not be read, and ends the program.
pub fn hello_told(motd: Result<&[u8], &'static str>) -> (result: (Script, i32))
    ensures
        result.0@ == motd_steps(
            match motd {
                Ok(bytes) => Ok(bytes@),
                Err(message) => Err(message),
            },
        ),
        result.1 == (if motd is Ok {
            0i32
        } else {
            1i32
        }),
{
    let mut script = Script::new();
    match motd {
        Ok(bytes) => {
            script.say("--- /etc/motd ---");
            script.step(AppStep::Text(copied(bytes)));
            let length: usize = bytes.len();
            if length == 0 || bytes[length - 1] != 10 {
                let empty: Vec<u8> = Vec::new();
                assert(empty@ =~= Seq::<u8>::empty());
                script.line(empty);
            }
            script.say("--- end motd ---");
            assert(script@ =~= motd_steps(Ok(bytes@)));
            (script, 0)
        },
        Err(message) => {
            script.say(message);
            assert(script@ =~= motd_steps(Err(message)));
            (script, 1)
        },
    }
}

} // verus!
