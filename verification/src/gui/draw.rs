//! The pieces that the desktop is drawn of.
use crate::arch::ClockTime;
use crate::fixed;
use crate::fixed::InlineString;
use crate::gui;
use crate::gui::events;
use crate::gui::hit;
use crate::gui::hit::Size;
use crate::gui::{ContextAction, DesktopUi, HitTarget, IconId, WindowId, WindowState};
use crate::lines;
use crate::lines::Line;
use crate::screen;
use crate::screen::letters;
use crate::screen::{Screen, ScreenView};
use crate::text;
use vstd::prelude::*;
use vstd::string::*;
use vstd::utf8::*;

verus! {

pub const WINDOW_WHITE: u8 = 64;

pub const TITLE_BLUE: u8 = 65;

pub const INK: u8 = 66;

pub const MINIMIZE_YELLOW: u8 = 67;

pub const ORANGE: u8 = 68;

pub const CLOSE_RED: u8 = 69;

pub const TASKBAR_CYAN: u8 = 70;

pub const SOFT_GRAY: u8 = 71;

pub const SELECTION: u8 = 72;

pub const TERMINAL_BLACK: u8 = 73;

pub const MUTED_TEXT: u8 = 74;

pub const EDITOR_PAPER: u8 = 75;

pub const START_GREEN: u8 = 76;

pub const VIDEO_PANEL: u8 = 77;

pub const AUDIO_PANEL: u8 = 78;

pub const SETTINGS_PANEL: u8 = 79;

pub const GLASS_TINT: u8 = 80;

pub const GLASS_HIGHLIGHT: u8 = 81;

pub const GLASS_EDGE: u8 = 82;

pub const GLASS_SHADOW: u8 = 83;

pub const PANEL_PAPER: u8 = 84;

pub const PANEL_INSET: u8 = 85;

pub const TITLE_MIST: u8 = 86;

pub const TASKBAR_DEEP: u8 = 87;

pub const ACTIVE_GLOW: u8 = 88;

pub const COPPER_ACCENT: u8 = 89;

pub const LOCK_VEIL: u8 = 90;

pub const AURORA_BLUE: u8 = 91;

pub const AURORA_GOLD: u8 = 92;

pub const AURORA_MINT: u8 = 93;

pub const NIGHT_INK: u8 = 94;

/// A number, or another where it is less.
pub open spec fn at_least(value: int, least: int) -> int {
    if value < least {
        least
    } else {
        value
    }
}

fn no_less(value: i32, least: i32) -> (result: i32)
    ensures
        result == at_least(value as int, least as int),
{
    if value < least {
        least
    } else {
        value
    }
}

fn clamp(value: i32, low: i32, high: i32) -> (result: i32)
    requires
        low <= high,
    ensures
        result == events::within(value as int, low as int, high as int),
        low <= result <= high,
{
    if value < low {
        low
    } else if value > high {
        high
    } else {
        value
    }
}

fn percent_of(width: i32, value: u8) -> (part: i32)
    requires
        0 <= width,
        width * value <= i32::MAX,
    ensures
        part == (width * value) / 100,
        part >= 0,
{
    assert(0 <= width * value) by (nonlinear_arith)
        requires
            0 <= width,
            0 <= value,
    ;
    ((width * value as i32) as u32 / 100) as i32
}

/// The characters of bytes; none where they are no text.
pub open spec fn lettered(bytes: Seq<u8>) -> Seq<char> {
    if valid_utf8(bytes) {
        decode_utf8(bytes)
    } else {
        Seq::empty()
    }
}

proof fn lemma_lettered(bytes: Seq<u8>)
    ensures
        lettered(bytes).len() <= bytes.len(),
{
    if valid_utf8(bytes) {
        lemma_decoded(bytes);
    }
}

proof fn lemma_decoded(bytes: Seq<u8>)
    requires
        valid_utf8(bytes),
    ensures
        decode_utf8(bytes).len() <= bytes.len(),
    decreases bytes.len(),
{
    if bytes.len() > 0 {
        lemma_decoded(pop_first_scalar(bytes));
    }
}

/// The characters of bytes; none where they are no text.
fn shown(bytes: &[u8]) -> (text: &str)
    ensures
        text@ == lettered(bytes@),
        text@.len() <= bytes@.len(),
{
    match fixed::utf8_text(bytes) {
        Some(text) => {
            proof {
                encode_utf8_decode_utf8(text@);
                lemma_decoded(bytes@);
            }
            text
        },
        None => {
            proof {
                reveal_strlit("");
                assert(""@ =~= Seq::<char>::empty());
            }
            ""
        },
    }
}

/// Text that is given as bytes, on the screen.
pub open spec fn bytes_drawn(s0: ScreenView, x: int, y: int, bytes: Seq<u8>, color: u8, scale: int) -> ScreenView {
    letters::text_drawn(s0, x, y, lettered(bytes), color, scale)
}

/// Draws text that is given as bytes.
pub(crate) fn draw_bytes(screen: &mut Screen, x: i32, y: i32, bytes: &[u8], color: u8, scale: i32)
    requires
        old(screen)@.wf(),
    ensures
        final(screen)@.wf(),
        screen::same_frame(old(screen)@, final(screen)@),
        final(screen)@ == bytes_drawn(
            old(screen)@,
            x as int,
            y as int,
            bytes@,
            color,
            scale as int,
        ),
{
    screen.draw_text(x, y, shown(bytes), color, scale);
}

/// How wide text is that is given as bytes.
fn shown_width(bytes: &[u8], scale: i32) -> (width: i32)
    requires
        letters::text_size(lettered(bytes@), scale as int) <= i32::MAX,
    ensures
        width == letters::text_size(lettered(bytes@), scale as int),
        width >= 0,
{
    letters::text_width(shown(bytes), scale)
}

/// A number of at least two digits: one piece, or two if the first is a zero.
pub open spec fn two_digits(value: u8) -> Seq<Seq<u8>> {
    if value < 10 {
        seq![seq![48u8], fixed::decimal(value as nat)]
    } else {
        seq![fixed::decimal(value as nat)]
    }
}

fn add_two_digits(line: Line, value: u8) -> (result: Line)
    ensures
        result@ == line@ + two_digits(value),
{
    if value < 10 {
        let zero: Vec<u8> = vec![48];
        proof {
            fixed::law_push_keeps_utf8(Seq::empty(), 48);
        }
        assert(zero@ =~= Seq::<u8>::empty().push(48));
        let result = line.piece(zero).number(value as u64);
        assert(result@ =~= line@ + two_digits(value));
        result
    } else {
        let result = line.number(value as u64);
        assert(result@ =~= line@ + two_digits(value));
        result
    }
}

/// The hour and the minute.
pub open spec fn clock_minutes(time: Option<ClockTime>) -> Seq<u8> {
    match time {
        Some(now) => lines::filled(
            two_digits(now.hour).push(text::literal(":")) + two_digits(now.minute),
            16,
        ),
        None => fixed::appended(Seq::empty(), text::literal("--:--"), 16),
    }
}

/// The hour, the minute and the second.
pub open spec fn clock_full(time: Option<ClockTime>) -> Seq<u8> {
    match time {
        Some(now) => lines::filled(
            (two_digits(now.hour).push(text::literal(":")) + two_digits(now.minute)).push(
                text::literal(":"),
            ) + two_digits(now.second),
            16,
        ),
        None => fixed::appended(Seq::empty(), text::literal("--:--:--"), 16),
    }
}

/// The second.
pub open spec fn clock_seconds(time: Option<ClockTime>) -> Seq<u8> {
    match time {
        Some(now) => lines::filled(two_digits(now.second), 8),
        None => fixed::appended(Seq::empty(), text::literal("--"), 8),
    }
}

fn write_clock_hm(time: Option<ClockTime>) -> (text: InlineString<16>)
    ensures
        text@ == clock_minutes(time),
{
    match time {
        Some(now) => {
            let line = add_two_digits(add_two_digits(Line::new(), now.hour).text(":"), now.minute);
            assert(line@ =~= two_digits(now.hour).push(text::literal(":")) + two_digits(
                now.minute,
            ));
            line.fill()
        },
        None => {
            let mut text: InlineString<16> = InlineString::new();
            let _ = text.push_bytes(text::literal_bytes("--:--"));
            text
        },
    }
}

fn write_clock_hms(time: Option<ClockTime>) -> (text: InlineString<16>)
    ensures
        text@ == clock_full(time),
{
    match time {
        Some(now) => {
            let minutes = add_two_digits(
                add_two_digits(Line::new(), now.hour).text(":"),
                now.minute,
            );
            let line = add_two_digits(minutes.text(":"), now.second);
            assert(line@ =~= (two_digits(now.hour).push(text::literal(":")) + two_digits(
                now.minute,
            )).push(text::literal(":")) + two_digits(now.second));
            line.fill()
        },
        None => {
            let mut text: InlineString<16> = InlineString::new();
            let _ = text.push_bytes(text::literal_bytes("--:--:--"));
            text
        },
    }
}

fn write_clock_seconds(time: Option<ClockTime>) -> (text: InlineString<8>)
    ensures
        text@ == clock_seconds(time),
{
    match time {
        Some(now) => {
            let line = add_two_digits(Line::new(), now.second);
            assert(line@ =~= two_digits(now.second));
            line.fill()
        },
        None => {
            let mut text: InlineString<8> = InlineString::new();
            let _ = text.push_bytes(text::literal_bytes("--"));
            text
        },
    }
}

/// The digits of a number in a small buffer.
pub open spec fn number_text(value: u8) -> Seq<u8> {
    lines::filled(seq![fixed::decimal(value as nat)], 16)
}

pub(crate) fn number_buffer(value: u8) -> (text: InlineString<16>)
    ensures
        text@ == number_text(value),
{
    let line = Line::new().number(value as u64);
    assert(line@ =~= seq![fixed::decimal(value as nat)]);
    line.fill()
}

/// The name under an icon of the desktop.
pub open spec fn icon_name(icon: IconId) -> &'static str {
    match icon {
        IconId::Files => "文件",
        IconId::Cmd => "命令",
        IconId::Editor => "编辑",
        IconId::Settings => "设置",
        IconId::Video => "视频",
        IconId::Audio => "音频",
    }
}

fn desktop_label(icon: IconId) -> (label: &'static str)
    ensures
        label == icon_name(icon),
        label@.len() == 2,
{
    proof {
        reveal_strlit("文件");
        reveal_strlit("命令");
        reveal_strlit("编辑");
        reveal_strlit("设置");
        reveal_strlit("视频");
        reveal_strlit("音频");
    }
    match icon {
        IconId::Files => "文件",
        IconId::Cmd => "命令",
        IconId::Editor => "编辑",
        IconId::Settings => "设置",
        IconId::Video => "视频",
        IconId::Audio => "音频",
    }
}

/// The name of a program in the start menu.
pub open spec fn program_name(icon: IconId) -> &'static str {
    match icon {
        IconId::Files => "文件",
        IconId::Cmd => "命令提示符",
        IconId::Editor => "编辑",
        IconId::Settings => "设置",
        IconId::Video => "视频",
        IconId::Audio => "音频",
    }
}

pub(crate) fn icon_label(icon: IconId) -> (label: &'static str)
    ensures
        label == program_name(icon),
{
    match icon {
        IconId::Files => "文件",
        IconId::Cmd => "命令提示符",
        IconId::Editor => "编辑",
        IconId::Settings => "设置",
        IconId::Video => "视频",
        IconId::Audio => "音频",
    }
}

/// The name of an item of the context menu.
pub open spec fn action_name(action: ContextAction) -> &'static str {
    match action {
        ContextAction::DesktopFiles => "文件",
        ContextAction::DesktopCommand => "命令提示符",
        ContextAction::DesktopSettings => "设置",
        ContextAction::FilesNewDirectory => "新建文件夹",
        ContextAction::FilesNewFile => "新建文件",
    }
}

pub(crate) fn context_action_label(action: ContextAction) -> (label: &'static str)
    ensures
        label == action_name(action),
{
    match action {
        ContextAction::DesktopFiles => "文件",
        ContextAction::DesktopCommand => "命令提示符",
        ContextAction::DesktopSettings => "设置",
        ContextAction::FilesNewDirectory => "新建文件夹",
        ContextAction::FilesNewFile => "新建文件",
    }
}

/// The shadow of a panel.
#[verifier::opaque]
pub open spec fn shadow(
    s0: ScreenView,
    x: int,
    y: int,
    w: int,
    h: int,
    radius: int,
    color: u8,
) -> ScreenView {
    let s1 = screen::round_alpha(s0, x, y, w, h, radius, color, 74);
    screen::round_alpha(s1, x + 1, y + 1, w - 2, h - 2, at_least(radius - 1, 0), color, 38)
}

pub(crate) fn draw_shadow(
    screen: &mut Screen,
    x: i32,
    y: i32,
    w: i32,
    h: i32,
    radius: i32,
    color: u8,
)
    requires
        old(screen)@.wf(),
        x + 1 <= i32::MAX,
        y + 1 <= i32::MAX,
        w - 2 >= i32::MIN,
        h - 2 >= i32::MIN,
        radius - 1 >= i32::MIN,
    ensures
        final(screen)@.wf(),
        screen::same_frame(old(screen)@, final(screen)@),
        final(screen)@ == shadow(
            old(screen)@,
            x as int,
            y as int,
            w as int,
            h as int,
            radius as int,
            color,
        ),
{
    reveal(shadow);
    screen.gfx_fill_round_rect_alpha(x, y, w, h, radius, color, 74);
    screen.gfx_fill_round_rect_alpha(x + 1, y + 1, w - 2, h - 2, no_less(radius - 1, 0), color, 38);
}

/// A folder.
#[verifier::opaque]
pub open spec fn folder_symbol(s0: ScreenView, x: int, y: int) -> ScreenView {
    let s1 = screen::round(s0, x, y + 4, 20, 14, 3, MINIMIZE_YELLOW);
    let s2 = screen::rect(s1, x + 3, y + 1, 7, 5, MINIMIZE_YELLOW);
    screen::rect(s2, x, y + 5, 20, 1, INK)
}

pub(crate) fn draw_folder_symbol(screen: &mut Screen, x: i32, y: i32)
    requires
        old(screen)@.wf(),
        x + 3 <= i32::MAX,
        y + 5 <= i32::MAX,
    ensures
        final(screen)@.wf(),
        screen::same_frame(old(screen)@, final(screen)@),
        final(screen)@ == folder_symbol(old(screen)@, x as int, y as int),
{
    reveal(folder_symbol);
    screen.gfx_fill_round_rect(x, y + 4, 20, 14, 3, MINIMIZE_YELLOW);
    screen.gfx_fill_rect(x + 3, y + 1, 7, 5, MINIMIZE_YELLOW);
    screen.gfx_fill_rect(x, y + 5, 20, 1, INK);
}

/// A terminal.
#[verifier::opaque]
pub open spec fn terminal_symbol(s0: ScreenView, x: int, y: int) -> ScreenView {
    let s1 = screen::round(s0, x, y + 1, 20, 16, 4, TERMINAL_BLACK);
    let s2 = letters::text_drawn(s1, x + 4, y + 5, ">"@, WINDOW_WHITE, 2);
    screen::rect(s2, x + 11, y + 11, 6, 2, WINDOW_WHITE)
}

pub(crate) fn draw_terminal_symbol(screen: &mut Screen, x: i32, y: i32)
    requires
        old(screen)@.wf(),
        x + 11 <= i32::MAX,
        y + 11 <= i32::MAX,
    ensures
        final(screen)@.wf(),
        screen::same_frame(old(screen)@, final(screen)@),
        final(screen)@ == terminal_symbol(old(screen)@, x as int, y as int),
{
    reveal(terminal_symbol);
    screen.gfx_fill_round_rect(x, y + 1, 20, 16, 4, TERMINAL_BLACK);
    screen.draw_text(x + 4, y + 5, ">", WINDOW_WHITE, 2);
    screen.gfx_fill_rect(x + 11, y + 11, 6, 2, WINDOW_WHITE);
}

/// A sheet with writing.
#[verifier::opaque]
pub open spec fn editor_symbol(s0: ScreenView, x: int, y: int) -> ScreenView {
    let s1 = screen::round(s0, x + 2, y + 1, 16, 16, 4, WINDOW_WHITE);
    let s2 = screen::rect(s1, x + 13, y + 2, 3, 4, TASKBAR_CYAN);
    let s3 = screen::rect(s2, x + 2, y + 1, 16, 1, INK);
    let s4 = screen::rect(s3, x + 2, y + 16, 16, 1, INK);
    let s5 = screen::rect(s4, x + 2, y + 1, 1, 16, INK);
    let s6 = screen::rect(s5, x + 17, y + 1, 1, 16, INK);
    let s7 = screen::rect(s6, x + 6, y + 7, 8, 2, TITLE_BLUE);
    screen::rect(s7, x + 6, y + 11, 6, 2, TITLE_BLUE)
}

pub(crate) fn draw_editor_symbol(screen: &mut Screen, x: i32, y: i32)
    requires
        old(screen)@.wf(),
        x + 17 <= i32::MAX,
        y + 16 <= i32::MAX,
    ensures
        final(screen)@.wf(),
        screen::same_frame(old(screen)@, final(screen)@),
        final(screen)@ == editor_symbol(old(screen)@, x as int, y as int),
{
    reveal(editor_symbol);
    screen.gfx_fill_round_rect(x + 2, y + 1, 16, 16, 4, WINDOW_WHITE);
    screen.gfx_fill_rect(x + 13, y + 2, 3, 4, TASKBAR_CYAN);
    screen.gfx_fill_rect(x + 2, y + 1, 16, 1, INK);
    screen.gfx_fill_rect(x + 2, y + 16, 16, 1, INK);
    screen.gfx_fill_rect(x + 2, y + 1, 1, 16, INK);
    screen.gfx_fill_rect(x + 17, y + 1, 1, 16, INK);
    screen.gfx_fill_rect(x + 6, y + 7, 8, 2, TITLE_BLUE);
    screen.gfx_fill_rect(x + 6, y + 11, 6, 2, TITLE_BLUE);
}

/// A wheel.
#[verifier::opaque]
pub open spec fn settings_symbol(s0: ScreenView, x: int, y: int) -> ScreenView {
    let s1 = screen::round(s0, x + 3, y + 3, 14, 14, 7, SETTINGS_PANEL);
    let s2 = screen::rect(s1, x + 8, y + 1, 4, 18, INK);
    let s3 = screen::rect(s2, x + 1, y + 8, 18, 4, INK);
    screen::round(s3, x + 5, y + 5, 10, 10, 5, WINDOW_WHITE)
}

pub(crate) fn draw_settings_symbol(screen: &mut Screen, x: i32, y: i32)
    requires
        old(screen)@.wf(),
        x + 8 <= i32::MAX,
        y + 8 <= i32::MAX,
    ensures
        final(screen)@.wf(),
        screen::same_frame(old(screen)@, final(screen)@),
        final(screen)@ == settings_symbol(old(screen)@, x as int, y as int),
{
    reveal(settings_symbol);
    screen.gfx_fill_round_rect(x + 3, y + 3, 14, 14, 7, SETTINGS_PANEL);
    screen.gfx_fill_rect(x + 8, y + 1, 4, 18, INK);
    screen.gfx_fill_rect(x + 1, y + 8, 18, 4, INK);
    screen.gfx_fill_round_rect(x + 5, y + 5, 10, 10, 5, WINDOW_WHITE);
}

/// A film.
#[verifier::opaque]
pub open spec fn video_symbol(s0: ScreenView, x: int, y: int) -> ScreenView {
    let s1 = screen::round(s0, x, y + 2, 20, 14, 4, VIDEO_PANEL);
    let s2 = screen::rect(s1, x + 2, y + 4, 16, 10, INK);
    let s3 = screen::rect(s2, x + 8, y + 6, 1, 6, WINDOW_WHITE);
    let s4 = screen::rect(s3, x + 9, y + 7, 1, 4, WINDOW_WHITE);
    screen::rect(s4, x + 10, y + 8, 1, 2, WINDOW_WHITE)
}

pub(crate) fn draw_video_symbol(screen: &mut Screen, x: i32, y: i32)
    requires
        old(screen)@.wf(),
        x + 10 <= i32::MAX,
        y + 8 <= i32::MAX,
    ensures
        final(screen)@.wf(),
        screen::same_frame(old(screen)@, final(screen)@),
        final(screen)@ == video_symbol(old(screen)@, x as int, y as int),
{
    reveal(video_symbol);
    screen.gfx_fill_round_rect(x, y + 2, 20, 14, 4, VIDEO_PANEL);
    screen.gfx_fill_rect(x + 2, y + 4, 16, 10, INK);
    screen.gfx_fill_rect(x + 8, y + 6, 1, 6, WINDOW_WHITE);
    screen.gfx_fill_rect(x + 9, y + 7, 1, 4, WINDOW_WHITE);
    screen.gfx_fill_rect(x + 10, y + 8, 1, 2, WINDOW_WHITE);
}

/// A note.
#[verifier::opaque]
pub open spec fn audio_symbol(s0: ScreenView, x: int, y: int) -> ScreenView {
    let s1 = screen::rect(s0, x + 9, y + 2, 2, 11, INK);
    let s2 = screen::rect(s1, x + 11, y + 2, 6, 2, INK);
    let s3 = screen::disk(s2, x + 7, y + 15, 3, AUDIO_PANEL);
    screen::disk(s3, x + 15, y + 13, 3, AUDIO_PANEL)
}

pub(crate) fn draw_audio_symbol(screen: &mut Screen, x: i32, y: i32)
    requires
        old(screen)@.wf(),
        x + 15 <= i32::MAX,
        y + 15 <= i32::MAX,
    ensures
        final(screen)@.wf(),
        screen::same_frame(old(screen)@, final(screen)@),
        final(screen)@ == audio_symbol(old(screen)@, x as int, y as int),
{
    reveal(audio_symbol);
    screen.gfx_fill_rect(x + 9, y + 2, 2, 11, INK);
    screen.gfx_fill_rect(x + 11, y + 2, 6, 2, INK);
    screen.gfx_fill_circle(x + 7, y + 15, 3, AUDIO_PANEL);
    screen.gfx_fill_circle(x + 15, y + 13, 3, AUDIO_PANEL);
}

/// A file.
#[verifier::opaque]
pub open spec fn file_symbol(s0: ScreenView, x: int, y: int) -> ScreenView {
    let s1 = screen::round(s0, x, y, 15, 18, 3, WINDOW_WHITE);
    let s2 = screen::rect(s1, x + 10, y + 1, 3, 4, TASKBAR_CYAN);
    let s3 = screen::rect(s2, x, y, 15, 1, INK);
    let s4 = screen::rect(s3, x, y + 17, 15, 1, INK);
    let s5 = screen::rect(s4, x, y, 1, 18, INK);
    screen::rect(s5, x + 14, y, 1, 18, INK)
}

pub(crate) fn draw_file_symbol(screen: &mut Screen, x: i32, y: i32)
    requires
        old(screen)@.wf(),
        x + 14 <= i32::MAX,
        y + 17 <= i32::MAX,
    ensures
        final(screen)@.wf(),
        screen::same_frame(old(screen)@, final(screen)@),
        final(screen)@ == file_symbol(old(screen)@, x as int, y as int),
{
    reveal(file_symbol);
    screen.gfx_fill_round_rect(x, y, 15, 18, 3, WINDOW_WHITE);
    screen.gfx_fill_rect(x + 10, y + 1, 3, 4, TASKBAR_CYAN);
    screen.gfx_fill_rect(x, y, 15, 1, INK);
    screen.gfx_fill_rect(x, y + 17, 15, 1, INK);
    screen.gfx_fill_rect(x, y, 1, 18, INK);
    screen.gfx_fill_rect(x + 14, y, 1, 18, INK);
}

/// The symbol of a program.
#[verifier::opaque]
pub open spec fn small_icon(s0: ScreenView, icon: IconId, x: int, y: int) -> ScreenView {
    match icon {
        IconId::Files => {
            let s1 = folder_symbol(s0, x, y);
            s1
        },
        IconId::Cmd => {
            let s1 = terminal_symbol(s0, x, y);
            s1
        },
        IconId::Editor => {
            let s1 = editor_symbol(s0, x, y);
            s1
        },
        IconId::Settings => {
            let s1 = settings_symbol(s0, x, y);
            s1
        },
        IconId::Video => {
            let s1 = video_symbol(s0, x, y);
            s1
        },
        IconId::Audio => {
            let s1 = audio_symbol(s0, x, y);
            s1
        },
    }
}

pub(crate) fn draw_small_icon(screen: &mut Screen, icon: IconId, x: i32, y: i32)
    requires
        old(screen)@.wf(),
        x + 17 <= i32::MAX,
        y + 16 <= i32::MAX,
    ensures
        final(screen)@.wf(),
        screen::same_frame(old(screen)@, final(screen)@),
        final(screen)@ == small_icon(old(screen)@, icon, x as int, y as int),
{
    reveal(small_icon);
    match icon {
        IconId::Files => {
            draw_folder_symbol(screen, x, y);
        },
        IconId::Cmd => {
            draw_terminal_symbol(screen, x, y);
        },
        IconId::Editor => {
            draw_editor_symbol(screen, x, y);
        },
        IconId::Settings => {
            draw_settings_symbol(screen, x, y);
        },
        IconId::Video => {
            draw_video_symbol(screen, x, y);
        },
        IconId::Audio => {
            draw_audio_symbol(screen, x, y);
        },
    }
}

/// A line between two parts of the bar.
#[verifier::opaque]
pub open spec fn separator(s0: ScreenView, x: int, y: int, h: int) -> ScreenView {
    let s1 = screen::rect_alpha(s0, x, y, 1, h, GLASS_HIGHLIGHT, 92);
    screen::rect_alpha(s1, x + 1, y, 1, h, GLASS_EDGE, 72)
}

pub(crate) fn draw_translucent_separator(screen: &mut Screen, x: i32, y: i32, h: i32)
    requires
        old(screen)@.wf(),
        x + 1 <= i32::MAX,
    ensures
        final(screen)@.wf(),
        screen::same_frame(old(screen)@, final(screen)@),
        final(screen)@ == separator(old(screen)@, x as int, y as int, h as int),
{
    reveal(separator);
    screen.gfx_fill_rect_alpha(x, y, 1, h, GLASS_HIGHLIGHT, 92);
    screen.gfx_fill_rect_alpha(x + 1, y, 1, h, GLASS_EDGE, 72);
}

/// A panel with a border.
#[verifier::opaque]
pub open spec fn rounded_panel(
    s0: ScreenView,
    x: int,
    y: int,
    w: int,
    h: int,
    radius: int,
    fill: u8,
    border: u8,
) -> ScreenView {
    let s1 = screen::round(s0, x, y, w, h, radius, border);
    screen::round_alpha(s1, x + 1, y + 1, w - 2, h - 2, at_least(radius - 1, 0), fill, 230)
}

pub(crate) fn draw_rounded_panel(
    screen: &mut Screen,
    x: i32,
    y: i32,
    w: i32,
    h: i32,
    radius: i32,
    fill: u8,
    border: u8,
)
    requires
        old(screen)@.wf(),
        x + 1 <= i32::MAX,
        y + 1 <= i32::MAX,
        w - 2 >= i32::MIN,
        h - 2 >= i32::MIN,
        radius - 1 >= i32::MIN,
    ensures
        final(screen)@.wf(),
        screen::same_frame(old(screen)@, final(screen)@),
        final(screen)@ == rounded_panel(
            old(screen)@,
            x as int,
            y as int,
            w as int,
            h as int,
            radius as int,
            fill,
            border,
        ),
{
    reveal(rounded_panel);
    screen.gfx_fill_round_rect(x, y, w, h, radius, border);
    screen.gfx_fill_round_rect_alpha(x + 1, y + 1, w - 2, h - 2, no_less(radius - 1, 0), fill, 230);
}

/// A panel with a border and a shadow.
#[verifier::opaque]
pub open spec fn shadow_panel(
    s0: ScreenView,
    x: int,
    y: int,
    w: int,
    h: int,
    radius: int,
    fill: u8,
    border: u8,
) -> ScreenView {
    let s1 = shadow(s0, x + 4, y + 5, w, h, radius, GLASS_SHADOW);
    let s2 = rounded_panel(s1, x, y, w, h, radius, border, GLASS_EDGE);
    let s3 = screen::round_alpha(
        s2,
        x + 1,
        y + 1,
        w - 2,
        h - 2,
        at_least(radius - 1, 0),
        fill,
        212,
    );
    screen::rect_alpha(s3, x + 5, y + 4, at_least(w - 10, 0), 1, GLASS_HIGHLIGHT, 180)
}

pub(crate) fn draw_shadow_rounded_panel(
    screen: &mut Screen,
    x: i32,
    y: i32,
    w: i32,
    h: i32,
    radius: i32,
    fill: u8,
    border: u8,
)
    requires
        old(screen)@.wf(),
        x + 5 <= i32::MAX,
        y + 6 <= i32::MAX,
        w - 10 >= i32::MIN,
        h - 2 >= i32::MIN,
        radius - 1 >= i32::MIN,
    ensures
        final(screen)@.wf(),
        screen::same_frame(old(screen)@, final(screen)@),
        final(screen)@ == shadow_panel(
            old(screen)@,
            x as int,
            y as int,
            w as int,
            h as int,
            radius as int,
            fill,
            border,
        ),
{
    reveal(shadow_panel);
    draw_shadow(screen, x + 4, y + 5, w, h, radius, GLASS_SHADOW);
    draw_rounded_panel(screen, x, y, w, h, radius, border, GLASS_EDGE);
    screen.gfx_fill_round_rect_alpha(x + 1, y + 1, w - 2, h - 2, no_less(radius - 1, 0), fill, 212);
    screen.gfx_fill_rect_alpha(x + 5, y + 4, no_less(w - 10, 0), 1, GLASS_HIGHLIGHT, 180);
}

/// The frame of a window.
#[verifier::opaque]
pub open spec fn window_frame(
    s0: ScreenView,
    x: int,
    y: int,
    w: int,
    h: int,
    radius: int,
) -> ScreenView {
    let s1 = shadow(s0, x + 5, y + 7, w, h, radius, GLASS_SHADOW);
    let s2 = screen::round(s1, x, y, w, h, radius, GLASS_EDGE);
    let s3 = screen::round_alpha(
        s2,
        x + 4,
        y + 4,
        w - 8,
        h - 8,
        at_least(radius - 4, 0),
        PANEL_PAPER,
        222,
    );
    screen::rect_alpha(s3, x + 8, y + 32, w - 16, 1, PANEL_INSET, 176)
}

pub(crate) fn draw_window_frame(screen: &mut Screen, x: i32, y: i32, w: i32, h: i32, radius: i32)
    requires
        old(screen)@.wf(),
        x + 8 <= i32::MAX,
        y + 32 <= i32::MAX,
        w - 16 >= i32::MIN,
        h - 8 >= i32::MIN,
        radius - 4 >= i32::MIN,
    ensures
        final(screen)@.wf(),
        screen::same_frame(old(screen)@, final(screen)@),
        final(screen)@ == window_frame(
            old(screen)@,
            x as int,
            y as int,
            w as int,
            h as int,
            radius as int,
        ),
{
    reveal(window_frame);
    draw_shadow(screen, x + 5, y + 7, w, h, radius, GLASS_SHADOW);
    screen.gfx_fill_round_rect(x, y, w, h, radius, GLASS_EDGE);
    screen.gfx_fill_round_rect_alpha(
        x + 4,
        y + 4,
        w - 8,
        h - 8,
        no_less(radius - 4, 0),
        PANEL_PAPER,
        222,
    );
    screen.gfx_fill_rect_alpha(x + 8, y + 32, w - 16, 1, PANEL_INSET, 176);
}

/// The bar at the bottom.
#[verifier::opaque]
pub open spec fn glass_bar(
    s0: ScreenView,
    x: int,
    y: int,
    w: int,
    h: int,
    radius: int,
) -> ScreenView {
    let s1 = shadow(s0, x + 4, y + 7, w, h, radius, GLASS_SHADOW);
    let s2 = screen::round(s1, x, y, w, h, radius, TASKBAR_DEEP);
    let s3 = screen::round_alpha(
        s2,
        x + 1,
        y + 1,
        w - 2,
        h - 2,
        at_least(radius - 1, 0),
        GLASS_TINT,
        144,
    );
    let s4 = screen::round_alpha(
        s3,
        x + 1,
        y + 1,
        w - 2,
        hit::half(h),
        at_least(radius - 1, 0),
        GLASS_HIGHLIGHT,
        88,
    );
    screen::rect_alpha(s4, x + 14, y + 5, w - 28, 1, GLASS_HIGHLIGHT, 164)
}

pub(crate) fn draw_glass_taskbar(screen: &mut Screen, x: i32, y: i32, w: i32, h: i32, radius: i32)
    requires
        old(screen)@.wf(),
        x + 14 <= i32::MAX,
        y + 8 <= i32::MAX,
        w - 28 >= i32::MIN,
        h - 2 >= i32::MIN,
        radius - 1 >= i32::MIN,
    ensures
        final(screen)@.wf(),
        screen::same_frame(old(screen)@, final(screen)@),
        final(screen)@ == glass_bar(
            old(screen)@,
            x as int,
            y as int,
            w as int,
            h as int,
            radius as int,
        ),
{
    reveal(glass_bar);
    draw_shadow(screen, x + 4, y + 7, w, h, radius, GLASS_SHADOW);
    screen.gfx_fill_round_rect(x, y, w, h, radius, TASKBAR_DEEP);
    screen.gfx_fill_round_rect_alpha(
        x + 1,
        y + 1,
        w - 2,
        h - 2,
        no_less(radius - 1, 0),
        GLASS_TINT,
        144,
    );
    screen.gfx_fill_round_rect_alpha(
        x + 1,
        y + 1,
        w - 2,
        hit::halve(h),
        no_less(radius - 1, 0),
        GLASS_HIGHLIGHT,
        88,
    );
    screen.gfx_fill_rect_alpha(x + 14, y + 5, w - 28, 1, GLASS_HIGHLIGHT, 164);
}

/// A field of the bar.
#[verifier::opaque]
pub open spec fn glass_chip(
    s0: ScreenView,
    x: int,
    y: int,
    w: int,
    h: int,
    radius: int,
    fill: u8,
    active: bool,
) -> ScreenView {
    let s1 = screen::round(s0, x, y, w, h, radius, GLASS_EDGE);
    let s2 = screen::round_alpha(
        s1,
        x + 1,
        y + 1,
        w - 2,
        h - 2,
        at_least(radius - 1, 0),
        fill,
        if active { 184 } else { 132 },
    );
    let s3 = screen::round_alpha(
        s2,
        x + 1,
        y + 1,
        w - 2,
        at_least(hit::half(h), 2),
        at_least(radius - 1, 0),
        GLASS_HIGHLIGHT,
        82,
    );
    if active {
        let s4 = screen::rect_alpha(s3, x + 5, y + h - 2, w - 10, 1, ACTIVE_GLOW, 180);
        s4
    } else {

        s3
    }
}

pub(crate) fn draw_glass_chip(
    screen: &mut Screen,
    x: i32,
    y: i32,
    w: i32,
    h: i32,
    radius: i32,
    fill: u8,
    active: bool,
)
    requires
        old(screen)@.wf(),
        x + 1 <= i32::MAX,
        y + 1 <= i32::MAX,
        w - 2 >= i32::MIN,
        h - 2 >= i32::MIN,
        radius - 1 >= i32::MIN,
        active ==> x + 5 <= i32::MAX,
        active ==> w - 10 >= i32::MIN,
        active ==> i32::MIN + 2 <= y + h <= i32::MAX,
    ensures
        final(screen)@.wf(),
        screen::same_frame(old(screen)@, final(screen)@),
        final(screen)@ == glass_chip(
            old(screen)@,
            x as int,
            y as int,
            w as int,
            h as int,
            radius as int,
            fill,
            active,
        ),
{
    reveal(glass_chip);
    screen.gfx_fill_round_rect(x, y, w, h, radius, GLASS_EDGE);
    screen.gfx_fill_round_rect_alpha(
        x + 1,
        y + 1,
        w - 2,
        h - 2,
        no_less(radius - 1, 0),
        fill,
        if active { 184 } else { 132 },
    );
    screen.gfx_fill_round_rect_alpha(
        x + 1,
        y + 1,
        w - 2,
        no_less(hit::halve(h), 2),
        no_less(radius - 1, 0),
        GLASS_HIGHLIGHT,
        82,
    );
    if active {
        screen.gfx_fill_rect_alpha(x + 5, y + h - 2, w - 10, 1, ACTIVE_GLOW, 180);
    }
}

/// A sheet of glass.
#[verifier::opaque]
pub open spec fn sheet_panel(
    s0: ScreenView,
    x: int,
    y: int,
    w: int,
    h: int,
    radius: int,
    tint: u8,
    body_alpha: u8,
    top_alpha: u8,
) -> ScreenView {
    let s1 = shadow(s0, x + 4, y + 5, w, h, radius, GLASS_SHADOW);
    let s2 = screen::round(s1, x, y, w, h, radius, GLASS_EDGE);
    let s3 = screen::round_alpha(
        s2,
        x + 1,
        y + 1,
        w - 2,
        h - 2,
        at_least(radius - 1, 0),
        tint,
        body_alpha,
    );
    let s4 = screen::round_alpha(
        s3,
        x + 1,
        y + 1,
        w - 2,
        at_least(hit::half(h), 2),
        at_least(radius - 1, 0),
        GLASS_HIGHLIGHT,
        top_alpha,
    );
    screen::rect_alpha(s4, x + 5, y + 4, at_least(w - 10, 0), 1, GLASS_HIGHLIGHT, 176)
}

pub(crate) fn draw_glass_sheet_panel(
    screen: &mut Screen,
    x: i32,
    y: i32,
    w: i32,
    h: i32,
    radius: i32,
    tint: u8,
    body_alpha: u8,
    top_alpha: u8,
)
    requires
        old(screen)@.wf(),
        x + 5 <= i32::MAX,
        y + 6 <= i32::MAX,
        w - 10 >= i32::MIN,
        h - 2 >= i32::MIN,
        radius - 1 >= i32::MIN,
    ensures
        final(screen)@.wf(),
        screen::same_frame(old(screen)@, final(screen)@),
        final(screen)@ == sheet_panel(
            old(screen)@,
            x as int,
            y as int,
            w as int,
            h as int,
            radius as int,
            tint,
            body_alpha,
            top_alpha,
        ),
{
    reveal(sheet_panel);
    draw_shadow(screen, x + 4, y + 5, w, h, radius, GLASS_SHADOW);
    screen.gfx_fill_round_rect(x, y, w, h, radius, GLASS_EDGE);
    screen.gfx_fill_round_rect_alpha(
        x + 1,
        y + 1,
        w - 2,
        h - 2,
        no_less(radius - 1, 0),
        tint,
        body_alpha,
    );
    screen.gfx_fill_round_rect_alpha(
        x + 1,
        y + 1,
        w - 2,
        no_less(hit::halve(h), 2),
        no_less(radius - 1, 0),
        GLASS_HIGHLIGHT,
        top_alpha,
    );
    screen.gfx_fill_rect_alpha(x + 5, y + 4, no_less(w - 10, 0), 1, GLASS_HIGHLIGHT, 176);
}

/// A bar that shows a percentage.
#[verifier::opaque]
pub open spec fn glass_progress(
    s0: ScreenView,
    x: int,
    y: int,
    w: int,
    h: int,
    value: u8,
    accent: u8,
) -> ScreenView {
    let width = at_least(w, 0);
    let filled = (width * value) / 100;
    let s1 = sheet_panel(s0, x, y, width, h, 3, GLASS_TINT, 110, 48);
    if filled > 0 {
        let s2 = screen::round_alpha(
            s1,
            x + 1,
            y + 1,
            at_least(filled - 2, 1),
            at_least(h - 2, 1),
            2,
            accent,
            156,
        );
        s2
    } else {

        s1
    }
}

pub(crate) fn draw_glass_progress(
    screen: &mut Screen,
    x: i32,
    y: i32,
    w: i32,
    h: i32,
    value: u8,
    accent: u8,
)
    requires
        old(screen)@.wf(),
        x + 5 <= i32::MAX,
        y + 6 <= i32::MAX,
        h - 2 >= i32::MIN,
        w * value <= i32::MAX,
    ensures
        final(screen)@.wf(),
        screen::same_frame(old(screen)@, final(screen)@),
        final(screen)@ == glass_progress(
            old(screen)@,
            x as int,
            y as int,
            w as int,
            h as int,
            value,
            accent,
        ),
{
    reveal(glass_progress);
    let width: i32 = no_less(w, 0);
    assert(0 * value == 0);
    let filled: i32 = percent_of(width, value);
    draw_glass_sheet_panel(screen, x, y, width, h, 3, GLASS_TINT, 110, 48);
    if filled > 0 {
        screen.gfx_fill_round_rect_alpha(
            x + 1,
            y + 1,
            no_less(filled - 2, 1),
            no_less(h - 2, 1),
            2,
            accent,
            156,
        );
    }
}

/// A button of a title.
#[verifier::opaque]
pub open spec fn title_button(
    s0: ScreenView,
    x: int,
    y: int,
    color: u8,
    hovered: bool,
    pressed: bool,
) -> ScreenView {
    let fill = if pressed {
        TITLE_MIST
    } else if hovered {
        GLASS_HIGHLIGHT
    } else {
        color
    };
    shadow_panel(s0, x, y, 14, 14, 5, fill, GLASS_EDGE)
}

pub(crate) fn draw_title_button(
    screen: &mut Screen,
    x: i32,
    y: i32,
    color: u8,
    hovered: bool,
    pressed: bool,
)
    requires
        old(screen)@.wf(),
        x + 5 <= i32::MAX,
        y + 6 <= i32::MAX,
    ensures
        final(screen)@.wf(),
        screen::same_frame(old(screen)@, final(screen)@),
        final(screen)@ == title_button(old(screen)@, x as int, y as int, color, hovered, pressed),
{
    reveal(title_button);
    let fill = if pressed {
        TITLE_MIST
    } else if hovered {
        GLASS_HIGHLIGHT
    } else {
        color
    };
    draw_shadow_rounded_panel(screen, x, y, 14, 14, 5, fill, GLASS_EDGE);
}

/// A button with a label.
#[verifier::opaque]
pub open spec fn round_button(
    s0: ScreenView,
    x: int,
    y: int,
    w: int,
    h: int,
    fill: u8,
    label: &str,
) -> ScreenView {
    let s1 = sheet_panel(s0, x, y, w, h, 5, fill, 164, 70);
    let label_x = x + hit::half(w - letters::text_size(label@, 1));
    letters::text_drawn(s1, label_x, y + 6, label@, INK, 1)
}

pub(crate) fn draw_round_button(
    screen: &mut Screen,
    x: i32,
    y: i32,
    w: i32,
    h: i32,
    fill: u8,
    label: &str,
)
    requires
        old(screen)@.wf(),
        x + 5 <= i32::MAX,
        y + 6 <= i32::MAX,
        w - 10 >= i32::MIN,
        h - 2 >= i32::MIN,
        letters::text_size(label@, 1) <= i32::MAX,
        w - letters::text_size(label@, 1) > i32::MIN,
        i32::MIN <= x + hit::half(w - letters::text_size(label@, 1)) <= i32::MAX,
    ensures
        final(screen)@.wf(),
        screen::same_frame(old(screen)@, final(screen)@),
        final(screen)@ == round_button(
            old(screen)@,
            x as int,
            y as int,
            w as int,
            h as int,
            fill,
            label,
        ),
{
    reveal(round_button);
    draw_glass_sheet_panel(screen, x, y, w, h, 5, fill, 164, 70);
    let label_x: i32 = x + hit::halve(w - letters::text_width(label, 1));
    screen.draw_text(label_x, y + 6, label, INK, 1);
}

/// An icon of the desktop.
#[verifier::opaque]
pub open spec fn desktop_icon(
    s0: ScreenView,
    ui: DesktopUi,
    icon: IconId,
    x: int,
    y: int,
) -> ScreenView {
    let hovered = ui.hover == HitTarget::DesktopIcon(icon);
    let pressed = ui.pressed == HitTarget::DesktopIcon(icon);
    let selected = ui.selected_icon == Some(icon);
    let shell = if pressed {
        SOFT_GRAY
    } else if hovered || selected {
        SELECTION
    } else {
        PANEL_INSET
    };
    let s1 = shadow_panel(s0, x, y, 54, 48, 8, shell, GLASS_EDGE);
    let s3 = match icon {
        IconId::Files => {
            let s2 = folder_symbol(s1, x + 12, y + 12);
            s2
        },
        IconId::Cmd => {
            let s2 = terminal_symbol(s1, x + 12, y + 11);
            s2
        },
        IconId::Editor => {
            let s2 = editor_symbol(s1, x + 12, y + 11);
            s2
        },
        IconId::Settings => {
            let s2 = settings_symbol(s1, x + 12, y + 11);
            s2
        },
        IconId::Video => {
            let s2 = video_symbol(s1, x + 12, y + 11);
            s2
        },
        IconId::Audio => {
            let s2 = audio_symbol(s1, x + 12, y + 11);
            s2
        },
    };
    let label = icon_name(icon);
    let label_x = x + hit::half(54 - letters::text_size(label@, 1));
    let s4 = letters::text_drawn(s3, label_x, y + 58, label@, INK, 1);
    letters::text_drawn(s4, label_x, y + 57, label@, WINDOW_WHITE, 1)
}

pub(crate) fn draw_desktop_icon(screen: &mut Screen, ui: &DesktopUi, icon: IconId, x: i32, y: i32)
    requires
        old(screen)@.wf(),
        x + 29 <= i32::MAX,
        y + 58 <= i32::MAX,
    ensures
        final(screen)@.wf(),
        screen::same_frame(old(screen)@, final(screen)@),
        final(screen)@ == desktop_icon(old(screen)@, *ui, icon, x as int, y as int),
{
    reveal(desktop_icon);
    let hovered = ui.hover == HitTarget::DesktopIcon(icon);
    let pressed = ui.pressed == HitTarget::DesktopIcon(icon);
    let selected = ui.selected_icon == Some(icon);
    let shell = if pressed {
        SOFT_GRAY
    } else if hovered || selected {
        SELECTION
    } else {
        PANEL_INSET
    };
    draw_shadow_rounded_panel(screen, x, y, 54, 48, 8, shell, GLASS_EDGE);
    match icon {
        IconId::Files => {
            draw_folder_symbol(screen, x + 12, y + 12);
        },
        IconId::Cmd => {
            draw_terminal_symbol(screen, x + 12, y + 11);
        },
        IconId::Editor => {
            draw_editor_symbol(screen, x + 12, y + 11);
        },
        IconId::Settings => {
            draw_settings_symbol(screen, x + 12, y + 11);
        },
        IconId::Video => {
            draw_video_symbol(screen, x + 12, y + 11);
        },
        IconId::Audio => {
            draw_audio_symbol(screen, x + 12, y + 11);
        },
    }
    let label = desktop_label(icon);
    proof {
        letters::lemma_text_size(label@, 1);
    }
    let label_x: i32 = x + hit::halve(54 - letters::text_width(label, 1));
    screen.draw_text(label_x, y + 58, label, INK, 1);
    screen.draw_text(label_x, y + 57, label, WINDOW_WHITE, 1);
}

/// A window in the bar.
#[verifier::opaque]
pub open spec fn bar_slot(
    s0: ScreenView,
    ui: DesktopUi,
    size: Size,
    x: int,
    id: WindowId,
    icon: IconId,
) -> ScreenView {
    let hovered = ui.hover == HitTarget::TaskbarIcon(id);
    let pressed = ui.pressed == HitTarget::TaskbarIcon(id);
    let window = gui::window_of(ui, id);
    let active = ui.active == id && window.open && !window.minimized;
    let top = size.bar_y();
    let fill = if pressed {
        SOFT_GRAY
    } else if active {
        ACTIVE_GLOW
    } else if hovered {
        GLASS_HIGHLIGHT
    } else {
        GLASS_TINT
    };
    let s1 = glass_chip(s0, x, top + 7, 36, 28, 8, fill, active);
    let s3 = match icon {
        IconId::Files => {
            let s2 = folder_symbol(s1, x + 9, top + 13);
            s2
        },
        IconId::Cmd => {
            let s2 = terminal_symbol(s1, x + 9, top + 12);
            s2
        },
        IconId::Editor => {
            let s2 = editor_symbol(s1, x + 9, top + 12);
            s2
        },
        IconId::Settings => {
            let s2 = settings_symbol(s1, x + 9, top + 12);
            s2
        },
        IconId::Video => {
            let s2 = video_symbol(s1, x + 9, top + 12);
            s2
        },
        IconId::Audio => {
            let s2 = audio_symbol(s1, x + 9, top + 12);
            s2
        },
    };
    if window.open {
        let s4 = screen::rect(s3, x + 7, top + 32, 22, 1, GLASS_HIGHLIGHT);
        let s5 = screen::rect(s4, x + 10, top + 34, 16, 2, COPPER_ACCENT);
        s5
    } else {

        s3
    }
}

pub(crate) fn draw_taskbar_slot(
    screen: &mut Screen,
    ui: &DesktopUi,
    size: &Size,
    x: i32,
    id: WindowId,
    icon: IconId,
)
    requires
        old(screen)@.wf(),
        size.wf(),
        x + 26 <= i32::MAX,
    ensures
        final(screen)@.wf(),
        screen::same_frame(old(screen)@, final(screen)@),
        final(screen)@ == bar_slot(old(screen)@, *ui, *size, x as int, id, icon),
{
    reveal(bar_slot);
    let hovered = ui.hover == HitTarget::TaskbarIcon(id);
    let pressed = ui.pressed == HitTarget::TaskbarIcon(id);
    let window = gui::get_window(ui, id);
    let active = ui.active == id && window.open && !window.minimized;
    let top: i32 = size.taskbar_y();
    let fill = if pressed {
        SOFT_GRAY
    } else if active {
        ACTIVE_GLOW
    } else if hovered {
        GLASS_HIGHLIGHT
    } else {
        GLASS_TINT
    };
    draw_glass_chip(screen, x, top + 7, 36, 28, 8, fill, active);
    match icon {
        IconId::Files => {
            draw_folder_symbol(screen, x + 9, top + 13);
        },
        IconId::Cmd => {
            draw_terminal_symbol(screen, x + 9, top + 12);
        },
        IconId::Editor => {
            draw_editor_symbol(screen, x + 9, top + 12);
        },
        IconId::Settings => {
            draw_settings_symbol(screen, x + 9, top + 12);
        },
        IconId::Video => {
            draw_video_symbol(screen, x + 9, top + 12);
        },
        IconId::Audio => {
            draw_audio_symbol(screen, x + 9, top + 12);
        },
    }
    if window.open {
        screen.gfx_fill_rect(x + 7, top + 32, 22, 1, GLASS_HIGHLIGHT);
        screen.gfx_fill_rect(x + 10, top + 34, 16, 2, COPPER_ACCENT);
    }
}

/// The button of the start menu.
#[verifier::opaque]
pub open spec fn start_button(s0: ScreenView, ui: DesktopUi, size: Size) -> ScreenView {
    let hovered = ui.hover == HitTarget::StartButton;
    let pressed = ui.pressed == HitTarget::StartButton;
    let left = size.bar_x();
    let top = size.bar_y();
    let fill = if pressed {
        TITLE_MIST
    } else if hovered || ui.start_menu_open {
        GLASS_HIGHLIGHT
    } else {
        START_GREEN
    };
    let s1 = glass_chip(s0, left + 8, top + 7, 48, 28, 8, fill, ui.start_menu_open);
    let label_x = left + 8 + hit::half(48 - letters::text_size("开始"@, 1));
    letters::text_drawn(s1, label_x, top + 14, "开始"@, INK, 1)
}

pub(crate) fn draw_start_button(screen: &mut Screen, ui: &DesktopUi, size: &Size)
    requires
        old(screen)@.wf(),
        size.wf(),
    ensures
        final(screen)@.wf(),
        screen::same_frame(old(screen)@, final(screen)@),
        final(screen)@ == start_button(old(screen)@, *ui, *size),
{
    reveal(start_button);
    let hovered = ui.hover == HitTarget::StartButton;
    let pressed = ui.pressed == HitTarget::StartButton;
    let left: i32 = size.taskbar_x();
    let top: i32 = size.taskbar_y();
    let fill = if pressed {
        TITLE_MIST
    } else if hovered || ui.start_menu_open {
        GLASS_HIGHLIGHT
    } else {
        START_GREEN
    };
    draw_glass_chip(screen, left + 8, top + 7, 48, 28, 8, fill, ui.start_menu_open);
    proof {
        reveal_strlit("开始");
        letters::lemma_short_text("开始"@, 1);
    }
    let label_x: i32 = left + 8 + hit::halve(48 - letters::text_width("开始", 1));
    screen.draw_text(label_x, top + 14, "开始", INK, 1);
}

/// The clock in the bar.
#[verifier::opaque]
pub open spec fn bar_clock(s0: ScreenView, ui: DesktopUi, size: Size) -> ScreenView {
    let hovered = ui.hover == HitTarget::ClockChip;
    let pressed = ui.pressed == HitTarget::ClockChip;
    let fill = if pressed {
        SOFT_GRAY
    } else if hovered || ui.locked {
        ACTIVE_GLOW
    } else {
        PANEL_PAPER
    };
    let left = size.bar_x() + 384;
    let top = size.bar_y() + 6;
    let s1 = glass_chip(s0, left, top, 124, 30, 9, fill, ui.locked);
    let s2 = letters::text_drawn(s1, left + 10, top + 7, "LOCK"@, GLASS_HIGHLIGHT, 1);
    let s3 = bytes_drawn(s2, left + 42, top + 9, clock_minutes(ui.clock_time), INK, 2);
    bytes_drawn(s3, left + 92, top + 18, clock_seconds(ui.clock_time), WINDOW_WHITE, 1)
}

pub(crate) fn draw_taskbar_clock(screen: &mut Screen, ui: &DesktopUi, size: &Size)
    requires
        old(screen)@.wf(),
        size.wf(),
    ensures
        final(screen)@.wf(),
        screen::same_frame(old(screen)@, final(screen)@),
        final(screen)@ == bar_clock(old(screen)@, *ui, *size),
{
    reveal(bar_clock);
    let hovered = ui.hover == HitTarget::ClockChip;
    let pressed = ui.pressed == HitTarget::ClockChip;
    let fill = if pressed {
        SOFT_GRAY
    } else if hovered || ui.locked {
        ACTIVE_GLOW
    } else {
        PANEL_PAPER
    };
    let left: i32 = size.taskbar_x() + 384;
    let top: i32 = size.taskbar_y() + 6;
    draw_glass_chip(screen, left, top, 124, 30, 9, fill, ui.locked);
    screen.draw_text(left + 10, top + 7, "LOCK", GLASS_HIGHLIGHT, 1);
    draw_bytes(screen, left + 42, top + 9, write_clock_hm(ui.clock_time).as_bytes(), INK, 2);
    draw_bytes(
        screen,
        left + 92,
        top + 18,
        write_clock_seconds(ui.clock_time).as_bytes(),
        WINDOW_WHITE,
        1,
    );
}

/// The bar at the bottom, with all it holds.
#[verifier::opaque]
pub open spec fn bar(s0: ScreenView, ui: DesktopUi, size: Size) -> ScreenView {
    let left = size.bar_x();
    let top = size.bar_y();
    let s1 = glass_bar(s0, left, top, 520, 42, 14);
    let s2 = separator(s1, left + 56, top + 7, 28);
    let s3 = separator(s2, left + 220, top + 7, 28);
    let s4 = separator(s3, left + 386, top + 7, 28);
    let s5 = start_button(s4, ui, size);
    let s6 = bar_slot(s5, ui, size, left + 70, WindowId::Files, IconId::Files);
    let s7 = bar_slot(s6, ui, size, left + 118, WindowId::Cmd, IconId::Cmd);
    let s8 = bar_slot(s7, ui, size, left + 166, WindowId::Editor, IconId::Editor);
    let s9 = glass_chip(s8, left + 244, top + 7, 122, 28, 9, GLASS_TINT, false);
    let s10 = letters::text_drawn(s9, left + 258, top + 13, "RUSTIX"@, INK, 1);
    let s11 = letters::text_drawn(s10, left + 258, top + 12, "RUSTIX"@, GLASS_HIGHLIGHT, 1);
    let s12 = letters::text_drawn(s11, left + 258, top + 23, "secure desk"@, WINDOW_WHITE, 1);
    bar_clock(s12, ui, size)
}

pub(crate) fn draw_taskbar(screen: &mut Screen, ui: &DesktopUi, size: &Size)
    requires
        old(screen)@.wf(),
        size.wf(),
    ensures
        final(screen)@.wf(),
        screen::same_frame(old(screen)@, final(screen)@),
        final(screen)@ == bar(old(screen)@, *ui, *size),
{
    reveal(bar);
    let left: i32 = size.taskbar_x();
    let top: i32 = size.taskbar_y();
    draw_glass_taskbar(screen, left, top, 520, 42, 14);
    draw_translucent_separator(screen, left + 56, top + 7, 28);
    draw_translucent_separator(screen, left + 220, top + 7, 28);
    draw_translucent_separator(screen, left + 386, top + 7, 28);
    draw_start_button(screen, ui, size);
    draw_taskbar_slot(screen, ui, size, left + 70, WindowId::Files, IconId::Files);
    draw_taskbar_slot(screen, ui, size, left + 118, WindowId::Cmd, IconId::Cmd);
    draw_taskbar_slot(screen, ui, size, left + 166, WindowId::Editor, IconId::Editor);
    draw_glass_chip(screen, left + 244, top + 7, 122, 28, 9, GLASS_TINT, false);
    screen.draw_text(left + 258, top + 13, "RUSTIX", INK, 1);
    screen.draw_text(left + 258, top + 12, "RUSTIX", GLASS_HIGHLIGHT, 1);
    screen.draw_text(left + 258, top + 23, "secure desk", WINDOW_WHITE, 1);
    draw_taskbar_clock(screen, ui, size);
}

/// The lights over the wallpaper, and the name of the system.
#[verifier::opaque]
pub open spec fn backdrop(s0: ScreenView, ui: DesktopUi, size: Size) -> ScreenView {
    let wide = size.width as int;
    let high = size.height as int;
    let phase = ui.ambient_phase as int;
    let s1 = screen::rect_alpha(s0, 0, 0, wide, high, NIGHT_INK, 34);
    let s2 = screen::disk_alpha(
        s1,
        wide - 100 - (phase) % 18,
        84 + ((phase) / 3) % 6,
        112,
        AURORA_BLUE,
        26,
    );
    let s3 = screen::disk_alpha(s2, 116 + ((phase) / 2) % 16, high - 92, 126, AURORA_GOLD, 22);
    let s4 = screen::disk_alpha(
        s3,
        hit::half(wide) + ((phase) % 20 - 10),
        hit::half(high) + 70,
        96,
        AURORA_MINT,
        20,
    );
    let s5 = screen::rect_alpha(s4, 0, 0, wide, 92, GLASS_HIGHLIGHT, 36);
    let hero = hit::half(wide - 292);
    let s6 = shadow_panel(s5, hero, 18, 292, 52, 14, GLASS_TINT, GLASS_EDGE);
    let s7 = screen::round_alpha(s6, hero + 1, 19, 290, 20, 13, GLASS_HIGHLIGHT, 34);
    let s8 = letters::text_drawn(s7, hero + 18, 32, "RUSTIX"@, WINDOW_WHITE, 2);
    let s9 = letters::text_drawn(s8, hero + 92, 34, "SECURE MICROKERNEL"@, INK, 1);
    letters::text_drawn(s9, hero + 92, 45, "GLASS SHELL  /  F12 LOCK"@, GLASS_HIGHLIGHT, 1)
}

pub(crate) fn draw_desktop_backdrop(screen: &mut Screen, ui: &DesktopUi, size: &Size)
    requires
        old(screen)@.wf(),
        size.wf(),
    ensures
        final(screen)@.wf(),
        screen::same_frame(old(screen)@, final(screen)@),
        final(screen)@ == backdrop(old(screen)@, *ui, *size),
{
    reveal(backdrop);
    let wide: i32 = size.width;
    let high: i32 = size.height;
    let phase: i32 = ui.ambient_phase as i32;
    screen.gfx_fill_rect_alpha(0, 0, wide, high, NIGHT_INK, 34);
    screen.gfx_fill_circle_alpha(
        wide - 100 - ((phase) as u32 % 18) as i32,
        84 + ((((phase) as u32 / 3) as i32) as u32 % 6) as i32,
        112,
        AURORA_BLUE,
        26,
    );
    screen.gfx_fill_circle_alpha(
        116 + ((((phase) as u32 / 2) as i32) as u32 % 16) as i32,
        high - 92,
        126,
        AURORA_GOLD,
        22,
    );
    screen.gfx_fill_circle_alpha(
        hit::halve(wide) + (((phase) as u32 % 20) as i32 - 10),
        hit::halve(high) + 70,
        96,
        AURORA_MINT,
        20,
    );
    screen.gfx_fill_rect_alpha(0, 0, wide, 92, GLASS_HIGHLIGHT, 36);
    let hero: i32 = hit::halve(wide - 292);
    draw_shadow_rounded_panel(screen, hero, 18, 292, 52, 14, GLASS_TINT, GLASS_EDGE);
    screen.gfx_fill_round_rect_alpha(hero + 1, 19, 290, 20, 13, GLASS_HIGHLIGHT, 34);
    screen.draw_text(hero + 18, 32, "RUSTIX", WINDOW_WHITE, 2);
    screen.draw_text(hero + 92, 34, "SECURE MICROKERNEL", INK, 1);
    screen.draw_text(hero + 92, 45, "GLASS SHELL  /  F12 LOCK", GLASS_HIGHLIGHT, 1);
}

/// The screen of a locked desktop.
#[verifier::opaque]
pub open spec fn lock_screen(s0: ScreenView, ui: DesktopUi, size: Size) -> ScreenView {
    let wide = size.width as int;
    let high = size.height as int;
    let s1 = screen::rect_alpha(s0, 0, 0, wide, high, LOCK_VEIL, 112);
    let s2 = screen::rect_alpha(s1, 0, 0, wide, high, NIGHT_INK, 72);
    let s3 = screen::disk_alpha(s2, wide - 124, 96, 104, AURORA_BLUE, 22);
    let s4 = screen::disk_alpha(s3, 110, high - 86, 120, AURORA_GOLD, 18);
    let left = hit::half(wide - 276);
    let top = hit::half(high - 148) - 12;
    let s5 = shadow_panel(s4, left, top, 276, 148, 18, GLASS_TINT, GLASS_EDGE);
    let s6 = screen::round_alpha(s5, left + 1, top + 1, 274, 48, 17, GLASS_HIGHLIGHT, 38);
    let hm_x = left + hit::half(
        276 - letters::text_size(lettered(clock_minutes(ui.clock_time)), 4),
    );
    let s7 = bytes_drawn(s6, hm_x, top + 38, clock_minutes(ui.clock_time), WINDOW_WHITE, 4);
    let hms_x = left + hit::half(276 - letters::text_size(lettered(clock_full(ui.clock_time)), 1));
    let s8 = bytes_drawn(s7, hms_x, top + 90, clock_full(ui.clock_time), GLASS_HIGHLIGHT, 1);
    let hint_x = left + hit::half(276 - letters::text_size("PRESS ANY KEY OR CLICK"@, 1));
    let s9 = letters::text_drawn(s8, hint_x, top + 112, "PRESS ANY KEY OR CLICK"@, WINDOW_WHITE, 1);
    let footer_x = left + hit::half(276 - letters::text_size("RUSTIX SECURE SESSION"@, 1));
    letters::text_drawn(s9, footer_x, top + 126, "RUSTIX SECURE SESSION"@, MUTED_TEXT, 1)
}

pub(crate) fn draw_lock_screen(screen: &mut Screen, ui: &DesktopUi, size: &Size)
    requires
        old(screen)@.wf(),
        size.wf(),
    ensures
        final(screen)@.wf(),
        screen::same_frame(old(screen)@, final(screen)@),
        final(screen)@ == lock_screen(old(screen)@, *ui, *size),
{
    reveal(lock_screen);
    let wide: i32 = size.width;
    let high: i32 = size.height;
    screen.gfx_fill_rect_alpha(0, 0, wide, high, LOCK_VEIL, 112);
    screen.gfx_fill_rect_alpha(0, 0, wide, high, NIGHT_INK, 72);
    screen.gfx_fill_circle_alpha(wide - 124, 96, 104, AURORA_BLUE, 22);
    screen.gfx_fill_circle_alpha(110, high - 86, 120, AURORA_GOLD, 18);
    let left: i32 = hit::halve(wide - 276);
    let top: i32 = hit::halve(high - 148) - 12;
    draw_shadow_rounded_panel(screen, left, top, 276, 148, 18, GLASS_TINT, GLASS_EDGE);
    screen.gfx_fill_round_rect_alpha(left + 1, top + 1, 274, 48, 17, GLASS_HIGHLIGHT, 38);
    let hm = write_clock_hm(ui.clock_time);
    let hms = write_clock_hms(ui.clock_time);
    let hm_bytes = hm.as_bytes();
    let hms_bytes = hms.as_bytes();
    proof {
        lemma_lettered(hm@);
        lemma_lettered(hms@);
        letters::lemma_short_text(lettered(hm@), 4);
        letters::lemma_short_text(lettered(hms@), 1);
    }
    let hm_x: i32 = left + hit::halve(276 - shown_width(hm_bytes, 4));
    draw_bytes(screen, hm_x, top + 38, hm_bytes, WINDOW_WHITE, 4);
    let hms_x: i32 = left + hit::halve(276 - shown_width(hms_bytes, 1));
    draw_bytes(screen, hms_x, top + 90, hms_bytes, GLASS_HIGHLIGHT, 1);
    proof {
        reveal_strlit("PRESS ANY KEY OR CLICK");
        letters::lemma_short_text("PRESS ANY KEY OR CLICK"@, 1);
        reveal_strlit("RUSTIX SECURE SESSION");
        letters::lemma_short_text("RUSTIX SECURE SESSION"@, 1);
    }
    let hint_x: i32 = left + hit::halve(276 - letters::text_width("PRESS ANY KEY OR CLICK", 1));
    screen.draw_text(hint_x, top + 112, "PRESS ANY KEY OR CLICK", WINDOW_WHITE, 1);
    let footer_x: i32 = left + hit::halve(276 - letters::text_width("RUSTIX SECURE SESSION", 1));
    screen.draw_text(footer_x, top + 126, "RUSTIX SECURE SESSION", MUTED_TEXT, 1);
}

/// A window without what is in it.
#[verifier::opaque]
pub open spec fn window_shell(
    s0: ScreenView,
    ui: DesktopUi,
    id: WindowId,
    window: WindowState,
    title: &str,
    active: bool,
) -> ScreenView {
    let s1 = window_frame(
        s0,
        window.x as int,
        window.y as int,
        window.w as int,
        window.h as int,
        12,
    );
    let s2 = screen::round(s1, window.x + 4, window.y + 4, window.w - 8, 24, 9, TITLE_MIST);
    let s3 = screen::rect(s2, window.x + 10, window.y + 7, window.w - 20, 1, GLASS_HIGHLIGHT);
    let chip = if active {
        ACTIVE_GLOW
    } else {
        GLASS_EDGE
    };
    let s4 = shadow_panel(s3, window.x + 18, window.y + 5, 42, 12, 6, chip, GLASS_EDGE);
    let title_w = letters::text_size(title@, 1);
    let title_x = events::within(
        window.x + window.w - title_w - 46,
        window.x + 68,
        window.x + window.w - 12 - title_w - 10,
    );
    let s5 = letters::text_drawn(s4, title_x, window.y + 8, title@, INK, 1);
    let s6 = letters::text_drawn(s5, title_x, window.y + 7, title@, GLASS_HIGHLIGHT, 1);
    let s7 = title_button(
        s6,
        window.x + window.w - 48,
        window.y + 5,
        MINIMIZE_YELLOW,
        ui.hover == HitTarget::Minimize(id),
        ui.pressed == HitTarget::Minimize(id),
    );
    let s8 = title_button(s7, window.x + window.w - 30, window.y + 5, ORANGE, false, false);
    let s9 = title_button(
        s8,
        window.x + window.w - 12,
        window.y + 5,
        CLOSE_RED,
        ui.hover == HitTarget::Close(id),
        ui.pressed == HitTarget::Close(id),
    );
    let s10 = screen::rect(s9, window.x + window.w - 45, window.y + 15, 8, 1, INK);
    let s11 = screen::rect(s10, window.x + window.w - 26, window.y + 9, 6, 5, INK);
    let s12 = screen::rect(s11, window.x + window.w - 25, window.y + 10, 4, 3, ORANGE);
    letters::text_drawn(s12, window.x + window.w - 9, window.y + 7, "X"@, INK, 2)
}

#[verifier::rlimit(40)]
pub(crate) fn draw_window_shell(
    screen: &mut Screen,
    ui: &DesktopUi,
    id: WindowId,
    window: &WindowState,
    title: &str,
    active: bool,
)
    requires
        old(screen)@.wf(),
        gui::window_wf(*window),
        letters::text_size(title@, 1) <= window.w - 90,
    ensures
        final(screen)@.wf(),
        screen::same_frame(old(screen)@, final(screen)@),
        final(screen)@ == window_shell(old(screen)@, *ui, id, *window, title, active),
{
    reveal(window_shell);
    draw_window_frame(screen, window.x, window.y, window.w, window.h, 12);
    screen.gfx_fill_round_rect(window.x + 4, window.y + 4, window.w - 8, 24, 9, TITLE_MIST);
    screen.gfx_fill_rect(window.x + 10, window.y + 7, window.w - 20, 1, GLASS_HIGHLIGHT);
    let chip = if active {
        ACTIVE_GLOW
    } else {
        GLASS_EDGE
    };
    draw_shadow_rounded_panel(screen, window.x + 18, window.y + 5, 42, 12, 6, chip, GLASS_EDGE);
    proof {
        letters::lemma_text_size(title@, 1);
    }
    let title_w: i32 = letters::text_width(title, 1);
    let title_x: i32 = clamp(
        window.x + window.w - title_w - 46,
        window.x + 68,
        window.x + window.w - 12 - title_w - 10,
    );
    screen.draw_text(title_x, window.y + 8, title, INK, 1);
    screen.draw_text(title_x, window.y + 7, title, GLASS_HIGHLIGHT, 1);
    draw_title_button(
        screen,
        window.x + window.w - 48,
        window.y + 5,
        MINIMIZE_YELLOW,
        ui.hover == HitTarget::Minimize(id),
        ui.pressed == HitTarget::Minimize(id),
    );
    draw_title_button(screen, window.x + window.w - 30, window.y + 5, ORANGE, false, false);
    draw_title_button(
        screen,
        window.x + window.w - 12,
        window.y + 5,
        CLOSE_RED,
        ui.hover == HitTarget::Close(id),
        ui.pressed == HitTarget::Close(id),
    );
    screen.gfx_fill_rect(window.x + window.w - 45, window.y + 15, 8, 1, INK);
    screen.gfx_fill_rect(window.x + window.w - 26, window.y + 9, 6, 5, INK);
    screen.gfx_fill_rect(window.x + window.w - 25, window.y + 10, 4, 3, ORANGE);
    screen.draw_text(window.x + window.w - 9, window.y + 7, "X", INK, 2);
}

} // verus!
