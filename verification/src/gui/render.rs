//! The windows and menus of the desktop on the screen.
use crate::apps::settings;
use crate::apps::settings::SettingsConfig;
use crate::fixed;
use crate::fixed::InlineString;
use crate::gui;
use crate::gui::draw;
use crate::gui::draw::{
    ACTIVE_GLOW, AUDIO_PANEL, COPPER_ACCENT, EDITOR_PAPER, GLASS_EDGE, GLASS_HIGHLIGHT,
    GLASS_TINT, INK, MINIMIZE_YELLOW, MUTED_TEXT, PANEL_PAPER, SELECTION, SETTINGS_PANEL,
    SOFT_GRAY, TERMINAL_BLACK, TITLE_MIST, VIDEO_PANEL, WINDOW_WHITE, context_action_label,
    draw_bytes, draw_desktop_backdrop, draw_desktop_icon, draw_file_symbol, draw_folder_symbol,
    draw_glass_progress, draw_glass_sheet_panel, draw_lock_screen, draw_round_button,
    draw_settings_symbol, draw_shadow_rounded_panel, draw_small_icon, draw_taskbar,
    draw_terminal_symbol, draw_window_shell, icon_label, number_buffer,
};
use crate::gui::hit;
use crate::gui::hit::Size;
use crate::gui::media;
use crate::gui::{
    BrowserEntry, BrowserKind, ContextAction, ContextMenuKind, Desktop, DesktopUi, DesktopView,
    EntryView, HitTarget, IconId, WindowId, WindowState,
};
use crate::lines;
use crate::lines::Line;
use crate::screen;
use crate::screen::console;
use crate::screen::letters;
use crate::screen::output;
use crate::screen::output::Display;
use crate::screen::{ConsoleView, Screen, ScreenView};
use crate::text;
use vstd::prelude::*;
use vstd::string::*;

verus! {

/// A line of at most 96 bytes with a byte behind it, if it is one of ASCII.
pub open spec fn typed(line: Seq<u8>, byte: u8) -> Seq<u8> {
    if byte < 128 && line.len() < 96 {
        line.push(byte)
    } else {
        line
    }
}

/// The lines of a text from byte `at` on, with what the line that is open holds and its
/// row. A line that is full goes on in the next row, and rows behind the last are not
/// shown.
pub open spec fn lines_from(
    s: ScreenView,
    x: int,
    y: int,
    text: Seq<u8>,
    color: u8,
    rows: usize,
    cols: usize,
    at: int,
    line: Seq<u8>,
    row: int,
    cursor: bool,
) -> ScreenView
    decreases text.len() - at,
{
    let drawn = draw::bytes_drawn(s, x, y + row * 8, line, color, 1);
    if at < 0 || at >= text.len() || row >= rows {
        if row >= rows {
            s
        } else if cursor {
            screen::rect(drawn, x + line.len() * 6, y + row * 8, 1, 7, color)
        } else if line.len() > 0 {
            drawn
        } else {
            s
        }
    } else if text[at] == 10 {
        lines_from(drawn, x, y, text, color, rows, cols, at + 1, Seq::empty(), row + 1, cursor)
    } else if line.len() >= cols {
        lines_from(
            drawn,
            x,
            y,
            text,
            color,
            rows,
            cols,
            at + 1,
            typed(Seq::empty(), text[at]),
            row + 1,
            cursor,
        )
    } else {
        lines_from(
            s,
            x,
            y,
            text,
            color,
            rows,
            cols,
            at + 1,
            typed(line, text[at]),
            row,
            cursor,
        )
    }
}

/// A text in rows and columns.
#[verifier::opaque]
pub open spec fn lines_drawn(
    s: ScreenView,
    x: int,
    y: int,
    text: Seq<u8>,
    color: u8,
    rows: usize,
    cols: usize,
) -> ScreenView {
    lines_from(s, x, y, text, color, rows, cols, 0, Seq::empty(), 0, false)
}

/// The text of the editor in rows and columns, with the cursor behind it.
#[verifier::opaque]
pub open spec fn editor_lines(
    s: ScreenView,
    x: int,
    y: int,
    text: Seq<u8>,
    rows: usize,
    cols: usize,
) -> ScreenView {
    lines_from(s, x, y, text, INK, rows, cols, 0, Seq::empty(), 0, true)
}

fn draw_lines(
    screen: &mut Screen,
    x: i32,
    y: i32,
    text: &[u8],
    color: u8,
    rows: usize,
    cols: usize,
    cursor: bool,
)
    requires
        old(screen)@.wf(),
        y + rows * 8 - 8 <= i32::MAX,
        rows * 8 - 8 <= i32::MAX,
        cursor ==> x + 576 <= i32::MAX,
    ensures
        final(screen)@.wf(),
        screen::same_frame(old(screen)@, final(screen)@),
        final(screen)@ == lines_from(
            old(screen)@,
            x as int,
            y as int,
            text@,
            color,
            rows,
            cols,
            0,
            Seq::empty(),
            0,
            cursor,
        ),
{
    let mut line: InlineString<96> = InlineString::new();
    let mut row: usize = 0;
    let mut at: usize = 0;
    while at < text.len() && row < rows
        invariant
            at <= text@.len(),
            row <= rows,
            y + rows * 8 - 8 <= i32::MAX,
            rows * 8 - 8 <= i32::MAX,
            screen@.wf(),
            screen::same_frame(old(screen)@, screen@),
            lines_from(
                screen@,
                x as int,
                y as int,
                text@,
                color,
                rows,
                cols,
                at as int,
                line@,
                row as int,
                cursor,
            ) == lines_from(
                old(screen)@,
                x as int,
                y as int,
                text@,
                color,
                rows,
                cols,
                0,
                Seq::empty(),
                0,
                cursor,
            ),
        decreases text@.len() - at,
    {
        let byte: u8 = text[at];
        if byte == 10 {
            draw_bytes(screen, x, y + row as i32 * 8, line.as_bytes(), color, 1);
            row += 1;
            line.clear();
        } else if line.len() >= cols {
            draw_bytes(screen, x, y + row as i32 * 8, line.as_bytes(), color, 1);
            row += 1;
            line.clear();
            let _ = line.push_byte(byte);
        } else {
            let _ = line.push_byte(byte);
        }
        at += 1;
    }
    if row < rows {
        if cursor {
            let length: usize = line.len();
            draw_bytes(screen, x, y + row as i32 * 8, line.as_bytes(), color, 1);
            screen.gfx_fill_rect(x + length as i32 * 6, y + row as i32 * 8, 1, 7, color);
        } else if !line.is_empty() {
            draw_bytes(screen, x, y + row as i32 * 8, line.as_bytes(), color, 1);
        }
    }
}

fn draw_multiline_text(
    screen: &mut Screen,
    x: i32,
    y: i32,
    text: &[u8],
    color: u8,
    rows: usize,
    cols: usize,
)
    requires
        old(screen)@.wf(),
        y + rows * 8 - 8 <= i32::MAX,
        rows * 8 - 8 <= i32::MAX,
    ensures
        final(screen)@.wf(),
        screen::same_frame(old(screen)@, final(screen)@),
        final(screen)@ == lines_drawn(
            old(screen)@,
            x as int,
            y as int,
            text@,
            color,
            rows,
            cols,
        ),
{
    reveal(lines_drawn);
    draw_lines(screen, x, y, text, color, rows, cols, false);
}

fn draw_editor_text(
    screen: &mut Screen,
    x: i32,
    y: i32,
    text: &[u8],
    rows: usize,
    cols: usize,
)
    requires
        old(screen)@.wf(),
        x + 576 <= i32::MAX,
        y + rows * 8 - 8 <= i32::MAX,
        rows * 8 - 8 <= i32::MAX,
    ensures
        final(screen)@.wf(),
        screen::same_frame(old(screen)@, final(screen)@),
        final(screen)@ == editor_lines(old(screen)@, x as int, y as int, text@, rows, cols),
{
    reveal(editor_lines);
    draw_lines(screen, x, y, text, INK, rows, cols, true);
}

/// The first cells of the console, in the window of the console.
pub open spec fn window_cells(s: ScreenView, cells: Seq<u16>, x: int, y: int, count: nat) -> ScreenView
    decreases count,
{
    if count == 0 {
        s
    } else {
        let index = count - 1;
        let before = window_cells(s, cells, x, y, index as nat);
        let cell = cells[index];
        if console::shown(cell) && cell != 10 {
            letters::compact_drawn(
                before,
                x + index % 40 * 6,
                y + index / 40 * 8,
                cell as u32,
                WINDOW_WHITE,
                1,
            )
        } else {
            before
        }
    }
}

/// The console in its window, with the cursor.
#[verifier::opaque]
pub open spec fn console_cells(s: ScreenView, x: int, y: int) -> ScreenView {
    screen::rect(
        window_cells(s, s.console.cells, x, y, 760),
        x + s.console.column * 6,
        y + s.console.row * 8,
        1,
        7,
        WINDOW_WHITE,
    )
}

fn draw_console_cells(screen: &mut Screen, x: i32, y: i32)
    requires
        old(screen)@.wf(),
        x + 240 <= i32::MAX,
        y + 152 <= i32::MAX,
    ensures
        final(screen)@.wf(),
        screen::same_frame(old(screen)@, final(screen)@),
        final(screen)@ == console_cells(old(screen)@, x as int, y as int),
{
    reveal(console_cells);
    let mut index: usize = 0;
    while index < 760
        invariant
            index <= 760,
            x + 240 <= i32::MAX,
            y + 152 <= i32::MAX,
            screen@.wf(),
            screen::same_frame(old(screen)@, screen@),
            screen@.console == old(screen)@.console,
            screen@ == window_cells(
                old(screen)@,
                old(screen)@.console.cells,
                x as int,
                y as int,
                index as nat,
            ),
        decreases 760 - index,
    {
        let row: usize = index / 40;
        let column: usize = index % 40;
        let cell: u16 = screen.gfx_console_cell(row, column);
        assert(row * 40 + column == index);
        if cell != 0 && cell != 0xffff && !(cell >= 0xd800 && cell <= 0xdfff) && cell != 10 {
            proof {
                letters::lemma_compact(
                    screen@,
                    x + column * 6,
                    y + row * 8,
                    cell as u32,
                    WINDOW_WHITE,
                    1,
                );
            }
            screen.draw_unicode_glyph_compact(
                x as i128 + column as i128 * 6,
                y as i128 + row as i128 * 8,
                cell as u32,
                WINDOW_WHITE,
                1,
            );
        }
        index += 1;
    }
    let (cursor_row, cursor_column) = screen.gfx_console_cursor();
    screen.gfx_fill_rect(
        x + cursor_column as i32 * 6,
        y + cursor_row as i32 * 8,
        1,
        7,
        WINDOW_WHITE,
    );
}

/// The first entries of the list of files.
pub open spec fn rows_drawn(
    s: ScreenView,
    ui: DesktopUi,
    window: WindowState,
    entries: Seq<EntryView>,
    count: nat,
) -> ScreenView
    decreases count,
{
    if count == 0 {
        s
    } else {
        files_row(
            rows_drawn(s, ui, window, entries, (count - 1) as nat),
            ui,
            window,
            (count - 1) as usize,
            entries[count - 1].name,
            entries[count - 1].kind,
        )
    }
}

/// The list of files.
#[verifier::opaque]
pub open spec fn files_rows(
    s: ScreenView,
    ui: DesktopUi,
    window: WindowState,
    entries: Seq<EntryView>,
) -> ScreenView {
    rows_drawn(s, ui, window, entries, entries.len())
}

fn draw_files_rows(
    screen: &mut Screen,
    ui: &DesktopUi,
    window: &WindowState,
    entries: &[BrowserEntry],
)
    requires
        old(screen)@.wf(),
        gui::window_wf(*window),
        entries@.len() <= 12,
    ensures
        final(screen)@.wf(),
        screen::same_frame(old(screen)@, final(screen)@),
        final(screen)@ == files_rows(old(screen)@, *ui, *window, gui::entry_views(entries@)),
{
    reveal(files_rows);
    let mut index: usize = 0;
    while index < entries.len()
        invariant
            index <= entries@.len() <= 12,
            gui::window_wf(*window),
            screen@.wf(),
            screen::same_frame(old(screen)@, screen@),
            screen@ == rows_drawn(
                old(screen)@,
                *ui,
                *window,
                gui::entry_views(entries@),
                index as nat,
            ),
        decreases entries@.len() - index,
    {
        assert(gui::entry_views(entries@)[index as int] == entries@[index as int]@);
        let name = entries[index].name;
        draw_files_row(screen, ui, window, index, name.as_bytes(), entries[index].kind);
        index += 1;
    }
}

/// The first programs of the start menu.
pub open spec fn start_rows_drawn(s: ScreenView, ui: DesktopUi, size: Size, count: nat) -> ScreenView
    decreases count,
{
    if count == 0 {
        s
    } else {
        start_row(
            start_rows_drawn(s, ui, size, (count - 1) as nat),
            ui,
            size,
            (count - 1) as usize,
            hit::start_item(count - 1),
        )
    }
}

/// The programs of the start menu.
#[verifier::opaque]
pub open spec fn start_rows(s: ScreenView, ui: DesktopUi, size: Size) -> ScreenView {
    start_rows_drawn(s, ui, size, 6)
}

fn draw_start_rows(screen: &mut Screen, ui: &DesktopUi, size: &Size)
    requires
        old(screen)@.wf(),
        size.wf(),
    ensures
        final(screen)@.wf(),
        screen::same_frame(old(screen)@, final(screen)@),
        final(screen)@ == start_rows(old(screen)@, *ui, *size),
{
    reveal(start_rows);
    let mut index: usize = 0;
    while index < 6
        invariant
            index <= 6,
            size.wf(),
            screen@.wf(),
            screen::same_frame(old(screen)@, screen@),
            screen@ == start_rows_drawn(old(screen)@, *ui, *size, index as nat),
        decreases 6 - index,
    {
        draw_start_row(screen, ui, size, index, hit::start_menu_item(index));
        index += 1;
    }
}

/// The first items of the context menu.
pub open spec fn menu_rows_drawn(
    s: ScreenView,
    ui: DesktopUi,
    x: int,
    y: int,
    kind: ContextMenuKind,
    count: nat,
) -> ScreenView
    decreases count,
{
    if count == 0 {
        s
    } else {
        let before = menu_rows_drawn(s, ui, x, y, kind, (count - 1) as nat);
        match hit::menu_item(kind, count - 1) {
            Some(action) => menu_row(before, ui, x, y + 6 + (count - 1) * 24, action),
            None => before,
        }
    }
}

/// The items of the context menu.
#[verifier::opaque]
pub open spec fn menu_rows(
    s: ScreenView,
    ui: DesktopUi,
    x: int,
    y: int,
    kind: ContextMenuKind,
) -> ScreenView {
    menu_rows_drawn(s, ui, x, y, kind, hit::item_count(kind) as nat)
}

fn draw_menu_rows(screen: &mut Screen, ui: &DesktopUi, x: i32, y: i32, kind: ContextMenuKind)
    requires
        old(screen)@.wf(),
        x + 38 <= i32::MAX,
        y + hit::item_count(kind) * 24 <= i32::MAX,
    ensures
        final(screen)@.wf(),
        screen::same_frame(old(screen)@, final(screen)@),
        final(screen)@ == menu_rows(old(screen)@, *ui, x as int, y as int, kind),
{
    reveal(menu_rows);
    let count: usize = hit::context_menu_item_count(kind);
    let mut index: usize = 0;
    while index < count
        invariant
            index <= count,
            count == hit::item_count(kind),
            x + 38 <= i32::MAX,
            y + count * 24 <= i32::MAX,
            screen@.wf(),
            screen::same_frame(old(screen)@, screen@),
            screen@ == menu_rows_drawn(
                old(screen)@,
                *ui,
                x as int,
                y as int,
                kind,
                index as nat,
            ),
        decreases count - index,
    {
        if let Some(action) = hit::context_menu_action(kind, index) {
            draw_menu_row(screen, ui, x, y + 6 + index as i32 * 24, action);
        }
        index += 1;
    }
}

/// A setting with its buttons and its bar.
#[verifier::opaque]
pub open spec fn setting_row(
    s0: ScreenView,
    window: WindowState,
    label: &str,
    value: u8,
    y: int,
    hover_minus: bool,
    hover_plus: bool,
    accent: u8,
) -> ScreenView {
    let s1 = draw::sheet_panel(
        s0,
        window.x + 16,
        y - 2,
        window.w - 32,
        24,
        7,
        PANEL_PAPER,
        104,
        58,
    );
    let s2 = letters::text_drawn(s1, window.x + 18, y + 5, label@, MUTED_TEXT, 1);
    let s3 = draw::round_button(
        s2,
        window.x + 94,
        y,
        18,
        18,
        if hover_minus { SELECTION } else { SETTINGS_PANEL },
        "-",
    );
    let s4 = draw::sheet_panel(s3, window.x + 118, y, 54, 18, 5, PANEL_PAPER, 160, 70);
    let s5 = draw::bytes_drawn(s4, window.x + 132, y + 6, draw::number_text(value), INK, 1);
    let s6 = draw::glass_progress(s5, window.x + 52, y + 6, 72, 7, value, accent);
    draw::round_button(
        s6,
        window.x + 178,
        y,
        18,
        18,
        if hover_plus { SELECTION } else { SETTINGS_PANEL },
        "+",
    )
}

pub(crate) fn draw_setting_row(
    screen: &mut Screen,
    window: &WindowState,
    label: &str,
    value: u8,
    y: i32,
    hover_minus: bool,
    hover_plus: bool,
    accent: u8,
)
    requires
        old(screen)@.wf(),
        gui::window_wf(*window),
        y - 2 >= i32::MIN,
        y + 12 <= i32::MAX,
    ensures
        final(screen)@.wf(),
        screen::same_frame(old(screen)@, final(screen)@),
        final(screen)@ == setting_row(
            old(screen)@,
            *window,
            label,
            value,
            y as int,
            hover_minus,
            hover_plus,
            accent,
        ),
{
    reveal(setting_row);
    draw_glass_sheet_panel(
        screen,
        window.x + 16,
        y - 2,
        window.w - 32,
        24,
        7,
        PANEL_PAPER,
        104,
        58,
    );
    screen.draw_text(window.x + 18, y + 5, label, MUTED_TEXT, 1);
    proof {
        reveal_strlit("-");
        letters::lemma_short_text("-"@, 1);
        reveal_strlit("+");
        letters::lemma_short_text("+"@, 1);
    }
    draw_round_button(
        screen,
        window.x + 94,
        y,
        18,
        18,
        if hover_minus { SELECTION } else { SETTINGS_PANEL },
        "-",
    );
    draw_glass_sheet_panel(screen, window.x + 118, y, 54, 18, 5, PANEL_PAPER, 160, 70);
    draw_bytes(screen, window.x + 132, y + 6, number_buffer(value).as_bytes(), INK, 1);
    draw_glass_progress(screen, window.x + 52, y + 6, 72, 7, value, accent);
    draw_round_button(
        screen,
        window.x + 178,
        y,
        18,
        18,
        if hover_plus { SELECTION } else { SETTINGS_PANEL },
        "+",
    );
}

/// The window of the settings.
#[verifier::opaque]
pub open spec fn settings_window(
    s0: ScreenView,
    ui: DesktopUi,
    window: WindowState,
    active: bool,
    config: SettingsConfig,
    status: Seq<u8>,
) -> ScreenView {
    let s1 = draw::window_shell(s0, ui, WindowId::Settings, window, "设置", active);
    let s2 = draw::sheet_panel(
        s1,
        window.x + 14,
        window.y + 40,
        window.w - 28,
        110,
        10,
        SETTINGS_PANEL,
        138,
        86,
    );
    let s3 = setting_row(
        s2,
        window,
        "亮度",
        config.brightness,
        window.y + 50,
        ui.hover == HitTarget::SettingsBrightnessDown,
        ui.hover == HitTarget::SettingsBrightnessUp,
        ACTIVE_GLOW,
    );
    let s4 = setting_row(
        s3,
        window,
        "音量",
        config.volume,
        window.y + 82,
        ui.hover == HitTarget::SettingsVolumeDown,
        ui.hover == HitTarget::SettingsVolumeUp,
        COPPER_ACCENT,
    );
    let s5 = letters::text_drawn(s4, window.x + 18, window.y + 124, "主题"@, MUTED_TEXT, 1);
    let s6 = draw::sheet_panel(
        s5,
        window.x + 94,
        window.y + 118,
        88,
        18,
        5,
        SETTINGS_PANEL,
        152,
        70,
    );
    let s7 = letters::text_drawn(
        s6,
        window.x + 102,
        window.y + 124,
        settings::theme_name(config.theme)@,
        INK,
        1,
    );
    let s8 = draw::sheet_panel(
        s7,
        window.x + 16,
        window.y + window.h - 32,
        window.w - 32,
        18,
        6,
        GLASS_TINT,
        128,
        64,
    );
    draw::bytes_drawn(s8, window.x + 20, window.y + window.h - 24, status, MUTED_TEXT, 1)
}

pub(crate) fn draw_settings_window(
    screen: &mut Screen,
    ui: &DesktopUi,
    window: &WindowState,
    active: bool,
    config: SettingsConfig,
    status: &[u8],
)
    requires
        old(screen)@.wf(),
        gui::window_wf(*window),
    ensures
        final(screen)@.wf(),
        screen::same_frame(old(screen)@, final(screen)@),
        final(screen)@ == settings_window(old(screen)@, *ui, *window, active, config, status@),
{
    reveal(settings_window);
    proof {
        reveal_strlit("设置");
        letters::lemma_text_size("设置"@, 1);
    }
    draw_window_shell(screen, ui, WindowId::Settings, window, "设置", active);
    draw_glass_sheet_panel(
        screen,
        window.x + 14,
        window.y + 40,
        window.w - 28,
        110,
        10,
        SETTINGS_PANEL,
        138,
        86,
    );
    proof {
        reveal_strlit("亮度");
        reveal_strlit("音量");
    }
    draw_setting_row(
        screen,
        window,
        "亮度",
        config.brightness,
        window.y + 50,
        ui.hover == HitTarget::SettingsBrightnessDown,
        ui.hover == HitTarget::SettingsBrightnessUp,
        ACTIVE_GLOW,
    );
    draw_setting_row(
        screen,
        window,
        "音量",
        config.volume,
        window.y + 82,
        ui.hover == HitTarget::SettingsVolumeDown,
        ui.hover == HitTarget::SettingsVolumeUp,
        COPPER_ACCENT,
    );
    screen.draw_text(window.x + 18, window.y + 124, "主题", MUTED_TEXT, 1);
    draw_glass_sheet_panel(
        screen,
        window.x + 94,
        window.y + 118,
        88,
        18,
        5,
        SETTINGS_PANEL,
        152,
        70,
    );
    screen.draw_text(window.x + 102, window.y + 124, config.theme.as_str(), INK, 1);
    draw_glass_sheet_panel(
        screen,
        window.x + 16,
        window.y + window.h - 32,
        window.w - 32,
        18,
        6,
        GLASS_TINT,
        128,
        64,
    );
    draw_bytes(screen, window.x + 20, window.y + window.h - 24, status, MUTED_TEXT, 1);
}

/// The window of the film player.
#[verifier::opaque]
pub open spec fn video_window(
    s0: ScreenView,
    ui: DesktopUi,
    window: WindowState,
    active: bool,
    title: Seq<u8>,
    path: Seq<u8>,
    frame: Seq<u8>,
    footer: Seq<u8>,
) -> ScreenView {
    let s1 = draw::window_shell(s0, ui, WindowId::Video, window, "视频", active);
    let s2 = draw::bytes_drawn(s1, window.x + 18, window.y + 32, title, INK, 1);
    let s3 = draw::bytes_drawn(s2, window.x + 18, window.y + 42, path, MUTED_TEXT, 1);
    let s4 = draw::round_button(
        s3,
        window.x + 18,
        window.y + 58,
        30,
        18,
        if ui.hover == HitTarget::VideoPrev { SELECTION } else { VIDEO_PANEL },
        "上",
    );
    let s5 = draw::round_button(
        s4,
        window.x + 54,
        window.y + 58,
        48,
        18,
        if ui.hover == HitTarget::VideoPlay { SELECTION } else { VIDEO_PANEL },
        "播放",
    );
    let s6 = draw::round_button(
        s5,
        window.x + 108,
        window.y + 58,
        30,
        18,
        if ui.hover == HitTarget::VideoNext { SELECTION } else { VIDEO_PANEL },
        "下",
    );
    let s7 = draw::shadow_panel(
        s6,
        window.x + 18,
        window.y + 88,
        window.w - 36,
        window.h - 124,
        8,
        VIDEO_PANEL,
        GLASS_EDGE,
    );
    let s8 = lines_drawn(
        s7,
        window.x + 28,
        window.y + 98,
        frame,
        WINDOW_WHITE,
        ((window.h - 144) / 8) as usize,
        ((window.w - 56) / 6) as usize,
    );
    draw::bytes_drawn(s8, window.x + 18, window.y + window.h - 24, footer, MUTED_TEXT, 1)
}

pub(crate) fn draw_video_window(
    screen: &mut Screen,
    ui: &DesktopUi,
    window: &WindowState,
    active: bool,
    title: &[u8],
    path: &[u8],
    frame: &[u8],
    footer: &[u8],
)
    requires
        old(screen)@.wf(),
        gui::window_wf(*window),
    ensures
        final(screen)@.wf(),
        screen::same_frame(old(screen)@, final(screen)@),
        final(screen)@ == video_window(
            old(screen)@,
            *ui,
            *window,
            active,
            title@,
            path@,
            frame@,
            footer@,
        ),
{
    reveal(video_window);
    proof {
        reveal_strlit("视频");
        letters::lemma_text_size("视频"@, 1);
    }
    draw_window_shell(screen, ui, WindowId::Video, window, "视频", active);
    draw_bytes(screen, window.x + 18, window.y + 32, title, INK, 1);
    draw_bytes(screen, window.x + 18, window.y + 42, path, MUTED_TEXT, 1);
    proof {
        reveal_strlit("上");
        letters::lemma_short_text("上"@, 1);
        reveal_strlit("播放");
        letters::lemma_short_text("播放"@, 1);
        reveal_strlit("下");
        letters::lemma_short_text("下"@, 1);
    }
    draw_round_button(
        screen,
        window.x + 18,
        window.y + 58,
        30,
        18,
        if ui.hover == HitTarget::VideoPrev { SELECTION } else { VIDEO_PANEL },
        "上",
    );
    draw_round_button(
        screen,
        window.x + 54,
        window.y + 58,
        48,
        18,
        if ui.hover == HitTarget::VideoPlay { SELECTION } else { VIDEO_PANEL },
        "播放",
    );
    draw_round_button(
        screen,
        window.x + 108,
        window.y + 58,
        30,
        18,
        if ui.hover == HitTarget::VideoNext { SELECTION } else { VIDEO_PANEL },
        "下",
    );
    draw_shadow_rounded_panel(
        screen,
        window.x + 18,
        window.y + 88,
        window.w - 36,
        window.h - 124,
        8,
        VIDEO_PANEL,
        GLASS_EDGE,
    );
    draw_multiline_text(
        screen,
        window.x + 28,
        window.y + 98,
        frame,
        WINDOW_WHITE,
        ((window.h - 144) as u32 / 8) as usize,
        ((window.w - 56) as u32 / 6) as usize,
    );
    draw_bytes(screen, window.x + 18, window.y + window.h - 24, footer, MUTED_TEXT, 1);
}

/// The window of the music player.
#[verifier::opaque]
pub open spec fn audio_window(
    s0: ScreenView,
    ui: DesktopUi,
    window: WindowState,
    active: bool,
    path: Seq<u8>,
    notes: Seq<u8>,
    status: Seq<u8>,
) -> ScreenView {
    let s1 = draw::window_shell(s0, ui, WindowId::Audio, window, "音频", active);
    let s2 = letters::text_drawn(s1, window.x + 18, window.y + 32, "音频播放器"@, INK, 1);
    let s3 = draw::bytes_drawn(s2, window.x + 18, window.y + 42, path, MUTED_TEXT, 1);
    let s4 = draw::round_button(
        s3,
        window.x + 18,
        window.y + 58,
        54,
        18,
        if ui.hover == HitTarget::AudioPlay { SELECTION } else { AUDIO_PANEL },
        "播放",
    );
    let s5 = draw::shadow_panel(
        s4,
        window.x + 18,
        window.y + 88,
        window.w - 36,
        window.h - 122,
        8,
        AUDIO_PANEL,
        GLASS_EDGE,
    );
    let s6 = lines_drawn(
        s5,
        window.x + 28,
        window.y + 98,
        notes,
        WINDOW_WHITE,
        ((window.h - 142) / 8) as usize,
        ((window.w - 56) / 6) as usize,
    );
    draw::bytes_drawn(s6, window.x + 18, window.y + window.h - 24, status, MUTED_TEXT, 1)
}

pub(crate) fn draw_audio_window(
    screen: &mut Screen,
    ui: &DesktopUi,
    window: &WindowState,
    active: bool,
    path: &[u8],
    notes: &[u8],
    status: &[u8],
)
    requires
        old(screen)@.wf(),
        gui::window_wf(*window),
    ensures
        final(screen)@.wf(),
        screen::same_frame(old(screen)@, final(screen)@),
        final(screen)@ == audio_window(old(screen)@, *ui, *window, active, path@, notes@, status@),
{
    reveal(audio_window);
    proof {
        reveal_strlit("音频");
        letters::lemma_text_size("音频"@, 1);
    }
    draw_window_shell(screen, ui, WindowId::Audio, window, "音频", active);
    screen.draw_text(window.x + 18, window.y + 32, "音频播放器", INK, 1);
    draw_bytes(screen, window.x + 18, window.y + 42, path, MUTED_TEXT, 1);
    proof {
        reveal_strlit("播放");
        letters::lemma_short_text("播放"@, 1);
    }
    draw_round_button(
        screen,
        window.x + 18,
        window.y + 58,
        54,
        18,
        if ui.hover == HitTarget::AudioPlay { SELECTION } else { AUDIO_PANEL },
        "播放",
    );
    draw_shadow_rounded_panel(
        screen,
        window.x + 18,
        window.y + 88,
        window.w - 36,
        window.h - 122,
        8,
        AUDIO_PANEL,
        GLASS_EDGE,
    );
    draw_multiline_text(
        screen,
        window.x + 28,
        window.y + 98,
        notes,
        WINDOW_WHITE,
        ((window.h - 142) as u32 / 8) as usize,
        ((window.w - 56) as u32 / 6) as usize,
    );
    draw_bytes(screen, window.x + 18, window.y + window.h - 24, status, MUTED_TEXT, 1);
}

/// An entry of the list of files.
#[verifier::opaque]
pub open spec fn files_row(
    s0: ScreenView,
    ui: DesktopUi,
    window: WindowState,
    index: usize,
    name: Seq<u8>,
    kind: BrowserKind,
) -> ScreenView {
    let left = window.x + 18;
    let top = window.y + 102 + index as int * 24;
    let wide = window.w - 36;
    let hovered = ui.hover == HitTarget::FilesEntry(index);
    let pressed = ui.pressed == HitTarget::FilesEntry(index);
    let selected = ui.selected_file_entry == Some(index);
    let fill = if pressed {
        SOFT_GRAY
    } else if hovered || selected {
        SELECTION
    } else {
        PANEL_PAPER
    };
    let s1 = draw::sheet_panel(
        s0,
        left,
        top,
        wide,
        22,
        6,
        fill,
        if hovered || selected { 176 } else { 118 },
        62,
    );
    let s4 = match kind {
        BrowserKind::Directory => {
            let s2 = draw::folder_symbol(s1, left + 8, top + 5);
            let s3 = letters::text_drawn(
                s2,
                left + wide - 14 - letters::text_size("目录"@, 1),
                top + 7,
                "目录"@,
                MUTED_TEXT,
                1,
            );
            s3
        },
        BrowserKind::File => {
            let s2 = draw::file_symbol(s1, left + 10, top + 4);
            let s3 = letters::text_drawn(
                s2,
                left + wide - 14 - letters::text_size("文件"@, 1),
                top + 7,
                "文件"@,
                MUTED_TEXT,
                1,
            );
            s3
        },
    };
    draw::bytes_drawn(s4, left + 34, top + 7, name, INK, 2)
}

pub(crate) fn draw_files_row(
    screen: &mut Screen,
    ui: &DesktopUi,
    window: &WindowState,
    index: usize,
    name: &[u8],
    kind: BrowserKind,
)
    requires
        old(screen)@.wf(),
        gui::window_wf(*window),
        index < 12,
    ensures
        final(screen)@.wf(),
        screen::same_frame(old(screen)@, final(screen)@),
        final(screen)@ == files_row(old(screen)@, *ui, *window, index, name@, kind),
{
    reveal(files_row);
    let left: i32 = window.x + 18;
    let top: i32 = window.y + 102 + index as i32 * 24;
    let wide: i32 = window.w - 36;
    let hovered = ui.hover == HitTarget::FilesEntry(index);
    let pressed = ui.pressed == HitTarget::FilesEntry(index);
    let selected = ui.selected_file_entry == Some(index);
    let fill = if pressed {
        SOFT_GRAY
    } else if hovered || selected {
        SELECTION
    } else {
        PANEL_PAPER
    };
    draw_glass_sheet_panel(
        screen,
        left,
        top,
        wide,
        22,
        6,
        fill,
        if hovered || selected { 176 } else { 118 },
        62,
    );
    match kind {
        BrowserKind::Directory => {
            draw_folder_symbol(screen, left + 8, top + 5);
            proof {
                reveal_strlit("目录");
                letters::lemma_text_size("目录"@, 1);
            }
            screen.draw_text(
                left + wide - 14 - letters::text_width("目录", 1),
                top + 7,
                "目录",
                MUTED_TEXT,
                1,
            );
        },
        BrowserKind::File => {
            draw_file_symbol(screen, left + 10, top + 4);
            proof {
                reveal_strlit("文件");
                letters::lemma_text_size("文件"@, 1);
            }
            screen.draw_text(
                left + wide - 14 - letters::text_width("文件", 1),
                top + 7,
                "文件",
                MUTED_TEXT,
                1,
            );
        },
    }
    draw_bytes(screen, left + 34, top + 7, name, INK, 2);
}

/// The window of the files.
#[verifier::opaque]
pub open spec fn files_window(
    s0: ScreenView,
    ui: DesktopUi,
    window: WindowState,
    active: bool,
    path: Seq<u8>,
    entries: Seq<EntryView>,
    status: Seq<u8>,
) -> ScreenView {
    let s1 = draw::window_shell(s0, ui, WindowId::Files, window, "文件", active);
    let s2 = draw::sheet_panel(
        s1,
        window.x + 12,
        window.y + 30,
        window.w - 24,
        28,
        8,
        GLASS_TINT,
        132,
        82,
    );
    let s3 = draw::sheet_panel(s2, window.x + 14, window.y + 34, 30, 18, 5, PANEL_PAPER, 152, 64);
    let s4 = letters::text_drawn(s3, window.x + 22, window.y + 39, "<"@, INK, 2);
    let s5 = draw::sheet_panel(
        s4,
        window.x + 54,
        window.y + 34,
        window.w - 70,
        18,
        5,
        PANEL_PAPER,
        148,
        58,
    );
    let s6 = draw::bytes_drawn(s5, window.x + 62, window.y + 34, path, INK, 2);
    let s7 = draw::sheet_panel(
        s6,
        window.x + 16,
        window.y + 68,
        window.w - 32,
        window.h - 108,
        10,
        GLASS_TINT,
        114,
        66,
    );
    let s8 = screen::rect_alpha(
        s7,
        window.x + 20,
        window.y + 92,
        window.w - 40,
        1,
        GLASS_HIGHLIGHT,
        104,
    );
    let s9 = letters::text_drawn(s8, window.x + 22, window.y + 74, "文件"@, MUTED_TEXT, 1);
    let s10 = letters::text_drawn(
        s9,
        window.x + window.w - 22 - letters::text_size("类型"@, 1),
        window.y + 74,
        "类型"@,
        MUTED_TEXT,
        1,
    );
    let s11 = files_rows(s10, ui, window, entries);
    let s12 = draw::sheet_panel(
        s11,
        window.x + 16,
        window.y + window.h - 30,
        window.w - 32,
        18,
        6,
        GLASS_TINT,
        126,
        60,
    );
    draw::bytes_drawn(s12, window.x + 22, window.y + window.h - 24, status, MUTED_TEXT, 1)
}

#[verifier::rlimit(40)]
pub(crate) fn draw_files_window(
    screen: &mut Screen,
    ui: &DesktopUi,
    window: &WindowState,
    active: bool,
    path: &[u8],
    entries: &[BrowserEntry],
    status: &[u8],
)
    requires
        old(screen)@.wf(),
        gui::window_wf(*window),
        entries@.len() <= 12,
    ensures
        final(screen)@.wf(),
        screen::same_frame(old(screen)@, final(screen)@),
        final(screen)@ == files_window(
            old(screen)@,
            *ui,
            *window,
            active,
            path@,
            gui::entry_views(entries@),
            status@,
        ),
{
    reveal(files_window);
    proof {
        reveal_strlit("文件");
        letters::lemma_text_size("文件"@, 1);
    }
    draw_window_shell(screen, ui, WindowId::Files, window, "文件", active);
    draw_glass_sheet_panel(
        screen,
        window.x + 12,
        window.y + 30,
        window.w - 24,
        28,
        8,
        GLASS_TINT,
        132,
        82,
    );
    draw_glass_sheet_panel(screen, window.x + 14, window.y + 34, 30, 18, 5, PANEL_PAPER, 152, 64);
    screen.draw_text(window.x + 22, window.y + 39, "<", INK, 2);
    draw_glass_sheet_panel(
        screen,
        window.x + 54,
        window.y + 34,
        window.w - 70,
        18,
        5,
        PANEL_PAPER,
        148,
        58,
    );
    draw_bytes(screen, window.x + 62, window.y + 34, path, INK, 2);
    draw_glass_sheet_panel(
        screen,
        window.x + 16,
        window.y + 68,
        window.w - 32,
        window.h - 108,
        10,
        GLASS_TINT,
        114,
        66,
    );
    screen.gfx_fill_rect_alpha(
        window.x + 20,
        window.y + 92,
        window.w - 40,
        1,
        GLASS_HIGHLIGHT,
        104,
    );
    screen.draw_text(window.x + 22, window.y + 74, "文件", MUTED_TEXT, 1);
    proof {
        reveal_strlit("类型");
        letters::lemma_text_size("类型"@, 1);
    }
    screen.draw_text(
        window.x + window.w - 22 - letters::text_width("类型", 1),
        window.y + 74,
        "类型",
        MUTED_TEXT,
        1,
    );
    draw_files_rows(screen, ui, window, entries);
    draw_glass_sheet_panel(
        screen,
        window.x + 16,
        window.y + window.h - 30,
        window.w - 32,
        18,
        6,
        GLASS_TINT,
        126,
        60,
    );
    draw_bytes(screen, window.x + 22, window.y + window.h - 24, status, MUTED_TEXT, 1);
}

/// The window of the console.
#[verifier::opaque]
pub open spec fn cmd_window(
    s0: ScreenView,
    ui: DesktopUi,
    window: WindowState,
    active: bool,
) -> ScreenView {
    let s1 = draw::window_shell(s0, ui, WindowId::Cmd, window, "命令提示符", active);
    let s2 = draw::shadow_panel(
        s1,
        window.x + 8,
        window.y + 30,
        window.w - 16,
        window.h - 40,
        8,
        TERMINAL_BLACK,
        GLASS_EDGE,
    );
    console_cells(s2, window.x + 14, window.y + 38)
}

pub(crate) fn draw_cmd_window(
    screen: &mut Screen,
    ui: &DesktopUi,
    window: &WindowState,
    active: bool,
)
    requires
        old(screen)@.wf(),
        gui::window_wf(*window),
    ensures
        final(screen)@.wf(),
        screen::same_frame(old(screen)@, final(screen)@),
        final(screen)@ == cmd_window(old(screen)@, *ui, *window, active),
{
    reveal(cmd_window);
    proof {
        reveal_strlit("命令提示符");
        letters::lemma_text_size("命令提示符"@, 1);
    }
    draw_window_shell(screen, ui, WindowId::Cmd, window, "命令提示符", active);
    draw_shadow_rounded_panel(
        screen,
        window.x + 8,
        window.y + 30,
        window.w - 16,
        window.h - 40,
        8,
        TERMINAL_BLACK,
        GLASS_EDGE,
    );
    draw_console_cells(screen, window.x + 14, window.y + 38);
}

/// The window of the editor.
#[verifier::opaque]
pub open spec fn editor_window(
    s0: ScreenView,
    ui: DesktopUi,
    window: WindowState,
    active: bool,
    path: Seq<u8>,
    text: Seq<u8>,
    status: Seq<u8>,
) -> ScreenView {
    let s1 = draw::window_shell(s0, ui, WindowId::Editor, window, "编辑", active);
    let s2 = draw::shadow_panel(
        s1,
        window.x + window.w - 104,
        window.y + 29,
        44,
        16,
        5,
        MINIMIZE_YELLOW,
        GLASS_EDGE,
    );
    let s3 = letters::text_drawn(s2, window.x + window.w - 98, window.y + 33, "保存"@, INK, 1);
    let s4 = screen::rect(s3, window.x + 16, window.y + 40, window.w - 32, 1, GLASS_EDGE);
    let s5 = draw::bytes_drawn(s4, window.x + 20, window.y + 30, path, INK, 2);
    let s6 = draw::shadow_panel(
        s5,
        window.x + 16,
        window.y + 52,
        window.w - 32,
        window.h - 92,
        8,
        EDITOR_PAPER,
        GLASS_EDGE,
    );
    let s7 = editor_lines(
        s6,
        window.x + 24,
        window.y + 60,
        text,
        ((window.h - 104) / 8) as usize,
        ((window.w - 46) / 6) as usize,
    );
    let s8 = screen::rect(
        s7,
        window.x + 16,
        window.y + window.h - 34,
        window.w - 32,
        1,
        GLASS_EDGE,
    );
    draw::bytes_drawn(s8, window.x + 20, window.y + window.h - 24, status, MUTED_TEXT, 1)
}

pub(crate) fn draw_editor_window(
    screen: &mut Screen,
    ui: &DesktopUi,
    window: &WindowState,
    active: bool,
    path: &[u8],
    text: &[u8],
    status: &[u8],
)
    requires
        old(screen)@.wf(),
        gui::window_wf(*window),
    ensures
        final(screen)@.wf(),
        screen::same_frame(old(screen)@, final(screen)@),
        final(screen)@ == editor_window(old(screen)@, *ui, *window, active, path@, text@, status@),
{
    reveal(editor_window);
    proof {
        reveal_strlit("编辑");
        letters::lemma_text_size("编辑"@, 1);
    }
    draw_window_shell(screen, ui, WindowId::Editor, window, "编辑", active);
    draw_shadow_rounded_panel(
        screen,
        window.x + window.w - 104,
        window.y + 29,
        44,
        16,
        5,
        MINIMIZE_YELLOW,
        GLASS_EDGE,
    );
    screen.draw_text(window.x + window.w - 98, window.y + 33, "保存", INK, 1);
    screen.gfx_fill_rect(window.x + 16, window.y + 40, window.w - 32, 1, GLASS_EDGE);
    draw_bytes(screen, window.x + 20, window.y + 30, path, INK, 2);
    draw_shadow_rounded_panel(
        screen,
        window.x + 16,
        window.y + 52,
        window.w - 32,
        window.h - 92,
        8,
        EDITOR_PAPER,
        GLASS_EDGE,
    );
    draw_editor_text(
        screen,
        window.x + 24,
        window.y + 60,
        text,
        ((window.h - 104) as u32 / 8) as usize,
        ((window.w - 46) as u32 / 6) as usize,
    );
    screen.gfx_fill_rect(window.x + 16, window.y + window.h - 34, window.w - 32, 1, GLASS_EDGE);
    draw_bytes(screen, window.x + 20, window.y + window.h - 24, status, MUTED_TEXT, 1);
}

/// A program of the start menu.
#[verifier::opaque]
pub open spec fn start_row(
    s0: ScreenView,
    ui: DesktopUi,
    size: Size,
    index: usize,
    icon: IconId,
) -> ScreenView {
    let left = size.bar_x() + 4;
    let top = size.bar_y() - 196 + 16 + index as int * 28;
    let hovered = ui.hover == HitTarget::StartMenuItem(icon);
    let pressed = ui.pressed == HitTarget::StartMenuItem(icon);
    let fill = if pressed {
        SOFT_GRAY
    } else if hovered {
        SELECTION
    } else {
        GLASS_TINT
    };
    let s1 = draw::sheet_panel(
        s0,
        left + 10,
        top,
        156,
        22,
        6,
        fill,
        if hovered { 188 } else { 132 },
        72,
    );
    let s2 = draw::small_icon(s1, icon, left + 18, top + 3);
    letters::text_drawn(s2, left + 44, top + 7, draw::program_name(icon)@, INK, 1)
}

pub(crate) fn draw_start_row(
    screen: &mut Screen,
    ui: &DesktopUi,
    size: &Size,
    index: usize,
    icon: IconId,
)
    requires
        old(screen)@.wf(),
        size.wf(),
        index < 6,
    ensures
        final(screen)@.wf(),
        screen::same_frame(old(screen)@, final(screen)@),
        final(screen)@ == start_row(old(screen)@, *ui, *size, index, icon),
{
    reveal(start_row);
    let left: i32 = size.taskbar_x() + 4;
    let top: i32 = size.taskbar_y() - 196 + 16 + index as i32 * 28;
    let hovered = ui.hover == HitTarget::StartMenuItem(icon);
    let pressed = ui.pressed == HitTarget::StartMenuItem(icon);
    let fill = if pressed {
        SOFT_GRAY
    } else if hovered {
        SELECTION
    } else {
        GLASS_TINT
    };
    draw_glass_sheet_panel(
        screen,
        left + 10,
        top,
        156,
        22,
        6,
        fill,
        if hovered { 188 } else { 132 },
        72,
    );
    draw_small_icon(screen, icon, left + 18, top + 3);
    screen.draw_text(left + 44, top + 7, icon_label(icon), INK, 1);
}

/// The start menu.
#[verifier::opaque]
pub open spec fn start_menu(s0: ScreenView, ui: DesktopUi, size: Size) -> ScreenView {
    let left = size.bar_x() + 4;
    let top = size.bar_y() - 196;
    let s1 = draw::sheet_panel(s0, left, top, 176, 188, 12, GLASS_TINT, 164, 96);
    let s2 = screen::round_alpha(s1, left + 1, top + 1, 34, 186, 11, ACTIVE_GLOW, 68);
    let s3 = screen::round_alpha(s2, left + 1, top + 1, 174, 30, 10, TITLE_MIST, 92);
    let s4 = screen::rect_alpha(s3, left + 6, top + 5, 164, 1, GLASS_HIGHLIGHT, 180);
    let title_x = left + hit::half(176 - letters::text_size("RUSTIX 开始"@, 1));
    let s5 = letters::text_drawn(s4, title_x, top + 10, "RUSTIX 开始"@, INK, 1);
    let s6 = letters::text_drawn(s5, title_x, top + 9, "RUSTIX 开始"@, GLASS_HIGHLIGHT, 1);
    let s7 = letters::text_drawn(s6, left + 12, top + 36, "APPS"@, GLASS_HIGHLIGHT, 1);
    start_rows(s7, ui, size)
}

pub(crate) fn draw_start_menu(screen: &mut Screen, ui: &DesktopUi, size: &Size)
    requires
        old(screen)@.wf(),
        size.wf(),
    ensures
        final(screen)@.wf(),
        screen::same_frame(old(screen)@, final(screen)@),
        final(screen)@ == start_menu(old(screen)@, *ui, *size),
{
    reveal(start_menu);
    let left: i32 = size.taskbar_x() + 4;
    let top: i32 = size.taskbar_y() - 196;
    draw_glass_sheet_panel(screen, left, top, 176, 188, 12, GLASS_TINT, 164, 96);
    screen.gfx_fill_round_rect_alpha(left + 1, top + 1, 34, 186, 11, ACTIVE_GLOW, 68);
    screen.gfx_fill_round_rect_alpha(left + 1, top + 1, 174, 30, 10, TITLE_MIST, 92);
    screen.gfx_fill_rect_alpha(left + 6, top + 5, 164, 1, GLASS_HIGHLIGHT, 180);
    proof {
        reveal_strlit("RUSTIX 开始");
        letters::lemma_text_size("RUSTIX 开始"@, 1);
    }
    let title_x: i32 = left + hit::halve(176 - letters::text_width("RUSTIX 开始", 1));
    screen.draw_text(title_x, top + 10, "RUSTIX 开始", INK, 1);
    screen.draw_text(title_x, top + 9, "RUSTIX 开始", GLASS_HIGHLIGHT, 1);
    screen.draw_text(left + 12, top + 36, "APPS", GLASS_HIGHLIGHT, 1);
    draw_start_rows(screen, ui, size);
}

/// An item of the context menu.
#[verifier::opaque]
pub open spec fn menu_row(
    s0: ScreenView,
    ui: DesktopUi,
    x: int,
    y: int,
    action: ContextAction,
) -> ScreenView {
    let hovered = ui.hover == HitTarget::ContextMenuItem(action);
    let pressed = ui.pressed == HitTarget::ContextMenuItem(action);
    let s2 = if hovered || pressed {
        let s1 = screen::round_alpha(
            s0,
            x + 4,
            y,
            118,
            22,
            5,
            if pressed { SOFT_GRAY } else { SELECTION },
            196,
        );
        s1
    } else {

        s0
    };
    let s4 = match action {
        ContextAction::DesktopFiles | ContextAction::FilesNewDirectory => {
            let s3 = draw::folder_symbol(s2, x + 10, y + 2);
            s3
        },
        ContextAction::DesktopCommand => {
            let s3 = draw::terminal_symbol(s2, x + 10, y + 2);
            s3
        },
        ContextAction::DesktopSettings => {
            let s3 = draw::settings_symbol(s2, x + 10, y + 2);
            s3
        },
        ContextAction::FilesNewFile => {
            let s3 = draw::file_symbol(s2, x + 12, y + 1);
            s3
        },
    };
    letters::text_drawn(s4, x + 38, y + 3, draw::action_name(action)@, INK, 1)
}

pub(crate) fn draw_menu_row(
    screen: &mut Screen,
    ui: &DesktopUi,
    x: i32,
    y: i32,
    action: ContextAction,
)
    requires
        old(screen)@.wf(),
        x + 38 <= i32::MAX,
        y + 18 <= i32::MAX,
    ensures
        final(screen)@.wf(),
        screen::same_frame(old(screen)@, final(screen)@),
        final(screen)@ == menu_row(old(screen)@, *ui, x as int, y as int, action),
{
    reveal(menu_row);
    let hovered = ui.hover == HitTarget::ContextMenuItem(action);
    let pressed = ui.pressed == HitTarget::ContextMenuItem(action);
    if hovered || pressed {
        screen.gfx_fill_round_rect_alpha(
            x + 4,
            y,
            118,
            22,
            5,
            if pressed { SOFT_GRAY } else { SELECTION },
            196,
        );
    }
    match action {
        ContextAction::DesktopFiles | ContextAction::FilesNewDirectory => {
            draw_folder_symbol(screen, x + 10, y + 2);
        },
        ContextAction::DesktopCommand => {
            draw_terminal_symbol(screen, x + 10, y + 2);
        },
        ContextAction::DesktopSettings => {
            draw_settings_symbol(screen, x + 10, y + 2);
        },
        ContextAction::FilesNewFile => {
            draw_file_symbol(screen, x + 12, y + 1);
        },
    }
    screen.draw_text(x + 38, y + 3, context_action_label(action), INK, 1);
}

/// The context menu.
#[verifier::opaque]
pub open spec fn context_menu(
    s0: ScreenView,
    ui: DesktopUi,
    x: int,
    y: int,
    kind: ContextMenuKind,
) -> ScreenView {
    let high = hit::menu_height(kind);
    let s1 = draw::sheet_panel(s0, x, y, 126, high, 8, GLASS_TINT, 210, 92);
    menu_rows(s1, ui, x, y, kind)
}

pub(crate) fn draw_context_menu_panel(
    screen: &mut Screen,
    ui: &DesktopUi,
    x: i32,
    y: i32,
    kind: ContextMenuKind,
)
    requires
        old(screen)@.wf(),
        x + 38 <= i32::MAX,
        y + hit::item_count(kind) * 24 <= i32::MAX,
    ensures
        final(screen)@.wf(),
        screen::same_frame(old(screen)@, final(screen)@),
        final(screen)@ == context_menu(old(screen)@, *ui, x as int, y as int, kind),
{
    reveal(context_menu);
    let high: i32 = hit::context_menu_height(kind);
    draw_glass_sheet_panel(screen, x, y, 126, high, 8, GLASS_TINT, 210, 92);
    draw_menu_rows(screen, ui, x, y, kind);
}

/// What the files say that the windows show.
#[verifier::ext_equal]
pub struct FilesView {
    pub settings: Option<Seq<char>>,
    pub video: Option<Seq<char>>,
    pub audio: Option<Seq<char>>,
}

/// What the files say that the windows show; nothing where one could not be read.
pub struct RenderFiles<'a> {
    pub settings: Option<&'a [char]>,
    pub video: Option<&'a [char]>,
    pub audio: Option<&'a [char]>,
}

/// What a text holds, where there is one.
pub open spec fn held(text: Option<&[char]>) -> Option<Seq<char>> {
    match text {
        Some(given) => Some(given@),
        None => None,
    }
}

impl View for RenderFiles<'_> {
    type V = FilesView;

    open spec fn view(&self) -> FilesView {
        FilesView {
            settings: held(self.settings),
            video: held(self.video),
            audio: held(self.audio),
        }
    }
}

/// The line at the foot of the film window.
pub open spec fn film_footer(view: DesktopView, count: nat) -> Seq<u8> {
    lines::filled(
        seq![
            text::literal("frame "),
            fixed::decimal(
                if view.ui.video_frame == usize::MAX {
                    usize::MAX as nat
                } else {
                    (view.ui.video_frame + 1) as nat
                },
            ),
            text::literal("/"),
            fixed::decimal(
                if count < 1 {
                    1
                } else {
                    count
                },
            ),
            text::literal("  "),
            view.video_status,
        ],
        64,
    )
}

/// A window on the screen, if it is to be seen.
#[verifier::opaque]
pub open spec fn window_drawn(s: ScreenView, view: DesktopView, files: FilesView, id: WindowId) -> ScreenView {
    let window = gui::window_of(view.ui, id);
    let active = view.ui.active == id;
    if !gui::visible(window) {
        s
    } else {
        match id {
            WindowId::Files => files_window(
                s,
                view.ui,
                window,
                active,
                view.files_path,
                view.entries,
                view.file_status,
            ),
            WindowId::Cmd => cmd_window(s, view.ui, window, active),
            WindowId::Editor => editor_window(
                s,
                view.ui,
                window,
                active,
                view.editor_path,
                view.editor_text,
                view.editor_status,
            ),
            WindowId::Settings => settings_window(
                s,
                view.ui,
                window,
                active,
                media::loaded(files.settings),
                view.settings_status,
            ),
            WindowId::Video => {
                let (title, frame, count) = media::film_shown(files.video, view.ui.video_frame);
                video_window(
                    s,
                    view.ui,
                    window,
                    active,
                    title,
                    gui::kept(view.video_path),
                    frame,
                    film_footer(view, count),
                )
            },
            WindowId::Audio => audio_window(
                s,
                view.ui,
                window,
                active,
                view.audio_path,
                media::music_shown(files.audio),
                view.audio_status,
            ),
        }
    }
}

/// The first windows, from the lowest on.
pub open spec fn windows_drawn(s: ScreenView, view: DesktopView, files: FilesView, count: nat) -> ScreenView
    decreases count,
{
    if count == 0 {
        s
    } else {
        window_drawn(
            windows_drawn(s, view, files, (count - 1) as nat),
            view,
            files,
            gui::draw_order(view.ui.active)[count - 1],
        )
    }
}

/// The icons of the desktop.
#[verifier::opaque]
pub open spec fn icons_drawn(s0: ScreenView, ui: DesktopUi) -> ScreenView {
    let s1 = draw::desktop_icon(s0, ui, IconId::Files, 30, 30);
    let s2 = draw::desktop_icon(s1, ui, IconId::Cmd, 30, 122);
    let s3 = draw::desktop_icon(s2, ui, IconId::Editor, 30, 214);
    let s4 = draw::desktop_icon(s3, ui, IconId::Settings, 548, 30);
    let s5 = draw::desktop_icon(s4, ui, IconId::Video, 548, 122);
    draw::desktop_icon(s5, ui, IconId::Audio, 548, 214)
}

/// The screen with the console to be seen, or not.
pub open spec fn console_shown(s: ScreenView, visible: bool) -> ScreenView {
    console::with_console(s, ConsoleView { visible, ..s.console })
}

/// The desktop on the screen.
#[verifier::opaque]
pub open spec fn rendered(
    s: ScreenView,
    view: DesktopView,
    files: FilesView,
    size: Size,
    wallpaper: Seq<u8>,
) -> ScreenView {
    let behind = draw::backdrop(screen::blitted(s, wallpaper), view.ui, size);
    if view.ui.locked {
        draw::lock_screen(console_shown(behind, false), view.ui, size)
    } else {
        let icons = console_shown(icons_drawn(behind, view.ui), gui::visible(view.ui.cmd));
        let windows = windows_drawn(icons, view, files, 6);
        let bar = draw::bar(windows, view.ui, size);
        let start = if view.ui.start_menu_open {
            start_menu(bar, view.ui, size)
        } else {
            bar
        };
        match view.ui.menu {
            Some(kind) => context_menu(
                start,
                view.ui,
                view.ui.menu_x as int,
                view.ui.menu_y as int,
                kind,
            ),
            None => start,
        }
    }
}

/// The desktop once it was drawn.
pub open spec fn shown_desktop(view: DesktopView) -> DesktopView {
    DesktopView {
        ui: DesktopUi {
            presented_mouse_x: view.ui.mouse_x,
            presented_mouse_y: view.ui.mouse_y,
            cursor_dirty: false,
            scene_dirty: false,
            ..view.ui
        },
        ..view
    }
}

fn draw_icons(screen: &mut Screen, ui: &DesktopUi)
    requires
        old(screen)@.wf(),
    ensures
        final(screen)@.wf(),
        screen::same_frame(old(screen)@, final(screen)@),
        final(screen)@ == icons_drawn(old(screen)@, *ui),
{
    reveal(icons_drawn);
    draw_desktop_icon(screen, ui, IconId::Files, 30, 30);
    draw_desktop_icon(screen, ui, IconId::Cmd, 30, 122);
    draw_desktop_icon(screen, ui, IconId::Editor, 30, 214);
    draw_desktop_icon(screen, ui, IconId::Settings, 548, 30);
    draw_desktop_icon(screen, ui, IconId::Video, 548, 122);
    draw_desktop_icon(screen, ui, IconId::Audio, 548, 214);
}

impl Desktop {
    fn video_footer(&self, count: usize) -> (footer: InlineString<64>)
        ensures
            footer@ == film_footer(self@, count as nat),
    {
        let shown: usize = if self.ui.video_frame == usize::MAX {
            usize::MAX
        } else {
            self.ui.video_frame + 1
        };
        let total: usize = if count < 1 {
            1
        } else {
            count
        };
        let line = Line::new().text("frame ").number(shown as u64).text("/").number(
            total as u64,
        ).text("  ").bytes(self.video_status.as_bytes());
        assert(line@ =~= seq![
            text::literal("frame "),
            fixed::decimal(shown as nat),
            text::literal("/"),
            fixed::decimal(total as nat),
            text::literal("  "),
            self@.video_status,
        ]);
        line.fill()
    }

    fn draw_window(&self, screen: &mut Screen, files: &RenderFiles<'_>, id: WindowId)
        requires
            old(screen)@.wf(),
            self@.wf(),
        ensures
            final(screen)@.wf(),
            screen::same_frame(old(screen)@, final(screen)@),
            final(screen)@ == window_drawn(old(screen)@, self@, files@, id),
    {
        reveal(window_drawn);
        let window = gui::get_window(&self.ui, id);
        let active = self.ui.active == id;
        if !window.open || window.minimized {
            return;
        }
        assert(self@.entries.len() == self.entries@.len());
        match id {
            WindowId::Files => draw_files_window(
                screen,
                &self.ui,
                &window,
                active,
                self.files_path.as_bytes(),
                self.entries.as_slice(),
                self.file_status.as_bytes(),
            ),
            WindowId::Cmd => draw_cmd_window(screen, &self.ui, &window, active),
            WindowId::Editor => draw_editor_window(
                screen,
                &self.ui,
                &window,
                active,
                self.editor_path.as_bytes(),
                self.editor_text.as_bytes(),
                self.editor_status.as_bytes(),
            ),
            WindowId::Settings => draw_settings_window(
                screen,
                &self.ui,
                &window,
                active,
                media::load_settings_config(files.settings),
                self.settings_status.as_bytes(),
            ),
            WindowId::Video => {
                let (title, frame, count) = media::load_video_frame(
                    files.video,
                    self.ui.video_frame,
                );
                let path = gui::keep(self.video_path.as_bytes());
                let footer = self.video_footer(count);
                draw_video_window(
                    screen,
                    &self.ui,
                    &window,
                    active,
                    title.as_bytes(),
                    path.as_bytes(),
                    frame.as_bytes(),
                    footer.as_bytes(),
                )
            },
            WindowId::Audio => {
                let notes = media::load_audio_notes_preview(files.audio);
                draw_audio_window(
                    screen,
                    &self.ui,
                    &window,
                    active,
                    self.audio_path.as_bytes(),
                    notes.as_bytes(),
                    self.audio_status.as_bytes(),
                )
            },
        }
    }

    fn draw_windows(&self, screen: &mut Screen, files: &RenderFiles<'_>)
        requires
            old(screen)@.wf(),
            self@.wf(),
        ensures
            final(screen)@.wf(),
            screen::same_frame(old(screen)@, final(screen)@),
            final(screen)@ == windows_drawn(old(screen)@, self@, files@, 6),
    {
        let order = gui::ordered_windows(self.ui.active);
        let mut index: usize = 0;
        while index < 6
            invariant
                index <= 6,
                order@ == gui::draw_order(self@.ui.active),
                self@.wf(),
                screen@.wf(),
            screen::same_frame(old(screen)@, screen@),
                screen@ == windows_drawn(old(screen)@, self@, files@, index as nat),
            decreases 6 - index,
        {
            self.draw_window(screen, files, order[index]);
            index += 1;
        }
    }

    fn draw_scene(
        &self,
        screen: &mut Screen,
        files: &RenderFiles<'_>,
        size: &Size,
        wallpaper: &[u8],
    )
        requires
            old(screen)@.wf(),
            self@.wf(),
            size.wf(),
        ensures
            final(screen)@.wf(),
            screen::same_frame(old(screen)@, final(screen)@),
            final(screen)@ == rendered(old(screen)@, self@, files@, *size, wallpaper@),
    {
        reveal(rendered);
        screen.gfx_blit_fullscreen(wallpaper);
        draw_desktop_backdrop(screen, &self.ui, size);
        if self.ui.locked {
            screen.gfx_set_console_visible(false);
            draw_lock_screen(screen, &self.ui, size);
            return;
        }
        draw_icons(screen, &self.ui);
        screen.gfx_set_console_visible(self.ui.cmd.open && !self.ui.cmd.minimized);
        self.draw_windows(screen, files);
        draw_taskbar(screen, &self.ui, size);
        if self.ui.start_menu_open {
            draw_start_menu(screen, &self.ui, size);
        }
        if let Some(kind) = self.ui.menu {
            draw_context_menu_panel(screen, &self.ui, self.ui.menu_x, self.ui.menu_y, kind);
        }
    }

    /// Draws the desktop and brings it on the display, with the pointer on it.
    pub fn render_desktop(
        &mut self,
        screen: &mut Screen,
        display: &mut Display,
        files: &RenderFiles<'_>,
        wallpaper: &[u8],
    )
        requires
            old(self)@.wf(),
            old(display).wf(old(screen)@),
        ensures
            final(self)@.wf(),
            final(screen)@.wf(),
            final(display).wf(final(screen)@),
            final(display).mode == old(display).mode,
            !old(screen)@.graphics ==> final(self)@ == old(self)@ && final(screen)@ == old(
                screen,
            )@ && final(display).frame@ == old(display).frame@,
            old(screen)@.graphics ==> {
                let size = (Size {
                    width: old(screen)@.width as i32,
                    height: old(screen)@.height as i32,
                });
                &&& final(self)@ == shown_desktop(old(self)@)
                &&& final(screen)@ == rendered(
                    old(screen)@,
                    old(self)@,
                    files@,
                    size,
                    wallpaper@,
                )
                &&& final(display).frame@ == output::pointer_moved(
                    output::presented(old(display).frame@, old(display).mode, final(screen)@),
                    old(display).mode,
                    final(screen)@,
                    -1,
                    -1,
                    old(self)@.ui.mouse_x as int,
                    old(self)@.ui.mouse_y as int,
                    INK,
                    WINDOW_WHITE,
                )
            },
    {
        if !screen.graphics_mode_enabled() {
            return;
        }
        let size = Size { width: screen.screen_width(), height: screen.screen_height() };
        self.draw_scene(screen, files, &size, wallpaper);
        display.gfx_present(screen);
        display.gfx_move_cursor(
            screen,
            -1,
            -1,
            self.ui.mouse_x,
            self.ui.mouse_y,
            INK,
            WINDOW_WHITE,
        );
        self.ui.presented_mouse_x = self.ui.mouse_x;
        self.ui.presented_mouse_y = self.ui.mouse_y;
        self.ui.cursor_dirty = false;
        self.ui.scene_dirty = false;
    }
}

} // verus!
