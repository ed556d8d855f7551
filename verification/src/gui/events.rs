//! What the mouse, the keyboard and the clock do to the desktop.
use crate::arch::{ClockTime, ConsoleInput};
use crate::fixed;
use crate::fixed::InlineString;
use crate::gui;
use crate::gui::files;
use crate::gui::files::{DesktopRequest, RequestView};
use crate::gui::hit;
use crate::gui::hit::Size;
use crate::gui::{
    BrowserKind, ContextAction, ContextMenuKind, Desktop, DesktopUi, DesktopView, DragState,
    HitTarget, IconId, WindowId, WindowState,
};
use crate::text;
use vstd::prelude::*;
use vstd::string::*;

verus! {

/// What lies under the mouse.
pub open spec fn hovered(view: DesktopView, size: Size) -> HitTarget {
    hit::under(
        view.ui,
        view.entries.len() as int,
        size,
        view.ui.mouse_x as int,
        view.ui.mouse_y as int,
    )
}

/// The desktop locked: no menu is open, and nothing is held or pressed.
pub open spec fn locked(view: DesktopView) -> DesktopView {
    DesktopView {
        ui: DesktopUi {
            locked: true,
            start_menu_open: false,
            menu: None,
            dragging: None,
            pressed: HitTarget::Nothing,
            hover: HitTarget::Nothing,
            ..view.ui
        },
        ..view
    }
}

/// The desktop unlocked.
pub open spec fn unlocked(view: DesktopView, size: Size) -> DesktopView {
    let open = DesktopView { ui: DesktopUi { locked: false, ..view.ui }, ..view };
    DesktopView { ui: DesktopUi { hover: hovered(open, size), ..open.ui }, ..open }
}

/// A window opened from its icon, and what it asks for.
#[verifier::opaque]
pub open spec fn opened(view: DesktopView, icon: IconId) -> (DesktopView, RequestView) {
    let ui = view.ui;
    match icon {
        IconId::Files => (
            DesktopView {
                ui: DesktopUi {
                    files: WindowState { open: true, minimized: false, ..ui.files },
                    active: WindowId::Files,
                    ..ui
                },
                ..view
            },
            RequestView::RefreshFiles,
        ),
        IconId::Cmd => (
            DesktopView {
                ui: DesktopUi {
                    cmd: WindowState { open: true, minimized: false, ..ui.cmd },
                    active: WindowId::Cmd,
                    ..ui
                },
                ..view
            },
            RequestView::Nothing,
        ),
        IconId::Editor => (
            view,
            RequestView::OpenEditor(gui::kept(text::literal("/home/notes.txt"))),
        ),
        IconId::Settings => (
            DesktopView {
                ui: DesktopUi {
                    settings: WindowState { open: true, minimized: false, ..ui.settings },
                    active: WindowId::Settings,
                    ..ui
                },
                settings_status: gui::kept(text::literal("Editing settings")),
                ..view
            },
            RequestView::Nothing,
        ),
        IconId::Video => (
            DesktopView {
                ui: DesktopUi {
                    video: WindowState { open: true, minimized: false, ..ui.video },
                    active: WindowId::Video,
                    ..ui
                },
                video_status: gui::kept(text::literal("Ready")),
                ..view
            },
            RequestView::Nothing,
        ),
        IconId::Audio => (
            DesktopView {
                ui: DesktopUi {
                    audio: WindowState { open: true, minimized: false, ..ui.audio },
                    active: WindowId::Audio,
                    ..ui
                },
                audio_status: gui::kept(text::literal("Ready")),
                ..view
            },
            RequestView::Nothing,
        ),
    }
}

/// Whether a click comes soon enough behind another to be a double one.
pub open spec fn soon(tick: u32, last: u32) -> bool {
    tick.wrapping_sub(last) <= 28
}

/// A click on an icon of the desktop: the second of two opens its window.
#[verifier::opaque]
pub open spec fn icon_clicked(view: DesktopView, icon: IconId) -> (DesktopView, RequestView) {
    let tick = view.ui.tick;
    let double = match view.ui.last_icon_click {
        Some((last, at)) => last == icon && soon(tick, at),
        None => false,
    };
    let selected = DesktopView {
        ui: DesktopUi {
            selected_icon: Some(icon),
            last_icon_click: Some((icon, tick)),
            ..view.ui
        },
        ..view
    };
    if double {
        opened(selected, icon)
    } else {
        (selected, RequestView::Nothing)
    }
}

/// An entry of the folder opened: another folder, or a file in the editor.
#[verifier::opaque]
pub open spec fn entry_opened(view: DesktopView, index: usize) -> (DesktopView, RequestView) {
    let entry = view.entries[index as int];
    let path = files::child_path(view.files_path, entry.name);
    match entry.kind {
        BrowserKind::Directory => (files::navigated(view, path), RequestView::RefreshFiles),
        BrowserKind::File => (view, RequestView::OpenEditor(path)),
    }
}

/// A click on an entry of the folder: the second of two opens it.
#[verifier::opaque]
pub open spec fn entry_clicked(view: DesktopView, index: usize) -> (DesktopView, RequestView) {
    let tick = view.ui.tick;
    let double = match view.ui.last_file_click {
        Some((last, at)) => last == index && soon(tick, at),
        None => false,
    };
    let selected = DesktopView {
        ui: DesktopUi {
            selected_file_entry: Some(index),
            last_file_click: Some((index, tick)),
            ..view.ui
        },
        ..view
    };
    if index >= view.entries.len() {
        (view, RequestView::Nothing)
    } else if double {
        entry_opened(selected, index)
    } else {
        (
            DesktopView { file_status: gui::kept(view.entries[index as int].name), ..selected },
            RequestView::Nothing,
        )
    }
}

/// An item of the context menu chosen.
#[verifier::opaque]
pub open spec fn action_performed(view: DesktopView, action: ContextAction) -> (
    DesktopView,
    RequestView,
) {
    let closed = DesktopView { ui: DesktopUi { menu: None, ..view.ui }, ..view };
    match action {
        ContextAction::DesktopFiles => opened(closed, IconId::Files),
        ContextAction::DesktopCommand => opened(closed, IconId::Cmd),
        ContextAction::DesktopSettings => opened(closed, IconId::Settings),
        ContextAction::FilesNewDirectory => (
            closed,
            RequestView::CreateEntry(BrowserKind::Directory),
        ),
        ContextAction::FilesNewFile => (closed, RequestView::CreateEntry(BrowserKind::File)),
    }
}

/// The window that a part of it belongs to.
pub open spec fn owner(target: HitTarget) -> WindowId {
    match target {
        HitTarget::EditorSave => WindowId::Editor,
        HitTarget::FilesBack | HitTarget::FilesEntry(_) => WindowId::Files,
        HitTarget::SettingsBrightnessDown | HitTarget::SettingsBrightnessUp
        | HitTarget::SettingsVolumeDown | HitTarget::SettingsVolumeUp
        | HitTarget::SettingsTheme => WindowId::Settings,
        HitTarget::VideoPrev | HitTarget::VideoPlay | HitTarget::VideoNext => WindowId::Video,
        HitTarget::AudioPlay => WindowId::Audio,
        _ => WindowId::Cmd,
    }
}

/// The window that pressing the left button over a target makes active.
pub open spec fn pressed_window(target: HitTarget) -> Option<WindowId> {
    match target {
        HitTarget::WindowTitle(id) | HitTarget::WindowBody(id) | HitTarget::Minimize(id)
        | HitTarget::Close(id) | HitTarget::TaskbarIcon(id) => Some(id),
        HitTarget::ContextMenuItem(_) | HitTarget::ContextMenuPanel | HitTarget::StartButton
        | HitTarget::StartMenuPanel | HitTarget::ClockChip | HitTarget::Nothing
        | HitTarget::StartMenuItem(_) | HitTarget::DesktopIcon(_) => None,
        _ => Some(owner(target)),
    }
}

/// The icon that is selected once the left button is pressed over a target.
pub open spec fn pressed_icon(target: HitTarget, before: Option<IconId>) -> Option<IconId> {
    match target {
        HitTarget::ContextMenuItem(_) | HitTarget::ContextMenuPanel | HitTarget::StartButton
        | HitTarget::StartMenuPanel => before,
        HitTarget::StartMenuItem(icon) | HitTarget::DesktopIcon(icon) => Some(icon),
        _ => None,
    }
}

/// What pressing the left button over a target does, once the menus that it is not part of
/// are closed: a window becomes active, and one that is held by its title is dragged.
#[verifier::opaque]
pub open spec fn target_pressed(ui: DesktopUi, target: HitTarget) -> DesktopUi {
    let active = match pressed_window(target) {
        Some(id) => gui::activated(ui, id),
        None => ui,
    };
    DesktopUi {
        selected_icon: pressed_icon(target, ui.selected_icon),
        dragging: match target {
            HitTarget::WindowTitle(id) => {
                let window = gui::window_of(ui, id);
                Some(
                    DragState {
                        target: id,
                        offset_x: (ui.mouse_x - window.x) as i32,
                        offset_y: (ui.mouse_y - window.y) as i32,
                    },
                )
            },
            _ => ui.dragging,
        },
        ..active
    }
}

/// Whether a target belongs to the start menu.
pub open spec fn of_start_menu(target: HitTarget) -> bool {
    match target {
        HitTarget::StartButton | HitTarget::StartMenuPanel | HitTarget::StartMenuItem(_) => true,
        _ => false,
    }
}

/// Whether a target belongs to the context menu.
pub open spec fn of_context_menu(target: HitTarget) -> bool {
    match target {
        HitTarget::ContextMenuPanel | HitTarget::ContextMenuItem(_) => true,
        _ => false,
    }
}

/// The left button pressed: a locked desktop is unlocked, and else what lies under the
/// mouse is pressed.
#[verifier::opaque]
pub open spec fn pressed(view: DesktopView, size: Size) -> DesktopView {
    if view.ui.locked {
        let open = unlocked(view, size);
        DesktopView {
            ui: DesktopUi { pressed: HitTarget::Nothing, dragging: None, ..open.ui },
            ..open
        }
    } else {
        let ui = DesktopUi {
            start_menu_open: view.ui.start_menu_open && of_start_menu(view.ui.hover),
            menu: if of_context_menu(view.ui.hover) {
                view.ui.menu
            } else {
                None
            },
            pressed: view.ui.hover,
            ..view.ui
        };
        DesktopView { ui: target_pressed(ui, view.ui.hover), ..view }
    }
}

/// The left button held: a window that is dragged follows the mouse, within its limits.
#[verifier::opaque]
pub open spec fn held(view: DesktopView, size: Size) -> DesktopView {
    match view.ui.dragging {
        None => view,
        Some(drag) => {
            let window = gui::window_of(view.ui, drag.target);
            let moved = WindowState {
                x: within(
                    view.ui.mouse_x - drag.offset_x,
                    16,
                    size.width - window.w - 12,
                ) as i32,
                y: within(
                    view.ui.mouse_y - drag.offset_y,
                    20,
                    size.bar_y() - window.h - 16,
                ) as i32,
                ..window
            };
            DesktopView { ui: gui::with_window(view.ui, drag.target, moved), ..view }
        },
    }
}

/// A number brought into a range.
pub open spec fn within(value: int, low: int, high: int) -> int {
    if value < low {
        low
    } else if value > high {
        high
    } else {
        value
    }
}

/// A click on a target.
#[verifier::opaque]
pub open spec fn clicked(view: DesktopView, target: HitTarget) -> (DesktopView, RequestView) {
    let ui = view.ui;
    let same = (view, RequestView::Nothing);
    match target {
        HitTarget::StartButton => (
            DesktopView {
                ui: DesktopUi { start_menu_open: !ui.start_menu_open, ..ui },
                ..view
            },
            RequestView::Nothing,
        ),
        HitTarget::StartMenuItem(icon) => {
            let (after, request) = opened(view, icon);
            (
                DesktopView { ui: DesktopUi { start_menu_open: false, ..after.ui }, ..after },
                request,
            )
        },
        HitTarget::DesktopIcon(icon) => icon_clicked(view, icon),
        HitTarget::TaskbarIcon(id) => (
            DesktopView { ui: gui::toggled(ui, id), ..view },
            RequestView::Nothing,
        ),
        HitTarget::ClockChip => (locked(view), RequestView::Nothing),
        HitTarget::Minimize(id) => (
            DesktopView { ui: gui::minimized(ui, id), ..view },
            RequestView::Nothing,
        ),
        HitTarget::Close(id) => (
            DesktopView { ui: gui::closed(ui, id), ..view },
            RequestView::Nothing,
        ),
        HitTarget::FilesBack => files::went_up(view),
        HitTarget::FilesEntry(index) => entry_clicked(view, index),
        HitTarget::ContextMenuItem(action) => action_performed(view, action),
        HitTarget::EditorSave => (view, RequestView::SaveEditor),
        HitTarget::SettingsBrightnessDown => (
            view,
            RequestView::AdjustSetting { volume: false, up: false },
        ),
        HitTarget::SettingsBrightnessUp => (
            view,
            RequestView::AdjustSetting { volume: false, up: true },
        ),
        HitTarget::SettingsVolumeDown => (
            view,
            RequestView::AdjustSetting { volume: true, up: false },
        ),
        HitTarget::SettingsVolumeUp => (
            view,
            RequestView::AdjustSetting { volume: true, up: true },
        ),
        HitTarget::SettingsTheme => (view, RequestView::CycleTheme),
        HitTarget::VideoPrev => (view, RequestView::StepVideo { forward: false }),
        HitTarget::VideoPlay => (view, RequestView::PlayVideo),
        HitTarget::VideoNext => (view, RequestView::StepVideo { forward: true }),
        HitTarget::AudioPlay => (view, RequestView::PlayAudio),
        HitTarget::WindowBody(id) | HitTarget::WindowTitle(id) => (
            DesktopView { ui: gui::activated(ui, id), ..view },
            RequestView::Nothing,
        ),
        HitTarget::ContextMenuPanel | HitTarget::StartMenuPanel | HitTarget::Nothing => same,
    }
}

/// The left button released: a click where it was pressed.
#[verifier::opaque]
pub open spec fn released(view: DesktopView) -> (DesktopView, RequestView) {
    let (after, request) = if view.ui.pressed == view.ui.hover {
        clicked(view, view.ui.hover)
    } else {
        (view, RequestView::Nothing)
    };
    (
        DesktopView {
            ui: DesktopUi { dragging: None, pressed: HitTarget::Nothing, ..after.ui },
            ..after
        },
        request,
    )
}

/// The context menu that belongs to a target.
pub open spec fn menu_for(target: HitTarget) -> Option<ContextMenuKind> {
    match target {
        HitTarget::FilesEntry(_) => Some(ContextMenuKind::Files),
        HitTarget::WindowBody(id) => if id == WindowId::Files {
            Some(ContextMenuKind::Files)
        } else {
            None
        },
        HitTarget::Nothing | HitTarget::DesktopIcon(_) => Some(ContextMenuKind::Desktop),
        _ => None,
    }
}

/// The right button pressed: a locked desktop is unlocked, and else the context menu of
/// what lies under the mouse opens, or the open one closes.
#[verifier::opaque]
pub open spec fn right_pressed(view: DesktopView, size: Size) -> DesktopView {
    if view.ui.locked {
        unlocked(view, size)
    } else {
        let kind = menu_for(view.ui.hover);
        let ui = DesktopUi {
            start_menu_open: false,
            pressed: HitTarget::Nothing,
            dragging: None,
            menu: kind,
            ..view.ui
        };
        match kind {
            None => DesktopView { ui, ..view },
            Some(menu) => {
                let placed = DesktopView {
                    ui: DesktopUi {
                        menu_x: within(ui.mouse_x as int, 4, size.width - 130) as i32,
                        menu_y: within(
                            ui.mouse_y as int,
                            4,
                            size.height - hit::menu_height(menu) - 4,
                        ) as i32,
                        ..ui
                    },
                    ..view
                };
                DesktopView { ui: DesktopUi { hover: hovered(placed, size), ..placed.ui }, ..placed }
            },
        }
    }
}

/// A byte as a number with a sign.
pub open spec fn signed(byte: u8) -> int {
    if byte >= 128 {
        byte - 256
    } else {
        byte as int
    }
}

/// A packet of the mouse, as far as its left button is done with.
#[derive(Clone, Copy, Debug, PartialEq, Eq, Structural)]
pub struct PacketRest {
    pub left: bool,
    pub right: bool,
    pub moved: bool,
    pub scene_dirty: bool,
}

/// The mouse moved by a packet.
pub open spec fn mouse_moved(view: DesktopView, size: Size, dx: u8, dy: u8) -> DesktopView {
    let placed = DesktopView {
        ui: DesktopUi {
            mouse_x: within(view.ui.mouse_x + signed(dx), 0, size.width - 1) as i32,
            mouse_y: within(view.ui.mouse_y - signed(dy), 0, size.height - 1) as i32,
            ..view.ui
        },
        ..view
    };
    DesktopView { ui: DesktopUi { hover: hovered(placed, size), ..placed.ui }, ..placed }
}

/// A packet of the mouse with its movement and its left button: what it asks for, and what
/// is left of it. A packet whose movement did not fit is dropped.
#[verifier::opaque]
pub open spec fn packet_begun(view: DesktopView, size: Size, first: u8, dx: u8, dy: u8) -> (
    DesktopView,
    RequestView,
    Option<PacketRest>,
) {
    let ticked = DesktopView {
        ui: DesktopUi { tick: view.ui.tick.wrapping_add(1), ..view.ui },
        ..view
    };
    if first >= 64 {
        (ticked, RequestView::Nothing, None)
    } else {
        let left = first % 2 == 1;
        let right = first as int / 2 % 2 == 1;
        let moved = mouse_moved(ticked, size, dx, dy);
        let rest = PacketRest {
            left,
            right,
            moved: moved.ui.mouse_x != view.ui.mouse_x || moved.ui.mouse_y != view.ui.mouse_y,
            scene_dirty: false,
        };
        if !view.ui.mouse_left && left {
            (
                pressed(moved, size),
                RequestView::Nothing,
                Some(PacketRest { scene_dirty: true, ..rest }),
            )
        } else if view.ui.mouse_left && left {
            let after = held(moved, size);
            (
                after,
                RequestView::Nothing,
                Some(PacketRest { scene_dirty: after.ui.dragging is Some, ..rest }),
            )
        } else if view.ui.mouse_left {
            let (after, request) = released(moved);
            (after, request, Some(PacketRest { scene_dirty: true, ..rest }))
        } else {
            (moved, RequestView::Nothing, Some(rest))
        }
    }
}

/// The rest of a packet: its right button, and what has to be drawn.
#[verifier::opaque]
pub open spec fn packet_ended(view: DesktopView, size: Size, rest: PacketRest) -> DesktopView {
    let click = !view.ui.mouse_right && rest.right;
    let after = if click {
        right_pressed(view, size)
    } else {
        view
    };
    DesktopView {
        ui: DesktopUi {
            mouse_left: rest.left,
            mouse_right: rest.right,
            cursor_dirty: after.ui.cursor_dirty || rest.moved,
            scene_dirty: after.ui.scene_dirty || rest.scene_dirty || click,
            ..after.ui
        },
        ..after
    }
}

/// A byte of the mouse: three make a packet, and the first must have its fourth bit set.
pub open spec fn mouse_byte(view: DesktopView, size: Size, byte: u8) -> (
    DesktopView,
    RequestView,
    Option<PacketRest>,
) {
    let ui = view.ui;
    if ui.packet_len == 0 {
        if byte as int / 8 % 2 == 0 {
            (view, RequestView::Nothing, None)
        } else {
            (
                DesktopView { ui: DesktopUi { packet0: byte, packet_len: 1, ..ui }, ..view },
                RequestView::Nothing,
                None,
            )
        }
    } else if ui.packet_len == 1 {
        (
            DesktopView { ui: DesktopUi { packet1: byte, packet_len: 2, ..ui }, ..view },
            RequestView::Nothing,
            None,
        )
    } else {
        packet_begun(
            DesktopView { ui: DesktopUi { packet_len: 0, ..ui }, ..view },
            size,
            ui.packet0,
            ui.packet1,
            byte,
        )
    }
}

/// Whether there is room to drag the window that is dragged, and for the menus.
pub open spec fn has_room(view: DesktopView, size: Size) -> bool {
    &&& size.wf()
    &&& size.width >= 134
    &&& size.height >= 92
    &&& view.ui.dragging matches Some(drag) ==> gui::window_of(view.ui, drag.target).w
        <= size.width - 28 && gui::window_of(view.ui, drag.target).h <= size.height - 96
}

fn limit(value: i32, low: i32, high: i32) -> (result: i32)
    requires
        low <= high,
    ensures
        result == within(value as int, low as int, high as int),
        low <= result <= high,
{
    if value < low {
        low
    } else if value > high {
        high
    } else {
        value
    }
}

fn signed_byte(byte: u8) -> (value: i32)
    ensures
        value == signed(byte),
{
    if byte >= 128 {
        byte as i32 - 256
    } else {
        byte as i32
    }
}

fn is_soon(tick: u32, last: u32) -> (is: bool)
    ensures
        is == soon(tick, last),
{
    tick.wrapping_sub(last) <= 28
}

/// The window that pressing the left button over a target makes active.
fn activated_by(target: HitTarget) -> (window: Option<WindowId>)
    ensures
        window == pressed_window(target),
{
    match target {
        HitTarget::WindowTitle(id) | HitTarget::WindowBody(id) | HitTarget::Minimize(id)
        | HitTarget::Close(id) | HitTarget::TaskbarIcon(id) => Some(id),
        HitTarget::EditorSave => Some(WindowId::Editor),
        HitTarget::FilesBack | HitTarget::FilesEntry(_) => Some(WindowId::Files),
        HitTarget::SettingsBrightnessDown | HitTarget::SettingsBrightnessUp
        | HitTarget::SettingsVolumeDown | HitTarget::SettingsVolumeUp
        | HitTarget::SettingsTheme => Some(WindowId::Settings),
        HitTarget::VideoPrev | HitTarget::VideoPlay | HitTarget::VideoNext => Some(WindowId::Video),
        HitTarget::AudioPlay => Some(WindowId::Audio),
        HitTarget::ContextMenuItem(_) | HitTarget::ContextMenuPanel | HitTarget::StartButton
        | HitTarget::StartMenuPanel | HitTarget::ClockChip | HitTarget::Nothing
        | HitTarget::StartMenuItem(_) | HitTarget::DesktopIcon(_) => None,
    }
}

/// The icon that is selected once the left button is pressed over a target.
fn selected_by(target: HitTarget, before: Option<IconId>) -> (icon: Option<IconId>)
    ensures
        icon == pressed_icon(target, before),
{
    match target {
        HitTarget::ContextMenuItem(_) | HitTarget::ContextMenuPanel | HitTarget::StartButton
        | HitTarget::StartMenuPanel => before,
        HitTarget::StartMenuItem(icon) | HitTarget::DesktopIcon(icon) => Some(icon),
        _ => None,
    }
}

/// A text, or another where it is empty.
fn or_note(text: InlineString<64>, other: &str) -> (result: InlineString<64>)
    ensures
        result@ == or_else(text@, other),
{
    if text.is_empty() {
        gui::note(other)
    } else {
        text
    }
}

/// What a key does: whether it was for the desktop, what it asks for, and whether the
/// screen has to be drawn.
#[verifier::ext_equal]
pub struct KeyView {
    pub handled: bool,
    pub request: RequestView,
    pub render: bool,
}

/// Whether a key without a letter unlocks the desktop.
pub open spec fn unlocks(code: u8) -> bool {
    code == 0x01 || code == 0x0e || code == 0x0f || code == 0x1c || code == 0x39 || code == 0x58
        || code == 0x5a
}

/// The text of the editor with a letter typed; none where the letter is not for it.
pub open spec fn typed(text: Seq<u8>, byte: u8) -> Option<Seq<u8>> {
    if byte == 8 {
        Some(
            if text.len() > 0 {
                fixed::without_last(text)
            } else {
                text
            },
        )
    } else if byte == 10 || 32 <= byte <= 126 {
        Some(
            if text.len() < 2048 {
                text.push(byte)
            } else {
                text
            },
        )
    } else if byte == 9 {
        Some(fixed::appended(text, text::literal("    "), 2048))
    } else {
        None
    }
}

/// What a key does to the desktop.
#[verifier::opaque]
pub open spec fn key_pressed(
    view: DesktopView,
    size: Size,
    graphics: bool,
    code: u8,
    letter: Option<u8>,
) -> (DesktopView, KeyView) {
    let editing = view.ui.editor.open && !view.ui.editor.minimized && view.ui.active
        == WindowId::Editor;
    let nothing = KeyView { handled: true, request: RequestView::Nothing, render: false };
    if !graphics {
        (view, KeyView { handled: false, ..nothing })
    } else if view.ui.locked {
        if letter is Some || unlocks(code) {
            (unlocked(view, size), KeyView { render: true, ..nothing })
        } else {
            (view, nothing)
        }
    } else if code == 0x58 {
        (locked(view), KeyView { render: true, ..nothing })
    } else if !editing {
        (view, KeyView { handled: false, ..nothing })
    } else if code == 0x01 {
        (
            DesktopView { ui: gui::closed(view.ui, WindowId::Editor), ..view },
            KeyView { render: true, ..nothing },
        )
    } else if code == 0x3c {
        (
            view,
            KeyView { handled: true, request: RequestView::SaveEditor, render: true },
        )
    } else {
        match letter {
            None => (view, nothing),
            Some(byte) => match typed(view.editor_text, byte) {
                None => (view, KeyView { handled: false, ..nothing }),
                Some(text) => (
                    DesktopView {
                        editor_text: text,
                        editor_status: gui::kept(text::literal("Modified")),
                        ..view
                    },
                    KeyView { render: true, ..nothing },
                ),
            },
        }
    }
}

/// What a key does.
pub struct KeyOutcome {
    pub handled: bool,
    pub request: DesktopRequest,
    pub render: bool,
}

impl View for KeyOutcome {
    type V = KeyView;

    open spec fn view(&self) -> KeyView {
        KeyView { handled: self.handled, request: self.request@, render: self.render }
    }
}

/// What became of an input.
#[verifier::ext_equal]
pub enum InputView {
    Mouse(RequestView, Option<PacketRest>),
    Key(KeyView),
}

/// What became of an input: of a byte of the mouse, or of a key.
pub enum InputOutcome {
    Mouse(DesktopRequest, Option<PacketRest>),
    Key(KeyOutcome),
}

impl View for InputOutcome {
    type V = InputView;

    open spec fn view(&self) -> InputView {
        match *self {
            InputOutcome::Mouse(request, rest) => InputView::Mouse(request@, rest),
            InputOutcome::Key(outcome) => InputView::Key(outcome@),
        }
    }
}

/// An input: bytes of the mouse make packets, and a byte of the serial line is a letter
/// without a key.
pub open spec fn input_taken(view: DesktopView, size: Size, input: ConsoleInput) -> (
    DesktopView,
    InputView,
) {
    match input {
        ConsoleInput::MouseByte(byte) => {
            let (after, request, rest) = mouse_byte(view, size, byte);
            (after, InputView::Mouse(request, rest))
        },
        ConsoleInput::Key { code, translated } => {
            let (after, outcome) = key_pressed(view, size, true, code, translated);
            (after, InputView::Key(outcome))
        },
        ConsoleInput::Byte(byte) => {
            let (after, outcome) = key_pressed(view, size, true, 0, Some(byte));
            (after, InputView::Key(outcome))
        },
    }
}

/// What has to be drawn after the mouse was read.
#[derive(Clone, Copy, Debug, PartialEq, Eq, Structural)]
pub enum FlushAction {
    Nothing,
    Render,
    MoveCursor { old_x: i32, old_y: i32, new_x: i32, new_y: i32 },
}

/// What has to be drawn after the mouse was read.
pub open spec fn flushed(view: DesktopView) -> (DesktopView, FlushAction) {
    let ui = view.ui;
    if ui.scene_dirty {
        (view, FlushAction::Render)
    } else if ui.cursor_dirty {
        (
            DesktopView {
                ui: DesktopUi {
                    presented_mouse_x: ui.mouse_x,
                    presented_mouse_y: ui.mouse_y,
                    cursor_dirty: false,
                    ..ui
                },
                ..view
            },
            FlushAction::MoveCursor {
                old_x: ui.presented_mouse_x,
                old_y: ui.presented_mouse_y,
                new_x: ui.mouse_x,
                new_y: ui.mouse_y,
            },
        )
    } else {
        (view, FlushAction::Nothing)
    }
}

/// The desktop a while later, and whether it has to be drawn: the clock is looked at ten
/// times a second, and a new minute is shown.
pub open spec fn idled(view: DesktopView, now: u64, time: Option<ClockTime>) -> (DesktopView, bool) {
    let ui = view.ui;
    let polled = DesktopUi { last_clock_poll_ns: now, ..ui };
    if now.wrapping_sub(ui.last_clock_poll_ns) < 100_000_000 {
        (view, false)
    } else {
        match time {
            None => (DesktopView { ui: polled, ..view }, false),
            Some(shown) => {
                let changed = match ui.clock_time {
                    None => true,
                    Some(old) => old.hour != shown.hour || old.minute != shown.minute,
                };
                (
                    DesktopView {
                        ui: DesktopUi {
                            clock_time: Some(shown),
                            ambient_phase: if changed {
                                ui.ambient_phase.wrapping_add(1)
                            } else {
                                ui.ambient_phase
                            },
                            ..polled
                        },
                        ..view
                    },
                    changed,
                )
            },
        }
    }
}

/// A text, or another where it is empty.
pub open spec fn or_else(text: Seq<u8>, other: &str) -> Seq<u8> {
    if text.len() == 0 {
        gui::kept(text::literal(other))
    } else {
        text
    }
}

/// The desktop as it starts: the files, the settings and the start menu are open.
#[verifier::opaque]
pub open spec fn started(view: DesktopView, time: Option<ClockTime>) -> DesktopView {
    DesktopView {
        ui: DesktopUi {
            clock_time: time,
            start_menu_open: true,
            files: WindowState { open: true, minimized: false, ..view.ui.files },
            settings: WindowState { open: true, minimized: false, ..view.ui.settings },
            ..view.ui
        },
        files_path: or_else(view.files_path, "/"),
        video_path: or_else(view.video_path, "/usr/share/media/demo-video.rvf"),
        audio_path: or_else(view.audio_path, "/usr/share/media/demo-audio.rta"),
        settings_status: or_else(view.settings_status, "Settings"),
        video_status: or_else(view.video_status, "Ready"),
        audio_status: or_else(view.audio_status, "Ready"),
        ..view
    }
}

impl Desktop {
    fn hover_target(&self, size: &Size) -> (target: HitTarget)
        requires
            self@.wf(),
            size.wf(),
        ensures
            target == hovered(self@, *size),
    {
        assert(self@.entries.len() == self.entries@.len());
        hit::hit_test(&self.ui, self.entries.len(), size, self.ui.mouse_x, self.ui.mouse_y)
    }

    /// Starts the desktop. The folder that is shown is then to be listed.
    pub fn init(&mut self, time: Option<ClockTime>) -> (request: DesktopRequest)
        requires
            old(self)@.wf(),
        ensures
            final(self)@.wf(),
            final(self)@ == started(old(self)@, time),
            request@ == RequestView::RefreshFiles,
    {
        reveal(started);
        self.files_path = or_note(self.files_path, "/");
        self.video_path = or_note(self.video_path, "/usr/share/media/demo-video.rvf");
        self.audio_path = or_note(self.audio_path, "/usr/share/media/demo-audio.rta");
        self.settings_status = or_note(self.settings_status, "Settings");
        self.video_status = or_note(self.video_status, "Ready");
        self.audio_status = or_note(self.audio_status, "Ready");
        self.ui.clock_time = time;
        self.ui.start_menu_open = true;
        self.ui.files.open = true;
        self.ui.files.minimized = false;
        self.ui.settings.open = true;
        self.ui.settings.minimized = false;
        DesktopRequest::RefreshFiles
    }

    pub fn lock_desktop(&mut self)
        requires
            old(self)@.wf(),
        ensures
            final(self)@.wf(),
            final(self)@ == locked(old(self)@),
    {
        self.ui.locked = true;
        self.ui.start_menu_open = false;
        self.ui.menu = None;
        self.ui.dragging = None;
        self.ui.pressed = HitTarget::Nothing;
        self.ui.hover = HitTarget::Nothing;
    }

    pub fn unlock_desktop(&mut self, size: &Size)
        requires
            old(self)@.wf(),
            size.wf(),
        ensures
            final(self)@.wf(),
            final(self)@ == unlocked(old(self)@, *size),
    {
        self.ui.locked = false;
        let hover = self.hover_target(size);
        self.ui.hover = hover;
    }

    fn open_window(&mut self, icon: IconId) -> (request: DesktopRequest)
        requires
            old(self)@.wf(),
        ensures
            final(self)@.wf(),
            (final(self)@, request@) == opened(old(self)@, icon),
    {
        reveal(opened);
        match icon {
            IconId::Files => {
                self.ui.files.open = true;
                self.ui.files.minimized = false;
                self.ui.active = WindowId::Files;
                DesktopRequest::RefreshFiles
            },
            IconId::Cmd => {
                self.ui.cmd.open = true;
                self.ui.cmd.minimized = false;
                self.ui.active = WindowId::Cmd;
                DesktopRequest::Nothing
            },
            IconId::Editor => DesktopRequest::OpenEditor(gui::note("/home/notes.txt")),
            IconId::Settings => {
                self.ui.settings.open = true;
                self.ui.settings.minimized = false;
                self.ui.active = WindowId::Settings;
                self.settings_status = gui::note("Editing settings");
                DesktopRequest::Nothing
            },
            IconId::Video => {
                self.ui.video.open = true;
                self.ui.video.minimized = false;
                self.ui.active = WindowId::Video;
                self.video_status = gui::note("Ready");
                DesktopRequest::Nothing
            },
            IconId::Audio => {
                self.ui.audio.open = true;
                self.ui.audio.minimized = false;
                self.ui.active = WindowId::Audio;
                self.audio_status = gui::note("Ready");
                DesktopRequest::Nothing
            },
        }
    }

    fn click_desktop_icon(&mut self, icon: IconId) -> (request: DesktopRequest)
        requires
            old(self)@.wf(),
        ensures
            final(self)@.wf(),
            (final(self)@, request@) == icon_clicked(old(self)@, icon),
    {
        reveal(icon_clicked);
        let tick: u32 = self.ui.tick;
        let double = match self.ui.last_icon_click {
            Some((last, at)) => last == icon && is_soon(tick, at),
            None => false,
        };
        self.ui.selected_icon = Some(icon);
        self.ui.last_icon_click = Some((icon, tick));
        if double {
            self.open_window(icon)
        } else {
            DesktopRequest::Nothing
        }
    }

    fn open_files_entry(&mut self, index: usize) -> (request: DesktopRequest)
        requires
            old(self)@.wf(),
            index < old(self)@.entries.len(),
        ensures
            final(self)@.wf(),
            (final(self)@, request@) == entry_opened(old(self)@, index),
    {
        reveal(entry_opened);
        let entry = self.entries[index];
        assert(self@.entries[index as int] == entry@);
        let path = files::set_child_path(self.files_path.as_bytes(), entry.name.as_bytes());
        match entry.kind {
            BrowserKind::Directory => self.navigate_to(path.as_bytes()),
            BrowserKind::File => DesktopRequest::OpenEditor(path),
        }
    }

    fn click_files_entry(&mut self, index: usize) -> (request: DesktopRequest)
        requires
            old(self)@.wf(),
        ensures
            final(self)@.wf(),
            (final(self)@, request@) == entry_clicked(old(self)@, index),
    {
        reveal(entry_clicked);
        assert(self@.entries.len() == self.entries@.len());
        if index >= self.entries.len() {
            return DesktopRequest::Nothing;
        }
        let tick: u32 = self.ui.tick;
        let double = match self.ui.last_file_click {
            Some((last, at)) => last == index && is_soon(tick, at),
            None => false,
        };
        self.ui.selected_file_entry = Some(index);
        self.ui.last_file_click = Some((index, tick));
        if double {
            self.open_files_entry(index)
        } else {
            let entry = self.entries[index];
            assert(self@.entries[index as int] == entry@);
            self.file_status = gui::keep(entry.name.as_bytes());
            DesktopRequest::Nothing
        }
    }

    fn perform_context_action(&mut self, action: ContextAction) -> (request: DesktopRequest)
        requires
            old(self)@.wf(),
        ensures
            final(self)@.wf(),
            (final(self)@, request@) == action_performed(old(self)@, action),
    {
        reveal(action_performed);
        self.ui.menu = None;
        match action {
            ContextAction::DesktopFiles => self.open_window(IconId::Files),
            ContextAction::DesktopCommand => self.open_window(IconId::Cmd),
            ContextAction::DesktopSettings => self.open_window(IconId::Settings),
            ContextAction::FilesNewDirectory => DesktopRequest::CreateEntry(BrowserKind::Directory),
            ContextAction::FilesNewFile => DesktopRequest::CreateEntry(BrowserKind::File),
        }
    }

    fn press_target(&mut self, target: HitTarget)
        requires
            old(self)@.wf(),
        ensures
            final(self)@.wf(),
            final(self)@ == (DesktopView {
                ui: target_pressed(old(self)@.ui, target),
                ..old(self)@
            }),
    {
        reveal(target_pressed);
        let icon = selected_by(target, self.ui.selected_icon);
        if let HitTarget::WindowTitle(id) = target {
            let window = gui::get_window(&self.ui, id);
            self.ui.dragging = Some(
                DragState {
                    target: id,
                    offset_x: self.ui.mouse_x - window.x,
                    offset_y: self.ui.mouse_y - window.y,
                },
            );
        }
        if let Some(id) = activated_by(target) {
            gui::activate_window(&mut self.ui, id);
        }
        self.ui.selected_icon = icon;
    }

    fn on_mouse_press(&mut self, size: &Size)
        requires
            old(self)@.wf(),
            size.wf(),
        ensures
            final(self)@.wf(),
            final(self)@ == pressed(old(self)@, *size),
    {
        reveal(pressed);
        if self.ui.locked {
            self.unlock_desktop(size);
            self.ui.pressed = HitTarget::Nothing;
            self.ui.dragging = None;
            return;
        }
        let target = self.ui.hover;
        let start = match target {
            HitTarget::StartButton | HitTarget::StartMenuPanel | HitTarget::StartMenuItem(_) => {
                true
            },
            _ => false,
        };
        let context = match target {
            HitTarget::ContextMenuPanel | HitTarget::ContextMenuItem(_) => true,
            _ => false,
        };
        if !start {
            self.ui.start_menu_open = false;
        }
        if !context {
            self.ui.menu = None;
        }
        self.ui.pressed = target;
        self.press_target(target);
    }

    fn on_mouse_hold(&mut self, size: &Size)
        requires
            old(self)@.wf(),
            has_room(old(self)@, *size),
        ensures
            final(self)@.wf(),
            final(self)@ == held(old(self)@, *size),
    {
        reveal(held);
        let drag = match self.ui.dragging {
            None => {
                return;
            },
            Some(drag) => drag,
        };
        let mut window = gui::get_window(&self.ui, drag.target);
        let max_x: i32 = size.width - window.w - 12;
        let max_y: i32 = size.taskbar_y() - window.h - 16;
        window.x = limit(self.ui.mouse_x - drag.offset_x, 16, max_x);
        window.y = limit(self.ui.mouse_y - drag.offset_y, 20, max_y);
        gui::set_window(&mut self.ui, drag.target, window);
    }

    #[verifier::rlimit(60)]
    fn click(&mut self, target: HitTarget) -> (request: DesktopRequest)
        requires
            old(self)@.wf(),
        ensures
            final(self)@.wf(),
            (final(self)@, request@) == clicked(old(self)@, target),
    {
        reveal(clicked);
        match target {
            HitTarget::StartButton => {
                self.ui.start_menu_open = !self.ui.start_menu_open;
                DesktopRequest::Nothing
            },
            HitTarget::StartMenuItem(icon) => {
                let request = self.open_window(icon);
                self.ui.start_menu_open = false;
                request
            },
            HitTarget::DesktopIcon(icon) => self.click_desktop_icon(icon),
            HitTarget::TaskbarIcon(id) => {
                gui::toggle_taskbar_window(&mut self.ui, id);
                DesktopRequest::Nothing
            },
            HitTarget::ClockChip => {
                self.lock_desktop();
                DesktopRequest::Nothing
            },
            HitTarget::Minimize(id) => {
                gui::minimize_window(&mut self.ui, id);
                DesktopRequest::Nothing
            },
            HitTarget::Close(id) => {
                gui::close_window(&mut self.ui, id);
                DesktopRequest::Nothing
            },
            HitTarget::FilesBack => self.navigate_parent(),
            HitTarget::FilesEntry(index) => self.click_files_entry(index),
            HitTarget::ContextMenuItem(action) => self.perform_context_action(action),
            HitTarget::EditorSave => DesktopRequest::SaveEditor,
            HitTarget::SettingsBrightnessDown => DesktopRequest::AdjustSetting {
                volume: false,
                up: false,
            },
            HitTarget::SettingsBrightnessUp => DesktopRequest::AdjustSetting {
                volume: false,
                up: true,
            },
            HitTarget::SettingsVolumeDown => DesktopRequest::AdjustSetting {
                volume: true,
                up: false,
            },
            HitTarget::SettingsVolumeUp => DesktopRequest::AdjustSetting { volume: true, up: true },
            HitTarget::SettingsTheme => DesktopRequest::CycleTheme,
            HitTarget::VideoPrev => DesktopRequest::StepVideo { forward: false },
            HitTarget::VideoPlay => DesktopRequest::PlayVideo,
            HitTarget::VideoNext => DesktopRequest::StepVideo { forward: true },
            HitTarget::AudioPlay => DesktopRequest::PlayAudio,
            HitTarget::WindowBody(id) | HitTarget::WindowTitle(id) => {
                gui::activate_window(&mut self.ui, id);
                DesktopRequest::Nothing
            },
            HitTarget::ContextMenuPanel | HitTarget::StartMenuPanel | HitTarget::Nothing => {
                DesktopRequest::Nothing
            },
        }
    }

    fn on_mouse_release(&mut self) -> (request: DesktopRequest)
        requires
            old(self)@.wf(),
        ensures
            final(self)@.wf(),
            (final(self)@, request@) == released(old(self)@),
    {
        reveal(released);
        let request = if self.ui.pressed == self.ui.hover {
            let target = self.ui.hover;
            self.click(target)
        } else {
            DesktopRequest::Nothing
        };
        self.ui.dragging = None;
        self.ui.pressed = HitTarget::Nothing;
        request
    }

    fn on_right_mouse_press(&mut self, size: &Size)
        requires
            old(self)@.wf(),
            size.wf(),
            size.width >= 134,
            size.height >= 92,
        ensures
            final(self)@.wf(),
            final(self)@ == right_pressed(old(self)@, *size),
    {
        reveal(right_pressed);
        if self.ui.locked {
            self.unlock_desktop(size);
            return;
        }
        let kind = match self.ui.hover {
            HitTarget::FilesEntry(_) => Some(ContextMenuKind::Files),
            HitTarget::WindowBody(id) => {
                if id == WindowId::Files {
                    Some(ContextMenuKind::Files)
                } else {
                    None
                }
            },
            HitTarget::Nothing | HitTarget::DesktopIcon(_) => Some(ContextMenuKind::Desktop),
            _ => None,
        };
        self.ui.start_menu_open = false;
        self.ui.pressed = HitTarget::Nothing;
        self.ui.dragging = None;
        self.ui.menu = kind;
        if let Some(menu) = kind {
            let height: i32 = hit::context_menu_height(menu);
            self.ui.menu_x = limit(self.ui.mouse_x, 4, size.width - 130);
            self.ui.menu_y = limit(self.ui.mouse_y, 4, size.height - height - 4);
            let hover = self.hover_target(size);
            self.ui.hover = hover;
        }
    }

    /// Takes a packet of the mouse up to its left button.
    fn handle_mouse_packet(&mut self, size: &Size, first: u8, dx: u8, dy: u8) -> (result: (
        DesktopRequest,
        Option<PacketRest>,
    ))
        requires
            old(self)@.wf(),
            has_room(old(self)@, *size),
        ensures
            final(self)@.wf(),
            (final(self)@, result.0@, result.1) == packet_begun(old(self)@, *size, first, dx, dy),
    {
        reveal(packet_begun);
        self.ui.tick = self.ui.tick.wrapping_add(1);
        if first >= 64 {
            return (DesktopRequest::Nothing, None);
        }
        let left = first % 2 == 1;
        let right = first / 2 % 2 == 1;
        let was_left = self.ui.mouse_left;
        let old_x: i32 = self.ui.mouse_x;
        let old_y: i32 = self.ui.mouse_y;
        self.ui.mouse_x = limit(self.ui.mouse_x + signed_byte(dx), 0, size.width - 1);
        self.ui.mouse_y = limit(self.ui.mouse_y - signed_byte(dy), 0, size.height - 1);
        let hover = self.hover_target(size);
        self.ui.hover = hover;
        let moved = self.ui.mouse_x != old_x || self.ui.mouse_y != old_y;
        let mut rest = PacketRest { left, right, moved, scene_dirty: false };
        let mut request = DesktopRequest::Nothing;
        if !was_left && left {
            self.on_mouse_press(size);
            rest.scene_dirty = true;
        } else if was_left && left {
            self.on_mouse_hold(size);
            rest.scene_dirty = self.ui.dragging.is_some();
        } else if was_left {
            request = self.on_mouse_release();
            rest.scene_dirty = true;
        }
        (request, Some(rest))
    }

    /// Takes a byte of the mouse. Where it ends a packet, what is asked for is to be done,
    /// and then the rest of the packet is to be taken with `finish_packet`.
    pub fn handle_mouse_byte(&mut self, size: &Size, graphics: bool, byte: u8) -> (result: (
        DesktopRequest,
        Option<PacketRest>,
    ))
        requires
            old(self)@.wf(),
            has_room(old(self)@, *size),
        ensures
            final(self)@.wf(),
            (final(self)@, result.0@, result.1) == (if graphics {
                mouse_byte(old(self)@, *size, byte)
            } else {
                (old(self)@, RequestView::Nothing, None)
            }),
    {
        if !graphics {
            return (DesktopRequest::Nothing, None);
        }
        if self.ui.packet_len == 0 {
            if byte / 8 % 2 == 0 {
                return (DesktopRequest::Nothing, None);
            }
            self.ui.packet0 = byte;
            self.ui.packet_len = 1;
            return (DesktopRequest::Nothing, None);
        }
        if self.ui.packet_len == 1 {
            self.ui.packet1 = byte;
            self.ui.packet_len = 2;
            return (DesktopRequest::Nothing, None);
        }
        let first: u8 = self.ui.packet0;
        let second: u8 = self.ui.packet1;
        self.ui.packet_len = 0;
        self.handle_mouse_packet(size, first, second, byte)
    }

    /// Takes the rest of a packet of the mouse.
    pub fn finish_packet(&mut self, size: &Size, rest: PacketRest)
        requires
            old(self)@.wf(),
            size.wf(),
            size.width >= 134,
            size.height >= 92,
        ensures
            final(self)@.wf(),
            final(self)@ == packet_ended(old(self)@, *size, rest),
    {
        reveal(packet_ended);
        let click = !self.ui.mouse_right && rest.right;
        if click {
            self.on_right_mouse_press(size);
        }
        self.ui.mouse_left = rest.left;
        self.ui.mouse_right = rest.right;
        self.ui.cursor_dirty = self.ui.cursor_dirty || rest.moved;
        self.ui.scene_dirty = self.ui.scene_dirty || rest.scene_dirty || click;
    }

    /// Says what has to be drawn after the mouse was read, where the screen shows graphics.
    pub fn flush_mouse(&mut self, graphics: bool) -> (action: FlushAction)
        requires
            old(self)@.wf(),
        ensures
            final(self)@.wf(),
            (final(self)@, action) == (if graphics {
                flushed(old(self)@)
            } else {
                (old(self)@, FlushAction::Nothing)
            }),
    {
        if !graphics {
            return FlushAction::Nothing;
        }
        if self.ui.scene_dirty {
            return FlushAction::Render;
        }
        if self.ui.cursor_dirty {
            let action = FlushAction::MoveCursor {
                old_x: self.ui.presented_mouse_x,
                old_y: self.ui.presented_mouse_y,
                new_x: self.ui.mouse_x,
                new_y: self.ui.mouse_y,
            };
            self.ui.presented_mouse_x = self.ui.mouse_x;
            self.ui.presented_mouse_y = self.ui.mouse_y;
            self.ui.cursor_dirty = false;
            return action;
        }
        FlushAction::Nothing
    }

    /// Looks at the clock, where the screen shows graphics, and says whether the screen has to
    /// be drawn.
    pub fn tick_idle(&mut self, graphics: bool, now: u64, time: Option<ClockTime>) -> (render: bool)
        requires
            old(self)@.wf(),
        ensures
            final(self)@.wf(),
            (final(self)@, render) == (if graphics {
                idled(old(self)@, now, time)
            } else {
                (old(self)@, false)
            }),
    {
        if !graphics {
            return false;
        }
        if now.wrapping_sub(self.ui.last_clock_poll_ns) < 100_000_000 {
            return false;
        }
        self.ui.last_clock_poll_ns = now;
        match time {
            None => false,
            Some(shown) => {
                let changed = match self.ui.clock_time {
                    None => true,
                    Some(old_time) => old_time.hour != shown.hour || old_time.minute
                        != shown.minute,
                };
                self.ui.clock_time = Some(shown);
                if changed {
                    self.ui.ambient_phase = self.ui.ambient_phase.wrapping_add(1);
                }
                changed
            },
        }
    }

    /// Whether a locked desktop has to look at its input.
    pub fn poll_locked_input(&self, graphics: bool) -> (poll: bool)
        ensures
            poll == (graphics && self@.ui.locked),
    {
        graphics && self.ui.locked
    }

    /// Takes an input, where the screen shows graphics.
    pub fn poll_input(&mut self, size: &Size, input: ConsoleInput) -> (outcome: InputOutcome)
        requires
            old(self)@.wf(),
            has_room(old(self)@, *size),
        ensures
            final(self)@.wf(),
            (final(self)@, outcome@) == input_taken(old(self)@, *size, input),
    {
        match input {
            ConsoleInput::MouseByte(byte) => {
                let (request, rest) = self.handle_mouse_byte(size, true, byte);
                InputOutcome::Mouse(request, rest)
            },
            ConsoleInput::Key { code, translated } => InputOutcome::Key(
                self.handle_key(size, true, code, translated),
            ),
            ConsoleInput::Byte(byte) => InputOutcome::Key(
                self.handle_key(size, true, 0, Some(byte)),
            ),
        }
    }

    /// Takes a key.
    pub fn handle_key(&mut self, size: &Size, graphics: bool, code: u8, letter: Option<u8>) -> (outcome:
        KeyOutcome)
        requires
            old(self)@.wf(),
            size.wf(),
        ensures
            final(self)@.wf(),
            (final(self)@, outcome@) == key_pressed(old(self)@, *size, graphics, code, letter),
    {
        reveal(key_pressed);
        let none = DesktopRequest::Nothing;
        if !graphics {
            return KeyOutcome { handled: false, request: none, render: false };
        }
        if self.ui.locked {
            if letter.is_some() || code == 0x01 || code == 0x0e || code == 0x0f || code == 0x1c
                || code == 0x39 || code == 0x58 || code == 0x5a {
                self.unlock_desktop(size);
                return KeyOutcome { handled: true, request: none, render: true };
            }
            return KeyOutcome { handled: true, request: none, render: false };
        }
        if code == 0x58 {
            self.lock_desktop();
            return KeyOutcome { handled: true, request: none, render: true };
        }
        if !self.ui.editor.open || self.ui.editor.minimized || self.ui.active != WindowId::Editor {
            return KeyOutcome { handled: false, request: none, render: false };
        }
        if code == 0x01 {
            gui::close_window(&mut self.ui, WindowId::Editor);
            return KeyOutcome { handled: true, request: none, render: true };
        }
        if code == 0x3c {
            return KeyOutcome {
                handled: true,
                request: DesktopRequest::SaveEditor,
                render: true,
            };
        }
        let byte: u8 = match letter {
            None => {
                return KeyOutcome { handled: true, request: none, render: false };
            },
            Some(byte) => byte,
        };
        if byte == 8 {
            let _ = self.editor_text.pop();
        } else if byte == 10 || (byte >= 32 && byte <= 126) {
            let _ = self.editor_text.push_byte(byte);
        } else if byte == 9 {
            let _ = self.editor_text.push_bytes(text::literal_bytes("    "));
        } else {
            return KeyOutcome { handled: false, request: none, render: false };
        }
        self.editor_status = gui::note("Modified");
        KeyOutcome { handled: true, request: none, render: true }
    }

    /// Opens a file in the editor, where there is a screen and it can be edited.
    pub fn open_editor_for_path(
        &mut self,
        graphics: bool,
        path: &[u8],
        source: files::EditorSource<'_>,
    ) -> (opened: bool)
        requires
            old(self)@.wf(),
            vstd::utf8::valid_utf8(path@),
            source.text matches Some(text) ==> vstd::utf8::valid_utf8(text@),
        ensures
            final(self)@.wf(),
            opened == (graphics && files::editable(source)),
            final(self)@ == (if graphics && files::editable(source) {
                files::editing(old(self)@, path@, source.text->Some_0@)
            } else {
                old(self)@
            }),
    {
        if !graphics {
            return false;
        }
        self.open_editor_internal(path, source)
    }
}

/// A locked desktop takes no click: pressing and releasing the button unlocks it and does
/// nothing else to the windows.
pub proof fn law_click_only_unlocks(view: DesktopView, size: Size)
    requires
        view.ui.locked,
    ensures
        !pressed(view, size).ui.locked,
        pressed(view, size).ui.active == view.ui.active,
        pressed(view, size).ui.pressed == HitTarget::Nothing,
        pressed(view, size).ui.start_menu_open == view.ui.start_menu_open,
        forall|id: WindowId| #[trigger]
            gui::window_of(pressed(view, size).ui, id) == gui::window_of(view.ui, id),
{
    reveal(pressed);
}

/// A window that is dragged stays within the limits of the screen, above the bar.
pub proof fn law_dragged_windows_stay(view: DesktopView, size: Size)
    requires
        view.wf(),
        has_room(view, size),
        view.ui.dragging is Some,
    ensures
        ({
            let window = gui::window_of(held(view, size).ui, view.ui.dragging->Some_0.target);
            &&& 16 <= window.x <= size.width - window.w - 12
            &&& 20 <= window.y <= size.bar_y() - window.h - 16
        }),
{
    reveal(held);
}

/// What was typed is taken back by a backspace.
pub proof fn law_backspace_undoes_typing(text: Seq<u8>, byte: u8)
    requires
        vstd::utf8::valid_utf8(text),
        text.len() < 2048,
        32 <= byte <= 126,
    ensures
        typed(text, byte) is Some,
        typed(typed(text, byte)->Some_0, 8) == Some(text),
{
    fixed::law_pop_undoes_push(text, byte);
}

} // verus!
