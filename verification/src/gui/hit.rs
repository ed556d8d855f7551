//! Where everything on the desktop lies, and what lies under a point.
use crate::gui;
use crate::gui::{
    ContextAction, ContextMenuKind, DesktopUi, HitTarget, IconId, WindowId, WindowState,
};
use vstd::prelude::*;

verus! {

/// A half, rounded toward zero.
pub open spec fn half(value: int) -> int {
    if value >= 0 {
        value / 2
    } else {
        -((-value) / 2)
    }
}

pub fn halve(value: i32) -> (result: i32)
    requires
        value > i32::MIN,
    ensures
        result == half(value as int),
{
    if value >= 0 {
        (value as u32 / 2) as i32
    } else {
        -(((-value) as u32 / 2) as i32)
    }
}

pub open spec fn in_rect(px: int, py: int, x: int, y: int, w: int, h: int) -> bool {
    x <= px < x + w && y <= py < y + h
}

fn point_in_rect(px: i32, py: i32, x: i32, y: i32, w: i32, h: i32) -> (inside: bool)
    ensures
        inside == in_rect(px as int, py as int, x as int, y as int, w as int, h as int),
{
    px >= x && py >= y && (px as i64) < x as i64 + w as i64 && (py as i64) < y as i64 + h as i64
}

/// The size of the screen.
#[derive(Clone, Copy, Debug, PartialEq, Eq, Structural)]
pub struct Size {
    pub width: i32,
    pub height: i32,
}

impl Size {
    pub open spec fn wf(self) -> bool {
        1 <= self.width <= 640 && 1 <= self.height <= 480
    }

    pub open spec fn bar_x(self) -> int {
        half(self.width - 520)
    }

    pub open spec fn bar_y(self) -> int {
        self.height - 60
    }

    pub fn taskbar_x(&self) -> (x: i32)
        requires
            self.wf(),
        ensures
            x == self.bar_x(),
            -260 <= x <= 60,
    {
        halve(self.width - 520)
    }

    pub fn taskbar_y(&self) -> (y: i32)
        requires
            self.wf(),
        ensures
            y == self.bar_y(),
            -60 <= y <= 420,
    {
        self.height - 60
    }
}

/// How many items a menu has.
pub open spec fn item_count(kind: ContextMenuKind) -> int {
    match kind {
        ContextMenuKind::Desktop => 3,
        ContextMenuKind::Files => 2,
    }
}

/// Item `index` of a menu.
pub open spec fn menu_item(kind: ContextMenuKind, index: int) -> Option<ContextAction> {
    match kind {
        ContextMenuKind::Desktop => if index == 0 {
            Some(ContextAction::DesktopFiles)
        } else if index == 1 {
            Some(ContextAction::DesktopCommand)
        } else if index == 2 {
            Some(ContextAction::DesktopSettings)
        } else {
            None
        },
        ContextMenuKind::Files => if index == 0 {
            Some(ContextAction::FilesNewDirectory)
        } else if index == 1 {
            Some(ContextAction::FilesNewFile)
        } else {
            None
        },
    }
}

pub open spec fn menu_height(kind: ContextMenuKind) -> int {
    12 + item_count(kind) * 24
}

pub fn context_menu_item_count(kind: ContextMenuKind) -> (count: usize)
    ensures
        count == item_count(kind),
{
    match kind {
        ContextMenuKind::Desktop => 3,
        ContextMenuKind::Files => 2,
    }
}

pub fn context_menu_action(kind: ContextMenuKind, index: usize) -> (action: Option<ContextAction>)
    ensures
        action == menu_item(kind, index as int),
{
    match kind {
        ContextMenuKind::Desktop => {
            if index == 0 {
                Some(ContextAction::DesktopFiles)
            } else if index == 1 {
                Some(ContextAction::DesktopCommand)
            } else if index == 2 {
                Some(ContextAction::DesktopSettings)
            } else {
                None
            }
        },
        ContextMenuKind::Files => {
            if index == 0 {
                Some(ContextAction::FilesNewDirectory)
            } else if index == 1 {
                Some(ContextAction::FilesNewFile)
            } else {
                None
            }
        },
    }
}

pub fn context_menu_height(kind: ContextMenuKind) -> (height: i32)
    ensures
        height == menu_height(kind),
        60 <= height <= 84,
{
    match kind {
        ContextMenuKind::Desktop => 84,
        ContextMenuKind::Files => 60,
    }
}

/// The programs of the start menu, from the top.
pub open spec fn start_item(index: int) -> IconId {
    if index == 0 {
        IconId::Settings
    } else if index == 1 {
        IconId::Video
    } else if index == 2 {
        IconId::Audio
    } else if index == 3 {
        IconId::Files
    } else if index == 4 {
        IconId::Cmd
    } else {
        IconId::Editor
    }
}

pub fn start_menu_item(index: usize) -> (icon: IconId)
    ensures
        icon == start_item(index as int),
{
    if index == 0 {
        IconId::Settings
    } else if index == 1 {
        IconId::Video
    } else if index == 2 {
        IconId::Audio
    } else if index == 3 {
        IconId::Files
    } else if index == 4 {
        IconId::Cmd
    } else {
        IconId::Editor
    }
}

/// What of the open context menu lies under a point.
pub open spec fn menu_hit(ui: DesktopUi, kind: ContextMenuKind, x: int, y: int) -> Option<HitTarget> {
    if !in_rect(x, y, ui.menu_x as int, ui.menu_y as int, 126, menu_height(kind)) {
        None
    } else if y < ui.menu_y + 6 {
        Some(HitTarget::ContextMenuPanel)
    } else {
        match menu_item(kind, (y - ui.menu_y - 6) / 24) {
            Some(action) => Some(HitTarget::ContextMenuItem(action)),
            None => Some(HitTarget::ContextMenuPanel),
        }
    }
}

/// What of the start menu lies under a point of it, from item `from` on.
pub open spec fn start_hit(size: Size, x: int, y: int, from: int) -> HitTarget
    decreases 6 - from,
{
    let left = size.bar_x() + 4;
    let top = size.bar_y() - 196;
    if from < 0 || from >= 6 {
        HitTarget::StartMenuPanel
    } else if in_rect(x, y, left + 10, top + 16 + from * 28, 156, 22) {
        HitTarget::StartMenuItem(start_item(from))
    } else {
        start_hit(size, x, y, from + 1)
    }
}

/// What of the bar lies under a point.
pub open spec fn bar_hit(size: Size, x: int, y: int) -> Option<HitTarget> {
    let left = size.bar_x();
    let top = size.bar_y();
    if in_rect(x, y, left + 8, top + 7, 48, 28) {
        Some(HitTarget::StartButton)
    } else if in_rect(x, y, left + 70, top + 7, 36, 28) {
        Some(HitTarget::TaskbarIcon(WindowId::Files))
    } else if in_rect(x, y, left + 118, top + 7, 36, 28) {
        Some(HitTarget::TaskbarIcon(WindowId::Cmd))
    } else if in_rect(x, y, left + 166, top + 7, 36, 28) {
        Some(HitTarget::TaskbarIcon(WindowId::Editor))
    } else if in_rect(x, y, left + 384, top + 6, 124, 30) {
        Some(HitTarget::ClockChip)
    } else {
        None
    }
}

/// The entry of the list of files under a point, from entry `from` on.
pub open spec fn entry_hit(window: WindowState, entries: int, x: int, y: int, from: int) -> Option<
    HitTarget,
>
    decreases entries - from,
{
    if from < 0 || from >= entries {
        None
    } else if in_rect(x, y, window.x + 18, window.y + 102 + from * 24, window.w - 36, 22) {
        Some(HitTarget::FilesEntry(from as usize))
    } else {
        entry_hit(window, entries, x, y, from + 1)
    }
}

/// What is special to a window and lies under a point.
pub open spec fn inner_hit(id: WindowId, window: WindowState, entries: int, x: int, y: int) -> Option<
    HitTarget,
> {
    match id {
        WindowId::Files => if in_rect(x, y, window.x + 14, window.y + 34, 30, 18) {
            Some(HitTarget::FilesBack)
        } else {
            entry_hit(window, entries, x, y, 0)
        },
        WindowId::Cmd => None,
        WindowId::Editor => if in_rect(x, y, window.x + window.w - 104, window.y + 29, 44, 16) {
            Some(HitTarget::EditorSave)
        } else {
            None
        },
        WindowId::Settings => if in_rect(x, y, window.x + 94, window.y + 50, 18, 18) {
            Some(HitTarget::SettingsBrightnessDown)
        } else if in_rect(x, y, window.x + 178, window.y + 50, 18, 18) {
            Some(HitTarget::SettingsBrightnessUp)
        } else if in_rect(x, y, window.x + 94, window.y + 82, 18, 18) {
            Some(HitTarget::SettingsVolumeDown)
        } else if in_rect(x, y, window.x + 178, window.y + 82, 18, 18) {
            Some(HitTarget::SettingsVolumeUp)
        } else if in_rect(x, y, window.x + 94, window.y + 118, 88, 18) {
            Some(HitTarget::SettingsTheme)
        } else {
            None
        },
        WindowId::Video => if in_rect(x, y, window.x + 18, window.y + 58, 30, 18) {
            Some(HitTarget::VideoPrev)
        } else if in_rect(x, y, window.x + 54, window.y + 58, 48, 18) {
            Some(HitTarget::VideoPlay)
        } else if in_rect(x, y, window.x + 108, window.y + 58, 30, 18) {
            Some(HitTarget::VideoNext)
        } else {
            None
        },
        WindowId::Audio => if in_rect(x, y, window.x + 18, window.y + 58, 54, 18) {
            Some(HitTarget::AudioPlay)
        } else {
            None
        },
    }
}

/// What of a window lies under a point.
pub open spec fn window_hit(id: WindowId, window: WindowState, entries: int, x: int, y: int) -> Option<
    HitTarget,
> {
    if !gui::visible(window) {
        None
    } else if in_rect(x, y, window.x + window.w - 12, window.y + 5, 14, 14) {
        Some(HitTarget::Close(id))
    } else if in_rect(x, y, window.x + window.w - 48, window.y + 5, 14, 14) {
        Some(HitTarget::Minimize(id))
    } else {
        match inner_hit(id, window, entries, x, y) {
            Some(target) => Some(target),
            None => if in_rect(x, y, window.x as int, window.y as int, window.w as int, 24) {
                Some(HitTarget::WindowTitle(id))
            } else if in_rect(
                x,
                y,
                window.x as int,
                window.y as int,
                window.w as int,
                window.h as int,
            ) {
                Some(HitTarget::WindowBody(id))
            } else {
                None
            },
        }
    }
}

/// What of the windows lies under a point: the first `count` of the order in which they are
/// drawn, the last of them first.
pub open spec fn windows_hit(ui: DesktopUi, entries: int, x: int, y: int, count: nat) -> Option<
    HitTarget,
>
    decreases count,
{
    if count == 0 {
        None
    } else {
        let id = gui::draw_order(ui.active)[count - 1];
        match window_hit(id, gui::window_of(ui, id), entries, x, y) {
            Some(target) => Some(target),
            None => windows_hit(ui, entries, x, y, (count - 1) as nat),
        }
    }
}

/// The icon of the desktop under a point.
pub open spec fn icon_hit(x: int, y: int) -> HitTarget {
    if in_rect(x, y, 30, 30, 54, 64) {
        HitTarget::DesktopIcon(IconId::Files)
    } else if in_rect(x, y, 30, 122, 54, 64) {
        HitTarget::DesktopIcon(IconId::Cmd)
    } else if in_rect(x, y, 30, 214, 54, 64) {
        HitTarget::DesktopIcon(IconId::Editor)
    } else if in_rect(x, y, 548, 30, 54, 64) {
        HitTarget::DesktopIcon(IconId::Settings)
    } else if in_rect(x, y, 548, 122, 54, 64) {
        HitTarget::DesktopIcon(IconId::Video)
    } else if in_rect(x, y, 548, 214, 54, 64) {
        HitTarget::DesktopIcon(IconId::Audio)
    } else {
        HitTarget::Nothing
    }
}

/// What lies under a point: nothing on a locked desktop, else the context menu, the start
/// menu, the bar, the windows from the active one down, and the icons.
#[verifier::opaque]
pub open spec fn under(ui: DesktopUi, entries: int, size: Size, x: int, y: int) -> HitTarget {
    let menu = match ui.menu {
        Some(kind) => menu_hit(ui, kind, x, y),
        None => None,
    };
    if ui.locked {
        HitTarget::Nothing
    } else if menu is Some {
        menu->Some_0
    } else if ui.start_menu_open && in_rect(
        x,
        y,
        size.bar_x() + 4,
        size.bar_y() - 196,
        176,
        188,
    ) {
        start_hit(size, x, y, 0)
    } else if bar_hit(size, x, y) is Some {
        bar_hit(size, x, y)->Some_0
    } else if windows_hit(ui, entries, x, y, 6) is Some {
        windows_hit(ui, entries, x, y, 6)->Some_0
    } else {
        icon_hit(x, y)
    }
}

fn hit_menu(ui: &DesktopUi, kind: ContextMenuKind, x: i32, y: i32) -> (target: Option<HitTarget>)
    requires
        ui.wf(),
    ensures
        target == menu_hit(*ui, kind, x as int, y as int),
{
    let height: i32 = context_menu_height(kind);
    if !point_in_rect(x, y, ui.menu_x, ui.menu_y, 126, height) {
        return None;
    }
    if y < ui.menu_y + 6 {
        return Some(HitTarget::ContextMenuPanel);
    }
    let row: u32 = (y - ui.menu_y - 6) as u32 / 24;
    match context_menu_action(kind, row as usize) {
        Some(action) => Some(HitTarget::ContextMenuItem(action)),
        None => Some(HitTarget::ContextMenuPanel),
    }
}

fn hit_start(size: &Size, x: i32, y: i32) -> (target: HitTarget)
    requires
        size.wf(),
    ensures
        target == start_hit(*size, x as int, y as int, 0),
{
    let left: i32 = size.taskbar_x() + 4;
    let top: i32 = size.taskbar_y() - 196;
    let mut index: usize = 0;
    while index < 6
        invariant
            index <= 6,
            left == size.bar_x() + 4,
            top == size.bar_y() - 196,
            -1000 <= left <= 1000,
            -1000 <= top <= 1000,
            start_hit(*size, x as int, y as int, index as int) == start_hit(
                *size,
                x as int,
                y as int,
                0,
            ),
        decreases 6 - index,
    {
        if point_in_rect(x, y, left + 10, top + 16 + index as i32 * 28, 156, 22) {
            return HitTarget::StartMenuItem(start_menu_item(index));
        }
        index += 1;
    }
    HitTarget::StartMenuPanel
}

fn hit_bar(size: &Size, x: i32, y: i32) -> (target: Option<HitTarget>)
    requires
        size.wf(),
    ensures
        target == bar_hit(*size, x as int, y as int),
{
    let left: i32 = size.taskbar_x();
    let top: i32 = size.taskbar_y();
    if point_in_rect(x, y, left + 8, top + 7, 48, 28) {
        return Some(HitTarget::StartButton);
    }
    if point_in_rect(x, y, left + 70, top + 7, 36, 28) {
        return Some(HitTarget::TaskbarIcon(WindowId::Files));
    }
    if point_in_rect(x, y, left + 118, top + 7, 36, 28) {
        return Some(HitTarget::TaskbarIcon(WindowId::Cmd));
    }
    if point_in_rect(x, y, left + 166, top + 7, 36, 28) {
        return Some(HitTarget::TaskbarIcon(WindowId::Editor));
    }
    if point_in_rect(x, y, left + 384, top + 6, 124, 30) {
        return Some(HitTarget::ClockChip);
    }
    None
}

fn hit_entries(window: &WindowState, entries: usize, x: i32, y: i32) -> (target: Option<HitTarget>)
    requires
        gui::window_wf(*window),
        entries <= 12,
    ensures
        target == entry_hit(*window, entries as int, x as int, y as int, 0),
{
    let mut index: usize = 0;
    while index < entries
        invariant
            index <= entries <= 12,
            gui::window_wf(*window),
            entry_hit(*window, entries as int, x as int, y as int, index as int) == entry_hit(
                *window,
                entries as int,
                x as int,
                y as int,
                0,
            ),
        decreases entries - index,
    {
        if point_in_rect(
            x,
            y,
            window.x + 18,
            window.y + 102 + index as i32 * 24,
            window.w - 36,
            22,
        ) {
            return Some(HitTarget::FilesEntry(index));
        }
        index += 1;
    }
    None
}

fn hit_inner(id: WindowId, window: &WindowState, entries: usize, x: i32, y: i32) -> (target: Option<
    HitTarget,
>)
    requires
        gui::window_wf(*window),
        entries <= 12,
    ensures
        target == inner_hit(id, *window, entries as int, x as int, y as int),
{
    match id {
        WindowId::Files => {
            if point_in_rect(x, y, window.x + 14, window.y + 34, 30, 18) {
                Some(HitTarget::FilesBack)
            } else {
                hit_entries(window, entries, x, y)
            }
        },
        WindowId::Cmd => None,
        WindowId::Editor => {
            if point_in_rect(x, y, window.x + window.w - 104, window.y + 29, 44, 16) {
                Some(HitTarget::EditorSave)
            } else {
                None
            }
        },
        WindowId::Settings => {
            if point_in_rect(x, y, window.x + 94, window.y + 50, 18, 18) {
                Some(HitTarget::SettingsBrightnessDown)
            } else if point_in_rect(x, y, window.x + 178, window.y + 50, 18, 18) {
                Some(HitTarget::SettingsBrightnessUp)
            } else if point_in_rect(x, y, window.x + 94, window.y + 82, 18, 18) {
                Some(HitTarget::SettingsVolumeDown)
            } else if point_in_rect(x, y, window.x + 178, window.y + 82, 18, 18) {
                Some(HitTarget::SettingsVolumeUp)
            } else if point_in_rect(x, y, window.x + 94, window.y + 118, 88, 18) {
                Some(HitTarget::SettingsTheme)
            } else {
                None
            }
        },
        WindowId::Video => {
            if point_in_rect(x, y, window.x + 18, window.y + 58, 30, 18) {
                Some(HitTarget::VideoPrev)
            } else if point_in_rect(x, y, window.x + 54, window.y + 58, 48, 18) {
                Some(HitTarget::VideoPlay)
            } else if point_in_rect(x, y, window.x + 108, window.y + 58, 30, 18) {
                Some(HitTarget::VideoNext)
            } else {
                None
            }
        },
        WindowId::Audio => {
            if point_in_rect(x, y, window.x + 18, window.y + 58, 54, 18) {
                Some(HitTarget::AudioPlay)
            } else {
                None
            }
        },
    }
}

fn hit_window(id: WindowId, window: &WindowState, entries: usize, x: i32, y: i32) -> (target: Option<
    HitTarget,
>)
    requires
        gui::window_wf(*window),
        entries <= 12,
    ensures
        target == window_hit(id, *window, entries as int, x as int, y as int),
{
    if !window.open || window.minimized {
        return None;
    }
    if point_in_rect(x, y, window.x + window.w - 12, window.y + 5, 14, 14) {
        return Some(HitTarget::Close(id));
    }
    if point_in_rect(x, y, window.x + window.w - 48, window.y + 5, 14, 14) {
        return Some(HitTarget::Minimize(id));
    }
    let inner = hit_inner(id, window, entries, x, y);
    if inner.is_some() {
        return inner;
    }
    if point_in_rect(x, y, window.x, window.y, window.w, 24) {
        return Some(HitTarget::WindowTitle(id));
    }
    if point_in_rect(x, y, window.x, window.y, window.w, window.h) {
        return Some(HitTarget::WindowBody(id));
    }
    None
}

fn hit_icon(x: i32, y: i32) -> (target: HitTarget)
    ensures
        target == icon_hit(x as int, y as int),
{
    if point_in_rect(x, y, 30, 30, 54, 64) {
        HitTarget::DesktopIcon(IconId::Files)
    } else if point_in_rect(x, y, 30, 122, 54, 64) {
        HitTarget::DesktopIcon(IconId::Cmd)
    } else if point_in_rect(x, y, 30, 214, 54, 64) {
        HitTarget::DesktopIcon(IconId::Editor)
    } else if point_in_rect(x, y, 548, 30, 54, 64) {
        HitTarget::DesktopIcon(IconId::Settings)
    } else if point_in_rect(x, y, 548, 122, 54, 64) {
        HitTarget::DesktopIcon(IconId::Video)
    } else if point_in_rect(x, y, 548, 214, 54, 64) {
        HitTarget::DesktopIcon(IconId::Audio)
    } else {
        HitTarget::Nothing
    }
}

/// What lies under a point of the desktop.
pub fn hit_test(ui: &DesktopUi, entries: usize, size: &Size, x: i32, y: i32) -> (target: HitTarget)
    requires
        ui.wf(),
        size.wf(),
        entries <= 12,
    ensures
        target == under(*ui, entries as int, *size, x as int, y as int),
{
    reveal(under);
    if ui.locked {
        return HitTarget::Nothing;
    }
    if let Some(kind) = ui.menu {
        if let Some(target) = hit_menu(ui, kind, x, y) {
            return target;
        }
    }
    let left: i32 = size.taskbar_x() + 4;
    let top: i32 = size.taskbar_y() - 196;
    if ui.start_menu_open && point_in_rect(x, y, left, top, 176, 188) {
        return hit_start(size, x, y);
    }
    if let Some(target) = hit_bar(size, x, y) {
        return target;
    }
    let order = gui::ordered_windows(ui.active);
    let mut count: usize = 6;
    while count > 0
        invariant
            count <= 6,
            order@ == gui::draw_order(ui.active),
            ui.wf(),
            entries <= 12,
            windows_hit(*ui, entries as int, x as int, y as int, count as nat) == windows_hit(
                *ui,
                entries as int,
                x as int,
                y as int,
                6,
            ),
            under(*ui, entries as int, *size, x as int, y as int) == (match windows_hit(
                *ui,
                entries as int,
                x as int,
                y as int,
                6,
            ) {
                Some(target) => target,
                None => icon_hit(x as int, y as int),
            }),
        decreases count,
    {
        let id = order[count - 1];
        let window = gui::get_window(ui, id);
        if let Some(target) = hit_window(id, &window, entries, x, y) {
            return target;
        }
        count -= 1;
    }
    hit_icon(x, y)
}

/// On a locked desktop nothing lies under any point.
pub proof fn law_locked_desktop_is_untouchable(
    ui: DesktopUi,
    entries: int,
    size: Size,
    x: int,
    y: int,
)
    requires
        ui.locked,
    ensures
        under(ui, entries, size, x, y) == HitTarget::Nothing,
{
    reveal(under);
}

/// A window that is to be seen covers those below it: a point of the active window that is
/// under no menu and not on the bar hits nothing of another window.
pub proof fn law_active_window_is_on_top(ui: DesktopUi, entries: int, size: Size, x: int, y: int)
    requires
        !ui.locked,
        ui.menu is None,
        !ui.start_menu_open,
        bar_hit(size, x, y) is None,
        window_hit(ui.active, gui::window_of(ui, ui.active), entries, x, y) is Some,
    ensures
        under(ui, entries, size, x, y) == window_hit(
            ui.active,
            gui::window_of(ui, ui.active),
            entries,
            x,
            y,
        )->Some_0,
{
    reveal(under);
}

} // verus!
