//! The desktop: its windows, icons and menus, and what the mouse and the keyboard do to
//! them.
use crate::arch::ClockTime;
use crate::fixed;
use crate::fixed::InlineString;
use crate::text;
use vstd::prelude::*;
use vstd::string::*;

pub mod draw;
pub mod events;
pub mod files;
pub mod hit;
pub mod media;
pub mod palette;
pub mod render;

verus! {

pub const DOUBLE_CLICK_TICKS: u32 = 28;

pub const MAX_BROWSER_ENTRIES: usize = 12;

pub const EDITOR_TEXT_CAPACITY: usize = 2048;

#[derive(Clone, Copy, Debug, PartialEq, Eq, Structural)]
pub enum WindowId {
    Files,
    Cmd,
    Editor,
    Settings,
    Video,
    Audio,
}

#[derive(Clone, Copy, Debug, PartialEq, Eq, Structural)]
pub enum IconId {
    Files,
    Cmd,
    Editor,
    Settings,
    Video,
    Audio,
}

#[derive(Clone, Copy, Debug, PartialEq, Eq, Structural)]
pub enum BrowserKind {
    Directory,
    File,
}

#[derive(Clone, Copy, Debug, PartialEq, Eq, Structural)]
pub enum ContextMenuKind {
    Desktop,
    Files,
}

#[derive(Clone, Copy, Debug, PartialEq, Eq, Structural)]
pub enum ContextAction {
    DesktopFiles,
    DesktopCommand,
    DesktopSettings,
    FilesNewDirectory,
    FilesNewFile,
}

/// What lies under a point of the screen.
#[derive(Clone, Copy, Debug, PartialEq, Eq, Structural)]
pub enum HitTarget {
    Nothing,
    DesktopIcon(IconId),
    StartButton,
    StartMenuPanel,
    StartMenuItem(IconId),
    TaskbarIcon(WindowId),
    ClockChip,
    WindowTitle(WindowId),
    WindowBody(WindowId),
    Minimize(WindowId),
    Close(WindowId),
    FilesBack,
    FilesEntry(usize),
    ContextMenuPanel,
    ContextMenuItem(ContextAction),
    EditorSave,
    SettingsBrightnessDown,
    SettingsBrightnessUp,
    SettingsVolumeDown,
    SettingsVolumeUp,
    SettingsTheme,
    VideoPrev,
    VideoPlay,
    VideoNext,
    AudioPlay,
}

#[derive(Clone, Copy, Debug, PartialEq, Eq, Structural)]
pub struct WindowState {
    pub x: i32,
    pub y: i32,
    pub w: i32,
    pub h: i32,
    pub open: bool,
    pub minimized: bool,
}

/// A window that follows the mouse, and where it is held.
#[derive(Clone, Copy, Debug, PartialEq, Eq, Structural)]
pub struct DragState {
    pub target: WindowId,
    pub offset_x: i32,
    pub offset_y: i32,
}

/// Everything of the desktop that is not text.
#[derive(Clone, Copy, Debug, PartialEq, Eq)]
pub struct DesktopUi {
    pub mouse_x: i32,
    pub mouse_y: i32,
    pub presented_mouse_x: i32,
    pub presented_mouse_y: i32,
    pub mouse_left: bool,
    pub mouse_right: bool,
    pub cursor_dirty: bool,
    pub scene_dirty: bool,
    pub locked: bool,
    pub packet0: u8,
    pub packet1: u8,
    pub packet_len: usize,
    pub tick: u32,
    pub ambient_phase: u16,
    pub last_clock_poll_ns: u64,
    pub clock_time: Option<ClockTime>,
    pub active: WindowId,
    pub hover: HitTarget,
    pub pressed: HitTarget,
    pub dragging: Option<DragState>,
    pub start_menu_open: bool,
    pub selected_icon: Option<IconId>,
    pub last_icon_click: Option<(IconId, u32)>,
    pub selected_file_entry: Option<usize>,
    pub last_file_click: Option<(usize, u32)>,
    pub video_frame: usize,
    pub files: WindowState,
    pub cmd: WindowState,
    pub editor: WindowState,
    pub settings: WindowState,
    pub video: WindowState,
    pub audio: WindowState,
    pub menu: Option<ContextMenuKind>,
    pub menu_x: i32,
    pub menu_y: i32,
}

/// An entry of the folder that is shown.
#[verifier::ext_equal]
pub struct EntryView {
    pub name: Seq<u8>,
    pub kind: BrowserKind,
}

/// An entry of the folder that is shown.
#[derive(Clone, Copy)]
pub struct BrowserEntry {
    pub name: InlineString<32>,
    pub kind: BrowserKind,
}

impl View for BrowserEntry {
    type V = EntryView;

    open spec fn view(&self) -> EntryView {
        EntryView { name: self.name@, kind: self.kind }
    }
}

/// The desktop.
#[verifier::ext_equal]
pub struct DesktopView {
    pub ui: DesktopUi,
    pub files_path: Seq<u8>,
    pub file_status: Seq<u8>,
    pub entries: Seq<EntryView>,
    pub editor_path: Seq<u8>,
    pub editor_status: Seq<u8>,
    pub editor_text: Seq<u8>,
    pub settings_status: Seq<u8>,
    pub video_path: Seq<u8>,
    pub video_status: Seq<u8>,
    pub audio_path: Seq<u8>,
    pub audio_status: Seq<u8>,
}

/// The desktop.
pub struct Desktop {
    pub ui: DesktopUi,
    pub files_path: InlineString<64>,
    pub file_status: InlineString<64>,
    pub entries: Vec<BrowserEntry>,
    pub editor_path: InlineString<64>,
    pub editor_status: InlineString<64>,
    pub editor_text: InlineString<2048>,
    pub settings_status: InlineString<64>,
    pub video_path: InlineString<64>,
    pub video_status: InlineString<64>,
    pub audio_path: InlineString<64>,
    pub audio_status: InlineString<64>,
}

/// What entries are.
pub open spec fn entry_views(entries: Seq<BrowserEntry>) -> Seq<EntryView> {
    entries.map_values(|entry: BrowserEntry| entry@)
}

impl View for Desktop {
    type V = DesktopView;

    open spec fn view(&self) -> DesktopView {
        DesktopView {
            ui: self.ui,
            files_path: self.files_path@,
            file_status: self.file_status@,
            entries: entry_views(self.entries@),
            editor_path: self.editor_path@,
            editor_status: self.editor_status@,
            editor_text: self.editor_text@,
            settings_status: self.settings_status@,
            video_path: self.video_path@,
            video_status: self.video_status@,
            audio_path: self.audio_path@,
            audio_status: self.audio_status@,
        }
    }
}

/// A text in a buffer of 64 bytes: one that does not fit leaves it empty.
pub open spec fn kept(bytes: Seq<u8>) -> Seq<u8> {
    fixed::appended(Seq::empty(), bytes, 64)
}

/// A text in a buffer of 64 bytes.
pub fn keep(bytes: &[u8]) -> (buffer: InlineString<64>)
    requires
        vstd::utf8::valid_utf8(bytes@),
    ensures
        buffer@ == kept(bytes@),
{
    let mut buffer: InlineString<64> = InlineString::new();
    let _ = buffer.push_bytes(bytes);
    buffer
}

/// A text that stands in the source, in a buffer of 64 bytes.
pub fn note(text: &str) -> (buffer: InlineString<64>)
    ensures
        buffer@ == kept(text::literal(text)),
{
    keep(text::literal_bytes(text))
}

/// A window of the desktop.
pub open spec fn window_of(ui: DesktopUi, id: WindowId) -> WindowState {
    match id {
        WindowId::Files => ui.files,
        WindowId::Cmd => ui.cmd,
        WindowId::Editor => ui.editor,
        WindowId::Settings => ui.settings,
        WindowId::Video => ui.video,
        WindowId::Audio => ui.audio,
    }
}

/// The desktop with another state of a window.
pub open spec fn with_window(ui: DesktopUi, id: WindowId, window: WindowState) -> DesktopUi {
    match id {
        WindowId::Files => DesktopUi { files: window, ..ui },
        WindowId::Cmd => DesktopUi { cmd: window, ..ui },
        WindowId::Editor => DesktopUi { editor: window, ..ui },
        WindowId::Settings => DesktopUi { settings: window, ..ui },
        WindowId::Video => DesktopUi { video: window, ..ui },
        WindowId::Audio => DesktopUi { audio: window, ..ui },
    }
}

/// Whether a window is to be seen.
pub open spec fn visible(window: WindowState) -> bool {
    window.open && !window.minimized
}

/// The first of some windows, from `from` on, that is to be seen and is not another.
pub open spec fn first_visible(ui: DesktopUi, order: Seq<WindowId>, except: WindowId, from: int) -> WindowId
    decreases order.len() - from,
{
    if from < 0 || from >= order.len() {
        except
    } else if order[from] != except && visible(window_of(ui, order[from])) {
        order[from]
    } else {
        first_visible(ui, order, except, from + 1)
    }
}

/// The window that becomes active when another goes away.
pub open spec fn fallback(ui: DesktopUi, closed: WindowId) -> WindowId {
    first_visible(
        ui,
        seq![
            WindowId::Audio,
            WindowId::Video,
            WindowId::Settings,
            WindowId::Editor,
            WindowId::Files,
            WindowId::Cmd,
        ],
        closed,
        0,
    )
}

/// The windows from the lowest to the active one.
pub open spec fn draw_order(active: WindowId) -> Seq<WindowId> {
    match active {
        WindowId::Files => seq![
            WindowId::Cmd,
            WindowId::Editor,
            WindowId::Settings,
            WindowId::Video,
            WindowId::Audio,
            WindowId::Files,
        ],
        WindowId::Cmd => seq![
            WindowId::Files,
            WindowId::Editor,
            WindowId::Settings,
            WindowId::Video,
            WindowId::Audio,
            WindowId::Cmd,
        ],
        WindowId::Editor => seq![
            WindowId::Files,
            WindowId::Cmd,
            WindowId::Settings,
            WindowId::Video,
            WindowId::Audio,
            WindowId::Editor,
        ],
        WindowId::Settings => seq![
            WindowId::Files,
            WindowId::Cmd,
            WindowId::Editor,
            WindowId::Video,
            WindowId::Audio,
            WindowId::Settings,
        ],
        WindowId::Video => seq![
            WindowId::Files,
            WindowId::Cmd,
            WindowId::Editor,
            WindowId::Settings,
            WindowId::Audio,
            WindowId::Video,
        ],
        WindowId::Audio => seq![
            WindowId::Files,
            WindowId::Cmd,
            WindowId::Editor,
            WindowId::Settings,
            WindowId::Video,
            WindowId::Audio,
        ],
    }
}

/// All windows.
fn all_windows() -> (windows: [WindowId; 6])
    ensures
        windows@ == seq![
            WindowId::Files,
            WindowId::Cmd,
            WindowId::Editor,
            WindowId::Settings,
            WindowId::Video,
            WindowId::Audio,
        ],
{
    let windows: [WindowId; 6] = [
        WindowId::Files,
        WindowId::Cmd,
        WindowId::Editor,
        WindowId::Settings,
        WindowId::Video,
        WindowId::Audio,
    ];
    assert(windows@ =~= seq![
        WindowId::Files,
        WindowId::Cmd,
        WindowId::Editor,
        WindowId::Settings,
        WindowId::Video,
        WindowId::Audio,
    ]);
    windows
}

/// The windows from the lowest to the active one.
pub fn ordered_windows(active: WindowId) -> (order: [WindowId; 6])
    ensures
        order@ == draw_order(active),
{
    let windows = all_windows();
    let mut order = windows;
    let mut write: usize = 0;
    let mut index: usize = 0;
    while index < 6
        invariant
            index <= 6,
            write <= index,
            windows@ == seq![
                WindowId::Files,
                WindowId::Cmd,
                WindowId::Editor,
                WindowId::Settings,
                WindowId::Video,
                WindowId::Audio,
            ],
            write == index || write == index - 1,
            forall|i: int| 0 <= i < index && windows@[i] == active ==> write == index - 1,
            write == index - 1 ==> exists|i: int| 0 <= i < index && windows@[i] == active,
            forall|i: int| 0 <= i < write ==> #[trigger] order@[i] == draw_order(active)[i],
        decreases 6 - index,
    {
        if windows[index] != active {
            order[write] = windows[index];
            write += 1;
        }
        index += 1;
    }
    order[5] = active;
    assert(order@ =~= draw_order(active));
    order
}

pub fn get_window(ui: &DesktopUi, id: WindowId) -> (window: WindowState)
    ensures
        window == window_of(*ui, id),
        ui.wf() ==> window_wf(window),
{
    match id {
        WindowId::Files => ui.files,
        WindowId::Cmd => ui.cmd,
        WindowId::Editor => ui.editor,
        WindowId::Settings => ui.settings,
        WindowId::Video => ui.video,
        WindowId::Audio => ui.audio,
    }
}

pub fn set_window(ui: &mut DesktopUi, id: WindowId, window: WindowState)
    ensures
        *final(ui) == with_window(*old(ui), id, window),
        old(ui).wf() && window_wf(window) ==> final(ui).wf(),
        final(ui).active == old(ui).active,
{
    match id {
        WindowId::Files => {
            ui.files = window;
        },
        WindowId::Cmd => {
            ui.cmd = window;
        },
        WindowId::Editor => {
            ui.editor = window;
        },
        WindowId::Settings => {
            ui.settings = window;
        },
        WindowId::Video => {
            ui.video = window;
        },
        WindowId::Audio => {
            ui.audio = window;
        },
    }
}

fn fallback_active(ui: &DesktopUi, closed: WindowId) -> (active: WindowId)
    ensures
        active == fallback(*ui, closed),
{
    let order: [WindowId; 6] = [
        WindowId::Audio,
        WindowId::Video,
        WindowId::Settings,
        WindowId::Editor,
        WindowId::Files,
        WindowId::Cmd,
    ];
    assert(order@ =~= seq![
        WindowId::Audio,
        WindowId::Video,
        WindowId::Settings,
        WindowId::Editor,
        WindowId::Files,
        WindowId::Cmd,
    ]);
    let mut index: usize = 0;
    while index < 6
        invariant
            index <= 6,
            order@.len() == 6,
            fallback(*ui, closed) == first_visible(*ui, order@, closed, 0),
            first_visible(*ui, order@, closed, index as int) == first_visible(
                *ui,
                order@,
                closed,
                0,
            ),
        decreases 6 - index,
    {
        let id = order[index];
        let window = get_window(ui, id);
        if id != closed && window.open && !window.minimized {
            return id;
        }
        index += 1;
    }
    closed
}

/// A window made active, if it is to be seen.
pub open spec fn activated(ui: DesktopUi, id: WindowId) -> DesktopUi {
    if visible(window_of(ui, id)) {
        DesktopUi { active: id, ..ui }
    } else {
        ui
    }
}

pub fn activate_window(ui: &mut DesktopUi, id: WindowId)
    ensures
        *final(ui) == activated(*old(ui), id),
        old(ui).wf() ==> final(ui).wf(),
{
    let window = get_window(ui, id);
    if window.open && !window.minimized {
        ui.active = id;
    }
}

/// A window minimized.
#[verifier::opaque]
pub open spec fn minimized(ui: DesktopUi, id: WindowId) -> DesktopUi {
    let after = with_window(ui, id, WindowState { minimized: true, ..window_of(ui, id) });
    DesktopUi { active: fallback(after, id), ..after }
}

pub fn minimize_window(ui: &mut DesktopUi, id: WindowId)
    ensures
        *final(ui) == minimized(*old(ui), id),
        old(ui).wf() ==> final(ui).wf(),
{
    reveal(minimized);
    let mut window = get_window(ui, id);
    window.minimized = true;
    set_window(ui, id, window);
    let active = fallback_active(ui, id);
    ui.active = active;
}

/// A window closed.
#[verifier::opaque]
pub open spec fn closed(ui: DesktopUi, id: WindowId) -> DesktopUi {
    let after = with_window(
        ui,
        id,
        WindowState { open: false, minimized: false, ..window_of(ui, id) },
    );
    DesktopUi { active: fallback(after, id), ..after }
}

pub fn close_window(ui: &mut DesktopUi, id: WindowId)
    ensures
        *final(ui) == closed(*old(ui), id),
        old(ui).wf() ==> final(ui).wf(),
{
    reveal(closed);
    let mut window = get_window(ui, id);
    window.open = false;
    window.minimized = false;
    set_window(ui, id, window);
    let active = fallback_active(ui, id);
    ui.active = active;
}

/// What a click on a window in the bar does: it opens, comes back, goes away or becomes
/// active.
#[verifier::opaque]
pub open spec fn toggled(ui: DesktopUi, id: WindowId) -> DesktopUi {
    let window = window_of(ui, id);
    if !window.open {
        DesktopUi {
            active: id,
            ..with_window(ui, id, WindowState { open: true, minimized: false, ..window })
        }
    } else if window.minimized {
        DesktopUi {
            active: id,
            ..with_window(ui, id, WindowState { minimized: false, ..window })
        }
    } else if ui.active == id {
        minimized(ui, id)
    } else {
        DesktopUi { active: id, ..ui }
    }
}

#[verifier::rlimit(60)]
pub fn toggle_taskbar_window(ui: &mut DesktopUi, id: WindowId)
    ensures
        *final(ui) == toggled(*old(ui), id),
        old(ui).wf() ==> final(ui).wf(),
{
    reveal(toggled);
    let mut window = get_window(ui, id);
    if !window.open {
        window.open = true;
        window.minimized = false;
        set_window(ui, id, window);
        ui.active = id;
        return;
    }
    if window.minimized {
        window.minimized = false;
        set_window(ui, id, window);
        ui.active = id;
        return;
    }
    if ui.active == id {
        minimize_window(ui, id);
    } else {
        ui.active = id;
    }
}

/// The windows of a new desktop.
pub open spec fn new_ui() -> DesktopUi {
    DesktopUi {
        mouse_x: 320,
        mouse_y: 240,
        presented_mouse_x: 320,
        presented_mouse_y: 240,
        mouse_left: false,
        mouse_right: false,
        cursor_dirty: false,
        scene_dirty: false,
        locked: true,
        packet0: 0,
        packet1: 0,
        packet_len: 0,
        tick: 0,
        ambient_phase: 0,
        last_clock_poll_ns: 0,
        clock_time: None,
        active: WindowId::Cmd,
        hover: HitTarget::Nothing,
        pressed: HitTarget::Nothing,
        dragging: None,
        start_menu_open: false,
        selected_icon: None,
        last_icon_click: None,
        selected_file_entry: None,
        last_file_click: None,
        video_frame: 0,
        files: WindowState { x: 254, y: 100, w: 356, h: 262, open: false, minimized: false },
        cmd: WindowState { x: 110, y: 92, w: 286, h: 282, open: true, minimized: false },
        editor: WindowState { x: 164, y: 70, w: 364, h: 324, open: false, minimized: false },
        settings: WindowState { x: 378, y: 62, w: 234, h: 194, open: false, minimized: false },
        video: WindowState { x: 196, y: 66, w: 382, h: 274, open: false, minimized: false },
        audio: WindowState { x: 224, y: 108, w: 322, h: 234, open: false, minimized: false },
        menu: None,
        menu_x: 0,
        menu_y: 0,
    }
}

/// A window lies near the screen and has a usual size.
pub open spec fn window_wf(window: WindowState) -> bool {
    &&& -4096 <= window.x <= 4096
    &&& -4096 <= window.y <= 4096
    &&& 200 <= window.w <= 512
    &&& 160 <= window.h <= 384
}

impl DesktopUi {
    /// The mouse, the windows and the menu lie near the screen.
    pub open spec fn wf(self) -> bool {
        &&& 0 <= self.mouse_x <= 4096
        &&& 0 <= self.mouse_y <= 4096
        &&& self.packet_len <= 2
        &&& window_wf(self.files)
        &&& window_wf(self.cmd)
        &&& window_wf(self.editor)
        &&& window_wf(self.settings)
        &&& window_wf(self.video)
        &&& window_wf(self.audio)
        &&& -4096 <= self.menu_x <= 4096
        &&& -4096 <= self.menu_y <= 4096
        &&& self.dragging matches Some(drag) ==> -16384 <= drag.offset_x <= 16384 && -16384
            <= drag.offset_y <= 16384
    }
}

impl DesktopView {
    pub open spec fn wf(self) -> bool {
        &&& self.ui.wf()
        &&& self.entries.len() <= 12
    }
}

/// A desktop on which nothing was done.
pub open spec fn new_desktop() -> DesktopView {
    DesktopView {
        ui: new_ui(),
        files_path: Seq::empty(),
        file_status: Seq::empty(),
        entries: Seq::empty(),
        editor_path: Seq::empty(),
        editor_status: Seq::empty(),
        editor_text: Seq::empty(),
        settings_status: Seq::empty(),
        video_path: Seq::empty(),
        video_status: Seq::empty(),
        audio_path: Seq::empty(),
        audio_status: Seq::empty(),
    }
}

impl Desktop {
    /// A desktop on which nothing was done: it is locked, with the command window open.
    pub fn new() -> (desktop: Self)
        ensures
            desktop@ == new_desktop(),
            desktop@.wf(),
    {
        let desktop = Desktop {
            ui: DesktopUi {
                mouse_x: 320,
                mouse_y: 240,
                presented_mouse_x: 320,
                presented_mouse_y: 240,
                mouse_left: false,
                mouse_right: false,
                cursor_dirty: false,
                scene_dirty: false,
                locked: true,
                packet0: 0,
                packet1: 0,
                packet_len: 0,
                tick: 0,
                ambient_phase: 0,
                last_clock_poll_ns: 0,
                clock_time: None,
                active: WindowId::Cmd,
                hover: HitTarget::Nothing,
                pressed: HitTarget::Nothing,
                dragging: None,
                start_menu_open: false,
                selected_icon: None,
                last_icon_click: None,
                selected_file_entry: None,
                last_file_click: None,
                video_frame: 0,
                files: WindowState { x: 254, y: 100, w: 356, h: 262, open: false, minimized: false },
                cmd: WindowState { x: 110, y: 92, w: 286, h: 282, open: true, minimized: false },
                editor: WindowState { x: 164, y: 70, w: 364, h: 324, open: false, minimized: false },
                settings: WindowState {
                    x: 378,
                    y: 62,
                    w: 234,
                    h: 194,
                    open: false,
                    minimized: false,
                },
                video: WindowState { x: 196, y: 66, w: 382, h: 274, open: false, minimized: false },
                audio: WindowState { x: 224, y: 108, w: 322, h: 234, open: false, minimized: false },
                menu: None,
                menu_x: 0,
                menu_y: 0,
            },
            files_path: InlineString::new(),
            file_status: InlineString::new(),
            entries: Vec::new(),
            editor_path: InlineString::new(),
            editor_status: InlineString::new(),
            editor_text: InlineString::new(),
            settings_status: InlineString::new(),
            video_path: InlineString::new(),
            video_status: InlineString::new(),
            audio_path: InlineString::new(),
            audio_status: InlineString::new(),
        };
        assert(desktop@.entries =~= Seq::<EntryView>::empty());
        desktop
    }
}

/// The active window is to be seen whenever any window is, once it was closed or
/// minimized.
pub proof fn law_fallback_is_visible(ui: DesktopUi, id: WindowId)
    requires
        exists|other: WindowId| other != id && #[trigger] visible(window_of(ui, other)),
    ensures
        visible(window_of(ui, fallback(ui, id))),
        fallback(ui, id) != id,
{
    let other = choose|other: WindowId| other != id && #[trigger] visible(window_of(ui, other));
    reveal_with_fuel(first_visible, 7);
}

/// A window that was minimized comes back with a click, and lies where it lay.
pub proof fn law_toggling_brings_back(ui: DesktopUi, id: WindowId)
    requires
        ui.active == id,
        visible(window_of(ui, id)),
    ensures
        window_of(toggled(ui, id), id).minimized,
        window_of(toggled(toggled(ui, id), id), id) == window_of(ui, id),
        toggled(toggled(ui, id), id).active == id,
{
    reveal(toggled);
    reveal(minimized);
}

} // verus!
