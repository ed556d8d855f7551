use rustix_vkernel::arch::{ClockTime, ConsoleInput};
use rustix_vkernel::gui::events::{FlushAction, InputOutcome};
use rustix_vkernel::gui::files::{
    self, CreateReply, CreateRequest, DesktopRequest, EditorSource, EntryCreation, ListedEntry,
};
use rustix_vkernel::gui::hit::{self, Size};
use rustix_vkernel::gui::media;
use rustix_vkernel::gui::palette;
use rustix_vkernel::gui::render::RenderFiles;
use rustix_vkernel::gui::{self, BrowserKind, Desktop, HitTarget, WindowId};
use rustix_vkernel::screen::output::Display;
use rustix_vkernel::screen::video::{self, Channel};
use rustix_vkernel::screen::Screen;

const SIZE: Size = Size { width: 640, height: 480 };

fn open_desktop() -> Desktop {
    let mut desktop = Desktop::new();
    let _ = desktop.init(None);
    desktop.unlock_desktop(&SIZE);
    desktop
}

#[test]
fn a_locked_desktop_cannot_be_touched() {
    let mut desktop = Desktop::new();
    let _ = desktop.init(Some(ClockTime { hour: 8, minute: 0, second: 0 }));
    desktop.lock_desktop();
    assert!(desktop.ui.locked);
    for (x, y) in [(0, 0), (320, 240), (20, 460)] {
        assert_eq!(
            hit::hit_test(&desktop.ui, desktop.entries.len(), &SIZE, x, y),
            HitTarget::Nothing
        );
    }
    desktop.unlock_desktop(&SIZE);
    assert!(!desktop.ui.locked);
}

#[test]
fn windows_come_and_go() {
    let mut desktop = open_desktop();
    gui::activate_window(&mut desktop.ui, WindowId::Settings);
    assert_eq!(desktop.ui.active, WindowId::Settings);
    assert!(gui::get_window(&desktop.ui, WindowId::Settings).open);
    assert_eq!(gui::ordered_windows(WindowId::Settings)[5], WindowId::Settings);
    gui::minimize_window(&mut desktop.ui, WindowId::Settings);
    assert!(gui::get_window(&desktop.ui, WindowId::Settings).minimized);
    gui::toggle_taskbar_window(&mut desktop.ui, WindowId::Settings);
    assert!(!gui::get_window(&desktop.ui, WindowId::Settings).minimized);
    gui::close_window(&mut desktop.ui, WindowId::Settings);
    assert!(!gui::get_window(&desktop.ui, WindowId::Settings).open);
}

#[test]
fn packets_move_the_mouse() {
    let mut desktop = open_desktop();
    let before = (desktop.ui.mouse_x, desktop.ui.mouse_y);
    for byte in [0x08u8, 10, 0] {
        let (_, rest) = desktop.handle_mouse_byte(&SIZE, true, byte);
        if let Some(rest) = rest {
            desktop.finish_packet(&SIZE, rest);
        }
    }
    assert_eq!(desktop.ui.mouse_x, before.0 + 10);
    assert_eq!(desktop.ui.mouse_y, before.1);
    assert!(matches!(desktop.flush_mouse(false), FlushAction::Nothing));
    assert!(!matches!(desktop.flush_mouse(true), FlushAction::Nothing));
    assert!(matches!(desktop.flush_mouse(true), FlushAction::Nothing));
}

#[test]
fn keys_go_to_the_editor() {
    let mut desktop = open_desktop();
    let source = EditorSource { is_directory: false, exists: true, created: false, text: Some(b"ab") };
    assert!(desktop.open_editor_internal(b"/tmp/note", source));
    assert_eq!(desktop.editor_text.as_str(), "ab");
    let outcome = desktop.handle_key(&SIZE, true, 0, Some(b'c'));
    assert!(outcome.handled);
    assert_eq!(desktop.editor_text.as_str(), "abc");
    let _ = desktop.handle_key(&SIZE, true, 0, Some(8));
    assert_eq!(desktop.editor_text.as_str(), "ab");
    let folder = EditorSource { is_directory: true, exists: true, created: false, text: None };
    assert!(!desktop.open_editor_internal(b"/tmp", folder));
}

#[test]
fn folders_are_listed() {
    let mut desktop = open_desktop();
    let list = vec![
        ListedEntry { name: b"bin".to_vec(), is_directory: true },
        ListedEntry { name: b"motd".to_vec(), is_directory: false },
    ];
    desktop.refresh_files_view(Some(&list));
    assert_eq!(desktop.entries.len(), 2);
    assert_eq!(desktop.entries[0].kind, BrowserKind::Directory);
    assert_eq!(desktop.entries[1].name.as_str(), "motd");
    assert!(matches!(desktop.navigate_to(b"/etc"), DesktopRequest::RefreshFiles));
    assert_eq!(desktop.files_path.as_str(), "/etc");
    let _ = desktop.navigate_parent();
    assert_eq!(desktop.files_path.as_str(), "/");
    assert_eq!(files::set_child_path(b"/", b"etc").as_str(), "/etc");
    assert_eq!(files::set_child_path(b"/etc", b"motd").as_str(), "/etc/motd");
    desktop.refresh_files_view(None);
    assert_eq!(desktop.entries.len(), 0);
}

#[test]
fn new_entries_get_a_free_name() {
    let mut desktop = open_desktop();
    let mut creation = EntryCreation::new(BrowserKind::File);
    let first = match creation.create_files_entry(&mut desktop, CreateReply::Begin) {
        CreateRequest::Exists(path) => path,
        _ => panic!("a name is asked for first"),
    };
    let second = match creation.create_files_entry(&mut desktop, CreateReply::Exists(true)) {
        CreateRequest::Exists(path) => path,
        _ => panic!("another name is asked for"),
    };
    assert_ne!(first.as_str(), second.as_str());
    assert!(matches!(
        creation.create_files_entry(&mut desktop, CreateReply::Exists(false)),
        CreateRequest::Create(BrowserKind::File, _)
    ));
    assert!(matches!(
        creation.create_files_entry(&mut desktop, CreateReply::Created(Ok(()))),
        CreateRequest::Refresh
    ));
    assert!(matches!(
        creation.create_files_entry(&mut desktop, CreateReply::Listed),
        CreateRequest::Finished
    ));
}

#[test]
fn settings_change_by_steps() {
    assert_eq!(media::clamp_percent(140), 100);
    assert_eq!(media::clamp_percent(-4), 0);
    let file: Vec<char> = "brightness=50\nvolume=50\ntheme=graphite\n".chars().collect();
    let config = media::load_settings_config(Some(&file));
    assert_eq!(config.brightness, 50);
    let raised = media::adjust_setting(Some(&file), false, true);
    assert!(!raised.as_str().contains("brightness=50"));
    let theme = media::cycle_theme(Some(&file));
    assert!(theme.as_str().contains("sunrise"));
}

#[test]
fn idle_time_moves_the_clock() {
    let mut desktop = open_desktop();
    let time = Some(ClockTime { hour: 9, minute: 1, second: 2 });
    assert!(!desktop.tick_idle(false, 10_000_000_000, time));
    let _ = desktop.tick_idle(true, 10_000_000_000, time);
    assert_eq!(desktop.ui.clock_time, time);
}

#[test]
fn the_desktop_is_drawn() {
    let mut desktop = open_desktop();
    let mut screen = Screen::new(true, 640, 480);
    let writes = palette::configure_palette(&mut screen, &[]);
    assert!(!writes.is_empty());
    let mut mode = video::default_video_mode();
    mode.width = 640;
    mode.height = 480;
    mode.pitch = 640 * 4;
    mode.bpp = 32;
    mode.red = Channel { size: 8, shift: 16 };
    mode.green = Channel { size: 8, shift: 8 };
    mode.blue = Channel { size: 8, shift: 0 };
    let mut display = Display { mode, frame: vec![0; 640 * 4 * 480] };
    let nothing = RenderFiles { settings: None, video: None, audio: None };
    desktop.render_desktop(&mut screen, &mut display, &nothing, &[]);
    assert!(display.frame.iter().any(|byte| *byte != 0));
    assert!(!desktop.ui.scene_dirty);
}

#[test]
fn inputs_go_to_the_mouse_or_the_keys() {
    let mut desktop = Desktop::new();
    let _ = desktop.init(None);
    assert!(desktop.ui.locked);
    assert!(matches!(
        desktop.poll_input(&SIZE, ConsoleInput::MouseByte(0x08)),
        InputOutcome::Mouse(DesktopRequest::Nothing, None)
    ));
    assert_eq!(desktop.ui.packet_len, 1);
    assert!(matches!(
        desktop.poll_input(&SIZE, ConsoleInput::Byte(b'\n')),
        InputOutcome::Key(_)
    ));
}
