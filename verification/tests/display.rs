use rustix_vkernel::fixed::InlineString;
use rustix_vkernel::screen::console::TextConsole;
use rustix_vkernel::screen::output::{self, Display};
use rustix_vkernel::screen::video::{self, BootVideoInfo, Channel, VideoSource};
use rustix_vkernel::screen::{self, letters, Screen};

fn colored() -> Screen {
    let mut screen = Screen::new(true, 64, 48);
    let _ = screen.set_palette_entry(1, 63, 0, 0);
    let _ = screen.set_palette_entry(2, 0, 63, 0);
    screen.gfx_clear(1);
    screen
}

#[test]
fn colors_are_packed_and_mixed() {
    assert_eq!(screen::pack_rgb(1, 2, 3), 0x01_0203);
    assert_eq!(screen::unpack_rgb(0x01_0203), (1, 2, 3));
    assert_eq!(screen::blend_component(0, 255, 255), 255);
    assert_eq!(screen::blend_component(10, 200, 0), 10);
    assert_eq!(screen::expand_6bit(63), 255);
    assert_eq!(screen::expand_6bit(0), 0);
}

#[test]
fn strokes_need_a_scale_and_a_letter_that_has_them() {
    let mut screen = colored();
    let ground = screen.pixel(0, 0);
    let code = '\u{4e0b}' as u32;
    assert!(!screen.draw_cjk_stroke_glyph(0, 0, code, 2, 0));
    assert!(!screen.draw_cjk_stroke_glyph(0, 0, code, 2, -1));
    assert!(!screen.draw_cjk_stroke_glyph(0, 0, 'A' as u32, 2, 1));
    for x in 0..16 {
        for y in 0..16 {
            assert_eq!(screen.pixel(x, y), ground);
        }
    }
    assert!(screen.draw_cjk_stroke_glyph(0, 0, code, 2, 1));
    assert_ne!(screen.pixel(6, 5), ground);
}

#[test]
fn shapes_cover_their_pixels() {
    let mut screen = colored();
    let red = screen.pixel(0, 0);
    screen.gfx_fill_rect(10, 10, 5, 5, 2);
    let green = screen.pixel(10, 10);
    assert_ne!(red, green);
    assert_eq!(screen.pixel(14, 14), green);
    assert_eq!(screen.pixel(15, 14), red);
    screen.gfx_fill_rect(-5, -5, 6, 6, 2);
    assert_eq!(screen.pixel(0, 0), green);
    assert_eq!(screen.pixel(1, 0), red);
    screen.gfx_fill_circle(32, 24, 4, 2);
    assert_eq!(screen.pixel(32, 20), green);
    assert_eq!(screen.pixel(28, 20), red);
    screen.gfx_fill_round_rect(40, 10, 10, 10, 3, 2);
    assert_eq!(screen.pixel(45, 10), green);
    assert_eq!(screen.pixel(40, 10), red);
}

#[test]
fn a_screen_without_graphics_is_not_painted() {
    let mut screen = Screen::new(false, 64, 48);
    let before = screen.pixel(5, 5);
    screen.gfx_fill_rect(0, 0, 64, 48, 2);
    assert_eq!(screen.pixel(5, 5), before);
    assert!(!screen.graphics_mode_enabled());
}

#[test]
fn letters_are_drawn() {
    let mut screen = colored();
    let ground = screen.pixel(0, 0);
    screen.draw_text(2, 2, "A", 2, 1);
    let mut painted = 0;
    for y in 0..48 {
        for x in 0..64 {
            if screen.pixel(x, y) != ground {
                painted += 1;
                assert!(x >= 2 && y >= 2);
            }
        }
    }
    assert!(painted > 0);
    assert_eq!(letters::text_width("", 1), 0);
    assert!(letters::text_width("AB", 1) > letters::text_width("A", 1));
}

#[test]
fn the_console_keeps_its_lines() {
    let mut screen = Screen::new(true, 640, 480);
    let mut console = TextConsole::new();
    console.console_write(&mut screen, "hi\nyou");
    assert_eq!(screen.gfx_console_cursor(), (1, 3));
    assert_eq!(screen.gfx_console_cell(0, 0), u16::from(b'h'));
    let mut line = InlineString::<64>::new();
    screen.gfx_console_line(1, &mut line);
    assert_eq!(line.as_str(), "you");
    assert!(console.take_serial().starts_with(b"hi"));
    assert!(console.take_serial().is_empty());
    screen.gfx_console_reset();
    assert_eq!(screen.gfx_console_cursor(), (0, 0));
}

#[test]
fn the_nearest_color_is_found() {
    let mut screen = Screen::new(true, 16, 16);
    let _ = screen.set_palette_entry(7, 10, 20, 30);
    let index = screen.nearest_palette_index(screen::pack_rgb(
        screen::expand_6bit(10),
        screen::expand_6bit(20),
        screen::expand_6bit(30),
    ));
    assert_eq!(index, 7);
    assert_eq!(output::scale_channel(255, 5), 31);
    assert_eq!(output::scale_channel(0, 5), 0);
}

#[test]
fn modes_are_taken_over() {
    let info = BootVideoInfo {
        magic: 0,
        framebuffer_addr: 0xe000_0000,
        width: 640,
        height: 480,
        pitch: 2560,
        bpp: 32,
        red_mask_size: 8,
        red_field_position: 16,
        green_mask_size: 8,
        green_field_position: 8,
        blue_mask_size: 8,
        blue_field_position: 0,
    };
    let (mode, graphics) = video::load_boot_video_info(0, 0, &[], info);
    assert!(!graphics);
    assert_eq!(mode.source, VideoSource::Unknown);
    assert_eq!(video::video_source(mode), "none");
    assert_eq!(video::screen_bpp(mode), 8);
}

#[test]
fn frames_are_presented() {
    let screen = colored();
    let mut mode = video::default_video_mode();
    mode.width = 64;
    mode.height = 48;
    mode.pitch = 64 * 4;
    mode.bpp = 32;
    mode.red = Channel { size: 8, shift: 16 };
    mode.green = Channel { size: 8, shift: 8 };
    mode.blue = Channel { size: 8, shift: 0 };
    let mut display = Display { mode, frame: vec![0; 64 * 4 * 48] };
    display.gfx_present(&screen);
    assert_eq!(&display.frame[..3], &[0, 0, 255]);
}
