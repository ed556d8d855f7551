//! The settings window and the players of the desktop.
use crate::apps::players;
use crate::apps::players::ParsedLine;
use crate::apps::settings;
use crate::apps::settings::{SettingsConfig, Theme};
use crate::chars;
use crate::fixed;
use crate::fixed::InlineString;
use crate::gui;
use crate::gui::{Desktop, DesktopUi, DesktopView};
use crate::lines;
use crate::lines::Line;
use crate::text;
use vstd::prelude::*;
use vstd::string::*;

verus! {

/// The settings with a line of their file taken over: numbers are brought into their
/// ranges, and a theme that is not known is the first.
pub open spec fn line_loaded(config: SettingsConfig, line: Seq<char>) -> SettingsConfig {
    match chars::split_at(line, "="@) {
        None => config,
        Some((key, value)) => {
            let name = chars::trimmed(key);
            let given = chars::trimmed(value);
            let number = chars::number_of(given);
            if name == "brightness"@ {
                match number {
                    Some(value) => SettingsConfig {
                        brightness: (if value > 100 {
                            100
                        } else {
                            value
                        }) as u8,
                        ..config
                    },
                    None => config,
                }
            } else if name == "volume"@ {
                match number {
                    Some(value) => SettingsConfig {
                        volume: (if value > 100 {
                            100
                        } else {
                            value
                        }) as u8,
                        ..config
                    },
                    None => config,
                }
            } else if name == "ui_scale"@ {
                match number {
                    Some(value) => SettingsConfig {
                        ui_scale: (if value < 1 {
                            1
                        } else if value > 4 {
                            4
                        } else {
                            value
                        }) as u8,
                        ..config
                    },
                    None => config,
                }
            } else if name == "theme"@ {
                SettingsConfig {
                    theme: if given == "sunrise"@ {
                        Theme::Sunrise
                    } else if given == "glacier"@ {
                        Theme::Glacier
                    } else {
                        Theme::Graphite
                    },
                    ..config
                }
            } else {
                config
            }
        },
    }
}

/// The settings that the first lines of a file say.
pub open spec fn lines_loaded(list: Seq<Seq<char>>, count: nat) -> SettingsConfig
    decreases count,
{
    if count == 0 {
        settings::default_settings()
    } else {
        line_loaded(lines_loaded(list, (count - 1) as nat), list[count - 1])
    }
}

/// The settings that the desktop goes by.
#[verifier::opaque]
pub open spec fn loaded(file: Option<Seq<char>>) -> SettingsConfig {
    match file {
        None => settings::default_settings(),
        Some(text) => {
            let list = chars::lines_from(text, 0);
            lines_loaded(list, list.len())
        },
    }
}

fn load_line(config: &mut SettingsConfig, key: &[char], value: &[char])
    ensures
        forall|line: Seq<char>|
            chars::split_at(line, "="@) is Some && chars::trimmed(
                chars::split_at(line, "="@)->Some_0.0,
            ) == key@ && chars::trimmed(chars::split_at(line, "="@)->Some_0.1) == value@
                ==> *final(config) == #[trigger] line_loaded(*old(config), line),
{
    proof {
        chars::lemma_digits(value@, u32::MAX as int);
    }
    if chars::is(key, "brightness") {
        if let Some(number) = chars::parse_u32(value) {
            config.brightness = if number > 100 {
                100
            } else {
                number as u8
            };
        }
    } else if chars::is(key, "volume") {
        if let Some(number) = chars::parse_u32(value) {
            config.volume = if number > 100 {
                100
            } else {
                number as u8
            };
        }
    } else if chars::is(key, "ui_scale") {
        if let Some(number) = chars::parse_u32(value) {
            config.ui_scale = if number < 1 {
                1
            } else if number > 4 {
                4
            } else {
                number as u8
            };
        }
    } else if chars::is(key, "theme") {
        config.theme = if chars::is(value, "sunrise") {
            Theme::Sunrise
        } else if chars::is(value, "glacier") {
            Theme::Glacier
        } else {
            Theme::Graphite
        };
    }
}

/// The settings that the desktop goes by, with what their file holds.
pub fn load_settings_config(file: Option<&[char]>) -> (config: SettingsConfig)
    ensures
        config == loaded(
            match file {
                Some(text) => Some(text@),
                None => None,
            },
        ),
{
    reveal(loaded);
    let mut config = SettingsConfig::defaults();
    let text = match file {
        None => {
            return config;
        },
        Some(text) => text,
    };
    let list = chars::lines(text);
    let equals = chars::chars_of("=");
    let mut index: usize = 0;
    while index < list.len()
        invariant
            index <= list@.len(),
            equals@ == "="@,
            chars::views(list@).len() == list@.len(),
            config == lines_loaded(chars::views(list@), index as nat),
        decreases list@.len() - index,
    {
        assert(chars::views(list@)[index as int] == list@[index as int]@);
        match chars::split_once(list[index].as_slice(), equals.as_slice()) {
            Some((key, value)) => {
                let key = chars::trim(key.as_slice());
                let value = chars::trim(value.as_slice());
                let ghost before = config;
                load_line(&mut config, key.as_slice(), value.as_slice());
                assert(config == line_loaded(before, list@[index as int]@));
            },
            None => {},
        }
        index += 1;
    }
    config
}

/// A number brought into the range of a percentage.
pub open spec fn clamped(value: int) -> int {
    if value < 0 {
        0
    } else if value > 100 {
        100
    } else {
        value
    }
}

pub fn clamp_percent(value: i32) -> (percent: u8)
    ensures
        percent == clamped(value as int),
{
    if value < 0 {
        0
    } else if value > 100 {
        100
    } else {
        value as u8
    }
}

/// The settings with one of them five higher or lower.
pub open spec fn adjusted(config: SettingsConfig, volume: bool, up: bool) -> SettingsConfig {
    let delta = if up {
        5int
    } else {
        -5
    };
    if volume {
        SettingsConfig { volume: clamped(config.volume + delta) as u8, ..config }
    } else {
        SettingsConfig { brightness: clamped(config.brightness + delta) as u8, ..config }
    }
}

/// The text of the file of the settings, as far as it fits in 128 bytes.
pub open spec fn file_text(config: SettingsConfig) -> Seq<u8> {
    lines::filled(settings::file_pieces(config), 128)
}

fn settings_text(config: SettingsConfig) -> (text: InlineString<128>)
    ensures
        text@ == file_text(config),
{
    settings::settings_line(config).fill()
}

/// The text of the file of the settings with one of them five higher or lower.
pub fn adjust_setting(file: Option<&[char]>, volume: bool, up: bool) -> (text: InlineString<128>)
    ensures
        text@ == file_text(
            adjusted(
                loaded(
                    match file {
                        Some(given) => Some(given@),
                        None => None,
                    },
                ),
                volume,
                up,
            ),
        ),
{
    let mut config = load_settings_config(file);
    let delta: i32 = if up {
        5
    } else {
        -5
    };
    if volume {
        config.volume = clamp_percent(config.volume as i32 + delta);
    } else {
        config.brightness = clamp_percent(config.brightness as i32 + delta);
    }
    settings_text(config)
}

/// The theme behind another.
pub open spec fn next_theme(theme: Theme) -> Theme {
    match theme {
        Theme::Graphite => Theme::Sunrise,
        Theme::Sunrise => Theme::Glacier,
        Theme::Glacier => Theme::Graphite,
    }
}

/// The text of the file of the settings with the next theme.
pub fn cycle_theme(file: Option<&[char]>) -> (text: InlineString<128>)
    ensures
        ({
            let config = loaded(
                match file {
                    Some(given) => Some(given@),
                    None => None,
                },
            );
            text@ == file_text(SettingsConfig { theme: next_theme(config.theme), ..config })
        }),
{
    let mut config = load_settings_config(file);
    config.theme = match config.theme {
        Theme::Graphite => Theme::Sunrise,
        Theme::Sunrise => Theme::Glacier,
        Theme::Glacier => Theme::Graphite,
    };
    settings_text(config)
}

/// How many frames the film in a file has.
pub open spec fn frame_count(file: Option<Seq<char>>) -> nat {
    match file {
        None => 0,
        Some(text) => {
            let frames = players::frames_of(players::media(text).1);
            players::shown_frames(frames, frames.len())
        },
    }
}

pub fn count_video_frames(file: Option<&[char]>) -> (count: usize)
    ensures
        count == frame_count(
            match file {
                Some(text) => Some(text@),
                None => None,
            },
        ),
{
    match file {
        None => 0,
        Some(text) => {
            let media = players::parse_media_header(text);
            players::count_frames(media.body.as_slice())
        },
    }
}

/// The frame behind or before another, of so many.
pub open spec fn stepped_frame(frame: usize, count: nat, forward: bool) -> int {
    let current = if frame < count {
        frame as int
    } else {
        count - 1
    };
    if forward {
        if current + 1 < count {
            current + 1
        } else {
            count - 1
        }
    } else if current > 0 {
        current - 1
    } else {
        0
    }
}

/// The desktop with the next frame of the film, or the one before.
pub open spec fn video_stepped(view: DesktopView, count: nat, forward: bool) -> DesktopView {
    if count == 0 {
        DesktopView { video_status: gui::kept(text::literal("No frames")), ..view }
    } else {
        DesktopView {
            ui: DesktopUi {
                video_frame: stepped_frame(view.ui.video_frame, count, forward) as usize,
                ..view.ui
            },
            video_status: gui::kept(text::literal("Frame selected")),
            ..view
        }
    }
}

impl Desktop {
    /// Takes over what came of writing a setting.
    pub fn setting_saved(&mut self, written: bool)
        requires
            old(self)@.wf(),
        ensures
            final(self)@.wf(),
            final(self)@ == (if written {
                DesktopView {
                    settings_status: gui::kept(text::literal("Saved")),
                    audio_status: gui::kept(text::literal("Settings updated")),
                    ..old(self)@
                }
            } else {
                DesktopView {
                    settings_status: gui::kept(text::literal("Save failed")),
                    ..old(self)@
                }
            }),
    {
        if written {
            self.settings_status = gui::note("Saved");
            self.audio_status = gui::note("Settings updated");
        } else {
            self.settings_status = gui::note("Save failed");
        }
    }

    /// Takes over what came of writing a theme.
    pub fn theme_saved(&mut self, written: bool)
        requires
            old(self)@.wf(),
        ensures
            final(self)@.wf(),
            final(self)@ == (DesktopView {
                settings_status: gui::kept(
                    if written {
                        text::literal("Theme saved")
                    } else {
                        text::literal("Save failed")
                    },
                ),
                ..old(self)@
            }),
    {
        self.settings_status = if written {
            gui::note("Theme saved")
        } else {
            gui::note("Save failed")
        };
    }

    /// Goes to the next frame of the film or to the one before, with what its file holds.
    pub fn step_video_frame(&mut self, file: Option<&[char]>, forward: bool)
        requires
            old(self)@.wf(),
        ensures
            final(self)@.wf(),
            final(self)@ == video_stepped(
                old(self)@,
                frame_count(
                    match file {
                        Some(text) => Some(text@),
                        None => None,
                    },
                ),
                forward,
            ),
    {
        let count: usize = count_video_frames(file);
        if count == 0 {
            self.video_status = gui::note("No frames");
            return;
        }
        let current: usize = if self.ui.video_frame < count {
            self.ui.video_frame
        } else {
            count - 1
        };
        let next: usize = if forward {
            if current < count - 1 {
                current + 1
            } else {
                count - 1
            }
        } else if current > 0 {
            current - 1
        } else {
            0
        };
        self.ui.video_frame = next;
        self.video_status = gui::note("Frame selected");
    }

    /// Shows a frame of the film while it plays.
    pub fn play_video_frame(&mut self, frame: usize)
        requires
            old(self)@.wf(),
        ensures
            final(self)@.wf(),
            final(self)@ == (DesktopView {
                ui: DesktopUi { video_frame: frame, ..old(self)@.ui },
                video_status: gui::kept(text::literal("Playing")),
                ..old(self)@
            }),
    {
        self.ui.video_frame = frame;
        self.video_status = gui::note("Playing");
    }

    /// The film has played, all of so many frames.
    pub fn video_played(&mut self, count: usize)
        requires
            old(self)@.wf(),
        ensures
            final(self)@.wf(),
            final(self)@ == (DesktopView {
                video_status: gui::kept(
                    if count == 0 {
                        text::literal("No frames")
                    } else {
                        text::literal("Playback complete")
                    },
                ),
                ..old(self)@
            }),
    {
        self.video_status = if count == 0 {
            gui::note("No frames")
        } else {
            gui::note("Playback complete")
        };
    }

    /// Says which tone plays.
    pub fn play_audio_note(&mut self, label: &[char])
        requires
            old(self)@.wf(),
        ensures
            final(self)@.wf(),
            final(self)@ == (DesktopView {
                audio_status: gui::kept(
                    lines::filled(seq![text::literal("Playing "), chars::encoded(label@)], 64),
                ),
                ..old(self)@
            }),
    {
        let bytes = chars::encode(label);
        let line = Line::new().text("Playing ").bytes(bytes.as_slice());
        assert(line@ =~= seq![text::literal("Playing "), bytes@]);
        let buffer = line.fill::<64>();
        self.audio_status = gui::keep(buffer.as_bytes());
    }

    /// The music has played, all of so many tones; nothing where there was no file.
    pub fn audio_played(&mut self, count: Option<usize>)
        requires
            old(self)@.wf(),
        ensures
            final(self)@.wf(),
            final(self)@ == (DesktopView {
                audio_status: gui::kept(
                    match count {
                        None => text::literal("Audio file missing"),
                        Some(0) => text::literal("No notes"),
                        Some(_) => text::literal("Playback complete"),
                    },
                ),
                ..old(self)@
            }),
    {
        self.audio_status = match count {
            None => gui::note("Audio file missing"),
            Some(0) => gui::note("No notes"),
            Some(_) => gui::note("Playback complete"),
        };
    }
}

/// The tones of the lines of a score; lines that are none are passed over.
pub open spec fn notes_of(list: Seq<Seq<char>>, count: nat) -> Seq<players::NoteView>
    decreases count,
{
    if count == 0 {
        Seq::empty()
    } else {
        let before = notes_of(list, (count - 1) as nat);
        match players::score_line(list[count - 1]) {
            players::ScoreLine::Note(note) => before.push(note),
            _ => before,
        }
    }
}

/// The tones of a piece of music.
pub fn audio_notes(file: &[char]) -> (notes: Vec<players::Note>)
    ensures
        ({
            let list = chars::lines_from(players::media(file@).1, 0);
            notes@.map_values(|note: players::Note| note@) == notes_of(list, list.len())
        }),
{
    let media = players::parse_media_header(file);
    let list = chars::lines(media.body.as_slice());
    let ghost all = chars::views(list@);
    let mut notes: Vec<players::Note> = Vec::new();
    let mut index: usize = 0;
    assert(notes@.map_values(|note: players::Note| note@) =~= notes_of(all, 0));
    while index < list.len()
        invariant
            index <= list@.len(),
            all == chars::views(list@),
            all.len() == list@.len(),
            notes@.map_values(|note: players::Note| note@) == notes_of(all, index as nat),
        decreases list@.len() - index,
    {
        assert(all[index as int] == list@[index as int]@);
        let ghost before = notes@;
        match players::parse_score_line(list[index].as_slice()) {
            ParsedLine::Note(note) => {
                notes.push(note);
                assert(notes@.map_values(|note: players::Note| note@) =~= before.map_values(
                    |note: players::Note| note@,
                ).push(note@));
            },
            _ => {},
        }
        index += 1;
    }
    notes
}

/// The frames of a film that show something.
pub open spec fn visible_frames(frames: Seq<Seq<char>>, count: nat) -> Seq<Seq<char>>
    decreases count,
{
    if count == 0 {
        Seq::empty()
    } else {
        let before = visible_frames(frames, (count - 1) as nat);
        if chars::trimmed(frames[count - 1]).len() > 0 {
            before.push(frames[count - 1])
        } else {
            before
        }
    }
}

/// The title and the frame that the film window shows, and how many frames there are. A
/// frame that is not there is the last one, and one that is too long or empty is too.
pub open spec fn film_shown(file: Option<Seq<char>>, wanted: usize) -> (Seq<u8>, Seq<u8>, nat) {
    match file {
        None => (
            gui::kept(text::literal("Video missing")),
            fixed::appended(Seq::empty(), text::literal("No frame data"), 768),
            0,
        ),
        Some(text) => {
            let (header, body) = players::media(text);
            let frames = players::frames_of(body);
            let shown = visible_frames(frames, frames.len());
            let chosen = if wanted < shown.len() {
                fixed::appended(
                    Seq::empty(),
                    chars::encoded(chars::without_breaks(shown[wanted as int])),
                    768,
                )
            } else {
                Seq::empty()
            };
            (
                gui::kept(chars::encoded(header.title)),
                if shown.len() == 0 {
                    fixed::appended(Seq::empty(), text::literal("No frame data"), 768)
                } else if chosen.len() == 0 {
                    fixed::appended(
                        Seq::empty(),
                        chars::encoded(chars::without_breaks(shown.last())),
                        768,
                    )
                } else {
                    chosen
                },
                shown.len(),
            )
        },
    }
}

fn frame_text(frame: &[char]) -> (buffer: InlineString<768>)
    ensures
        buffer@ == fixed::appended(
            Seq::empty(),
            chars::encoded(chars::without_breaks(frame@)),
            768,
        ),
{
    let visible = chars::trim_breaks(frame);
    let bytes = chars::encode(visible.as_slice());
    let mut buffer: InlineString<768> = InlineString::new();
    let _ = buffer.push_bytes(bytes.as_slice());
    buffer
}

fn literal768(text: &str) -> (buffer: InlineString<768>)
    ensures
        buffer@ == fixed::appended(Seq::empty(), text::literal(text), 768),
{
    let mut buffer: InlineString<768> = InlineString::new();
    let _ = buffer.push_bytes(text::literal_bytes(text));
    buffer
}

/// The title and the frame that the film window shows, and how many frames there are.
pub fn load_video_frame(file: Option<&[char]>, wanted: usize) -> (shown: (
    InlineString<64>,
    InlineString<768>,
    usize,
))
    ensures
        (shown.0@, shown.1@, shown.2 as nat) == film_shown(
            match file {
                Some(text) => Some(text@),
                None => None,
            },
            wanted,
        ),
{
    let text = match file {
        None => {
            return (gui::note("Video missing"), literal768("No frame data"), 0);
        },
        Some(text) => text,
    };
    let media = players::parse_media_header(text);
    let title_bytes = chars::encode(media.title.as_slice());
    let title = gui::keep(title_bytes.as_slice());
    let frames = players::split_frames(media.body.as_slice());
    let ghost all = chars::views(frames@);
    let mut chosen: InlineString<768> = InlineString::new();
    let mut last: Vec<char> = Vec::new();
    let mut count: usize = 0;
    let mut index: usize = 0;
    while index < frames.len()
        invariant
            index <= frames@.len(),
            count <= index,
            all == chars::views(frames@),
            all.len() == frames@.len(),
            count == visible_frames(all, index as nat).len(),
            count > 0 ==> last@ == visible_frames(all, index as nat).last(),
            chosen@ == (if wanted < count {
                fixed::appended(
                    Seq::empty(),
                    chars::encoded(
                        chars::without_breaks(visible_frames(all, index as nat)[wanted as int]),
                    ),
                    768,
                )
            } else {
                Seq::empty()
            }),
        decreases frames@.len() - index,
    {
        assert(all[index as int] == frames@[index as int]@);
        let inner = chars::trim(frames[index].as_slice());
        if inner.len() > 0 {
            if count == wanted {
                chosen = frame_text(frames[index].as_slice());
            }
            last = chars::part(frames[index].as_slice(), 0, frames[index].len());
            assert(last@ =~= frames@[index as int]@);
            count += 1;
        }
        index += 1;
    }
    if count == 0 {
        chosen = literal768("No frame data");
    } else if chosen.is_empty() {
        chosen = frame_text(last.as_slice());
    }
    (title, chosen, count)
}

/// What the music window shows of the lines of a score from `from` on, after so many.
pub open spec fn preview_lines(text: Seq<u8>, list: Seq<Seq<char>>, from: int, shown: nat) -> Seq<u8>
    decreases list.len() - from,
{
    if from < 0 || from >= list.len() {
        text
    } else if chars::trimmed(list[from]).len() == 0 {
        preview_lines(text, list, from + 1, shown)
    } else if shown >= 8 {
        fixed::appended(text, text::literal("...\n"), 768)
    } else {
        preview_lines(
            fixed::appended(
                fixed::appended(text, chars::encoded(list[from]), 768),
                text::literal("\n"),
                768,
            ),
            list,
            from + 1,
            shown + 1,
        )
    }
}

/// What the music window shows: the title and the first eight lines that hold something.
pub open spec fn music_shown(file: Option<Seq<char>>) -> Seq<u8> {
    match file {
        None => fixed::appended(Seq::empty(), text::literal("Audio file missing"), 768),
        Some(text) => {
            let (header, body) = players::media(text);
            preview_lines(
                fixed::appended(
                    fixed::appended(Seq::empty(), chars::encoded(header.title), 768),
                    text::literal("\n\n"),
                    768,
                ),
                chars::lines_from(body, 0),
                0,
                0,
            )
        },
    }
}

/// What the music window shows.
pub fn load_audio_notes_preview(file: Option<&[char]>) -> (shown: InlineString<768>)
    ensures
        shown@ == music_shown(
            match file {
                Some(text) => Some(text@),
                None => None,
            },
        ),
{
    let text = match file {
        None => {
            return literal768("Audio file missing");
        },
        Some(text) => text,
    };
    let media = players::parse_media_header(text);
    let title = chars::encode(media.title.as_slice());
    let mut out: InlineString<768> = InlineString::new();
    let _ = out.push_bytes(title.as_slice());
    let _ = out.push_bytes(text::literal_bytes("\n\n"));
    let list = chars::lines(media.body.as_slice());
    let ghost all = chars::views(list@);
    let ghost start = out@;
    let mut shown: usize = 0;
    let mut index: usize = 0;
    while index < list.len()
        invariant
            index <= list@.len(),
            shown <= index,
            all == chars::views(list@),
            all.len() == list@.len(),
            preview_lines(out@, all, index as int, shown as nat) == preview_lines(
                start,
                all,
                0,
                0,
            ),
            file matches Some(given) && music_shown(Some(given@)) == preview_lines(
                start,
                all,
                0,
                0,
            ),
        decreases list@.len() - index,
    {
        assert(all[index as int] == list@[index as int]@);
        let inner = chars::trim(list[index].as_slice());
        if inner.len() > 0 {
            if shown >= 8 {
                let _ = out.push_bytes(text::literal_bytes("...\n"));
                return out;
            }
            let line = chars::encode(list[index].as_slice());
            let _ = out.push_bytes(line.as_slice());
            let _ = out.push_bytes(text::literal_bytes("\n"));
            shown += 1;
        }
        index += 1;
    }
    out
}

/// Three changes of the theme lead back to the first.
pub proof fn law_themes_go_round(theme: Theme)
    ensures
        next_theme(next_theme(next_theme(theme))) == theme,
        next_theme(theme) != theme,
{
}

/// The percentages stay percentages.
pub proof fn law_percentages_stay(config: SettingsConfig, volume: bool, up: bool)
    requires
        config.volume <= 100,
        config.brightness <= 100,
    ensures
        adjusted(config, volume, up).volume <= 100,
        adjusted(config, volume, up).brightness <= 100,
{
}

} // verus!
