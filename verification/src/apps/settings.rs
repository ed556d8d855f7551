//! The settings: how they stand in their file, and the program that shows and changes
//! them.
use crate::apps;
use crate::apps::{copied, filled96, Script, StepView};
use crate::chars;
use crate::fixed;
use crate::lines;
use crate::lines::Line;
use crate::text;
use vstd::prelude::*;

pub mod laws;

verus! {

#[derive(Clone, Copy, Debug, PartialEq, Eq, Structural)]
pub enum Theme {
    Graphite,
    Sunrise,
    Glacier,
}

#[derive(Clone, Copy, Debug, PartialEq, Eq, Structural)]
pub struct SettingsConfig {
    pub brightness: u8,
    pub volume: u8,
    pub ui_scale: u8,
    pub theme: Theme,
}

/// The name of a theme.
pub open spec fn theme_name(theme: Theme) -> &'static str {
    match theme {
        Theme::Graphite => "graphite",
        Theme::Sunrise => "sunrise",
        Theme::Glacier => "glacier",
    }
}

impl Theme {
    pub fn as_str(self) -> (name: &'static str)
        ensures
            name == theme_name(self),
    {
        match self {
            Theme::Graphite => "graphite",
            Theme::Sunrise => "sunrise",
            Theme::Glacier => "glacier",
        }
    }
}

/// The settings where nothing was set.
pub open spec fn default_settings() -> SettingsConfig {
    SettingsConfig { brightness: 72, volume: 58, ui_scale: 1, theme: Theme::Graphite }
}

impl SettingsConfig {
    pub fn defaults() -> (config: Self)
        ensures
            config == default_settings(),
    {
        SettingsConfig { brightness: 72, volume: 58, ui_scale: 1, theme: Theme::Graphite }
    }
}

/// A number from 0 to 100.
pub open spec fn percent(value: Seq<char>) -> Option<u8> {
    match chars::number_of(value) {
        Some(number) => if number <= 100 {
            Some(number as u8)
        } else {
            None
        },
        None => None,
    }
}

/// The settings with one of them set, or what to say instead.
pub open spec fn applied(config: SettingsConfig, key: Seq<char>, value: Seq<char>) -> Result<
    SettingsConfig,
    &'static str,
> {
    if key == "brightness"@ {
        match percent(value) {
            Some(brightness) => Ok(SettingsConfig { brightness, ..config }),
            None => Err("settings: value must be 0..100"),
        }
    } else if key == "volume"@ {
        match percent(value) {
            Some(volume) => Ok(SettingsConfig { volume, ..config }),
            None => Err("settings: value must be 0..100"),
        }
    } else if key == "ui_scale"@ {
        match chars::number_of(value) {
            Some(number) => if 1 <= number <= 4 {
                Ok(SettingsConfig { ui_scale: number as u8, ..config })
            } else {
                Err("settings: ui_scale must be 1..4")
            },
            None => Err("settings: ui_scale must be 1..4"),
        }
    } else if key == "theme"@ {
        if value == "graphite"@ {
            Ok(SettingsConfig { theme: Theme::Graphite, ..config })
        } else if value == "sunrise"@ {
            Ok(SettingsConfig { theme: Theme::Sunrise, ..config })
        } else if value == "glacier"@ {
            Ok(SettingsConfig { theme: Theme::Glacier, ..config })
        } else {
            Err("settings: theme must be graphite|sunrise|glacier")
        }
    } else {
        Err("settings: unsupported key")
    }
}

/// The settings with a line of their file taken over: one that sets nothing is passed over.
pub open spec fn line_applied(config: SettingsConfig, line: Seq<char>) -> SettingsConfig {
    match chars::split_at(line, "="@) {
        None => config,
        Some((key, value)) => match applied(config, chars::trimmed(key), chars::trimmed(value)) {
            Ok(changed) => changed,
            Err(_) => config,
        },
    }
}

/// The settings that the first lines of a file say.
pub open spec fn lines_applied(list: Seq<Seq<char>>, count: nat) -> SettingsConfig
    decreases count,
{
    if count == 0 {
        default_settings()
    } else {
        line_applied(lines_applied(list, (count - 1) as nat), list[count - 1])
    }
}

/// The settings that a file says.
pub open spec fn settings_of(text: Seq<char>) -> SettingsConfig {
    let list = chars::lines_from(text, 0);
    lines_applied(list, list.len())
}

fn parse_percent(value: &[char]) -> (number: Option<u8>)
    ensures
        number == percent(value@),
{
    match chars::parse_u32(value) {
        Some(number) => {
            if number <= 100 {
                Some(number as u8)
            } else {
                None
            }
        },
        None => None,
    }
}

/// Sets one of the settings.
pub fn apply_setting(config: &mut SettingsConfig, key: &[char], value: &[char]) -> (result: Result<
    (),
    &'static str,
>)
    ensures
        match applied(*old(config), key@, value@) {
            Ok(changed) => result is Ok && *final(config) == changed,
            Err(message) => result == Err::<(), &'static str>(message) && *final(config) == *old(
                config,
            ),
        },
{
    if chars::is(key, "brightness") {
        match parse_percent(value) {
            Some(number) => {
                config.brightness = number;
                Ok(())
            },
            None => Err("settings: value must be 0..100"),
        }
    } else if chars::is(key, "volume") {
        match parse_percent(value) {
            Some(number) => {
                config.volume = number;
                Ok(())
            },
            None => Err("settings: value must be 0..100"),
        }
    } else if chars::is(key, "ui_scale") {
        match chars::parse_u32(value) {
            Some(number) => {
                if number >= 1 && number <= 4 {
                    config.ui_scale = number as u8;
                    Ok(())
                } else {
                    Err("settings: ui_scale must be 1..4")
                }
            },
            None => Err("settings: ui_scale must be 1..4"),
        }
    } else if chars::is(key, "theme") {
        if chars::is(value, "graphite") {
            config.theme = Theme::Graphite;
            Ok(())
        } else if chars::is(value, "sunrise") {
            config.theme = Theme::Sunrise;
            Ok(())
        } else if chars::is(value, "glacier") {
            config.theme = Theme::Glacier;
            Ok(())
        } else {
            Err("settings: theme must be graphite|sunrise|glacier")
        }
    } else {
        Err("settings: unsupported key")
    }
}

/// The settings that a file says.
pub fn parse_settings(text: &[char]) -> (config: SettingsConfig)
    ensures
        config == settings_of(text@),
{
    let mut config = SettingsConfig::defaults();
    let list = chars::lines(text);
    let equals = chars::chars_of("=");
    let mut index: usize = 0;
    while index < list.len()
        invariant
            index <= list@.len(),
            equals@ == "="@,
            chars::views(list@).len() == list@.len(),
            config == lines_applied(chars::views(list@), index as nat),
        decreases list@.len() - index,
    {
        assert(chars::views(list@)[index as int] == list@[index as int]@);
        match chars::split_once(list[index].as_slice(), equals.as_slice()) {
            Some((key, value)) => {
                let key = chars::trim(key.as_slice());
                let value = chars::trim(value.as_slice());
                let _ = apply_setting(&mut config, key.as_slice(), value.as_slice());
            },
            None => {},
        }
        index += 1;
    }
    config
}

/// The pieces of the line of a setting.
pub open spec fn setting_pieces(config: SettingsConfig, key: Seq<char>) -> Option<Seq<Seq<u8>>> {
    if key == "brightness"@ {
        Some(seq![text::literal("brightness="), fixed::decimal(config.brightness as nat)])
    } else if key == "volume"@ {
        Some(seq![text::literal("volume="), fixed::decimal(config.volume as nat)])
    } else if key == "ui_scale"@ {
        Some(seq![text::literal("ui_scale="), fixed::decimal(config.ui_scale as nat)])
    } else if key == "theme"@ {
        Some(seq![text::literal("theme="), text::literal(theme_name(config.theme))])
    } else {
        None
    }
}

/// The line of a setting.
pub fn write_setting_value(config: SettingsConfig, key: &[char]) -> (line: Option<Vec<u8>>)
    ensures
        match line {
            Some(bytes) => setting_pieces(config, key@) is Some && bytes@ == lines::filled(
                setting_pieces(config, key@)->Some_0,
                96,
            ),
            None => setting_pieces(config, key@) is None,
        },
{
    let line = if chars::is(key, "brightness") {
        Line::new().text("brightness=").number(config.brightness as u64)
    } else if chars::is(key, "volume") {
        Line::new().text("volume=").number(config.volume as u64)
    } else if chars::is(key, "ui_scale") {
        Line::new().text("ui_scale=").number(config.ui_scale as u64)
    } else if chars::is(key, "theme") {
        Line::new().text("theme=").text(config.theme.as_str())
    } else {
        return None;
    };
    assert(line@ =~= setting_pieces(config, key@)->Some_0);
    Some(filled96(line))
}

/// The lines that show the settings.
pub open spec fn shown_settings(config: SettingsConfig) -> Seq<StepView> {
    seq![
        apps::said("settings file: /etc/rustix/settings.conf"),
        apps::wrote(
            seq![text::literal("brightness="), fixed::decimal(config.brightness as nat)],
            96,
        ),
        apps::wrote(seq![text::literal("volume="), fixed::decimal(config.volume as nat)], 96),
        apps::wrote(seq![text::literal("ui_scale="), fixed::decimal(config.ui_scale as nat)], 96),
        apps::wrote(seq![text::literal("theme="), text::literal(theme_name(config.theme))], 96),
    ]
}

fn show_settings(script: &mut Script, config: SettingsConfig)
    ensures
        final(script)@ == old(script)@ + shown_settings(config),
{
    script.say("settings file: /etc/rustix/settings.conf");
    let brightness = Line::new().text("brightness=").number(config.brightness as u64);
    assert(brightness@ =~= seq![
        text::literal("brightness="),
        fixed::decimal(config.brightness as nat),
    ]);
    script.line(filled96(brightness));
    let volume = Line::new().text("volume=").number(config.volume as u64);
    assert(volume@ =~= seq![text::literal("volume="), fixed::decimal(config.volume as nat)]);
    script.line(filled96(volume));
    let ui_scale = Line::new().text("ui_scale=").number(config.ui_scale as u64);
    assert(ui_scale@ =~= seq![text::literal("ui_scale="), fixed::decimal(config.ui_scale as nat)]);
    script.line(filled96(ui_scale));
    let theme = Line::new().text("theme=").text(config.theme.as_str());
    assert(theme@ =~= seq![text::literal("theme="), text::literal(theme_name(config.theme))]);
    script.line(filled96(theme));
    assert(script@ =~= old(script)@ + shown_settings(config));
}

/// The pieces of the file of the settings.
pub open spec fn file_pieces(config: SettingsConfig) -> Seq<Seq<u8>> {
    seq![
        text::literal("brightness="),
        fixed::decimal(config.brightness as nat),
        text::literal("\nvolume="),
        fixed::decimal(config.volume as nat),
        text::literal("\nui_scale="),
        fixed::decimal(config.ui_scale as nat),
        text::literal("\ntheme="),
        text::literal(theme_name(config.theme)),
        text::literal("\n"),
    ]
}

/// The pieces of the file of the settings.
pub fn settings_line(config: SettingsConfig) -> (line: Line)
    ensures
        line@ == file_pieces(config),
{
    let line = Line::new().text("brightness=").number(config.brightness as u64).text(
        "\nvolume=",
    ).number(config.volume as u64).text("\nui_scale=").number(config.ui_scale as u64).text(
        "\ntheme=",
    ).text(config.theme.as_str()).text("\n");
    assert(line@ =~= file_pieces(config));
    line
}

/// What the settings program comes to before anything is written.
#[verifier::ext_equal]
pub struct SettingsView {
    pub steps: Seq<StepView>,
    /// What is to be written to the file; the program then goes on with what came of it.
    pub write: Option<Seq<u8>>,
    pub config: SettingsConfig,
    pub code: i32,
}

/// What the settings program comes to, with what its file holds.
pub open spec fn settings_run(argv: Seq<Seq<char>>, file: Result<Seq<char>, &'static str>) -> SettingsView {
    match file {
        Err(message) => SettingsView {
            steps: seq![apps::said(message)],
            write: None,
            config: default_settings(),
            code: 1,
        },
        Ok(text) => {
            let config = settings_of(text);
            if argv.len() <= 1 || argv[1] == "show"@ {
                SettingsView {
                    steps: shown_settings(config).push(
                        apps::said("usage: settings get <key> | settings set <key> <value>"),
                    ),
                    write: None,
                    config,
                    code: 0,
                }
            } else if argv[1] == "get"@ {
                if argv.len() != 3 {
                    SettingsView {
                        steps: seq![apps::said("usage: settings get <key>")],
                        write: None,
                        config,
                        code: 1,
                    }
                } else {
                    match setting_pieces(config, argv[2]) {
                        None => SettingsView {
                            steps: seq![apps::said("settings: unsupported key")],
                            write: None,
                            config,
                            code: 1,
                        },
                        Some(pieces) => SettingsView {
                            steps: seq![apps::wrote(pieces, 96)],
                            write: None,
                            config,
                            code: 0,
                        },
                    }
                }
            } else if argv[1] == "set"@ {
                if argv.len() != 4 {
                    SettingsView {
                        steps: seq![apps::said("usage: settings set <key> <value>")],
                        write: None,
                        config,
                        code: 1,
                    }
                } else {
                    match applied(config, argv[2], argv[3]) {
                        Err(message) => SettingsView {
                            steps: seq![apps::said(message)],
                            write: None,
                            config,
                            code: 1,
                        },
                        Ok(changed) => SettingsView {
                            steps: Seq::empty(),
                            write: Some(lines::filled(file_pieces(changed), 256)),
                            config: changed,
                            code: 0,
                        },
                    }
                }
            } else {
                SettingsView {
                    steps: seq![
                        apps::said("usage: settings show | get <key> | set <key> <value>"),
                    ],
                    write: None,
                    config,
                    code: 1,
                }
            }
        },
    }
}

/// What the settings program comes to before anything is written.
pub struct SettingsRun {
    pub script: Script,
    pub write: Option<Vec<u8>>,
    pub config: SettingsConfig,
    pub code: i32,
}

impl View for SettingsRun {
    type V = SettingsView;

    open spec fn view(&self) -> SettingsView {
        SettingsView {
            steps: self.script@,
            write: match self.write {
                Some(bytes) => Some(bytes@),
                None => None,
            },
            config: self.config,
            code: self.code,
        }
    }
}

fn ended(message: &str, config: SettingsConfig, code: i32) -> (run: SettingsRun)
    ensures
        run@ == (SettingsView {
            steps: seq![apps::said(message)],
            write: None,
            config,
            code,
        }),
{
    let mut script = Script::new();
    script.say(message);
    let run = SettingsRun { script, write: None, config, code };
    assert(run@.steps =~= seq![apps::said(message)]);
    run
}

/// Shows the settings or changes one of them, with what their file holds.
pub fn settings_main(argv: &[Vec<char>], file: Result<&[char], &'static str>) -> (run: SettingsRun)
    ensures
        run@ == settings_run(
            chars::views(argv@),
            match file {
                Ok(text) => Ok(text@),
                Err(message) => Err(message),
            },
        ),
{
    let ghost words = chars::views(argv@);
    let text = match file {
        Err(message) => {
            return ended(message, SettingsConfig::defaults(), 1);
        },
        Ok(text) => text,
    };
    let mut config = parse_settings(text);
    assert(forall|i: int| 0 <= i < argv@.len() ==> words[i] == #[trigger] argv@[i]@);
    if argv.len() <= 1 || chars::is(argv[1].as_slice(), "show") {
        let mut script = Script::new();
        show_settings(&mut script, config);
        script.say("usage: settings get <key> | settings set <key> <value>");
        let run = SettingsRun { script, write: None, config, code: 0 };
        assert(run@.steps =~= shown_settings(config).push(
            apps::said("usage: settings get <key> | settings set <key> <value>"),
        ));
        return run;
    }
    if chars::is(argv[1].as_slice(), "get") {
        if argv.len() != 3 {
            return ended("usage: settings get <key>", config, 1);
        }
        match write_setting_value(config, argv[2].as_slice()) {
            None => ended("settings: unsupported key", config, 1),
            Some(bytes) => {
                let mut script = Script::new();
                script.line(bytes);
                let run = SettingsRun { script, write: None, config, code: 0 };
                assert(run@.steps =~= seq![StepView::Line(bytes@)]);
                run
            },
        }
    } else if chars::is(argv[1].as_slice(), "set") {
        if argv.len() != 4 {
            return ended("usage: settings set <key> <value>", config, 1);
        }
        match apply_setting(&mut config, argv[2].as_slice(), argv[3].as_slice()) {
            Err(message) => ended(message, config, 1),
            Ok(_) => {
                let buffer = settings_line(config).fill::<256>();
                SettingsRun {
                    script: Script::new(),
                    write: Some(copied(buffer.as_bytes())),
                    config,
                    code: 0,
                }
            },
        }
    } else {
        ended("usage: settings show | get <key> | set <key> <value>", config, 1)
    }
}

/// How the settings program ends once the file was written, or could not be.
pub fn settings_saved(config: SettingsConfig, result: Result<(), &'static str>) -> (end: (
    Script,
    i32,
))
    ensures
        match result {
            Ok(_) => end.0@ == seq![apps::said("settings updated")] + shown_settings(config)
                && end.1 == 0,
            Err(message) => end.0@ == seq![apps::said(message)] && end.1 == 1,
        },
{
    let mut script = Script::new();
    match result {
        Err(message) => {
            script.say(message);
            assert(script@ =~= seq![apps::said(message)]);
            (script, 1)
        },
        Ok(_) => {
            script.say("settings updated");
            assert(script@ =~= seq![apps::said("settings updated")]);
            show_settings(&mut script, config);
            (script, 0)
        },
    }
}

/// A setting that was accepted is what is shown of it.
pub proof fn law_accepted_brightness_is_kept(config: SettingsConfig, value: Seq<char>)
    ensures
        applied(config, "brightness"@, value) matches Ok(changed) ==> chars::number_of(value)
            == Some(changed.brightness as int) && changed.brightness <= 100 && changed.volume
            == config.volume && changed.ui_scale == config.ui_scale && changed.theme
            == config.theme,
{
    chars::lemma_digits(value, u32::MAX as int);
}

} // verus!
