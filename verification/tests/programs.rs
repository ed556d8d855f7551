use rustix_vkernel::apps::game::DungeonGame;
use rustix_vkernel::apps::players;
use rustix_vkernel::apps::settings::{self, SettingsConfig, Theme};
use rustix_vkernel::apps::{self, AppStep, ProgramId, Script, TaskNumbers};

fn letters(text: &str) -> Vec<char> {
    text.chars().collect()
}

fn words(list: &[&str]) -> Vec<Vec<char>> {
    list.iter().map(|word| letters(word)).collect()
}

fn said(script: Script) -> String {
    let mut text = String::new();
    for step in script.into_steps() {
        match step {
            AppStep::Line(bytes) => {
                text.push_str(std::str::from_utf8(&bytes).unwrap());
                text.push('\n');
            }
            AppStep::Text(bytes) => text.push_str(std::str::from_utf8(&bytes).unwrap()),
            _ => {}
        }
    }
    text
}

#[test]
fn programs_are_found_by_path_and_name() {
    assert_eq!(apps::programs().len(), 7);
    assert_eq!(apps::lookup(&letters("/bin/calc")).unwrap().entry, ProgramId::Calc);
    assert!(apps::lookup(&letters("/bin/none")).is_none());
    assert_eq!(apps::resolve_command(&letters("video")), Some("/bin/video-player"));
    assert_eq!(apps::resolve_command(&letters("none")), None);
}

#[test]
fn echo_repeats_its_words() {
    let (script, code) = apps::echo_main(&words(&["echo", "hello", "world"]));
    assert_eq!((said(script).as_str(), code), ("hello world\n", 0));
    let (script, _) = apps::echo_main(&words(&["echo"]));
    assert_eq!(said(script), "\n");
}

#[test]
fn calc_computes() {
    let (script, code) = apps::calc_main(&words(&["calc", "6", "*", "-7"]));
    assert!(said(script).contains("-42"));
    assert_eq!(code, 0);
    let (_, code) = apps::calc_main(&words(&["calc", "1", "/", "0"]));
    assert_ne!(code, 0);
    let (_, code) = apps::calc_main(&words(&["calc", "1", "%"]));
    assert_ne!(code, 0);
    assert_eq!(apps::parse_i32(&letters("-12")), Some(-12));
    assert_eq!(apps::parse_i32(&letters("1x")), None);
    assert_eq!(apps::parse_i32(&letters("99999999999")), Some(i32::MAX));
}

#[test]
fn hello_greets_with_its_numbers() {
    let numbers = TaskNumbers { pid: 6, ppid: 5, tgid: 6, pgid: 1, sid: 1 };
    let text = said(apps::hello_main(&words(&["hello", "x"]), numbers));
    assert!(text.contains("pid=6\n") && text.ends_with("argc=2\nargv[0]=hello\nargv[1]=x\n"));
    let (script, code) = apps::hello_told(Ok(b"motd text"));
    assert_eq!(said(script), "--- /etc/motd ---\nmotd text\n--- end motd ---\n");
    assert_eq!(code, 0);
    let (script, code) = apps::hello_told(Err("error: none"));
    assert_eq!(said(script), "error: none\n");
    assert_eq!(code, 1);
}

#[test]
fn a_player_stays_on_the_map() {
    let mut game = DungeonGame::new();
    let _ = game.begin();
    for command in ["n", "s", "e", "w", "w", "w", "w", "w", "w", "n", "n", "n", "n"] {
        let (_, end) = game.command(&letters(command));
        if end.is_some() {
            break;
        }
        assert!(game.x < 64 && game.y < 64);
    }
    let mut other = DungeonGame::new();
    let (_, end) = other.command(&letters("quit"));
    assert!(end.is_some());
}

#[test]
fn written_settings_are_read_back() {
    for theme in [Theme::Graphite, Theme::Sunrise, Theme::Glacier] {
        for (brightness, volume, ui_scale) in [(0, 100, 1), (7, 58, 4), (100, 0, 2)] {
            let config = SettingsConfig { brightness, volume, ui_scale, theme };
            let file = settings::settings_line(config).fill::<64>();
            assert_eq!(settings::parse_settings(&letters(file.as_str())), config);
        }
    }
    let odd = letters("colour=3\nvolume=101\nvolume = 9 \nno setting\n");
    let read = settings::parse_settings(&odd);
    assert_eq!((read.brightness, read.volume, read.ui_scale), (72, 9, 1));
    assert_eq!(read.theme, Theme::Graphite);
}

#[test]
fn settings_are_kept_in_range() {
    let mut config = SettingsConfig::defaults();
    assert_eq!(
        settings::apply_setting(&mut config, &letters("brightness"), &letters("40")),
        Ok(())
    );
    assert_eq!(config.brightness, 40);
    assert!(settings::apply_setting(&mut config, &letters("brightness"), &letters("x")).is_err());
    assert!(settings::apply_setting(&mut config, &letters("colour"), &letters("1")).is_err());
    assert_eq!(
        settings::apply_setting(&mut config, &letters("theme"), &letters("glacier")),
        Ok(())
    );
    assert_eq!(config.theme, Theme::Glacier);
    assert_eq!(Theme::Sunrise.as_str(), "sunrise");
    let read = settings::parse_settings(&letters("brightness=40\ntheme=sunrise\n"));
    assert_eq!((read.brightness, read.theme), (40, Theme::Sunrise));
}

#[test]
fn settings_are_written() {
    let run = settings::settings_main(
        &words(&["settings", "set", "brightness", "55"]),
        Ok(&letters("brightness=40\n")),
    );
    let text = String::from_utf8(run.write.unwrap()).unwrap();
    assert!(text.contains("55"));
    assert_eq!(run.config.brightness, 55);
    let (_, code) = settings::settings_saved(run.config, Ok(()));
    assert_eq!(code, 0);
    let (_, code) = settings::settings_saved(run.config, Err("error: full"));
    assert_ne!(code, 0);
}

#[test]
fn films_and_scores_are_played() {
    let film = letters("title=Demo\nfps=10\n---\nframe one\n===\nframe two\n");
    let media = players::parse_media_header(&film);
    let (script, code) = players::video_player_main(&letters("/demo"), Ok(&film));
    let steps = script.into_steps();
    assert_eq!(code, 0);
    assert!(!steps.is_empty());
    assert!(players::count_frames(&media.body) >= 1);
    let (script, code) = players::video_player_main(&letters("/demo"), Err("error: none"));
    assert!(said(script).contains("error: none"));
    assert_ne!(code, 0);
    let (_, code) = players::audio_player_main(Err("error: none"));
    assert_ne!(code, 0);
    assert!(matches!(
        players::parse_score_line(&letters("440 250 A4")),
        players::ParsedLine::Note(note)
            if note.frequency == 440 && note.duration == 250 && note.label == letters("A4")
    ));
    assert!(matches!(
        players::parse_score_line(&letters("  ")),
        players::ParsedLine::Empty
    ));
    assert!(matches!(
        players::parse_score_line(&letters("x 250")),
        players::ParsedLine::InvalidFrequency
    ));
}
