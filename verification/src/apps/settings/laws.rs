//! What holds of the settings and their file together.
use crate::apps::settings;
use crate::apps::settings::{SettingsConfig, Theme};
use crate::chars;
use crate::fixed;
use crate::lines;
use crate::text;
use vstd::prelude::*;
use vstd::string::*;
use vstd::utf8::*;

verus! {

/// The digits of a number as characters.
pub open spec fn digits(n: nat) -> Seq<char>
    decreases n,
{
    if n < 10 {
        seq![(48 + n) as u8 as char]
    } else {
        digits(n / 10).push((48 + n % 10) as u8 as char)
    }
}

/// Texts one behind the other.
spec fn run(texts: Seq<Seq<char>>) -> Seq<char>
    decreases texts.len(),
{
    if texts.len() == 0 {
        Seq::empty()
    } else {
        texts[0] + run(texts.skip(1))
    }
}

/// Lines one behind the other, each with its end.
spec fn broken(list: Seq<Seq<char>>) -> Seq<char>
    decreases list.len(),
{
    if list.len() == 0 {
        Seq::empty()
    } else {
        list[0] + seq!['\n'] + broken(list.skip(1))
    }
}

/// Visible ASCII characters but the equals sign.
spec fn plain(text: Seq<char>) -> bool {
    forall|i: int|
        0 <= i < text.len() ==> 33 <= (#[trigger] text[i]) as u32 <= 126 && text[i] != '='
}

proof fn lemma_encode_concat(a: Seq<char>, b: Seq<char>)
    ensures
        encode_utf8(a + b) == encode_utf8(a) + encode_utf8(b),
    decreases a.len(),
{
    if a.len() == 0 {
        assert(a + b =~= b);
    } else {
        lemma_encode_concat(a.drop_first(), b);
        assert((a + b).drop_first() =~= a.drop_first() + b);
        assert(encode_utf8(a + b) =~= encode_utf8(a) + encode_utf8(b));
    }
}

proof fn lemma_digits(n: nat)
    requires
        n <= u32::MAX,
    ensures
        plain(digits(n)),
        digits(n).len() > 0,
        n < 1000 ==> digits(n).len() <= 3,
        chars::number_of(digits(n)) == Some(n as int),
        is_ascii_chars(digits(n)),
        encode_utf8(digits(n)) == fixed::decimal(n),
    decreases n,
{
    let last = (48 + n % 10) as u8 as char;
    assert(last as u32 == 48 + n % 10);
    let rest = if n < 10 {
        Seq::empty()
    } else {
        digits(n / 10)
    };
    reveal_with_fuel(chars::digits_value, 2);
    if n >= 10 {
        lemma_digits(n / 10);
        if n < 1000 && n >= 100 {
            reveal_with_fuel(digits, 3);
        } else if n < 100 {
            reveal_with_fuel(digits, 2);
        }
    }
    assert(digits(n) =~= rest.push(last));
    assert(digits(n).drop_last() =~= rest);
    assert(is_ascii_chars(seq![last]));
    is_ascii_chars_encode_utf8(seq![last]);
    assert(encode_utf8(seq![last]) =~= seq![(48 + n % 10) as u8]);
    lemma_encode_concat(rest, seq![last]);
    assert(rest + seq![last] =~= digits(n));
    assert(encode_utf8(digits(n)) =~= fixed::decimal(n));
}

proof fn lemma_find(key: Seq<char>, value: Seq<char>, from: int)
    requires
        plain(key),
        0 <= from <= key.len(),
    ensures
        chars::find_from(key + seq!['='] + value, seq!['='], from) == Some(key.len() as int),
    decreases key.len() - from,
{
    let line = key + seq!['='] + value;
    let part = line.subrange(from, from + 1);
    if from < key.len() {
        assert(part[0] == key[from]);
        lemma_find(key, value, from + 1);
    } else {
        assert(part =~= seq!['=']);
    }
}

proof fn lemma_trimmed(text: Seq<char>)
    requires
        plain(text),
    ensures
        chars::trimmed(text) == text,
{
    reveal_with_fuel(chars::past_white, 2);
    reveal_with_fuel(chars::trimmed_end, 2);
    if text.len() > 0 {
        assert(33 <= text[0] as u32 <= 126);
        assert(33 <= text[text.len() - 1] as u32 <= 126);
    }
    assert(text.skip(chars::past_white(text, 0)) =~= text);
}

/// A line that sets a key to a value.
spec fn setting_line(key: Seq<char>, value: Seq<char>) -> Seq<char> {
    key + seq!['='] + value
}

proof fn lemma_setting_line(config: SettingsConfig, key: Seq<char>, value: Seq<char>)
    requires
        plain(key),
        plain(value),
    ensures
        settings::line_applied(config, setting_line(key, value)) == (match settings::applied(
            config,
            key,
            value,
        ) {
            Ok(changed) => changed,
            Err(_) => config,
        }),
        line_ok(setting_line(key, value)),
{
    reveal_strlit("=");
    assert("="@ =~= seq!['=']);
    let line = setting_line(key, value);
    lemma_find(key, value, 0);
    assert(line.take(key.len() as int) =~= key);
    assert(line.skip(key.len() as int + 1) =~= value);
    lemma_trimmed(key);
    lemma_trimmed(value);
    assert forall|i: int| 0 <= i < line.len() implies (#[trigger] line[i]) as u32 >= 33 by {
        if i < key.len() {
            assert(line[i] == key[i]);
        } else if i > key.len() {
            assert(line[i] == value[i - key.len() - 1]);
        }
    }
}

/// A line without an end in it.
spec fn line_ok(line: Seq<char>) -> bool {
    forall|i: int| 0 <= i < line.len() ==> (#[trigger] line[i]) as u32 >= 33
}

proof fn lemma_next_of(before: Seq<char>, line: Seq<char>, behind: Seq<char>, from: int)
    requires
        line_ok(line),
        before.len() <= from <= before.len() + line.len(),
    ensures
        chars::next_of(before + line + seq!['\n'] + behind, '\n', from) == before.len()
            + line.len(),
    decreases before.len() + line.len() - from,
{
    let text = before + line + seq!['\n'] + behind;
    if from < before.len() + line.len() {
        assert(text[from] == line[from - before.len()]);
        lemma_next_of(before, line, behind, from + 1);
    } else {
        assert(text[from] == '\n');
    }
}

proof fn lemma_lines(before: Seq<char>, list: Seq<Seq<char>>)
    requires
        forall|i: int| 0 <= i < list.len() ==> line_ok(#[trigger] list[i]),
    ensures
        chars::lines_from(before + broken(list), before.len() as int) == list,
    decreases list.len(),
{
    let text = before + broken(list);
    if list.len() == 0 {
        assert(text =~= before);
        assert(list =~= Seq::<Seq<char>>::empty());
    } else {
        let line = list[0];
        let behind = broken(list.skip(1));
        let next = before + line + seq!['\n'];
        assert(line_ok(line));
        lemma_next_of(before, line, behind, before.len() as int);
        assert(text =~= before + line + seq!['\n'] + behind);
        assert(text =~= next + behind);
        let end = before.len() + line.len();
        assert(text.subrange(before.len() as int, end as int) =~= line);
        if line.len() > 0 {
            assert(line[line.len() - 1] as u32 >= 33);
        }
        assert forall|i: int| 0 <= i < list.skip(1).len() implies line_ok(
            #[trigger] list.skip(1)[i],
        ) by {
            assert(line_ok(list[i + 1]));
        }
        lemma_lines(next, list.skip(1));
        assert(seq![line] + list.skip(1) =~= list);
    }
}

proof fn lemma_written(start: Seq<u8>, pieces: Seq<Seq<u8>>, texts: Seq<Seq<char>>, capacity: nat)
    requires
        pieces.len() == texts.len(),
        forall|i: int|
            0 <= i < pieces.len() ==> #[trigger] pieces[i] == encode_utf8(texts[i]),
        start.len() + encode_utf8(run(texts)).len() <= capacity,
    ensures
        fixed::written(start, pieces, capacity) == start + encode_utf8(run(texts)),
    decreases pieces.len(),
{
    if pieces.len() == 0 {
        assert(start + encode_utf8(run(texts)) =~= start);
    } else {
        lemma_encode_concat(texts[0], run(texts.skip(1)));
        assert(pieces[0] == encode_utf8(texts[0]));
        assert forall|i: int| 0 <= i < pieces.skip(1).len() implies #[trigger] pieces.skip(1)[i]
            == encode_utf8(texts.skip(1)[i]) by {
            assert(pieces[i + 1] == encode_utf8(texts[i + 1]));
        }
        lemma_written(start + pieces[0], pieces.skip(1), texts.skip(1), capacity);
        assert(start + pieces[0] + encode_utf8(run(texts.skip(1))) =~= start + encode_utf8(
            run(texts),
        ));
    }
}

/// The characters of the file of the settings, piece by piece.
spec fn file_texts(config: SettingsConfig) -> Seq<Seq<char>> {
    seq![
        "brightness="@,
        digits(config.brightness as nat),
        "\nvolume="@,
        digits(config.volume as nat),
        "\nui_scale="@,
        digits(config.ui_scale as nat),
        "\ntheme="@,
        settings::theme_name(config.theme)@,
        "\n"@,
    ]
}

/// The lines of the file of the settings.
spec fn file_lines(config: SettingsConfig) -> Seq<Seq<char>> {
    seq![
        setting_line("brightness"@, digits(config.brightness as nat)),
        setting_line("volume"@, digits(config.volume as nat)),
        setting_line("ui_scale"@, digits(config.ui_scale as nat)),
        setting_line("theme"@, settings::theme_name(config.theme)@),
    ]
}

proof fn lemma_names()
    ensures
        plain("brightness"@),
        plain("volume"@),
        plain("ui_scale"@),
        plain("theme"@),
        plain("graphite"@),
        plain("sunrise"@),
        plain("glacier"@),
        "brightness="@ == "brightness"@ + seq!['='],
        "\nvolume="@ == seq!['\n'] + "volume"@ + seq!['='],
        "\nui_scale="@ == seq!['\n'] + "ui_scale"@ + seq!['='],
        "\ntheme="@ == seq!['\n'] + "theme"@ + seq!['='],
        "\n"@ == seq!['\n'],
        "brightness"@.len() == 10,
        "volume"@.len() == 6,
        "ui_scale"@.len() == 8,
        "theme"@.len() == 5,
        "graphite"@.len() == 8,
        "sunrise"@.len() == 7,
        "glacier"@.len() == 7,
        "graphite"@[0] == 'g',
        "sunrise"@[0] == 's',
        "glacier"@[0] == 'g',
        is_ascii_chars("brightness="@),
        is_ascii_chars("\nvolume="@),
        is_ascii_chars("\nui_scale="@),
        is_ascii_chars("\ntheme="@),
        is_ascii_chars("\n"@),
{
    reveal_strlit("brightness");
    reveal_strlit("volume");
    reveal_strlit("ui_scale");
    reveal_strlit("theme");
    reveal_strlit("graphite");
    reveal_strlit("sunrise");
    reveal_strlit("glacier");
    reveal_strlit("brightness=");
    reveal_strlit("\nvolume=");
    reveal_strlit("\nui_scale=");
    reveal_strlit("\ntheme=");
    reveal_strlit("\n");
    assert("brightness="@ =~= "brightness"@ + seq!['=']);
    assert("\nvolume="@ =~= seq!['\n'] + "volume"@ + seq!['=']);
    assert("\nui_scale="@ =~= seq!['\n'] + "ui_scale"@ + seq!['=']);
    assert("\ntheme="@ =~= seq!['\n'] + "theme"@ + seq!['=']);
    assert("\n"@ =~= seq!['\n']);
}

proof fn lemma_theme(theme: Theme)
    ensures
        plain(settings::theme_name(theme)@),
        is_ascii_chars(settings::theme_name(theme)@),
        settings::theme_name(theme)@.len() <= 8,
{
    lemma_names();
    reveal_strlit("graphite");
    reveal_strlit("sunrise");
    reveal_strlit("glacier");
}

proof fn lemma_run_step(texts: Seq<Seq<char>>, i: int)
    requires
        0 <= i < texts.len(),
    ensures
        run(texts.skip(i)) == texts[i] + run(texts.skip(i + 1)),
{
    assert(texts.skip(i).skip(1) =~= texts.skip(i + 1));
}

proof fn lemma_broken_step(list: Seq<Seq<char>>, i: int)
    requires
        0 <= i < list.len(),
    ensures
        broken(list.skip(i)) == list[i] + seq!['\n'] + broken(list.skip(i + 1)),
{
    assert(list.skip(i).skip(1) =~= list.skip(i + 1));
}

/// A line of the file, with the line end that stands in the next piece.
proof fn lemma_moved_end(key: Seq<char>, value: Seq<char>, rest: Seq<char>)
    ensures
        (key + seq!['=']) + (value + (seq!['\n'] + rest)) == setting_line(key, value) + seq!['\n']
            + rest,
        (seq!['\n'] + key + seq!['=']) + (value + (seq!['\n'] + rest)) == seq!['\n'] + (
        setting_line(key, value) + seq!['\n'] + rest),
{
    assert((key + seq!['=']) + (value + (seq!['\n'] + rest)) =~= setting_line(key, value) + seq![
        '\n',
    ] + rest);
    assert((seq!['\n'] + key + seq!['=']) + (value + (seq!['\n'] + rest)) =~= seq!['\n'] + (
    setting_line(key, value) + seq!['\n'] + rest));
}

proof fn lemma_file_text(config: SettingsConfig)
    ensures
        run(file_texts(config)) == broken(file_lines(config)),
{
    lemma_names();
    let texts = file_texts(config);
    let list = file_lines(config);
    let none = Seq::<char>::empty();
    lemma_run_step(texts, 0);
    lemma_run_step(texts, 1);
    lemma_run_step(texts, 2);
    lemma_run_step(texts, 3);
    lemma_run_step(texts, 4);
    lemma_run_step(texts, 5);
    lemma_run_step(texts, 6);
    lemma_run_step(texts, 7);
    lemma_run_step(texts, 8);
    lemma_broken_step(list, 0);
    lemma_broken_step(list, 1);
    lemma_broken_step(list, 2);
    lemma_broken_step(list, 3);
    assert(texts.skip(0) =~= texts);
    assert(list.skip(0) =~= list);
    assert(run(texts.skip(9)) == none);
    assert(broken(list.skip(4)) == none);
    lemma_moved_end(
        "theme"@,
        settings::theme_name(config.theme)@,
        none,
    );
    lemma_moved_end("ui_scale"@, digits(config.ui_scale as nat), broken(list.skip(3)));
    lemma_moved_end("volume"@, digits(config.volume as nat), broken(list.skip(2)));
    lemma_moved_end("brightness"@, digits(config.brightness as nat), broken(list.skip(1)));
    assert(run(texts.skip(6)) == seq!['\n'] + broken(list.skip(3)));
    assert(run(texts.skip(4)) == seq!['\n'] + broken(list.skip(2)));
    assert(run(texts.skip(2)) == seq!['\n'] + broken(list.skip(1)));
}

/// Settings as they can be set.
pub open spec fn settable(config: SettingsConfig) -> bool {
    config.brightness <= 100 && config.volume <= 100 && 1 <= config.ui_scale <= 4
}

proof fn lemma_lines_read(config: SettingsConfig)
    requires
        settable(config),
    ensures
        settings::lines_applied(file_lines(config), 4) == config,
        forall|i: int| 0 <= i < 4 ==> line_ok(#[trigger] file_lines(config)[i]),
{
    let list = file_lines(config);
    let first = settings::default_settings();
    lemma_names();
    lemma_theme(config.theme);
    lemma_digits(config.brightness as nat);
    lemma_digits(config.volume as nat);
    lemma_digits(config.ui_scale as nat);
    reveal_with_fuel(settings::lines_applied, 5);
    let second = settings::line_applied(first, list[0]);
    lemma_setting_line(first, "brightness"@, digits(config.brightness as nat));
    assert(second == SettingsConfig { brightness: config.brightness, ..first });
    let third = settings::line_applied(second, list[1]);
    lemma_setting_line(second, "volume"@, digits(config.volume as nat));
    assert(third == SettingsConfig { volume: config.volume, ..second });
    let fourth = settings::line_applied(third, list[2]);
    lemma_setting_line(third, "ui_scale"@, digits(config.ui_scale as nat));
    assert(fourth == SettingsConfig { ui_scale: config.ui_scale, ..third });
    lemma_setting_line(fourth, "theme"@, settings::theme_name(config.theme)@);
    assert(settings::line_applied(fourth, list[3]) == config);
}

proof fn lemma_file_bytes(config: SettingsConfig, capacity: nat)
    requires
        settable(config),
        capacity >= 64,
    ensures
        lines::filled(settings::file_pieces(config), capacity) == encode_utf8(
            run(file_texts(config)),
        ),
{
    let texts = file_texts(config);
    let pieces = settings::file_pieces(config);
    lemma_names();
    lemma_theme(config.theme);
    lemma_digits(config.brightness as nat);
    lemma_digits(config.volume as nat);
    lemma_digits(config.ui_scale as nat);
    reveal(text::literal);
    lemma_run_step(texts, 0);
    lemma_run_step(texts, 1);
    lemma_run_step(texts, 2);
    lemma_run_step(texts, 3);
    lemma_run_step(texts, 4);
    lemma_run_step(texts, 5);
    lemma_run_step(texts, 6);
    lemma_run_step(texts, 7);
    lemma_run_step(texts, 8);
    assert(texts.skip(0) =~= texts);
    assert(run(texts.skip(9)).len() == 0);
    assert(run(texts).len() <= 64);
    lemma_ascii_run(texts);
    is_ascii_chars_encode_utf8(run(texts));
    lemma_written(Seq::empty(), pieces, texts, capacity);
    assert(Seq::<u8>::empty() + encode_utf8(run(texts)) =~= encode_utf8(run(texts)));
}

proof fn lemma_ascii_run(texts: Seq<Seq<char>>)
    requires
        forall|i: int| 0 <= i < texts.len() ==> is_ascii_chars(#[trigger] texts[i]),
    ensures
        is_ascii_chars(run(texts)),
    decreases texts.len(),
{
    if texts.len() > 0 {
        assert forall|i: int| 0 <= i < texts.skip(1).len() implies is_ascii_chars(
            #[trigger] texts.skip(1)[i],
        ) by {
            assert(is_ascii_chars(texts[i + 1]));
        }
        lemma_ascii_run(texts.skip(1));
        let all = run(texts);
        assert(is_ascii_chars(texts[0]));
        assert forall|i: int| 0 <= i < all.len() implies '\0' <= #[trigger] all[i] <= '\u{7f}' by {
            if i < texts[0].len() {
                assert(all[i] == texts[0][i]);
            } else {
                assert(all[i] == run(texts.skip(1))[i - texts[0].len()]);
            }
        }
    }
}

/// Reading the file that settings were written to gives the settings back: those that can be
/// set, written to a buffer of at least 64 bytes.
pub proof fn law_written_settings_are_read(config: SettingsConfig, capacity: nat, file: Seq<char>)
    requires
        settable(config),
        capacity >= 64,
        chars::encoded(file) == lines::filled(settings::file_pieces(config), capacity),
    ensures
        settings::settings_of(file) == config,
{
    let list = file_lines(config);
    let whole = run(file_texts(config));
    lemma_file_bytes(config, capacity);
    chars::lemma_encoded(file);
    encode_utf8_decode_utf8(file);
    encode_utf8_decode_utf8(whole);
    assert(file == whole);
    lemma_file_text(config);
    lemma_lines_read(config);
    lemma_lines(Seq::empty(), list);
    assert(Seq::<char>::empty() + broken(list) =~= broken(list));
}

/// The file that settings were written to is text.
pub proof fn law_written_settings_are_text(config: SettingsConfig, capacity: nat)
    requires
        settable(config),
        capacity >= 64,
    ensures
        exists|file: Seq<char>| #[trigger]
            chars::encoded(file) == lines::filled(settings::file_pieces(config), capacity),
{
    lemma_file_bytes(config, capacity);
    chars::lemma_encoded(run(file_texts(config)));
}

/// A line that sets nothing changes nothing: one without an equals sign, with a key that is
/// none, or with a value that its key does not take.
pub proof fn law_other_lines_are_passed_over(config: SettingsConfig, line: Seq<char>)
    requires
        chars::split_at(line, "="@) matches Some((key, value)) ==> settings::applied(
            settings::default_settings(),
            chars::trimmed(key),
            chars::trimmed(value),
        ) is Err,
    ensures
        settings::line_applied(config, line) == config,
{
}

/// The key that a line names.
pub open spec fn names(line: Seq<char>, key: Seq<char>) -> bool {
    chars::split_at(line, "="@) matches Some((before, _)) && chars::trimmed(before) == key
}

/// What no line names is as it is where nothing was set.
pub proof fn law_unset_keys_keep_defaults(list: Seq<Seq<char>>, count: nat)
    requires
        count <= list.len(),
    ensures
        (forall|i: int| 0 <= i < count ==> !names(#[trigger] list[i], "brightness"@))
            ==> settings::lines_applied(list, count).brightness == 72,
        (forall|i: int| 0 <= i < count ==> !names(#[trigger] list[i], "volume"@))
            ==> settings::lines_applied(list, count).volume == 58,
        (forall|i: int| 0 <= i < count ==> !names(#[trigger] list[i], "ui_scale"@))
            ==> settings::lines_applied(list, count).ui_scale == 1,
        (forall|i: int| 0 <= i < count ==> !names(#[trigger] list[i], "theme"@))
            ==> settings::lines_applied(list, count).theme == Theme::Graphite,
    decreases count,
{
    if count > 0 {
        law_unset_keys_keep_defaults(list, (count - 1) as nat);
    }
}

} // verus!
