//! The players: what their files hold, and what they do with it.
use crate::apps;
use crate::apps::{copied, filled96, AppStep, Script, StepView};
use crate::chars;
use crate::fixed;
use crate::lines;
use crate::lines::Line;
use crate::text;
use vstd::prelude::*;
use vstd::string::*;

verus! {

/// The title and the rate that the head of a file says.
#[verifier::ext_equal]
pub struct HeaderView {
    pub title: Seq<char>,
    pub rate: int,
}

/// What one line of a head says.
pub open spec fn header_line(header: HeaderView, line: Seq<char>) -> HeaderView {
    match chars::split_at(line, "="@) {
        None => header,
        Some((key, value)) => if chars::trimmed(key) == "title"@ {
            HeaderView { title: chars::trimmed(value), ..header }
        } else if chars::trimmed(key) == "fps"@ || chars::trimmed(key) == "volume"@ {
            match chars::number_of(chars::trimmed(value)) {
                Some(number) => HeaderView {
                    rate: if number < 1 {
                        1
                    } else {
                        number
                    },
                    ..header
                },
                None => header,
            }
        } else {
            header
        },
    }
}

/// What the first lines of a head say.
pub open spec fn header_lines(list: Seq<Seq<char>>, count: nat) -> HeaderView
    decreases count,
{
    if count == 0 {
        HeaderView { title: "Untitled media"@, rate: 2 }
    } else {
        header_line(header_lines(list, (count - 1) as nat), list[count - 1])
    }
}

/// The head and the body of a file: an empty line lies between them, and a file without
/// one is all body.
pub open spec fn media(text: Seq<char>) -> (HeaderView, Seq<char>) {
    match chars::split_at(text, "\n\n"@) {
        None => (header_lines(Seq::empty(), 0), text),
        Some((head, body)) => {
            let list = chars::lines_from(head, 0);
            (header_lines(list, list.len()), body)
        },
    }
}

/// What a file of a player holds.
pub struct Media {
    pub title: Vec<char>,
    pub rate: u32,
    pub body: Vec<char>,
}

/// The head and the body of a file.
pub fn parse_media_header(text: &[char]) -> (result: Media)
    ensures
        (HeaderView { title: result.title@, rate: result.rate as int }, result.body@) == media(
            text@,
        ),
        result.rate >= 1,
{
    let mut title = chars::chars_of("Untitled media");
    let mut rate: u32 = 2;
    let gap = chars::chars_of("\n\n");
    let equals = chars::chars_of("=");
    match chars::split_once(text, gap.as_slice()) {
        None => {
            let body = chars::part(text, 0, text.len());
            assert(body@ =~= text@);
            Media { title, rate, body }
        },
        Some((head, body)) => {
            let list = chars::lines(head.as_slice());
            let mut index: usize = 0;
            while index < list.len()
                invariant
                    index <= list@.len(),
                    equals@ == "="@,
                    rate >= 1,
                    chars::views(list@).len() == list@.len(),
                    (HeaderView { title: title@, rate: rate as int }) == header_lines(
                        chars::views(list@),
                        index as nat,
                    ),
                decreases list@.len() - index,
            {
                assert(chars::views(list@)[index as int] == list@[index as int]@);
                match chars::split_once(list[index].as_slice(), equals.as_slice()) {
                    Some((key, value)) => {
                        let key = chars::trim(key.as_slice());
                        let value = chars::trim(value.as_slice());
                        if chars::is(key.as_slice(), "title") {
                            title = value;
                        } else if chars::is(key.as_slice(), "fps") || chars::is(
                            key.as_slice(),
                            "volume",
                        ) {
                            match chars::parse_u32(value.as_slice()) {
                                Some(number) => {
                                    rate = if number < 1 {
                                        1
                                    } else {
                                        number
                                    };
                                },
                                None => {},
                            }
                        }
                    },
                    None => {},
                }
                index += 1;
            }
            Media { title, rate, body }
        },
    }
}

/// The frames of a film: what stands between the lines of three dashes.
pub open spec fn frames_of(body: Seq<char>) -> Seq<Seq<char>> {
    chars::pieces_from(body, "\n---\n"@, 0)
}

/// How many of the first frames show something.
pub open spec fn shown_frames(frames: Seq<Seq<char>>, count: nat) -> nat
    decreases count,
{
    if count == 0 {
        0
    } else {
        shown_frames(frames, (count - 1) as nat) + (if chars::trimmed(frames[count - 1]).len() > 0 {
            1nat
        } else {
            0
        })
    }
}

/// The frames of a film.
pub fn split_frames(body: &[char]) -> (frames: Vec<Vec<char>>)
    ensures
        chars::views(frames@) == frames_of(body@),
        frames@.len() >= 1,
{
    let dashes = chars::chars_of("\n---\n");
    proof {
        reveal_strlit("\n---\n");
    }
    chars::split(body, dashes.as_slice())
}

/// How many frames of a film show something.
pub fn count_frames(body: &[char]) -> (count: usize)
    ensures
        count == shown_frames(frames_of(body@), frames_of(body@).len()),
{
    let frames = split_frames(body);
    let mut count: usize = 0;
    let mut index: usize = 0;
    while index < frames.len()
        invariant
            index <= frames@.len(),
            count <= index,
            chars::views(frames@).len() == frames@.len(),
            count == shown_frames(chars::views(frames@), index as nat),
        decreases frames@.len() - index,
    {
        assert(chars::views(frames@)[index as int] == frames@[index as int]@);
        let visible = chars::trim(frames[index].as_slice());
        if visible.len() > 0 {
            count += 1;
        }
        index += 1;
    }
    count
}

/// How long a frame is shown, in milliseconds.
pub open spec fn frame_delay(rate: int) -> int {
    if 1000int / rate > 120 {
        1000int / rate
    } else {
        120
    }
}

/// What is shown of the first frames of a film.
pub open spec fn frame_steps(
    title: Seq<char>,
    rate: int,
    frames: Seq<Seq<char>>,
    total: nat,
    count: nat,
) -> Seq<StepView>
    decreases count,
{
    if count == 0 {
        Seq::empty()
    } else {
        frame_steps(title, rate, frames, total, (count - 1) as nat).push(StepView::Clear).push(
            apps::wrote(
                seq![
                    chars::encoded(title),
                    text::literal("  frame "),
                    fixed::decimal(count),
                    text::literal("/"),
                    fixed::decimal(total),
                ],
                96,
            ),
        ).push(
            StepView::Line(chars::encoded(chars::without_breaks(frames[count - 1]))),
        ).push(StepView::Sleep(frame_delay(rate) as u32))
    }
}

/// What the film player does with a file, and what it returns.
pub open spec fn film(path: Seq<char>, file: Result<Seq<char>, &'static str>) -> (
    Seq<StepView>,
    i32,
) {
    match file {
        Err(message) => (seq![apps::said(message)], 1),
        Ok(text) => {
            let (header, body) = media(text);
            let frames = frames_of(body);
            let total = shown_frames(frames, frames.len());
            if total == 0 {
                (seq![apps::said("video-player: no frames found")], 1)
            } else {
                (
                    (seq![
                        apps::wrote(
                            seq![
                                text::literal("video-player: "),
                                chars::encoded(path),
                                text::literal(" ("),
                                fixed::decimal(total),
                                text::literal(", "),
                                fixed::decimal(header.rate as nat),
                                text::literal(" fps)"),
                            ],
                            128,
                        ),
                        StepView::Line(chars::encoded(header.title)),
                    ] + frame_steps(header.title, header.rate, frames, total, frames.len())).push(
                        apps::said("video-player: playback complete"),
                    ),
                    0,
                )
            }
        },
    }
}

/// The file that a player plays: the first argument, or its own.
pub open spec fn played_path(argv: Seq<Seq<char>>, own: &str) -> Seq<char> {
    if argv.len() > 1 {
        argv[1]
    } else {
        own@
    }
}

/// The file that a player plays.
pub fn media_path(argv: &[Vec<char>], own: &str) -> (path: Vec<char>)
    ensures
        path@ == played_path(chars::views(argv@), own),
{
    if argv.len() > 1 {
        assert(chars::views(argv@)[1] == argv@[1]@);
        let path = chars::part(argv[1].as_slice(), 0, argv[1].len());
        assert(path@ =~= argv@[1]@);
        path
    } else {
        chars::chars_of(own)
    }
}

/// Plays a film, with what its file holds.
pub fn video_player_main(path: &[char], file: Result<&[char], &'static str>) -> (result: (
    Script,
    i32,
))
    ensures
        (result.0@, result.1) == film(
            path@,
            match file {
                Ok(text) => Ok(text@),
                Err(message) => Err(message),
            },
        ),
{
    let mut script = Script::new();
    let text = match file {
        Err(message) => {
            script.say(message);
            assert(script@ =~= seq![apps::said(message)]);
            return (script, 1);
        },
        Ok(text) => text,
    };
    let media = parse_media_header(text);
    let total: usize = count_frames(media.body.as_slice());
    if total == 0 {
        script.say("video-player: no frames found");
        assert(script@ =~= seq![apps::said("video-player: no frames found")]);
        return (script, 1);
    }
    let path_bytes = chars::encode(path);
    let title_bytes = chars::encode(media.title.as_slice());
    let header = Line::new().text("video-player: ").bytes(path_bytes.as_slice()).text(" (").number(
        total as u64,
    ).text(", ").number(media.rate as u64).text(" fps)");
    assert(header@ =~= seq![
        text::literal("video-player: "),
        path_bytes@,
        text::literal(" ("),
        fixed::decimal(total as nat),
        text::literal(", "),
        fixed::decimal(media.rate as nat),
        text::literal(" fps)"),
    ]);
    let buffer = header.fill::<128>();
    script.line(copied(buffer.as_bytes()));
    script.line(copied(title_bytes.as_slice()));
    let ghost start = script@;
    let share: u32 = 1000 / media.rate;
    let delay: u32 = if share > 120 {
        share
    } else {
        120
    };
    let frames = split_frames(media.body.as_slice());
    let mut index: usize = 0;
    assert(script@ =~= start + frame_steps(
        media.title@,
        media.rate as int,
        chars::views(frames@),
        total as nat,
        0,
    ));
    while index < frames.len()
        invariant
            index <= frames@.len(),
            chars::views(frames@).len() == frames@.len(),
            title_bytes@ == chars::encoded(media.title@),
            vstd::utf8::valid_utf8(title_bytes@),
            delay == frame_delay(media.rate as int),
            script@ == start + frame_steps(
                media.title@,
                media.rate as int,
                chars::views(frames@),
                total as nat,
                index as nat,
            ),
        decreases frames@.len() - index,
    {
        assert(chars::views(frames@)[index as int] == frames@[index as int]@);
        script.step(AppStep::Clear);
        let line = Line::new().bytes(title_bytes.as_slice()).text("  frame ").number(
            index as u64 + 1,
        ).text("/").number(total as u64);
        assert(line@ =~= seq![
            chars::encoded(media.title@),
            text::literal("  frame "),
            fixed::decimal((index + 1) as nat),
            text::literal("/"),
            fixed::decimal(total as nat),
        ]);
        script.line(filled96(line));
        let visible = chars::trim_breaks(frames[index].as_slice());
        script.line(chars::encode(visible.as_slice()));
        script.step(AppStep::Sleep(delay));
        index += 1;
        assert(script@ =~= start + frame_steps(
            media.title@,
            media.rate as int,
            chars::views(frames@),
            total as nat,
            index as nat,
        ));
    }
    script.say("video-player: playback complete");
    assert(script@ =~= film(path@, Ok(text@)).0);
    (script, 0)
}

/// A tone of a score.
#[verifier::ext_equal]
pub struct NoteView {
    pub frequency: u32,
    pub duration: u32,
    pub label: Seq<char>,
}

/// What a line of a score says.
#[verifier::ext_equal]
pub enum ScoreLine {
    /// Nothing.
    Empty,
    /// No duration.
    Malformed,
    InvalidFrequency,
    InvalidDuration,
    Note(NoteView),
}

/// What a line of a score says.
pub open spec fn score_line(line: Seq<char>) -> ScoreLine {
    let words = chars::words_from(chars::trimmed(line), 0);
    if words.len() == 0 {
        ScoreLine::Empty
    } else if words.len() == 1 {
        ScoreLine::Malformed
    } else {
        match chars::number_of(words[0]) {
            None => ScoreLine::InvalidFrequency,
            Some(frequency) => match chars::number_of(words[1]) {
                None => ScoreLine::InvalidDuration,
                Some(duration) => ScoreLine::Note(
                    NoteView {
                        frequency: frequency as u32,
                        duration: duration as u32,
                        label: if words.len() > 2 {
                            words[2]
                        } else {
                            "NOTE"@
                        },
                    },
                ),
            },
        }
    }
}

/// A tone of a score.
pub struct Note {
    pub frequency: u32,
    pub duration: u32,
    pub label: Vec<char>,
}

impl View for Note {
    type V = NoteView;

    open spec fn view(&self) -> NoteView {
        NoteView { frequency: self.frequency, duration: self.duration, label: self.label@ }
    }
}

/// What a line of a score says.
pub enum ParsedLine {
    Empty,
    Malformed,
    InvalidFrequency,
    InvalidDuration,
    Note(Note),
}

impl View for ParsedLine {
    type V = ScoreLine;

    open spec fn view(&self) -> ScoreLine {
        match *self {
            ParsedLine::Empty => ScoreLine::Empty,
            ParsedLine::Malformed => ScoreLine::Malformed,
            ParsedLine::InvalidFrequency => ScoreLine::InvalidFrequency,
            ParsedLine::InvalidDuration => ScoreLine::InvalidDuration,
            ParsedLine::Note(note) => ScoreLine::Note(note@),
        }
    }
}

/// What a line of a score says.
pub fn parse_score_line(line: &[char]) -> (parsed: ParsedLine)
    ensures
        parsed@ == score_line(line@),
{
    let inner = chars::trim(line);
    let words = chars::split_whitespace(inner.as_slice(), 3);
    let ghost all = chars::words_from(inner@, 0);
    assert(chars::views(words@).len() == words@.len());
    assert(words@.len() < 3 ==> chars::views(words@) == all);
    assert(forall|i: int|
        0 <= i < words@.len() ==> all[i] == #[trigger] words@[i]@) by {
        assert forall|i: int| 0 <= i < words@.len() implies all[i] == #[trigger] words@[i]@ by {
            assert(chars::views(words@)[i] == words@[i]@);
        }
    }
    if words.len() == 0 {
        return ParsedLine::Empty;
    }
    if words.len() == 1 {
        return ParsedLine::Malformed;
    }
    let frequency: u32 = match chars::parse_u32(words[0].as_slice()) {
        None => {
            return ParsedLine::InvalidFrequency;
        },
        Some(value) => value,
    };
    let duration: u32 = match chars::parse_u32(words[1].as_slice()) {
        None => {
            return ParsedLine::InvalidDuration;
        },
        Some(value) => value,
    };
    let label = if words.len() > 2 {
        let third = chars::part(words[2].as_slice(), 0, words[2].len());
        assert(third@ =~= words@[2]@);
        third
    } else {
        chars::chars_of("NOTE")
    };
    ParsedLine::Note(Note { frequency, duration, label })
}

/// What is played of a tone.
pub open spec fn note_steps(note: NoteView) -> Seq<StepView> {
    seq![
        apps::wrote(
            seq![
                text::literal("note "),
                chars::encoded(note.label),
                text::literal(": "),
                fixed::decimal(note.frequency as nat),
                text::literal("Hz "),
                fixed::decimal(note.duration as nat),
                text::literal("ms"),
            ],
            96,
        ),
        if note.frequency == 0 {
            StepView::Silence
        } else {
            StepView::Tone(note.frequency)
        },
        StepView::Sleep(note.duration),
        StepView::Silence,
        StepView::Sleep(30),
    ]
}

/// What is played of the lines of a score from `from` on, after so many tones.
pub open spec fn score_steps(list: Seq<Seq<char>>, from: int, notes: nat) -> (Seq<StepView>, i32)
    decreases list.len() - from,
{
    if from < 0 || from >= list.len() {
        if notes == 0 {
            (seq![StepView::Silence, apps::said("audio-player: no notes found")], 1)
        } else {
            (seq![StepView::Silence, apps::said("audio-player: playback complete")], 0)
        }
    } else {
        match score_line(list[from]) {
            ScoreLine::Empty => score_steps(list, from + 1, notes),
            ScoreLine::Malformed => (
                seq![apps::said("audio-player: malformed score line"), StepView::Silence],
                1,
            ),
            ScoreLine::InvalidFrequency => (
                seq![apps::said("audio-player: invalid frequency"), StepView::Silence],
                1,
            ),
            ScoreLine::InvalidDuration => (
                seq![apps::said("audio-player: invalid duration"), StepView::Silence],
                1,
            ),
            ScoreLine::Note(note) => {
                let rest = score_steps(list, from + 1, notes + 1);
                (note_steps(note) + rest.0, rest.1)
            },
        }
    }
}

/// What the music player does with a file, and what it returns.
pub open spec fn music(file: Result<Seq<char>, &'static str>) -> (Seq<StepView>, i32) {
    match file {
        Err(message) => (seq![apps::said(message)], 1),
        Ok(text) => {
            let (header, body) = media(text);
            let rest = score_steps(chars::lines_from(body, 0), 0, 0);
            (
                seq![
                    apps::said("audio-player: safe PC-speaker backend"),
                    StepView::Line(chars::encoded(header.title)),
                ] + rest.0,
                rest.1,
            )
        },
    }
}

fn play_note(script: &mut Script, note: &Note)
    ensures
        final(script)@ == old(script)@ + note_steps(note@),
{
    let label = chars::encode(note.label.as_slice());
    let line = Line::new().text("note ").bytes(label.as_slice()).text(": ").number(
        note.frequency as u64,
    ).text("Hz ").number(note.duration as u64).text("ms");
    assert(line@ =~= seq![
        text::literal("note "),
        label@,
        text::literal(": "),
        fixed::decimal(note.frequency as nat),
        text::literal("Hz "),
        fixed::decimal(note.duration as nat),
        text::literal("ms"),
    ]);
    script.line(filled96(line));
    if note.frequency == 0 {
        script.step(AppStep::Silence);
    } else {
        script.step(AppStep::Tone(note.frequency));
    }
    script.step(AppStep::Sleep(note.duration));
    script.step(AppStep::Silence);
    script.step(AppStep::Sleep(30));
    assert(script@ =~= old(script)@ + note_steps(note@));
}

/// Plays music, with what its file holds.
pub fn audio_player_main(file: Result<&[char], &'static str>) -> (result: (Script, i32))
    ensures
        (result.0@, result.1) == music(
            match file {
                Ok(text) => Ok(text@),
                Err(message) => Err(message),
            },
        ),
{
    let mut script = Script::new();
    let text = match file {
        Err(message) => {
            script.say(message);
            assert(script@ =~= seq![apps::said(message)]);
            return (script, 1);
        },
        Ok(text) => text,
    };
    let media = parse_media_header(text);
    script.say("audio-player: safe PC-speaker backend");
    script.line(chars::encode(media.title.as_slice()));
    let list = chars::lines(media.body.as_slice());
    let ghost all = chars::views(list@);
    let ghost start = seq![
        apps::said("audio-player: safe PC-speaker backend"),
        StepView::Line(chars::encoded(media.title@)),
    ];
    assert(script@ =~= start);
    let mut notes: usize = 0;
    let mut index: usize = 0;
    assert(script@ + score_steps(all, 0, 0).0 =~= start + score_steps(all, 0, 0).0);
    while index < list.len()
        invariant
            index <= list@.len(),
            notes <= index,
            all == chars::views(list@),
            all.len() == list@.len(),
            script@ + score_steps(all, index as int, notes as nat).0 == start + score_steps(
                all,
                0,
                0,
            ).0,
            score_steps(all, index as int, notes as nat).1 == score_steps(all, 0, 0).1,
            music(Ok(text@)) == (start + score_steps(all, 0, 0).0, score_steps(all, 0, 0).1),
            file matches Ok(given) && given@ == text@,
        decreases list@.len() - index,
    {
        assert(all[index as int] == list@[index as int]@);
        let ghost before = script@;
        match parse_score_line(list[index].as_slice()) {
            ParsedLine::Empty => {},
            ParsedLine::Malformed => {
                script.say("audio-player: malformed score line");
                script.step(AppStep::Silence);
                assert(script@ =~= before + score_steps(all, index as int, notes as nat).0);
                return (script, 1);
            },
            ParsedLine::InvalidFrequency => {
                script.say("audio-player: invalid frequency");
                script.step(AppStep::Silence);
                assert(script@ =~= before + score_steps(all, index as int, notes as nat).0);
                return (script, 1);
            },
            ParsedLine::InvalidDuration => {
                script.say("audio-player: invalid duration");
                script.step(AppStep::Silence);
                assert(script@ =~= before + score_steps(all, index as int, notes as nat).0);
                return (script, 1);
            },
            ParsedLine::Note(note) => {
                play_note(&mut script, &note);
                notes += 1;
                proof {
                    let rest = score_steps(all, index + 1, notes as nat).0;
                    assert(before + (note_steps(note@) + rest) =~= script@ + rest);
                }
            },
        }
        index += 1;
    }
    let ghost before = script@;
    script.step(AppStep::Silence);
    if notes == 0 {
        script.say("audio-player: no notes found");
        assert(script@ =~= before + score_steps(all, index as int, notes as nat).0);
        return (script, 1);
    }
    script.say("audio-player: playback complete");
    assert(script@ =~= before + score_steps(all, index as int, notes as nat).0);
    (script, 0)
}

} // verus!
