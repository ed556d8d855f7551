//! Text as characters: trimming, splitting, comparing and reading numbers.
use crate::screen::console;
use vstd::prelude::*;
use vstd::string::*;

verus! {

/// Whether a character is white space.
pub open spec fn is_white(ch: char) -> bool {
    let code = ch as u32;
    ||| 9 <= code <= 13
    ||| code == 32
    ||| code == 0x85
    ||| code == 0xa0
    ||| code == 0x1680
    ||| 0x2000 <= code <= 0x200a
    ||| code == 0x2028
    ||| code == 0x2029
    ||| code == 0x202f
    ||| code == 0x205f
    ||| code == 0x3000
}

fn white(ch: char) -> (is: bool)
    ensures
        is == is_white(ch),
{
    let code: u32 = ch as u32;
    (code >= 9 && code <= 13) || code == 32 || code == 0x85 || code == 0xa0 || code == 0x1680 || (
    code >= 0x2000 && code <= 0x200a) || code == 0x2028 || code == 0x2029 || code == 0x202f || code
        == 0x205f || code == 0x3000
}

/// The first place from `from` on that is not white.
pub open spec fn past_white(text: Seq<char>, from: int) -> int
    decreases text.len() - from,
{
    if from < 0 || from >= text.len() {
        text.len() as int
    } else if is_white(text[from]) {
        past_white(text, from + 1)
    } else {
        from
    }
}

/// The first place from `from` on that is white.
pub open spec fn next_white(text: Seq<char>, from: int) -> int
    decreases text.len() - from,
{
    if from < 0 || from >= text.len() {
        text.len() as int
    } else if is_white(text[from]) {
        from
    } else {
        next_white(text, from + 1)
    }
}

/// A text without the white space at its end.
pub open spec fn trimmed_end(text: Seq<char>) -> Seq<char>
    decreases text.len(),
{
    if text.len() > 0 && is_white(text.last()) {
        trimmed_end(text.drop_last())
    } else {
        text
    }
}

/// A text without the white space around it.
pub open spec fn trimmed(text: Seq<char>) -> Seq<char> {
    trimmed_end(text.skip(past_white(text, 0)))
}

/// A text without the line breaks at its end.
pub open spec fn without_breaks(text: Seq<char>) -> Seq<char>
    decreases text.len(),
{
    if text.len() > 0 && text.last() == '\n' {
        without_breaks(text.drop_last())
    } else {
        text
    }
}

/// The words of a text from `from` on.
pub open spec fn words_from(text: Seq<char>, from: int) -> Seq<Seq<char>>
    decreases text.len() - from,
{
    let start = past_white(text, from);
    let end = next_white(text, start);
    if from < 0 || start >= text.len() || end <= from || end > text.len() {
        Seq::empty()
    } else {
        seq![text.subrange(start, end)] + words_from(text, end)
    }
}

/// The first `ch` from `from` on, or the end.
pub open spec fn next_of(text: Seq<char>, ch: char, from: int) -> int
    decreases text.len() - from,
{
    if from < 0 || from >= text.len() {
        text.len() as int
    } else if text[from] == ch {
        from
    } else {
        next_of(text, ch, from + 1)
    }
}

/// A line without the return at its end.
pub open spec fn without_return(line: Seq<char>) -> Seq<char> {
    if line.len() > 0 && line.last() == '\r' {
        line.drop_last()
    } else {
        line
    }
}

/// The lines of a text from `from` on; the end of the text ends the last, if that holds
/// anything.
pub open spec fn lines_from(text: Seq<char>, from: int) -> Seq<Seq<char>>
    decreases text.len() - from,
{
    let end = next_of(text, '\n', from);
    if from < 0 || from >= text.len() || end < from {
        Seq::empty()
    } else if end >= text.len() {
        seq![text.subrange(from, end)]
    } else {
        seq![without_return(text.subrange(from, end))] + lines_from(text, end + 1)
    }
}

/// The first place from `from` on where a text holds another.
pub open spec fn find_from(text: Seq<char>, other: Seq<char>, from: int) -> Option<int>
    decreases text.len() + 1 - from,
{
    if from < 0 || from + other.len() > text.len() {
        None
    } else if text.subrange(from, from + other.len()) == other {
        Some(from)
    } else {
        find_from(text, other, from + 1)
    }
}

/// The pieces of a text from `from` on between the occurrences of another, which is not
/// empty.
pub open spec fn pieces_from(text: Seq<char>, other: Seq<char>, from: int) -> Seq<Seq<char>>
    decreases text.len() - from,
{
    match find_from(text, other, from) {
        Some(at) => if other.len() == 0 || at < from || at + other.len() > text.len() {
            Seq::empty()
        } else {
            seq![text.subrange(from, at)] + pieces_from(text, other, at + other.len())
        },
        None => seq![text.subrange(from, text.len() as int)],
    }
}

/// The digits of a number and no sign: its value, which stops at the largest number.
pub open spec fn digits_value(text: Seq<char>, limit: int) -> Option<int>
    decreases text.len(),
{
    if text.len() == 0 {
        Some(0)
    } else {
        let digit = text.last() as u32 - 48;
        match digits_value(text.drop_last(), limit) {
            Some(value) => if 0 <= digit <= 9 {
                let next = value * 10 + digit;
                Some(
                    if next > limit {
                        limit
                    } else {
                        next
                    },
                )
            } else {
                None
            },
            None => None,
        }
    }
}

/// The number that a text writes, of one or more digits; it stops at the largest.
pub open spec fn number_of(text: Seq<char>) -> Option<int> {
    if text.len() == 0 {
        None
    } else {
        digits_value(text, u32::MAX as int)
    }
}

/// The bytes of the first characters of a text.
pub open spec fn bytes_of(text: Seq<char>, count: nat) -> Seq<u8>
    decreases count,
{
    if count == 0 {
        Seq::empty()
    } else {
        bytes_of(text, (count - 1) as nat) + console::utf8_of(text[count - 1] as u32)
    }
}

/// The bytes of a text.
#[verifier::opaque]
pub open spec fn encoded(text: Seq<char>) -> Seq<u8> {
    bytes_of(text, text.len())
}

/// The characters of a text.
pub fn chars_of(text: &str) -> (chars: Vec<char>)
    ensures
        chars@ == text@,
{
    let count: usize = text.unicode_len();
    let mut chars: Vec<char> = Vec::new();
    let mut index: usize = 0;
    while index < count
        invariant
            index <= count,
            count == text@.len(),
            chars@ == text@.take(index as int),
        decreases count - index,
    {
        chars.push(text.get_char(index));
        index += 1;
        assert(chars@ =~= text@.take(index as int));
    }
    assert(text@.take(index as int) =~= text@);
    chars
}

/// The bytes of a text are its encoding in UTF-8.
pub proof fn lemma_encoded(text: Seq<char>)
    ensures
        encoded(text) == vstd::utf8::encode_utf8(text),
        vstd::utf8::valid_utf8(encoded(text)),
{
    reveal(encoded);
    lemma_bytes_of(text, text.len());
    assert(text.take(text.len() as int) =~= text);
    vstd::utf8::encode_utf8_valid_utf8(text);
}

proof fn lemma_bytes_of(text: Seq<char>, count: nat)
    requires
        count <= text.len(),
    ensures
        bytes_of(text, count) == vstd::utf8::encode_utf8(text.take(count as int)),
    decreases count,
{
    if count > 0 {
        let shorter = text.take(count - 1);
        lemma_bytes_of(text, (count - 1) as nat);
        vstd::utf8::char_is_scalar(text[count - 1]);
        console::lemma_utf8_of(text[count - 1] as u32);
        lemma_encode_push(shorter, text[count - 1]);
        assert(shorter.push(text[count - 1]) =~= text.take(count as int));
    }
}

proof fn lemma_encode_push(text: Seq<char>, letter: char)
    ensures
        vstd::utf8::encode_utf8(text.push(letter)) == vstd::utf8::encode_utf8(text)
            + vstd::utf8::encode_scalar(letter as u32),
    decreases text.len(),
{
    reveal_with_fuel(vstd::utf8::encode_utf8, 2);
    if text.len() == 0 {
        assert(text.push(letter).drop_first() =~= Seq::<char>::empty());
    } else {
        lemma_encode_push(text.drop_first(), letter);
        assert(text.push(letter).drop_first() =~= text.drop_first().push(letter));
    }
}

/// The bytes of a text.
pub fn encode(text: &[char]) -> (bytes: Vec<u8>)
    ensures
        bytes@ == encoded(text@),
        vstd::utf8::valid_utf8(bytes@),
{
    proof {
        lemma_encoded(text@);
    }
    reveal(encoded);
    let mut bytes: Vec<u8> = Vec::new();
    let mut index: usize = 0;
    while index < text.len()
        invariant
            index <= text@.len(),
            bytes@ == bytes_of(text@, index as nat),
        decreases text@.len() - index,
    {
        let mut letter = console::encode_utf8(text[index] as u32);
        let ghost added = letter@;
        let ghost before = bytes@;
        bytes.append(&mut letter);
        assert(bytes@ =~= before + added);
        index += 1;
    }
    bytes
}

/// A part of a text.
pub fn part(text: &[char], from: usize, to: usize) -> (piece: Vec<char>)
    requires
        from <= to <= text@.len(),
    ensures
        piece@ == text@.subrange(from as int, to as int),
{
    let mut piece: Vec<char> = Vec::new();
    let mut index: usize = from;
    while index < to
        invariant
            from <= index <= to <= text@.len(),
            piece@ == text@.subrange(from as int, index as int),
        decreases to - index,
    {
        piece.push(text[index]);
        index += 1;
        assert(piece@ =~= text@.subrange(from as int, index as int));
    }
    piece
}

/// Whether two texts are the same.
pub fn same(first: &[char], second: &[char]) -> (equal: bool)
    ensures
        equal == (first@ == second@),
{
    if first.len() != second.len() {
        return false;
    }
    let mut index: usize = 0;
    while index < first.len()
        invariant
            index <= first@.len(),
            first@.len() == second@.len(),
            forall|i: int| 0 <= i < index ==> first@[i] == second@[i],
        decreases first@.len() - index,
    {
        if first[index] != second[index] {
            return false;
        }
        index += 1;
    }
    assert(first@ =~= second@);
    true
}

/// Whether a text is one that stands in the source.
pub fn is(text: &[char], literal: &str) -> (equal: bool)
    ensures
        equal == (text@ == literal@),
{
    let count: usize = literal.unicode_len();
    if text.len() != count {
        return false;
    }
    let mut index: usize = 0;
    while index < count
        invariant
            index <= count,
            count == text@.len(),
            count == literal@.len(),
            forall|i: int| 0 <= i < index ==> text@[i] == literal@[i],
        decreases count - index,
    {
        if text[index] != literal.get_char(index) {
            return false;
        }
        index += 1;
    }
    assert(text@ =~= literal@);
    true
}

fn skip_white(text: &[char], from: usize) -> (at: usize)
    requires
        from <= text@.len(),
    ensures
        at == past_white(text@, from as int),
        from <= at <= text@.len(),
{
    let mut at: usize = from;
    while at < text.len() && white(text[at])
        invariant
            from <= at <= text@.len(),
            past_white(text@, at as int) == past_white(text@, from as int),
        decreases text@.len() - at,
    {
        at += 1;
    }
    at
}

fn find_white(text: &[char], from: usize) -> (at: usize)
    requires
        from <= text@.len(),
    ensures
        at == next_white(text@, from as int),
        from <= at <= text@.len(),
        from < text@.len() && !is_white(text@[from as int]) ==> at > from,
{
    let mut at: usize = from;
    while at < text.len() && !white(text[at])
        invariant
            from <= at <= text@.len(),
            next_white(text@, at as int) == next_white(text@, from as int),
        decreases text@.len() - at,
    {
        at += 1;
    }
    at
}

proof fn lemma_past_white(text: Seq<char>, from: int)
    requires
        0 <= from <= text.len(),
    ensures
        from <= past_white(text, from) <= text.len(),
        past_white(text, from) < text.len() ==> !is_white(text[past_white(text, from)]),
    decreases text.len() - from,
{
    if from < text.len() && is_white(text[from]) {
        lemma_past_white(text, from + 1);
    }
}

/// A text without the white space at its end: how long it is.
fn end_of_text(text: &[char], from: usize) -> (end: usize)
    requires
        from <= text@.len(),
    ensures
        from <= end <= text@.len(),
        text@.subrange(from as int, end as int) == trimmed_end(
            text@.subrange(from as int, text@.len() as int),
        ),
{
    let mut end: usize = text.len();
    let ghost whole = text@.subrange(from as int, text@.len() as int);
    while end > from && white(text[end - 1])
        invariant
            from <= end <= text@.len(),
            trimmed_end(text@.subrange(from as int, end as int)) == trimmed_end(whole),
        decreases end,
    {
        let ghost piece = text@.subrange(from as int, end as int);
        assert(piece.drop_last() =~= text@.subrange(from as int, end - 1));
        end -= 1;
    }
    end
}

/// A text without the white space around it.
pub fn trim(text: &[char]) -> (result: Vec<char>)
    ensures
        result@ == trimmed(text@),
{
    let start: usize = skip_white(text, 0);
    let end: usize = end_of_text(text, start);
    assert(text@.subrange(start as int, text@.len() as int) =~= text@.skip(start as int));
    part(text, start, end)
}

/// A text without the line breaks at its end.
pub fn trim_breaks(text: &[char]) -> (result: Vec<char>)
    ensures
        result@ == without_breaks(text@),
{
    let mut end: usize = text.len();
    assert(text@.subrange(0, end as int) =~= text@);
    while end > 0 && text[end - 1] == '\n'
        invariant
            end <= text@.len(),
            without_breaks(text@.subrange(0, end as int)) == without_breaks(text@),
        decreases end,
    {
        assert(text@.subrange(0, end as int).drop_last() =~= text@.subrange(0, end - 1));
        end -= 1;
    }
    part(text, 0, end)
}

/// What each of some texts holds.
pub open spec fn views(list: Seq<Vec<char>>) -> Seq<Seq<char>> {
    list.map_values(|text: Vec<char>| text@)
}

proof fn lemma_views_push(list: Seq<Vec<char>>, text: Vec<char>)
    ensures
        views(list.push(text)) == views(list).push(text@),
{
    assert(views(list.push(text)) =~= views(list).push(text@));
}

/// The words of a text, at most so many.
pub fn split_whitespace(text: &[char], most: usize) -> (words: Vec<Vec<char>>)
    ensures
        views(words@) == (if words_from(text@, 0).len() <= most {
            words_from(text@, 0)
        } else {
            words_from(text@, 0).take(most as int)
        }),
        words@.len() <= most,
{
    let mut words: Vec<Vec<char>> = Vec::new();
    let mut at: usize = 0;
    let length: usize = text.len();
    assert(views(words@) =~= Seq::<Seq<char>>::empty());
    assert(views(words@) + words_from(text@, 0) =~= words_from(text@, 0));
    while words.len() < most
        invariant
            length == text@.len(),
            at <= length,
            words@.len() <= most,
            views(words@).len() == words@.len(),
            views(words@) + words_from(text@, at as int) == words_from(text@, 0),
        decreases length - at,
    {
        proof {
            lemma_past_white(text@, at as int);
        }
        let start: usize = skip_white(text, at);
        if start >= length {
            assert(views(words@) + words_from(text@, at as int) =~= views(words@));
            return words;
        }
        let end: usize = find_white(text, start);
        let ghost before = words@;
        let word = part(text, start, end);
        proof {
            lemma_views_push(words@, word);
            assert(views(before) + (seq![word@] + words_from(text@, end as int)) =~= views(
                before.push(word),
            ) + words_from(text@, end as int));
        }
        words.push(word);
        at = end;
    }
    assert(views(words@) =~= words_from(text@, 0).take(most as int));
    words
}

fn find_char(text: &[char], ch: char, from: usize) -> (at: usize)
    requires
        from <= text@.len(),
    ensures
        at == next_of(text@, ch, from as int),
        from <= at <= text@.len(),
{
    let mut at: usize = from;
    while at < text.len() && text[at] != ch
        invariant
            from <= at <= text@.len(),
            next_of(text@, ch, at as int) == next_of(text@, ch, from as int),
        decreases text@.len() - at,
    {
        at += 1;
    }
    at
}

/// The lines of a text.
pub fn lines(text: &[char]) -> (list: Vec<Vec<char>>)
    ensures
        views(list@) == lines_from(text@, 0),
{
    let mut list: Vec<Vec<char>> = Vec::new();
    let mut at: usize = 0;
    let length: usize = text.len();
    assert(views(list@) =~= Seq::<Seq<char>>::empty());
    assert(views(list@) + lines_from(text@, 0) =~= lines_from(text@, 0));
    while at < length
        invariant
            length == text@.len(),
            at <= length,
            views(list@) + lines_from(text@, at as int) == lines_from(text@, 0),
        decreases length - at,
    {
        let end: usize = find_char(text, '\n', at);
        let ghost before = list@;
        if end >= length {
            let line = part(text, at, end);
            proof {
                lemma_views_push(before, line);
                assert(views(before) + seq![line@] =~= views(before.push(line)));
            }
            list.push(line);
            return list;
        }
        let cut: usize = if end > at && text[end - 1] == '\r' {
            end - 1
        } else {
            end
        };
        let line = part(text, at, cut);
        proof {
            let whole = text@.subrange(at as int, end as int);
            assert(without_return(whole) =~= line@);
            lemma_views_push(before, line);
            assert(views(before) + (seq![line@] + lines_from(text@, end + 1)) =~= views(
                before.push(line),
            ) + lines_from(text@, end + 1));
        }
        list.push(line);
        at = end + 1;
    }
    assert(views(list@) + lines_from(text@, at as int) =~= views(list@));
    list
}

/// The first place of a text where it holds another.
fn find(text: &[char], other: &[char], from: usize) -> (found: Option<usize>)
    requires
        from <= text@.len(),
    ensures
        match found {
            Some(at) => find_from(text@, other@, from as int) == Some(at as int) && from <= at && at
                + other@.len() <= text@.len(),
            None => find_from(text@, other@, from as int) is None,
        },
{
    let mut at: usize = from;
    let size: usize = other.len();
    while at <= text.len() && size <= text.len() - at
        invariant
            from <= at <= text@.len(),
            size == other@.len(),
            find_from(text@, other@, at as int) == find_from(text@, other@, from as int),
        decreases text@.len() - at,
    {
        let piece = part(text, at, at + size);
        if same(piece.as_slice(), other) {
            return Some(at);
        }
        proof {
            if at == text@.len() {
                assert(piece@ =~= other@);
            }
        }
        at += 1;
    }
    None
}

/// A text before and behind the first place where it holds another.
pub open spec fn split_at(text: Seq<char>, other: Seq<char>) -> Option<(Seq<char>, Seq<char>)> {
    match find_from(text, other, 0) {
        Some(at) => Some((text.take(at), text.skip(at + other.len()))),
        None => None,
    }
}

/// A text before and behind the first place where it holds another.
pub fn split_once(text: &[char], other: &[char]) -> (parts: Option<(Vec<char>, Vec<char>)>)
    ensures
        match parts {
            Some((before, behind)) => split_at(text@, other@) == Some((before@, behind@)),
            None => split_at(text@, other@) is None,
        },
{
    match find(text, other, 0) {
        Some(at) => {
            let before = part(text, 0, at);
            let length: usize = text.len();
            let size: usize = other.len();
            assert(at + size <= length);
            let behind = part(text, at + size, length);
            assert(before@ =~= text@.take(at as int));
            assert(behind@ =~= text@.skip(at + other@.len()));
            Some((before, behind))
        },
        None => None,
    }
}

/// The pieces of a text between the occurrences of another, which is not empty.
pub fn split(text: &[char], other: &[char]) -> (list: Vec<Vec<char>>)
    requires
        other@.len() > 0,
    ensures
        views(list@) == pieces_from(text@, other@, 0),
        list@.len() >= 1,
{
    let mut list: Vec<Vec<char>> = Vec::new();
    let mut at: usize = 0;
    let length: usize = text.len();
    assert(views(list@) =~= Seq::<Seq<char>>::empty());
    assert(views(list@) + pieces_from(text@, other@, 0) =~= pieces_from(text@, other@, 0));
    loop
        invariant
            length == text@.len(),
            other@.len() > 0,
            at <= length,
            views(list@) + pieces_from(text@, other@, at as int) == pieces_from(text@, other@, 0),
        decreases length - at,
    {
        let ghost before = list@;
        match find(text, other, at) {
            Some(found) => {
                let piece = part(text, at, found);
                let next: usize = found + other.len();
                proof {
                    lemma_views_push(before, piece);
                    assert(views(before) + (seq![piece@] + pieces_from(text@, other@, next as int))
                        =~= views(before.push(piece)) + pieces_from(text@, other@, next as int));
                }
                list.push(piece);
                at = next;
            },
            None => {
                let piece = part(text, at, length);
                proof {
                    lemma_views_push(before, piece);
                    assert(views(before) + seq![piece@] =~= views(before.push(piece)));
                }
                list.push(piece);
                return list;
            },
        }
    }
}

/// The number that a text writes, of one or more digits; it stops at the largest.
pub fn parse_u32(text: &[char]) -> (number: Option<u32>)
    ensures
        match number {
            Some(value) => number_of(text@) == Some(value as int),
            None => number_of(text@) is None,
        },
{
    if text.len() == 0 {
        return None;
    }
    let mut value: u32 = 0;
    let mut index: usize = 0;
    while index < text.len()
        invariant
            index <= text@.len(),
            digits_value(text@.take(index as int), u32::MAX as int) == Some(value as int),
        decreases text@.len() - index,
    {
        let ghost next = text@.take(index + 1);
        assert(next.drop_last() =~= text@.take(index as int));
        let code: u32 = text[index] as u32;
        if code < 48 || code > 57 {
            proof {
                lemma_bad_digit(text@, u32::MAX as int, index as int);
            }
            return None;
        }
        let wide: u64 = value as u64 * 10 + (code - 48) as u64;
        value = if wide > u32::MAX as u64 {
            u32::MAX
        } else {
            wide as u32
        };
        index += 1;
    }
    assert(text@.take(index as int) =~= text@);
    Some(value)
}

/// A text with a character that is no digit writes no number.
pub proof fn lemma_bad_digit(text: Seq<char>, limit: int, at: int)
    requires
        0 <= at < text.len(),
        !(48 <= text[at] as u32 <= 57),
    ensures
        digits_value(text, limit) is None,
    decreases text.len(),
{
    if at < text.len() - 1 {
        lemma_bad_digit(text.drop_last(), limit, at);
    }
}

/// A number has no sign and is at most the largest.
pub proof fn lemma_digits(text: Seq<char>, limit: int)
    requires
        limit >= 0,
    ensures
        digits_value(text, limit) matches Some(value) ==> 0 <= value <= limit,
    decreases text.len(),
{
    if text.len() > 0 {
        lemma_digits(text.drop_last(), limit);
    }
}

} // verus!
