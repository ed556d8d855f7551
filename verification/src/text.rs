//! Searching and splitting sequences of bytes.
use vstd::prelude::*;
use vstd::string::StringSliceAdditionalSpecFns;
use vstd::utf8::*;

verus! {

/// The bytes of a text that stands in the source.
#[verifier::opaque]
pub open spec fn literal(text: &str) -> Seq<u8> {
    text.spec_bytes()
}

/// The bytes of a text that stands in the source.
pub fn literal_bytes(text: &str) -> (bytes: &[u8])
    ensures
        bytes@ == literal(text),
        valid_utf8(bytes@),
{
    proof {
        encode_utf8_valid_utf8(text@);
    }
    reveal(literal);
    text.as_bytes()
}

/// The bytes of characters.
#[verifier::opaque]
pub open spec fn utf8(text: Seq<char>) -> Seq<u8> {
    encode_utf8(text)
}

/// The bytes of a text.
pub fn utf8_bytes(text: &str) -> (bytes: &[u8])
    ensures
        bytes@ == utf8(text@),
        valid_utf8(bytes@),
{
    proof {
        encode_utf8_valid_utf8(text@);
    }
    reveal(utf8);
    text.as_bytes()
}

/// The index of the first `byte` in `text`, or the length of `text`.
pub open spec fn position(text: Seq<u8>, byte: u8) -> nat
    decreases text.len(),
{
    if text.len() == 0 || text[0] == byte {
        0
    } else {
        1 + position(text.skip(1), byte)
    }
}

/// The pieces of `text` between the occurrences of `byte`.
pub open spec fn split(text: Seq<u8>, byte: u8) -> Seq<Seq<u8>>
    decreases text.len(),
{
    let at = position(text, byte);
    if at >= text.len() {
        seq![text]
    } else {
        seq![text.take(at as int)] + split(text.skip(at as int + 1), byte)
    }
}

/// `position` is the index of the first occurrence.
pub proof fn lemma_position(text: Seq<u8>, byte: u8)
    ensures
        position(text, byte) <= text.len(),
        position(text, byte) < text.len() ==> text[position(text, byte) as int] == byte,
        forall|i: int| 0 <= i < position(text, byte) ==> #[trigger] text[i] != byte,
        position(text, byte) < text.len() <==> text.contains(byte),
    decreases text.len(),
{
    if text.len() > 0 && text[0] != byte {
        let rest = text.skip(1);
        lemma_position(rest, byte);
        assert forall|i: int| 0 <= i < position(text, byte) implies #[trigger] text[i] != byte by {
            if i > 0 {
                assert(rest[i - 1] == text[i]);
            }
        }
        assert(position(text, byte) < text.len() ==> rest[position(rest, byte) as int]
            == text[position(text, byte) as int]);
    }
    if position(text, byte) == text.len() && text.contains(byte) {
        let i = text.index_of(byte);
        assert(text[i] == byte);
    }
}

/// No piece of a split holds the separator, and there is at least one piece.
pub proof fn lemma_split(text: Seq<u8>, byte: u8)
    ensures
        split(text, byte).len() >= 1,
        forall|k: int| 0 <= k < split(text, byte).len() ==> !#[trigger] split(text, byte)[k].contains(byte),
    decreases text.len(),
{
    lemma_position(text, byte);
    let at = position(text, byte);
    if at < text.len() {
        let rest = text.skip(at as int + 1);
        lemma_split(rest, byte);
        assert forall|k: int| 0 <= k < split(text, byte).len() implies !#[trigger] split(text, byte)[k].contains(byte) by {
            if k > 0 {
                assert(split(text, byte)[k] == split(rest, byte)[k - 1]);
            } else {
                let head = text.take(at as int);
                assert forall|i: int| 0 <= i < head.len() implies head[i] != byte by {
                    assert(text[i] != byte);
                }
            }
        }
    }
}

/// Text can be cut before and behind an ASCII byte.
pub proof fn lemma_cut_at_ascii(text: Seq<u8>, at: int)
    requires
        valid_utf8(text),
        0 <= at < text.len(),
        text[at] < 128,
    ensures
        is_char_boundary(text, at),
        valid_utf8(text.take(at)),
        valid_utf8(text.skip(at)),
        valid_utf8(text.skip(at + 1)),
{
    is_char_boundary_iff_not_is_continuation_byte(text, at);
    valid_utf8_split(text, at);
    let rest = text.skip(at);
    assert(text.subrange(at, text.len() as int) =~= rest);
    assert(text.subrange(0, at) =~= text.take(at));
    reveal_with_fuel(is_char_boundary, 2);
    assert(rest[0] == text[at]);
    assert(is_char_boundary(rest, 1));
    valid_utf8_split(rest, 1);
    assert(rest.subrange(1, rest.len() as int) =~= text.skip(at + 1));
}

/// The pieces of a text that is split at an ASCII byte are text.
pub proof fn lemma_split_utf8(text: Seq<u8>, byte: u8)
    requires
        valid_utf8(text),
        byte < 128,
    ensures
        forall|k: int| 0 <= k < split(text, byte).len() ==> valid_utf8(#[trigger] split(text, byte)[k]),
    decreases text.len(),
{
    lemma_position(text, byte);
    let at = position(text, byte);
    if at < text.len() {
        lemma_cut_at_ascii(text, at as int);
        let rest = text.skip(at as int + 1);
        lemma_split_utf8(rest, byte);
        assert forall|k: int| 0 <= k < split(text, byte).len() implies valid_utf8(#[trigger] split(text, byte)[k]) by {
            if k > 0 {
                assert(split(text, byte)[k] == split(rest, byte)[k - 1]);
            }
        }
    }
}

/// The index of the first `byte` from `start` on, or the length of `text`.
pub fn position_from(text: &[u8], start: usize, byte: u8) -> (at: usize)
    requires
        start <= text@.len(),
    ensures
        at == start + position(text@.skip(start as int), byte),
        start <= at <= text@.len(),
        at < text@.len() ==> text@[at as int] == byte,
        forall|i: int| start <= i < at ==> #[trigger] text@[i] != byte,
{
    let mut at: usize = start;
    let ghost rest = text@.skip(start as int);
    proof {
        lemma_position(rest, byte);
    }
    while at < text.len() && text[at] != byte
        invariant
            rest == text@.skip(start as int),
            start <= at <= text@.len(),
            at - start <= position(rest, byte) <= rest.len(),
            position(rest, byte) < rest.len() ==> rest[position(rest, byte) as int] == byte,
            forall|i: int| start <= i < at ==> #[trigger] text@[i] != byte,
        decreases text@.len() - at,
    {
        assert(at - start < rest.len() && rest[at - start] == text@[at as int]);
        at += 1;
    }
    proof {
        if at < text.len() {
            assert(rest[at - start] == byte);
            lemma_position(rest, byte);
        }
    }
    at
}

/// Whether two byte sequences are equal.
pub fn equal(a: &[u8], b: &[u8]) -> (same: bool)
    ensures
        same == (a@ == b@),
{
    if a.len() != b.len() {
        return false;
    }
    let mut index: usize = 0;
    while index < a.len()
        invariant
            index <= a@.len(),
            a@.len() == b@.len(),
            forall|i: int| 0 <= i < index ==> a@[i] == b@[i],
        decreases a@.len() - index,
    {
        if a[index] != b[index] {
            return false;
        }
        index += 1;
    }
    assert(a@ =~= b@);
    true
}

/// Whether `text` begins with `prefix`.
pub fn starts_with(text: &[u8], prefix: &[u8]) -> (starts: bool)
    ensures
        starts == (prefix@.len() <= text@.len() && text@.take(prefix@.len() as int) == prefix@),
{
    if prefix.len() > text.len() {
        return false;
    }
    let mut index: usize = 0;
    while index < prefix.len()
        invariant
            index <= prefix@.len() <= text@.len(),
            forall|i: int| 0 <= i < index ==> text@[i] == prefix@[i],
        decreases prefix@.len() - index,
    {
        if text[index] != prefix[index] {
            assert(text@.take(prefix@.len() as int)[index as int] != prefix@[index as int]);
            return false;
        }
        index += 1;
    }
    assert(text@.take(prefix@.len() as int) =~= prefix@);
    true
}

} // verus!
