//! Text buffers of fixed capacity and the formatting of numbers into them.
use vstd::prelude::*;
use vstd::slice::slice_subrange;
use vstd::string::StringSliceAdditionalSpecFns;
use vstd::utf8::*;

verus! {

/// Text of at most `N` bytes, held in place. Its view is the bytes of the text, which are
/// always UTF-8.
#[derive(Clone, Copy)]
pub struct InlineString<const N: usize> {
    buf: [u8; N],
    len: usize,
}

impl<const N: usize> View for InlineString<N> {
    type V = Seq<u8>;

    closed spec fn view(&self) -> Seq<u8> {
        self.buf@.subrange(0, self.len as int)
    }
}

/// What a buffer of capacity `capacity` that holds `text` holds after `piece` was
/// appended: a piece that does not fit is refused whole.
pub open spec fn appended(text: Seq<u8>, piece: Seq<u8>, capacity: nat) -> Seq<u8> {
    if text.len() + piece.len() <= capacity {
        text + piece
    } else {
        text
    }
}

/// The last place not behind `at` at which a character of `text` begins or ends.
pub open spec fn boundary_at(text: Seq<u8>, at: int) -> int
    decreases at,
{
    if at <= 0 {
        0
    } else if is_char_boundary(text, at) {
        at
    } else {
        boundary_at(text, at - 1)
    }
}

/// The characters of `text` that lie in its first `most` bytes whole.
pub open spec fn cut(text: Seq<u8>, most: nat) -> Seq<u8> {
    if text.len() <= most {
        text
    } else {
        text.take(boundary_at(text, most as int))
    }
}

/// A text without its last character.
pub open spec fn without_last(text: Seq<u8>) -> Seq<u8> {
    text.take(boundary_at(text, text.len() - 1))
}

/// What a buffer holds after `pieces` were written one after the other, where
/// the first piece that does not fit ends the writing.
pub open spec fn written(text: Seq<u8>, pieces: Seq<Seq<u8>>, capacity: nat) -> Seq<u8>
    decreases pieces.len(),
{
    if pieces.len() == 0 {
        text
    } else if text.len() + pieces[0].len() <= capacity {
        written(text + pieces[0], pieces.skip(1), capacity)
    } else {
        text
    }
}

/// Whether writing `pieces` to a buffer that holds `text` reaches the end.
pub open spec fn fits(text: Seq<u8>, pieces: Seq<Seq<u8>>, capacity: nat) -> bool
    decreases pieces.len(),
{
    if pieces.len() == 0 {
        true
    } else {
        text.len() + pieces[0].len() <= capacity && fits(
            text + pieces[0],
            pieces.skip(1),
            capacity,
        )
    }
}

/// The decimal digits of `n`, most significant first.
pub open spec fn decimal(n: nat) -> Seq<u8>
    decreases n,
{
    if n < 10 {
        seq![(48 + n) as u8]
    } else {
        decimal(n / 10).push((48 + n % 10) as u8)
    }
}

/// The lower-case hexadecimal digit of `n`.
pub open spec fn hex_digit(n: nat) -> u8 {
    if n < 10 {
        (48 + n) as u8
    } else {
        (87 + n) as u8
    }
}

/// The lower-case hexadecimal digits of `n`, most significant first.
pub open spec fn hexadecimal(n: nat) -> Seq<u8>
    decreases n,
{
    if n < 16 {
        seq![hex_digit(n)]
    } else {
        hexadecimal(n / 16).push(hex_digit(n % 16))
    }
}

/// The text of a byte sequence, by `core::str::from_utf8`: bytes that are valid
/// UTF-8 are the text whose encoding they are, and other bytes are refused.
#[verifier::external_body]
pub(crate) fn utf8_text(bytes: &[u8]) -> (text: Option<&str>)
    ensures
        text is Some <==> valid_utf8(bytes@),
        text matches Some(valid) ==> valid.spec_bytes() == bytes@,
{
    match core::str::from_utf8(bytes) {
        Ok(text) => Some(text),
        Err(_) => None,
    }
}

impl<const N: usize> InlineString<N> {
    #[verifier::type_invariant]
    spec fn holds_text(self) -> bool {
        &&& self.len <= N
        &&& valid_utf8(self.buf@.subrange(0, self.len as int))
    }

    pub fn new() -> (text: Self)
        ensures
            text@ == Seq::<u8>::empty(),
    {
        let buf: [u8; N] = [0u8; N];
        assert(buf@.subrange(0, 0) =~= Seq::<u8>::empty());
        Self { buf, len: 0 }
    }

    /// The characters of `text` that lie in its first `N` bytes.
    pub fn from_str(text: &str) -> (value: Self)
        ensures
            value@ == cut(text.spec_bytes(), N as nat),
            valid_utf8(value@),
    {
        let bytes = text.as_bytes();
        proof {
            encode_utf8_valid_utf8(text@);
            is_char_boundary_start_end_of_seq(bytes@);
        }
        let mut end: usize = bytes.len();
        if end > N {
            end = N;
            while end > 0 && !text.is_char_boundary(end)
                invariant
                    end <= N < bytes@.len(),
                    bytes@ == text.spec_bytes(),
                    boundary_at(bytes@, end as int) == boundary_at(bytes@, N as int),
                decreases end,
            {
                end -= 1;
            }
        }
        proof {
            assert(bytes@.take(bytes@.len() as int) =~= bytes@);
            valid_utf8_split(bytes@, end as int);
            assert(bytes@.subrange(0, end as int) =~= bytes@.take(end as int));
        }
        let mut buf: [u8; N] = [0u8; N];
        let mut index: usize = 0;
        while index < end
            invariant
                index <= end <= bytes@.len(),
                end <= N,
                buf@.subrange(0, index as int) == bytes@.subrange(0, index as int),
            decreases end - index,
        {
            buf[index] = bytes[index];
            index += 1;
            assert(buf@.subrange(0, index as int) =~= bytes@.subrange(0, index as int));
        }
        Self { buf, len: index }
    }

    pub fn clear(&mut self)
        ensures
            final(self)@ == Seq::<u8>::empty(),
    {
        assert(self.buf@.subrange(0, 0) =~= Seq::<u8>::empty());
        self.len = 0;
    }

    /// Replaces the text; a text that does not fit leaves the buffer empty.
    pub fn set(&mut self, text: &str)
        ensures
            final(self)@ == appended(Seq::empty(), text.spec_bytes(), N as nat),
    {
        self.clear();
        let _ = self.push_str(text);
    }

    /// Appends one ASCII byte. Other bytes, and a full buffer, are refused.
    pub fn push_byte(&mut self, byte: u8) -> (result: Result<(), ()>)
        ensures
            result is Ok <==> byte < 128 && old(self)@.len() < N,
            result is Ok ==> final(self)@ == old(self)@.push(byte),
            result is Err ==> final(self)@ == old(self)@,
    {
        proof {
            use_type_invariant(&*self);
        }
        if byte >= 128 || self.len >= N {
            return Err(());
        }
        let at: usize = self.len;
        let mut buf = self.buf;
        buf[at] = byte;
        proof {
            law_push_keeps_utf8(self@, byte);
            assert(buf@.subrange(0, at + 1) =~= self@.push(byte));
        }
        *self = Self { buf, len: at + 1 };
        Ok(())
    }

    /// Appends a text whole, or refuses it.
    pub fn push_str(&mut self, text: &str) -> (result: Result<(), ()>)
        ensures
            result is Ok <==> old(self)@.len() + text.spec_bytes().len() <= N,
            final(self)@ == appended(old(self)@, text.spec_bytes(), N as nat),
    {
        proof {
            encode_utf8_valid_utf8(text@);
        }
        self.push_bytes(text.as_bytes())
    }

    /// Appends the bytes of a text whole, or refuses it.
    pub fn push_bytes(&mut self, bytes: &[u8]) -> (result: Result<(), ()>)
        requires
            valid_utf8(bytes@),
        ensures
            result is Ok <==> old(self)@.len() + bytes@.len() <= N,
            final(self)@ == appended(old(self)@, bytes@, N as nat),
    {
        proof {
            use_type_invariant(&*self);
        }
        if bytes.len() > N - self.len {
            return Err(());
        }
        let start: usize = self.len;
        let end: usize = start + bytes.len();
        let mut buf = self.buf;
        let mut index: usize = 0;
        while index < bytes.len()
            invariant
                start + bytes@.len() == end <= N,
                index <= bytes@.len(),
                old(self)@.len() == start,
                buf@.subrange(0, start + index) == old(self)@ + bytes@.subrange(0, index as int),
            decreases bytes@.len() - index,
        {
            let ghost before = buf@.subrange(0, start + index);
            buf[start + index] = bytes[index];
            index += 1;
            assert(buf@.subrange(0, start + index) =~= before.push(bytes@[index - 1]));
            assert(buf@.subrange(0, start + index) =~= old(self)@ + bytes@.subrange(
                0,
                index as int,
            ));
        }
        proof {
            assert(bytes@.subrange(0, bytes@.len() as int) =~= bytes@);
            valid_utf8_concat(old(self)@, bytes@);
        }
        *self = Self { buf, len: end };
        Ok(())
    }

    /// Removes the last character, and returns its last byte.
    pub fn pop(&mut self) -> (byte: Option<u8>)
        ensures
            byte is None <==> old(self)@.len() == 0,
            byte is None ==> final(self)@ == old(self)@,
            byte matches Some(last) ==> last == old(self)@.last() && final(self)@ == without_last(
                old(self)@,
            ),
    {
        proof {
            use_type_invariant(&*self);
        }
        if self.len == 0 {
            return None;
        }
        let last: u8 = self.buf[self.len - 1];
        let mut end: usize = self.len - 1;
        while end > 0 && 128 <= self.buf[end] && self.buf[end] < 192
            invariant
                *self == *old(self),
                self@ == self.buf@.subrange(0, self.len as int),
                valid_utf8(self@),
                end < self.len <= N,
                boundary_at(self@, end as int) == boundary_at(self@, self@.len() - 1),
            decreases end,
        {
            proof {
                is_char_boundary_iff_not_is_continuation_byte(self@, end as int);
            }
            end -= 1;
        }
        proof {
            is_char_boundary_iff_not_is_continuation_byte(self@, end as int);
            is_char_boundary_start_end_of_seq(self@);
        }
        self.truncate(end);
        Some(last)
    }

    pub fn as_bytes(&self) -> (bytes: &[u8])
        ensures
            bytes@ == self@,
            bytes@.len() <= N,
            valid_utf8(bytes@),
    {
        proof {
            use_type_invariant(self);
        }
        slice_subrange(self.buf.as_slice(), 0, self.len)
    }

    /// The text.
    pub fn as_str(&self) -> (text: &str)
        ensures
            text.spec_bytes() == self@,
            self@.len() <= N,
    {
        match utf8_text(self.as_bytes()) {
            Some(text) => text,
            None => "",
        }
    }

    pub fn is_empty(&self) -> (empty: bool)
        ensures
            empty == (self@.len() == 0),
    {
        proof {
            use_type_invariant(self);
        }
        self.len == 0
    }

    pub fn len(&self) -> (length: usize)
        ensures
            length == self@.len(),
            length <= N,
    {
        proof {
            use_type_invariant(self);
        }
        self.len
    }

    /// Keeps the first `new_len` bytes, which must end at a character.
    pub fn truncate(&mut self, new_len: usize)
        requires
            new_len <= old(self)@.len(),
            is_char_boundary(old(self)@, new_len as int),
        ensures
            final(self)@ == old(self)@.take(new_len as int),
    {
        proof {
            use_type_invariant(&*self);
            valid_utf8_split(self@, new_len as int);
            assert(self@.subrange(0, new_len as int) =~= self@.take(new_len as int));
            assert(self.buf@.subrange(0, new_len as int) =~= self@.take(new_len as int));
        }
        self.len = new_len;
    }

    /// Writes a piece of text, as [`Self::push_str`].
    pub fn write_str(&mut self, s: &str) -> (result: Result<(), ()>)
        ensures
            result is Ok <==> old(self)@.len() + s.spec_bytes().len() <= N,
            final(self)@ == appended(old(self)@, s.spec_bytes(), N as nat),
    {
        self.push_str(s)
    }

    /// Writes pieces one after the other up to the first that does not fit.
    pub fn write_pieces(&mut self, pieces: &[Vec<u8>]) -> (result: Result<(), ()>)
        requires
            all_text(piece_views(pieces@)),
        ensures
            result is Ok <==> fits(old(self)@, piece_views(pieces@), N as nat),
            final(self)@ == written(old(self)@, piece_views(pieces@), N as nat),
    {
        let mut index: usize = 0;
        proof {
            assert(piece_views(pieces@).skip(0) =~= piece_views(pieces@));
        }
        while index < pieces.len()
            invariant
                index <= pieces@.len(),
                all_text(piece_views(pieces@)),
                written(self@, piece_views(pieces@).skip(index as int), N as nat) == written(
                    old(self)@,
                    piece_views(pieces@),
                    N as nat,
                ),
                fits(self@, piece_views(pieces@).skip(index as int), N as nat) == fits(
                    old(self)@,
                    piece_views(pieces@),
                    N as nat,
                ),
            decreases pieces@.len() - index,
        {
            let ghost rest = piece_views(pieces@).skip(index as int);
            assert(valid_utf8(piece_views(pieces@)[index as int]));
            assert(rest[0] == pieces@[index as int]@);
            assert(rest.skip(1) =~= piece_views(pieces@).skip(index + 1));
            let piece = &pieces[index];
            if self.push_bytes(piece.as_slice()).is_err() {
                return Err(());
            }
            index += 1;
        }
        Ok(())
    }
}

/// Whether each piece is UTF-8.
pub open spec fn all_text(pieces: Seq<Seq<u8>>) -> bool {
    forall|i: int| 0 <= i < pieces.len() ==> valid_utf8(#[trigger] pieces[i])
}

/// The bytes of each piece.
pub open spec fn piece_views(pieces: Seq<Vec<u8>>) -> Seq<Seq<u8>> {
    pieces.map_values(|piece: Vec<u8>| piece@)
}

impl<const N: usize> Default for InlineString<N> {
    fn default() -> (text: Self)
        ensures
            text@ == Seq::<u8>::empty(),
    {
        Self::new()
    }
}

/// Decimal digits are text.
pub proof fn lemma_decimal_text(n: nat)
    ensures
        valid_utf8(decimal(n)),
    decreases n,
{
    let rest = if n < 10 {
        Seq::empty()
    } else {
        decimal(n / 10)
    };
    if n >= 10 {
        lemma_decimal_text(n / 10);
    }
    law_push_keeps_utf8(rest, (48 + n % 10) as u8);
    assert(decimal(n) =~= rest.push((48 + n % 10) as u8));
}

/// Hexadecimal digits are text.
pub proof fn lemma_hexadecimal_text(n: nat)
    ensures
        valid_utf8(hexadecimal(n)),
    decreases n,
{
    let rest = if n < 16 {
        Seq::empty()
    } else {
        hexadecimal(n / 16)
    };
    if n >= 16 {
        lemma_hexadecimal_text(n / 16);
    }
    law_push_keeps_utf8(rest, hex_digit(n % 16));
    assert(hexadecimal(n) =~= rest.push(hex_digit(n % 16)));
}

/// The decimal digits of `n`.
pub fn decimal_digits(n: u64) -> (digits: Vec<u8>)
    ensures
        digits@ == decimal(n as nat),
        valid_utf8(digits@),
    decreases n,
{
    proof {
        lemma_decimal_text(n as nat);
    }
    if n < 10 {
        let mut digits: Vec<u8> = Vec::new();
        digits.push(48 + n as u8);
        assert(digits@ =~= decimal(n as nat));
        digits
    } else {
        let mut digits = decimal_digits(n / 10);
        digits.push(48 + (n % 10) as u8);
        digits
    }
}

/// The lower-case hexadecimal digits of `n`.
pub fn hexadecimal_digits(n: u64) -> (digits: Vec<u8>)
    ensures
        digits@ == hexadecimal(n as nat),
        valid_utf8(digits@),
    decreases n,
{
    proof {
        lemma_hexadecimal_text(n as nat);
    }
    let low: u8 = (n % 16) as u8;
    let digit: u8 = if low < 10 { 48 + low } else { 87 + low };
    if n < 16 {
        let mut digits: Vec<u8> = Vec::new();
        digits.push(digit);
        assert(digits@ =~= hexadecimal(n as nat));
        digits
    } else {
        let mut digits = hexadecimal_digits(n / 16);
        digits.push(digit);
        digits
    }
}

/// The bytes of a text, as a piece to write.
pub fn text_piece(text: &str) -> (piece: Vec<u8>)
    ensures
        piece@ == text.spec_bytes(),
        valid_utf8(piece@),
{
    proof {
        encode_utf8_valid_utf8(text@);
    }
    text.as_bytes_vec()
}

/// Appending text to valid text keeps it valid.
pub proof fn law_append_keeps_utf8(text: Seq<u8>, piece: Seq<u8>, capacity: nat)
    requires
        valid_utf8(text),
        valid_utf8(piece),
    ensures
        valid_utf8(appended(text, piece, capacity)),
{
    vstd::utf8::valid_utf8_concat(text, piece);
}

/// Appending an ASCII byte to valid text keeps it valid.
pub proof fn law_push_keeps_utf8(text: Seq<u8>, byte: u8)
    requires
        valid_utf8(text),
        byte < 128,
    ensures
        valid_utf8(text.push(byte)),
{
    let one = seq![byte];
    vstd::utf8::utf8_byte_ranges_bitwise(byte);
    reveal_with_fuel(vstd::utf8::valid_utf8, 2);
    assert(vstd::utf8::pop_first_scalar(one) =~= Seq::<u8>::empty());
    vstd::utf8::valid_utf8_concat(text, one);
    assert(text.push(byte) =~= text + one);
}

/// Cutting a text short leaves a text.
pub proof fn law_cut_keeps_utf8(text: Seq<u8>, at: int)
    requires
        valid_utf8(text),
        at <= text.len(),
    ensures
        0 <= boundary_at(text, at) <= text.len(),
        at >= 0 ==> boundary_at(text, at) <= at,
        is_char_boundary(text, boundary_at(text, at)),
        valid_utf8(text.take(boundary_at(text, at))),
    decreases at,
{
    if at > 0 && !is_char_boundary(text, at) {
        law_cut_keeps_utf8(text, at - 1);
    } else {
        let end = if at <= 0 {
            0
        } else {
            at
        };
        is_char_boundary_start_end_of_seq(text);
        valid_utf8_split(text, end);
        assert(text.subrange(0, end) =~= text.take(end));
    }
}

/// Popping gives back what was pushed and restores the text.
pub proof fn law_pop_undoes_push(text: Seq<u8>, byte: u8)
    requires
        valid_utf8(text),
        byte < 128,
    ensures
        text.push(byte).last() == byte,
        without_last(text.push(byte)) == text,
{
    let longer = text.push(byte);
    law_push_keeps_utf8(text, byte);
    is_char_boundary_iff_not_is_continuation_byte(longer, text.len() as int);
    assert(longer.take(text.len() as int) =~= text);
}

} // verus!
