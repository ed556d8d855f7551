//! Lines of text that are put together of pieces.
use crate::fixed;
use crate::fixed::InlineString;
use crate::text;
use vstd::prelude::*;
use vstd::utf8::*;

verus! {

/// The sign of a number and its digits: one piece, or two for a negative number.
pub open spec fn signed_pieces(value: int) -> Seq<Seq<u8>> {
    if value < 0 {
        seq![seq![45u8], fixed::decimal((-value) as nat)]
    } else {
        seq![fixed::decimal(value as nat)]
    }
}

/// The two hexadecimal digits of a byte: one piece, or two if the first is a zero.
pub open spec fn byte_pieces(value: u8) -> Seq<Seq<u8>> {
    if value < 16 {
        seq![seq![48u8], fixed::hexadecimal(value as nat)]
    } else {
        seq![fixed::hexadecimal(value as nat)]
    }
}

/// So many zeros.
pub open spec fn zeros(count: nat) -> Seq<u8> {
    Seq::new(count, |i: int| 48u8)
}

/// The hexadecimal digits of a number, with zeros in front up to a width.
pub open spec fn padded_digits(value: nat, width: nat) -> Seq<u8> {
    let digits = fixed::hexadecimal(value);
    if digits.len() >= width {
        digits
    } else {
        zeros((width - digits.len()) as nat) + digits
    }
}

/// No pieces.
pub open spec fn none() -> Seq<Seq<u8>> {
    Seq::empty()
}

/// What a buffer of a capacity holds of pieces.
pub open spec fn filled(pieces: Seq<Seq<u8>>, capacity: nat) -> Seq<u8> {
    fixed::written(Seq::empty(), pieces, capacity)
}

/// Pieces of text in a row, each of them UTF-8.
pub struct Line {
    pieces: Vec<Vec<u8>>,
}

impl View for Line {
    type V = Seq<Seq<u8>>;

    closed spec fn view(&self) -> Seq<Seq<u8>> {
        fixed::piece_views(self.pieces@)
    }
}

impl Line {
    #[verifier::type_invariant]
    spec fn holds_text(self) -> bool {
        fixed::all_text(fixed::piece_views(self.pieces@))
    }

    pub fn new() -> (line: Self)
        ensures
            line@ == Seq::<Seq<u8>>::empty(),
    {
        let pieces: Vec<Vec<u8>> = Vec::new();
        assert(fixed::piece_views(pieces@) =~= Seq::<Seq<u8>>::empty());
        let line = Line { pieces };
        assert(line@ =~= Seq::<Seq<u8>>::empty());
        line
    }

    /// Adds a piece.
    pub fn piece(self, piece: Vec<u8>) -> (line: Self)
        requires
            valid_utf8(piece@),
        ensures
            line@ == self@.push(piece@),
    {
        proof {
            use_type_invariant(&self);
        }
        let mut pieces = self.pieces;
        let ghost before = fixed::piece_views(pieces@);
        pieces.push(piece);
        assert(fixed::piece_views(pieces@) =~= before.push(piece@));
        let line = Line { pieces };
        assert(line@ =~= self@.push(piece@));
        line
    }

    /// Adds a text that stands in the source.
    pub fn text(self, text: &str) -> (line: Self)
        ensures
            line@ == self@.push(text::literal(text)),
    {
        self.bytes(text::literal_bytes(text))
    }

    /// Adds a text.
    pub fn word(self, text: &str) -> (line: Self)
        ensures
            line@ == self@.push(text::utf8(text@)),
    {
        self.bytes(text::utf8_bytes(text))
    }

    /// Adds the bytes of a text.
    pub fn bytes(self, bytes: &[u8]) -> (line: Self)
        requires
            valid_utf8(bytes@),
        ensures
            line@ == self@.push(bytes@),
    {
        let mut piece: Vec<u8> = Vec::new();
        let mut index: usize = 0;
        while index < bytes.len()
            invariant
                index <= bytes@.len(),
                piece@ == bytes@.take(index as int),
            decreases bytes@.len() - index,
        {
            piece.push(bytes[index]);
            index += 1;
            assert(piece@ =~= bytes@.take(index as int));
        }
        assert(bytes@.take(index as int) =~= bytes@);
        self.piece(piece)
    }

    /// Adds the decimal digits of a number.
    pub fn number(self, value: u64) -> (line: Self)
        ensures
            line@ == self@.push(fixed::decimal(value as nat)),
    {
        self.piece(fixed::decimal_digits(value))
    }

    /// Adds the sign and the decimal digits of a number.
    pub fn signed(self, value: i64) -> (line: Self)
        ensures
            line@ == self@ + signed_pieces(value as int),
    {
        if value < 0 {
            let mut sign: Vec<u8> = Vec::new();
            sign.push(45);
            assert(sign@ =~= Seq::<u8>::empty().push(45));
            proof {
                fixed::law_push_keeps_utf8(Seq::empty(), 45);
            }
            let size: u64 = (-(value as i128)) as u64;
            let line = self.piece(sign).piece(fixed::decimal_digits(size));
            assert(line@ =~= self@ + signed_pieces(value as int));
            line
        } else {
            let line = self.piece(fixed::decimal_digits(value as u64));
            assert(line@ =~= self@ + signed_pieces(value as int));
            line
        }
    }

    /// Adds the hexadecimal digits of a number.
    pub fn hexadecimal(self, value: u64) -> (line: Self)
        ensures
            line@ == self@.push(fixed::hexadecimal(value as nat)),
    {
        self.piece(fixed::hexadecimal_digits(value))
    }

    /// Adds the two hexadecimal digits of a byte.
    pub fn byte(self, value: u8) -> (line: Self)
        ensures
            line@ == self@ + byte_pieces(value),
    {
        if value < 16 {
            let mut zero: Vec<u8> = Vec::new();
            zero.push(48);
            assert(zero@ =~= Seq::<u8>::empty().push(48));
            proof {
                fixed::law_push_keeps_utf8(Seq::empty(), 48);
            }
            let line = self.piece(zero).piece(fixed::hexadecimal_digits(value as u64));
            assert(line@ =~= self@ + byte_pieces(value));
            line
        } else {
            let line = self.piece(fixed::hexadecimal_digits(value as u64));
            assert(line@ =~= self@ + byte_pieces(value));
            line
        }
    }

    /// The pieces.
    pub fn into_pieces(self) -> (pieces: Vec<Vec<u8>>)
        ensures
            fixed::piece_views(pieces@) == self@,
    {
        self.pieces
    }

    /// Adds the hexadecimal digits of a number, with zeros in front up to a width.
    pub fn padded(self, value: u64, width: usize) -> (line: Self)
        ensures
            line@ == self@.push(padded_digits(value as nat, width as nat)),
    {
        let mut digits: Vec<u8> = fixed::hexadecimal_digits(value);
        let mut piece: Vec<u8> = Vec::new();
        let count: usize = digits.len();
        while count < width && piece.len() < width - count
            invariant
                valid_utf8(piece@),
                piece@ == zeros(piece@.len()),
                count < width ==> piece@.len() <= width - count,
                count >= width ==> piece@.len() == 0,
            decreases width - piece.len(),
        {
            proof {
                fixed::law_push_keeps_utf8(piece@, 48);
            }
            piece.push(48);
            assert(piece@ =~= zeros(piece@.len()));
        }
        let ghost front = piece@;
        let ghost back = digits@;
        piece.append(&mut digits);
        assert(piece@ =~= front + back);
        proof {
            valid_utf8_concat(front, back);
        }
        assert(piece@ =~= padded_digits(value as nat, width as nat));
        self.piece(piece)
    }

    /// Puts the pieces into a buffer, up to the first that does not fit.
    pub fn fill<const N: usize>(&self) -> (buffer: InlineString<N>)
        ensures
            buffer@ == filled(self@, N as nat),
    {
        let mut buffer: InlineString<N> = InlineString::new();
        proof {
            use_type_invariant(self);
        }
        let _ = buffer.write_pieces(self.pieces.as_slice());
        buffer
    }

    /// Puts the pieces behind what a buffer holds, up to the first that does not fit.
    pub fn append<const N: usize>(&self, buffer: &mut InlineString<N>)
        ensures
            final(buffer)@ == fixed::written(old(buffer)@, self@, N as nat),
    {
        proof {
            use_type_invariant(self);
        }
        let _ = buffer.write_pieces(self.pieces.as_slice());
    }
}

} // verus!
