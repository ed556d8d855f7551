//! The lines that the kernel prints while it starts.
use crate::fixed;
use crate::lines::Line;
use crate::text;
use vstd::prelude::*;
use vstd::string::StringSliceAdditionalSpecFns;
use vstd::utf8::*;

verus! {

/// The bytes of a line for which there is room.
pub const CAPACITY: usize = 1024;

/// A line that is put together; what there is no room for is lost.
pub struct Buffer {
    bytes: Vec<u8>,
}

impl View for Buffer {
    type V = Seq<u8>;

    closed spec fn view(&self) -> Seq<u8> {
        self.bytes@
    }
}

/// Text with a piece behind it, as far as there is room.
pub open spec fn clipped(text: Seq<u8>, piece: Seq<u8>) -> Seq<u8> {
    if text.len() + piece.len() <= CAPACITY {
        text + piece
    } else {
        (text + piece).take(CAPACITY as int)
    }
}

/// Pieces one behind the other, as far as there is room.
pub open spec fn printed(pieces: Seq<Seq<u8>>) -> Seq<u8>
    decreases pieces.len(),
{
    if pieces.len() == 0 {
        Seq::empty()
    } else {
        clipped(printed(pieces.drop_last()), pieces.last())
    }
}

/// A line of pieces, with its end.
pub open spec fn line_of(pieces: Seq<Seq<u8>>) -> Seq<u8> {
    clipped(printed(pieces), text::literal("\n"))
}

impl Buffer {
    #[verifier::type_invariant]
    spec fn in_capacity(self) -> bool {
        self.bytes@.len() <= CAPACITY
    }

    pub fn new() -> (buffer: Self)
        ensures
            buffer@ == Seq::<u8>::empty(),
    {
        Buffer { bytes: Vec::new() }
    }

    /// The line, unless a character was cut.
    pub fn as_str(&self) -> (text: &str)
        ensures
            valid_utf8(self@) ==> text.spec_bytes() == self@,
            !valid_utf8(self@) ==> text@ == ""@,
    {
        match fixed::utf8_text(self.bytes.as_slice()) {
            Some(text) => text,
            None => "",
        }
    }

    /// The bytes of the line.
    pub fn as_bytes(&self) -> (bytes: &[u8])
        ensures
            bytes@ == self@,
            bytes@.len() <= CAPACITY,
    {
        proof {
            use_type_invariant(self);
        }
        self.bytes.as_slice()
    }

    pub fn write_str(&mut self, s: &str) -> (result: Result<(), ()>)
        ensures
            final(self)@ == clipped(old(self)@, s.spec_bytes()),
            result is Ok,
    {
        self.write_bytes(s.as_bytes());
        Ok(())
    }

    pub fn write_bytes(&mut self, bytes: &[u8])
        ensures
            final(self)@ == clipped(old(self)@, bytes@),
    {
        proof {
            use_type_invariant(&*self);
        }
        let mut all: Vec<u8> = Vec::new();
        core::mem::swap(&mut all, &mut self.bytes);
        let ghost before = all@;
        let mut index: usize = 0;
        while index < bytes.len() && all.len() < CAPACITY
            invariant
                index <= bytes@.len(),
                all@ == before + bytes@.take(index as int),
                before.len() <= CAPACITY,
                all@.len() <= CAPACITY,
            decreases bytes@.len() - index,
        {
            all.push(bytes[index]);
            index += 1;
            assert(all@ =~= before + bytes@.take(index as int));
        }
        assert(all@ =~= clipped(before, bytes@));
        self.bytes = all;
    }
}

/// Puts pieces together to a line with its end.
pub fn println(line: Line) -> (buffer: Buffer)
    ensures
        buffer@ == line_of(line@),
{
    let pieces = line.into_pieces();
    let mut buffer = Buffer::new();
    let mut index: usize = 0;
    let ghost views = fixed::piece_views(pieces@);
    assert(views.take(0) =~= Seq::<Seq<u8>>::empty());
    while index < pieces.len()
        invariant
            index <= pieces@.len(),
            views == fixed::piece_views(pieces@),
            buffer@ == printed(views.take(index as int)),
        decreases pieces@.len() - index,
    {
        buffer.write_bytes(pieces[index].as_slice());
        index += 1;
        assert(views.take(index as int).drop_last() =~= views.take(index - 1));
    }
    assert(views.take(index as int) =~= views);
    buffer.write_bytes(text::literal_bytes("\n"));
    buffer
}

/// How long pieces are together.
pub open spec fn total(pieces: Seq<Seq<u8>>) -> nat
    decreases pieces.len(),
{
    if pieces.len() == 0 {
        0
    } else {
        total(pieces.drop_last()) + pieces.last().len()
    }
}

/// A line is as long as its pieces, or as long as there is room: nothing else is lost.
pub proof fn law_lines_are_cut_only_at_the_end(pieces: Seq<Seq<u8>>)
    ensures
        printed(pieces).len() == (if total(pieces) <= CAPACITY {
            total(pieces) as int
        } else {
            CAPACITY as int
        }),
    decreases pieces.len(),
{
    if pieces.len() > 0 {
        law_lines_are_cut_only_at_the_end(pieces.drop_last());
    }
}

} // verus!
