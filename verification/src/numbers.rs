//! Whole numbers as they are written in commands: an optional sign, then digits.
use vstd::prelude::*;

verus! {

/// The value of a digit or a letter.
pub open spec fn digit_of(ch: char) -> int {
    if '0' <= ch <= '9' {
        ch as u32 - 48
    } else if 'a' <= ch <= 'z' {
        ch as u32 - 87
    } else if 'A' <= ch <= 'Z' {
        ch as u32 - 55
    } else {
        36
    }
}

/// The value of digits to a base, if all of them are digits to that base.
pub open spec fn value_of(digits: Seq<char>, base: int) -> Option<int>
    decreases digits.len(),
{
    if digits.len() == 0 {
        Some(0)
    } else {
        match value_of(digits.drop_last(), base) {
            Some(value) => if digit_of(digits.last()) < base {
                Some(value * base + digit_of(digits.last()))
            } else {
                None
            },
            None => None,
        }
    }
}

/// The number that one or more digits to a base write, if it is at most `most`.
pub open spec fn magnitude(digits: Seq<char>, base: int, most: int) -> Option<int> {
    match value_of(digits, base) {
        Some(value) => if digits.len() > 0 && value <= most {
            Some(value)
        } else {
            None
        },
        None => None,
    }
}

/// A number to a base without a minus sign, if it is at most `most`.
#[verifier::opaque]
pub open spec fn unsigned(text: Seq<char>, base: int, most: int) -> Option<int> {
    if text.len() > 0 && text[0] == '+' {
        magnitude(text.skip(1), base, most)
    } else {
        magnitude(text, base, most)
    }
}

/// A decimal number with an optional sign, from `-most - 1` to `most`.
#[verifier::opaque]
pub open spec fn signed(text: Seq<char>, most: int) -> Option<int> {
    if text.len() > 0 && text[0] == '-' {
        match magnitude(text.skip(1), 10, most + 1) {
            Some(value) => Some(-value),
            None => None,
        }
    } else {
        unsigned(text, 10, most)
    }
}

/// More digits write no smaller a number, and nothing behind a bad digit writes one.
proof fn lemma_prefix(digits: Seq<char>, base: int, count: int)
    requires
        base >= 1,
        0 <= count <= digits.len(),
    ensures
        value_of(digits, base) is Some ==> value_of(digits.take(count), base) is Some && 0
            <= value_of(digits.take(count), base).unwrap() <= value_of(digits, base).unwrap(),
    decreases digits.len(),
{
    if count == digits.len() {
        assert(digits.take(count) =~= digits);
        if digits.len() > 0 {
            let shorter = digits.drop_last();
            lemma_prefix(shorter, base, shorter.len() as int);
            assert(shorter.take(shorter.len() as int) =~= shorter);
            if value_of(digits, base) is Some {
                let value = value_of(shorter, base).unwrap();
                assert(value * base >= 0) by (nonlinear_arith)
                    requires
                        value >= 0,
                        base >= 1,
                ;
            }
        }
    } else {
        let shorter = digits.drop_last();
        lemma_prefix(shorter, base, count);
        lemma_prefix(shorter, base, shorter.len() as int);
        assert(shorter.take(shorter.len() as int) =~= shorter);
        assert(shorter.take(count) =~= digits.take(count));
        if value_of(digits, base) is Some {
            let value = value_of(shorter, base).unwrap();
            assert(value * base >= value) by (nonlinear_arith)
                requires
                    value >= 0,
                    base >= 1,
            ;
        }
    }
}

fn digit(ch: char) -> (value: u32)
    ensures
        value == digit_of(ch),
        value <= 36,
{
    let code: u32 = ch as u32;
    if '0' <= ch && ch <= '9' {
        code - 48
    } else if 'a' <= ch && ch <= 'z' {
        code - 87
    } else if 'A' <= ch && ch <= 'Z' {
        code - 55
    } else {
        36
    }
}

fn parse_from(text: &[char], start: usize, base: u32, most: u64) -> (number: Option<u64>)
    requires
        start <= text@.len(),
        2 <= base <= 36,
    ensures
        match number {
            Some(value) => magnitude(text@.skip(start as int), base as int, most as int) == Some(
                value as int,
            ),
            None => magnitude(text@.skip(start as int), base as int, most as int) is None,
        },
{
    let ghost digits = text@.skip(start as int);
    let mut value: u64 = 0;
    let mut index: usize = start;
    if index == text.len() {
        return None;
    }
    assert(digits.take(0) =~= Seq::<char>::empty());
    while index < text.len()
        invariant
            start <= index <= text@.len(),
            start < text@.len(),
            2 <= base <= 36,
            digits == text@.skip(start as int),
            value <= most,
            value_of(digits.take(index - start), base as int) == Some(value as int),
        decreases text@.len() - index,
    {
        let ghost next = digits.take(index - start + 1);
        assert(next.drop_last() =~= digits.take(index - start));
        assert(next.last() == text@[index as int]);
        let digit: u32 = digit(text[index]);
        proof {
            lemma_prefix(digits, base as int, index - start + 1);
        }
        if digit >= base {
            return None;
        }
        assert(value as int * base as int <= u64::MAX as int * 36) by (nonlinear_arith)
            requires
                value <= u64::MAX,
                0 <= base <= 36,
        ;
        let wide: u128 = value as u128 * base as u128 + digit as u128;
        if wide > most as u128 {
            return None;
        }
        value = wide as u64;
        index += 1;
    }
    assert(digits.take(index - start) =~= digits);
    Some(value)
}

/// Reads a number to a base without a minus sign.
pub fn parse_unsigned(text: &[char], base: u32, most: u64) -> (number: Option<u64>)
    requires
        2 <= base <= 36,
    ensures
        match number {
            Some(value) => unsigned(text@, base as int, most as int) == Some(value as int) && value
                <= most,
            None => unsigned(text@, base as int, most as int) is None,
        },
{
    reveal(unsigned);
    if text.len() > 0 && text[0] == '+' {
        parse_from(text, 1, base, most)
    } else {
        assert(text@.skip(0) =~= text@);
        parse_from(text, 0, base, most)
    }
}

/// Reads a decimal number with an optional sign.
pub fn parse_signed(text: &[char], most: u32) -> (number: Option<i64>)
    ensures
        match number {
            Some(value) => signed(text@, most as int) == Some(value as int) && -most - 1 <= value
                <= most,
            None => signed(text@, most as int) is None,
        },
{
    reveal(signed);
    if text.len() > 0 && text[0] == '-' {
        match parse_from(text, 1, 10, most as u64 + 1) {
            Some(value) => Some(-(value as i64)),
            None => None,
        }
    } else {
        match parse_unsigned(text, 10, most as u64) {
            Some(value) => Some(value as i64),
            None => None,
        }
    }
}

} // verus!
