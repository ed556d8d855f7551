use rustix_vkernel::chars;
use rustix_vkernel::fixed::InlineString;
use rustix_vkernel::lines::Line;
use rustix_vkernel::numbers;
use rustix_vkernel::print;

fn letters(text: &str) -> Vec<char> {
    text.chars().collect()
}

#[test]
fn texts_keep_what_fits() {
    let mut text = InlineString::<8>::new();
    assert!(text.is_empty());
    assert_eq!(text.push_str("abc"), Ok(()));
    assert_eq!(text.push_str("defgh"), Ok(()));
    assert_eq!(text.push_str("i"), Err(()));
    assert_eq!(text.as_str(), "abcdefgh");
    assert_eq!(text.len(), 8);
    assert_eq!(text.pop(), Some(b'h'));
    assert_eq!(text.push_byte(b'!'), Ok(()));
    assert_eq!(text.as_str(), "abcdefg!");
    text.truncate(2);
    assert_eq!(text.as_bytes(), b"ab");
    text.set("xyz");
    assert_eq!(text.as_str(), "xyz");
    text.clear();
    assert_eq!(text.pop(), None);
}

#[test]
fn texts_refuse_bytes_that_are_no_letters() {
    let mut text = InlineString::<4>::new();
    assert_eq!(text.push_byte(0x80), Err(()));
    assert_eq!(text.push_byte(0x7f), Ok(()));
    assert_eq!(text.len(), 1);
}

#[test]
fn texts_hold_other_scripts() {
    let text = InlineString::<16>::from_str("帮助");
    assert_eq!(text.as_str(), "帮助");
    assert_eq!(text.len(), 6);
}

#[test]
fn texts_are_cut_between_letters() {
    assert_eq!(InlineString::<5>::from_str("帮助").as_str(), "帮");
    assert_eq!(InlineString::<2>::from_str("帮助").as_str(), "");
    assert_eq!(InlineString::<6>::from_str("帮助!").as_str(), "帮助");
    assert_eq!(InlineString::<3>::from_str("abcd").as_str(), "abc");
}

#[test]
fn popping_takes_a_letter_off_whole() {
    let mut text = InlineString::<8>::from_str("a帮é");
    assert_eq!(text.pop(), Some(0xa9));
    assert_eq!(text.as_str(), "a帮");
    assert!(text.pop().is_some());
    assert_eq!(text.as_str(), "a");
    assert_eq!(text.pop(), Some(b'a'));
    assert_eq!(text.pop(), None);
    assert_eq!(text.as_str(), "");
}

#[test]
fn popping_undoes_pushing() {
    let mut text = InlineString::<4>::from_str("ab");
    assert_eq!(text.push_byte(b'c'), Ok(()));
    assert_eq!(text.pop(), Some(b'c'));
    assert_eq!(text.as_str(), "ab");
}

#[test]
fn lines_stop_at_the_first_piece_that_does_not_fit() {
    let line = Line::new().text("n=").number(12).text(" x=0x").hexadecimal(0xbeef).text("!");
    assert_eq!(line.fill::<32>().as_str(), "n=12 x=0xbeef!");
    assert_eq!(line.fill::<12>().as_str(), "n=12 x=0x");
    assert_eq!(Line::new().signed(-7).byte(5).byte(0xab).fill::<16>().as_str(), "-705ab");
    assert_eq!(Line::new().padded(0x1d, 4).padded(0x12345, 4).fill::<16>().as_str(), "001d12345");
}

#[test]
fn numbers_are_read_with_their_sign() {
    assert_eq!(numbers::parse_unsigned(&letters("42"), 10, 255), Some(42));
    assert_eq!(numbers::parse_unsigned(&letters("+42"), 10, 255), Some(42));
    assert_eq!(numbers::parse_unsigned(&letters("256"), 10, 255), None);
    assert_eq!(numbers::parse_unsigned(&letters(""), 10, 255), None);
    assert_eq!(numbers::parse_unsigned(&letters("+"), 10, 255), None);
    assert_eq!(numbers::parse_unsigned(&letters("-1"), 10, 255), None);
    assert_eq!(numbers::parse_unsigned(&letters("1x"), 10, 255), None);
    assert_eq!(numbers::parse_unsigned(&letters("fF"), 16, u64::MAX), Some(255));
    assert_eq!(
        numbers::parse_unsigned(&letters("ffffffffffffffff"), 16, u64::MAX),
        Some(u64::MAX)
    );
    assert_eq!(numbers::parse_unsigned(&letters("10000000000000000"), 16, u64::MAX), None);
    assert_eq!(numbers::parse_signed(&letters("-128"), 127), Some(-128));
    assert_eq!(numbers::parse_signed(&letters("-129"), 127), None);
    assert_eq!(numbers::parse_signed(&letters("127"), 127), Some(127));
    assert_eq!(numbers::parse_signed(&letters("128"), 127), None);
    assert_eq!(numbers::parse_signed(&letters("-"), 127), None);
    assert_eq!(numbers::parse_signed(&letters("-0"), 127), Some(0));
}

#[test]
fn texts_are_split_and_trimmed() {
    assert_eq!(chars::trim(&letters("  a b \n")), letters("a b"));
    let words = chars::split_whitespace(&letters(" one\ttwo  three "), 2);
    assert_eq!(words, vec![letters("one"), letters("two")]);
    assert_eq!(
        chars::lines(&letters("a\r\nb\n")),
        vec![letters("a"), letters("b")]
    );
    assert_eq!(
        chars::split_once(&letters("key=value=x"), &letters("=")),
        Some((letters("key"), letters("value=x")))
    );
    assert_eq!(chars::split_once(&letters("key"), &letters("=")), None);
    assert_eq!(chars::parse_u32(&letters("99999999999")), Some(u32::MAX));
    assert_eq!(chars::parse_u32(&letters("9a")), None);
    assert_eq!(chars::encode(&letters("é帮😀")), "é帮😀".as_bytes().to_vec());
    assert!(chars::is(&letters("help"), "help"));
    assert!(!chars::is(&letters("help"), "hell"));
}

#[test]
fn printed_lines_are_cut_at_their_end() {
    let mut buffer = print::Buffer::new();
    assert_eq!(buffer.write_str("boot "), Ok(()));
    assert_eq!(buffer.write_str("ok"), Ok(()));
    assert_eq!(buffer.as_str(), "boot ok");
    let long = "x".repeat(1020);
    let mut full = print::Buffer::new();
    assert_eq!(full.write_str(&long), Ok(()));
    assert_eq!(full.write_str("yyyyyyyy"), Ok(()));
    assert_eq!(full.as_bytes().len(), 1024);
    assert_eq!(&full.as_str()[1018..], "xxyyyy");
}

#[test]
fn a_cut_character_leaves_no_line() {
    let mut buffer = print::Buffer::new();
    assert_eq!(buffer.write_str(&"x".repeat(1023)), Ok(()));
    assert_eq!(buffer.write_str("帮"), Ok(()));
    assert_eq!(buffer.as_bytes().len(), 1024);
    assert_eq!(buffer.as_str(), "");
}

#[test]
fn a_line_has_an_end() {
    let line = print::println(Line::new().text("[boot] ").number(7));
    assert_eq!(line.as_str(), "[boot] 7\n");
}
