use serial_flasher::error::ErrorKind;
use serial_flasher::info::{chop, InfoMap};
use serial_flasher::number::{
    decode_hex, digit_of, parse_u32_radix, push_decimal, u32_from_be, u32_from_hex_dec_str,
    u32_from_le,
};
use serial_flasher::text::{
    append, contains_subslice, copy_range, find_byte, has_prefix, is_space_byte, literal,
    matches_at, same_bytes, trim_bounds,
};

fn decimal(n: u32) -> Vec<u8> {
    let mut out = Vec::new();
    push_decimal(&mut out, n);
    out
}

#[test]
fn literal_gives_the_bytes() {
    assert_eq!(literal("Load ready"), b"Load ready");
}

#[test]
fn searching_finds_needles_anywhere() {
    assert!(contains_subslice(b"Flash error 3", b"rror"));
    assert!(contains_subslice(b"rror", b"rror"));
    assert!(contains_subslice(b"xxrror", b"rror"));
    assert!(!contains_subslice(b"rro", b"rror"));
    assert!(!contains_subslice(b"r-r-o-r", b"rror"));
    assert!(contains_subslice(b"abc", b""));
    assert!(contains_subslice(b"", b""));
    assert!(!contains_subslice(b"", b"a"));
    assert!(matches_at(b"abcdef", b"cd", 2));
    assert!(!matches_at(b"abcdef", b"cd", 3));
    assert!(!matches_at(b"abcdef", b"ef", 5));
    assert!(matches_at(b"abcdef", b"", 6));
    assert!(!matches_at(b"abcdef", b"", 7));
}

#[test]
fn prefixes_and_equality() {
    assert!(has_prefix(b"Load ready\r\n", b"Load ready"));
    assert!(!has_prefix(b" Load ready", b"Load ready"));
    assert!(!has_prefix(b"Load", b"Load ready"));
    assert!(same_bytes(b"Write OK\r\n", b"Write OK\r\n"));
    assert!(!same_bytes(b"Write OK\r\n", b"Write OK\r"));
    assert!(!same_bytes(b"Write OK", b"Write Ok"));
}

#[test]
fn copying_and_appending() {
    assert_eq!(copy_range(b"abcdef", 2, 4), b"cd".to_vec());
    assert_eq!(copy_range(b"abcdef", 3, 3), Vec::<u8>::new());
    let mut out = b"ab".to_vec();
    append(&mut out, b"cd");
    assert_eq!(out, b"abcd".to_vec());
}

#[test]
fn finding_bytes_and_trimming() {
    assert_eq!(find_byte(b"a\nb\nc", 0, b'\n'), 1);
    assert_eq!(find_byte(b"a\nb\nc", 2, b'\n'), 3);
    assert_eq!(find_byte(b"a\nb\nc", 4, b'\n'), 5);
    assert!(is_space_byte(b' ') && is_space_byte(b'\t') && is_space_byte(b'\r'));
    assert!(is_space_byte(0x0b) && is_space_byte(0x0c) && is_space_byte(b'\n'));
    assert!(!is_space_byte(0) && !is_space_byte(b'a') && !is_space_byte(0x0e));
    assert_eq!(trim_bounds(b"  ab c \r", 0, 8, false), (2, 6));
    assert_eq!(trim_bounds(b"  ab\0\0", 0, 6, false), (2, 6));
    assert_eq!(trim_bounds(b"  ab\0\0", 0, 6, true), (2, 4));
    assert_eq!(trim_bounds(b"ab \0", 0, 4, true), (0, 3));
    assert_eq!(trim_bounds(b"   ", 0, 3, true), (3, 3));
    assert_eq!(trim_bounds(b"x  y  z", 1, 6, false), (3, 4));
}

#[test]
fn decimal_digits() {
    assert_eq!(decimal(0), b"0".to_vec());
    assert_eq!(decimal(7), b"7".to_vec());
    assert_eq!(decimal(10), b"10".to_vec());
    assert_eq!(decimal(134217728), b"134217728".to_vec());
    assert_eq!(decimal(u32::MAX), b"4294967295".to_vec());
}

#[test]
fn digits_in_a_radix() {
    assert_eq!(digit_of(b'7', 10), Some(7));
    assert_eq!(digit_of(b'a', 10), None);
    assert_eq!(digit_of(b'a', 16), Some(10));
    assert_eq!(digit_of(b'F', 16), Some(15));
    assert_eq!(digit_of(b'g', 16), None);
    assert_eq!(digit_of(b'z', 36), Some(35));
    assert_eq!(digit_of(b' ', 36), None);
}

#[test]
fn parsing_numbers() {
    assert_eq!(parse_u32_radix(b"123", 10), Some(123));
    assert_eq!(parse_u32_radix(b"+7", 10), Some(7));
    assert_eq!(parse_u32_radix(b"0064", 10), Some(64));
    assert_eq!(parse_u32_radix(b"", 10), None);
    assert_eq!(parse_u32_radix(b"+", 10), None);
    assert_eq!(parse_u32_radix(b"-1", 10), None);
    assert_eq!(parse_u32_radix(b"++1", 10), None);
    assert_eq!(parse_u32_radix(b" 1", 10), None);
    assert_eq!(parse_u32_radix(b"1 ", 10), None);
    assert_eq!(parse_u32_radix(b"1_0", 10), None);
    assert_eq!(parse_u32_radix(b"4294967295", 10), Some(u32::MAX));
    assert_eq!(parse_u32_radix(b"4294967296", 10), None);
    assert_eq!(parse_u32_radix(b"99999999999999999999999", 10), None);
    assert_eq!(parse_u32_radix(b"ff", 16), Some(255));
    assert_eq!(parse_u32_radix(b"FFffFFff", 16), Some(u32::MAX));
    assert_eq!(parse_u32_radix(b"100000000", 16), None);
    assert_eq!(parse_u32_radix(b"g", 16), None);
}

#[test]
fn numbers_of_the_command_line() {
    assert_eq!(u32_from_hex_dec_str("0x08000000"), Ok(134217728));
    assert_eq!(u32_from_hex_dec_str("0xdeadBEEF"), Ok(0xDEAD_BEEF));
    assert_eq!(u32_from_hex_dec_str("1024"), Ok(1024));
    assert_eq!(u32_from_hex_dec_str("0"), Ok(0));
    assert_eq!(u32_from_hex_dec_str("0x"), Err(ErrorKind::Input));
    assert_eq!(u32_from_hex_dec_str("12a"), Err(ErrorKind::Input));
    assert_eq!(u32_from_hex_dec_str("0X10"), Err(ErrorKind::Input));
    assert_eq!(u32_from_hex_dec_str(""), Err(ErrorKind::Input));
    assert_eq!(u32_from_hex_dec_str("0x100000000"), Err(ErrorKind::Input));
    assert_eq!(u32_from_hex_dec_str("ünf"), Err(ErrorKind::Input));
}

#[test]
fn hexadecimal_bytes() {
    assert_eq!(decode_hex(b"DEADBEEF"), Some(vec![0xDE, 0xAD, 0xBE, 0xEF]));
    assert_eq!(decode_hex(b"00ff1a"), Some(vec![0x00, 0xFF, 0x1A]));
    assert_eq!(decode_hex(b""), Some(Vec::new()));
    assert_eq!(decode_hex(b"ABC"), None);
    assert_eq!(decode_hex(b"AG"), None);
    assert_eq!(decode_hex(b"0x"), None);
    assert_eq!(u32_from_be(&[0xDE, 0xAD, 0xBE, 0xEF]), 0xDEAD_BEEF);
    assert_eq!(u32_from_le(&[0xDE, 0xAD, 0xBE, 0xEF]), 0xEFBE_ADDE);
    assert_eq!(u32_from_le(&[1, 0, 0, 0]), 1);
    assert_eq!(u32_from_be(&[1, 0, 0, 0]), 0x0100_0000);
}

fn value<'a>(map: &'a InfoMap, key: &str) -> Option<&'a [u8]> {
    map.get(key.as_bytes()).map(|v| v.as_slice())
}

#[test]
fn chop_reads_a_block() {
    let map = chop(b"Target XYZ\nFlashSize 65536\nPageSize 1024\n");
    assert_eq!(map.len(), 3);
    assert_eq!(value(&map, "Target"), Some(&b"XYZ"[..]));
    assert_eq!(value(&map, "FlashSize"), Some(&b"65536"[..]));
    assert_eq!(value(&map, "PageSize"), Some(&b"1024"[..]));
    assert_eq!(map.number(b"FlashSize"), Some(65536));
    assert_eq!(map.number(b"Target"), None);
    assert_eq!(map.number(b"Missing"), None);
    assert!(map.contains_key(b"Target"));
    assert!(!map.contains_key(b"target"));
    assert_eq!(map.entry(0).key, b"Target".to_vec());
    assert_eq!(map.entry(2).value, b"1024".to_vec());
}

#[test]
fn chop_trims_lines_and_skips_those_without_a_space() {
    let map = chop(b"  Target STM32 F1 \r\nbanner\n\nLoader ok\0\0\0\n\0\0Odd one\nLast x");
    assert_eq!(value(&map, "Target"), Some(&b"STM32 F1"[..]));
    assert_eq!(value(&map, "Loader"), Some(&b"ok"[..]));
    assert_eq!(value(&map, "banner"), None);
    assert_eq!(value(&map, "Odd"), None);
    assert_eq!(value(&map, "\0\0Odd"), Some(&b"one"[..]));
    assert_eq!(value(&map, "Last"), Some(&b"x"[..]));
    assert_eq!(map.len(), 4);
}

#[test]
fn chop_lets_a_later_line_replace_an_earlier_one() {
    let map = chop(b"Key one\nOther x\nKey two\n");
    assert_eq!(value(&map, "Key"), Some(&b"two"[..]));
    assert_eq!(map.len(), 2);
    assert_eq!(map.entry(0).key, b"Key".to_vec());
    assert_eq!(map.entry(0).value, b"two".to_vec());
}

#[test]
fn chop_keeps_spaces_inside_the_value() {
    let map = chop(b"Key  two  words");
    assert_eq!(value(&map, "Key"), Some(&b" two  words"[..]));
    assert_eq!(chop(b"").len(), 0);
    assert_eq!(chop(b"\n\n").len(), 0);
}

#[test]
fn insert_adds_and_replaces() {
    let mut map = InfoMap::new();
    assert_eq!(map.len(), 0);
    map.insert(b"MaxBufSize".to_vec(), b"256".to_vec());
    map.insert(b"Loader".to_vec(), b"ok".to_vec());
    map.insert(b"MaxBufSize".to_vec(), b"512".to_vec());
    assert_eq!(map.len(), 2);
    assert_eq!(map.number(b"MaxBufSize"), Some(512));
    assert_eq!(value(&map, "Loader"), Some(&b"ok"[..]));
}
