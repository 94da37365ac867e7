use lyrics_overlay::number::{parse_i32, parse_i64, parse_u32, parse_u64};
use lyrics_overlay::text::{contains, find, is_white_space, same, split_behind, to_chars, trim};

#[test]
fn white_space_is_that_of_unicode() {
    for n in 0..=0x10ffffu32 {
        if let Some(c) = char::from_u32(n) {
            assert_eq!(is_white_space(c), c.is_whitespace(), "{:x}", n);
        }
    }
}

#[test]
fn trim_as_str_does() {
    for s in ["", " ", "a", " a b\t", "\u{2003}\u{e9}\u{3000}", "\n\n", "x\u{200b} "] {
        let chars = to_chars(s);
        let (from, to) = trim(&chars);
        assert_eq!(chars[from..to].iter().collect::<String>(), s.trim());
    }
}

#[test]
fn split_behind_characters_of_any_width() {
    let s = "\u{266a} na\u{ef}ve \u{1f3b5}";
    let chars = to_chars(s);
    assert_eq!(chars.len(), 9);
    for n in 0..=chars.len() {
        let (head, tail) = split_behind(s, &chars[..n]);
        assert_eq!(head, chars[..n].iter().collect::<String>());
        assert_eq!(tail, chars[n..].iter().collect::<String>());
    }
}

#[test]
fn find_gives_the_first() {
    let chars = to_chars("a:b:c");
    assert_eq!(find(&chars, ':'), 1);
    assert_eq!(find(&chars, 'x'), 5);
    assert_eq!(find(&[], 'x'), 0);
}

#[test]
fn contains_as_str_does() {
    let names = ["", "a", "aab", "aaab", "the chain", "chain", "chains", "\u{e9}t\u{e9}"];
    for a in names {
        for b in names {
            assert_eq!(contains(&to_chars(a), &to_chars(b)), a.contains(b), "{} {}", a, b);
        }
    }
}

#[test]
fn same_compares_texts() {
    assert!(same("", ""));
    assert!(same("a", "a"));
    assert!(!same("a", "A"));
}

#[test]
fn numbers_are_read_as_from_str_does() {
    let cases = [
        "", "+", "-", "0", "-0", "+0", "007", "42", "+42", "-42", "--4", "+-4", " 4", "4 ", "4.0",
        "1_000", "0x10", "\u{664}", "2147483647", "2147483648", "-2147483648", "-2147483649",
        "4294967295", "4294967296", "9223372036854775807", "9223372036854775808",
        "-9223372036854775808", "-9223372036854775809", "18446744073709551615",
        "18446744073709551616", "99999999999999999999999", "00000000000000000000000000001",
    ];
    for s in cases {
        let chars = to_chars(s);
        assert_eq!(parse_u64(&chars), s.parse::<u64>().ok(), "{}", s);
        assert_eq!(parse_i64(&chars), s.parse::<i64>().ok(), "{}", s);
        assert_eq!(parse_u32(&chars), s.parse::<u32>().ok(), "{}", s);
        assert_eq!(parse_i32(&chars), s.parse::<i32>().ok(), "{}", s);
    }
}
