use lyrics_overlay::lrc::{
    checked_lrc, checked_timestamp, find_current_lyric, parse_lrc, parse_timestamp, LyricLine,
};
use lyrics_overlay::number::OutOfRange;
use lyrics_overlay::text::to_chars;

fn line(time_ms: u64, text: &str) -> LyricLine {
    LyricLine { time_ms, text: text.to_string() }
}

fn texts(lines: &[LyricLine]) -> Vec<&str> {
    lines.iter().map(|l| l.text.as_str()).collect()
}

#[test]
fn test_parse_timestamp() {
    assert_eq!(parse_timestamp("00:27.93"), Some(27930));
    assert_eq!(parse_timestamp("01:30.00"), Some(90000));
    assert_eq!(parse_timestamp("00:05"), Some(5000));
    assert_eq!(parse_timestamp("02:45.5"), Some(165500));
}

#[test]
fn test_parse_lrc() {
    let lrc = r#"
[00:27.93] Listen to the wind blow
[00:30.88] Watch the sun rise
[00:35.00] Running in the shadows
"#;
    let lines = parse_lrc(lrc);
    assert_eq!(lines.len(), 3);
    assert_eq!(lines[0].time_ms, 27930);
    assert_eq!(lines[0].text, "Listen to the wind blow");
    assert_eq!(lines[1].time_ms, 30880);
    assert_eq!(lines[2].time_ms, 35000);
}

#[test]
fn timestamp_digits_after_the_second_are_cut() {
    assert_eq!(parse_timestamp("00:01.239"), Some(1230));
    assert_eq!(parse_timestamp("00:01.001"), Some(1000));
    assert_eq!(parse_timestamp("00:01.999999"), Some(1990));
}

#[test]
fn timestamp_ignores_a_second_point() {
    assert_eq!(parse_timestamp("00:01.25.99"), Some(1250));
    assert_eq!(parse_timestamp("00:01.25.x"), Some(1250));
}

#[test]
fn timestamp_takes_plus_signs() {
    assert_eq!(parse_timestamp("+1:+2.+5"), Some(62050));
}

#[test]
fn timestamp_other_forms_are_refused() {
    for ts in ["", "5", "1:2:3", ":", "a:1", "1:", "1:.5", "1:2.", "-1:2", "1: 2", "1:2.x"] {
        assert_eq!(parse_timestamp(ts), None, "{}", ts);
    }
    assert_eq!(parse_timestamp("18446744073709551616:00"), None);
}

#[test]
fn timestamp_out_of_range() {
    let chars = to_chars("18446744073709551615:00");
    assert_eq!(checked_timestamp(&chars), Err(OutOfRange));
    let chars = to_chars("00:01.0000000000000000000001");
    assert_eq!(checked_timestamp(&chars), Err(OutOfRange));
    let chars = to_chars("00:01.000000000000000000001");
    assert_eq!(checked_timestamp(&chars), Ok(Some(1000)));
    let chars = to_chars("307445734561825:51.61");
    assert_eq!(checked_timestamp(&chars), Ok(Some(18446744073709551610)));
}

#[test]
fn lrc_skips_what_is_no_lyric() {
    let lines = parse_lrc(
        "[ar:Fleetwood Mac]\n[length: 3:40]\nplain\n[00:01.00]\n[00:02.00]   \n[00:03.00 open\n[0x:01] hex\n\n[00:04.00] sung\n",
    );
    assert_eq!(texts(&lines), vec!["sung"]);
}

#[test]
fn lrc_metadata_with_numbers_is_a_lyric() {
    let lines = parse_lrc("[1:2] by");
    assert_eq!(lines[0].time_ms, 62000);
}

#[test]
fn lrc_trims_lines_and_texts() {
    let lines = parse_lrc("  [00:01.00]\t one  \r\n\u{3000}[00:02.00]two\u{a0}\r\n");
    assert_eq!(texts(&lines), vec!["one", "two"]);
}

#[test]
fn lrc_keeps_further_brackets_in_the_text() {
    let lines = parse_lrc("[00:01.00][00:02.00] echo ]");
    assert_eq!(texts(&lines), vec!["[00:02.00] echo ]"]);
}

#[test]
fn lrc_sorts_by_time_and_keeps_the_order_of_equal_times() {
    let lines = parse_lrc("[00:02] c\n[00:01] a\n[00:02] d\n[00:01] b\n[00:00] first");
    assert_eq!(texts(&lines), vec!["first", "a", "b", "c", "d"]);
}

#[test]
fn lrc_lines_are_read_one_by_one() {
    let above = "[00:01] a\n[ti:x]";
    let below = "\r\n[00:03] \u{e9}t\u{e9} \u{1f3b5}\n\n[00:02] b";
    let joined = parse_lrc(&format!("{}\n{}", above, below));
    assert_eq!(texts(&joined), vec!["a", "b", "\u{e9}t\u{e9} \u{1f3b5}"]);
    assert_eq!(joined.len(), parse_lrc(above).len() + parse_lrc(below).len());
}

#[test]
fn lrc_out_of_range() {
    assert!(checked_lrc("[00:01] ok\n[18446744073709551615:00] late").is_err());
    assert!(checked_lrc("[00:01] ok\n[18446744073709551615:00] ").is_ok());
    assert_eq!(checked_lrc("").unwrap().len(), 0);
}

#[test]
fn current_lyric_is_the_latest_due() {
    let lines = vec![line(5000, "a"), line(7000, "b"), line(7000, "c"), line(9000, "d")];
    let at = |t: u64| find_current_lyric(&lines, t).map(|l| l.text.clone());
    assert_eq!(at(0), None);
    assert_eq!(at(2999), None);
    assert_eq!(at(3000), Some("a".to_string()));
    assert_eq!(at(5000), Some("a".to_string()));
    assert_eq!(at(6999), Some("a".to_string()));
    assert_eq!(at(7000), Some("c".to_string()));
    assert_eq!(at(8999), Some("c".to_string()));
    assert_eq!(at(9000), Some("d".to_string()));
    assert_eq!(at(u64::MAX), Some("d".to_string()));
}

#[test]
fn no_current_lyric_without_lyrics() {
    assert!(find_current_lyric(&[], 0).is_none());
    assert!(find_current_lyric(&[], u64::MAX).is_none());
}

#[test]
fn lyrics_never_go_back() {
    let lines = parse_lrc("[00:03] a\n[00:05] b\n[00:05] c\n[00:20] d");
    let mut last = -1i64;
    for t in 0..25_000u64 {
        let now = match find_current_lyric(&lines, t) {
            Some(l) => lines.iter().position(|x| x.text == l.text).unwrap() as i64,
            None => -1,
        };
        assert!(now >= last);
        last = now;
    }
    assert_eq!(last, 3);
}

#[test]
fn cloned_line_is_the_same() {
    let l = line(12, "x");
    let c = l.clone();
    assert_eq!((c.time_ms, c.text.as_str()), (12, "x"));
}
