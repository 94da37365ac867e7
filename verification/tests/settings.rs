use lyrics_overlay::settings::{
    allow_artist_mismatch, get_env_i32, get_env_u32, get_lyrics_offset_ms, overlay_height,
    overlay_width, right_margin, says_yes, top_margin, ALLOW_MISMATCH_VAR, HEIGHT_VAR, OFFSET_VAR,
    RIGHT_MARGIN_VAR, TOP_MARGIN_VAR, WIDTH_VAR,
};

#[test]
fn defaults() {
    assert_eq!(overlay_width(None), 600);
    assert_eq!(overlay_height(None), 80);
    assert_eq!(top_margin(None), 50);
    assert_eq!(right_margin(None), 10);
    assert_eq!(get_lyrics_offset_ms(None), 300);
    assert!(!allow_artist_mismatch(None));
}

#[test]
fn values_from_the_environment() {
    assert_eq!(overlay_width(Some("1024")), 1024);
    assert_eq!(overlay_height(Some("0")), 0);
    assert_eq!(top_margin(Some("-5")), -5);
    assert_eq!(right_margin(Some("+7")), 7);
    assert_eq!(get_lyrics_offset_ms(Some("-1500")), -1500);
}

#[test]
fn what_is_no_number_gives_the_default() {
    assert_eq!(overlay_width(Some("wide")), 600);
    assert_eq!(overlay_width(Some("-1")), 600);
    assert_eq!(overlay_height(Some("4294967296")), 80);
    assert_eq!(top_margin(Some("2147483648")), 50);
    assert_eq!(right_margin(Some(" 3")), 10);
    assert_eq!(get_lyrics_offset_ms(Some("9223372036854775808")), 300);
    assert_eq!(get_env_u32(Some(""), 9), 9);
    assert_eq!(get_env_i32(Some("1.5"), 9), 9);
}

#[test]
fn mismatch_is_allowed_by_one_and_true() {
    assert!(allow_artist_mismatch(Some("1")));
    assert!(allow_artist_mismatch(Some("true")));
    assert!(allow_artist_mismatch(Some("TRUE")));
    assert!(allow_artist_mismatch(Some("True")));
    assert!(!allow_artist_mismatch(Some("0")));
    assert!(!allow_artist_mismatch(Some("yes")));
    assert!(!allow_artist_mismatch(Some("")));
    assert!(!allow_artist_mismatch(Some(" true")));
    assert!(says_yes("x", "true"));
    assert!(says_yes("1", "y"));
    assert!(!says_yes("TRUE", "TRUE"));
}

#[test]
fn variables() {
    assert_eq!(WIDTH_VAR, "LYRICS_WIDTH");
    assert_eq!(HEIGHT_VAR, "LYRICS_HEIGHT");
    assert_eq!(TOP_MARGIN_VAR, "LYRICS_TOP_MARGIN");
    assert_eq!(RIGHT_MARGIN_VAR, "LYRICS_RIGHT_MARGIN");
    assert_eq!(OFFSET_VAR, "LYRICS_OFFSET_MS");
    assert_eq!(ALLOW_MISMATCH_VAR, "LYRICS_ALLOW_ARTIST_MISMATCH");
}
