use lyrics_overlay::lrc::parse_lrc;
use lyrics_overlay::number::OutOfRange;
use lyrics_overlay::playback::PlaybackState;
use lyrics_overlay::sync::{LyricsSync, NO_LYRICS_MESSAGE, SYNC_INTERVAL_MS};

fn playing(track_id: &str, position_ms: i64) -> PlaybackState {
    PlaybackState {
        song_name: "The Chain".to_string(),
        artist_name: "Fleetwood Mac".to_string(),
        position_ms,
        duration_ms: 270_000,
        is_playing: true,
        track_id: track_id.to_string(),
    }
}

fn with_lyrics(offset_ms: i64) -> LyricsSync {
    let mut sync = LyricsSync::new(offset_ms);
    sync.take_track(&playing("1", 0));
    sync.take_lyrics(Some(parse_lrc("[00:05.00] a\n[00:07.00] b\n[00:09.00] b")));
    sync
}

fn some(s: &str) -> Result<Option<String>, OutOfRange> {
    Ok(Some(s.to_string()))
}

#[test]
fn new_track_is_looked_up_once() {
    let mut sync = LyricsSync::new(300);
    let names = sync.take_track(&playing("1", 0)).unwrap();
    assert_eq!(names, ("Fleetwood Mac".to_string(), "The Chain".to_string()));
    assert!(sync.take_track(&playing("1", 0)).is_none());
    assert!(sync.take_track(&playing("", 0)).is_none());
    assert!(sync.take_track(&playing("2", 0)).is_some());
}

#[test]
fn lines_are_shown_once_and_in_time() {
    let mut sync = with_lyrics(300);
    assert_eq!(sync.tick(&playing("1", 0)), Ok(None));
    assert_eq!(sync.tick(&playing("1", 2699)), Ok(None));
    assert_eq!(sync.tick(&playing("1", 2700)), some("a"));
    assert_eq!(sync.tick(&playing("1", 2700)), Ok(None));
    assert_eq!(sync.tick(&playing("1", 6699)), Ok(None));
    assert_eq!(sync.tick(&playing("1", 6700)), some("b"));
    assert_eq!(sync.tick(&playing("1", 8700)), Ok(None));
    assert_eq!(sync.tick(&playing("1", 5000)), some("a"));
}

#[test]
fn position_is_never_before_the_start() {
    let mut sync = LyricsSync::new(-10_000);
    sync.take_lyrics(Some(parse_lrc("[00:01] a")));
    assert_eq!(sync.tick(&playing("1", 0)), some("a"));
    let mut sync = LyricsSync::new(i64::MIN);
    sync.take_lyrics(Some(parse_lrc("[00:01] a")));
    assert_eq!(sync.tick(&playing("1", 5)), some("a"));
}

#[test]
fn paused_playback_changes_nothing() {
    let mut sync = with_lyrics(0);
    assert_eq!(sync.tick(&playing("1", 5000)), some("a"));
    let mut paused = playing("1", 9000);
    paused.is_playing = false;
    assert_eq!(sync.tick(&paused), Ok(None));
    assert_eq!(sync.tick(&playing("1", 5000)), Ok(None));
}

#[test]
fn message_where_there_are_no_lyrics() {
    assert_eq!(NO_LYRICS_MESSAGE, "\u{266a} No lyrics found");
    assert_eq!(SYNC_INTERVAL_MS, 100);
    let mut sync = LyricsSync::new(300);
    sync.take_track(&playing("1", 0));
    sync.take_lyrics(None);
    assert_eq!(sync.tick(&playing("1", 0)), some(NO_LYRICS_MESSAGE));
    assert_eq!(sync.tick(&playing("1", 100)), Ok(None));
    let mut unnamed = playing("1", 0);
    unnamed.song_name = String::new();
    let mut sync = LyricsSync::new(300);
    assert_eq!(sync.tick(&unnamed), Ok(None));
    assert_eq!(sync.tick(&PlaybackState::default()), Ok(None));
}

#[test]
fn new_lyrics_are_shown_afresh() {
    let mut sync = with_lyrics(0);
    assert_eq!(sync.tick(&playing("1", 5000)), some("a"));
    sync.take_track(&playing("2", 0));
    sync.take_lyrics(Some(parse_lrc("[00:05] a")));
    assert_eq!(sync.tick(&playing("2", 5000)), some("a"));
}

#[test]
fn position_out_of_range() {
    let mut sync = with_lyrics(i64::MAX);
    assert_eq!(sync.tick(&playing("1", 1)), Err(OutOfRange));
    assert_eq!(sync.tick(&playing("1", 0)), some("b"));
    let mut empty = LyricsSync::new(i64::MAX);
    assert_eq!(empty.tick(&playing("1", 1)), some(NO_LYRICS_MESSAGE));
}
