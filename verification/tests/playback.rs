use lyrics_overlay::playback::{
    is_playing_request, now_playing_request, playback_state, IsPlayingResponse, NowPlayingResponse,
    PlayParams, PlaybackState, PollReport, Poller, SongInfo, CIDER_API_BASE, POLL_INTERVAL_MS,
    TOKEN_HEADER,
};

fn plays(is_playing: bool) -> IsPlayingResponse {
    IsPlayingResponse { status: Some("ok".to_string()), is_playing }
}

#[test]
fn state_from_a_full_answer() {
    let info = SongInfo {
        name: Some("SOS".to_string()),
        artist_name: Some("ABBA".to_string()),
        position_ms: 1234,
        duration_in_millis: 200_000,
        play_params: Some(PlayParams { id: Some("42".to_string()) }),
    };
    let s = playback_state(NowPlayingResponse { info: Some(info) }, plays(true));
    assert_eq!(s.song_name, "SOS");
    assert_eq!(s.artist_name, "ABBA");
    assert_eq!(s.position_ms, 1234);
    assert_eq!(s.duration_ms, 200_000);
    assert!(s.is_playing);
    assert_eq!(s.track_id, "42");
    let c: PlaybackState = s.clone();
    assert_eq!((c.song_name, c.position_ms, c.track_id), (s.song_name, 1234, s.track_id));
}

#[test]
fn what_is_left_out_is_empty() {
    let info = SongInfo {
        name: None,
        artist_name: None,
        position_ms: 9,
        duration_in_millis: 8,
        play_params: Some(PlayParams { id: None }),
    };
    let s = playback_state(NowPlayingResponse { info: Some(info) }, plays(false));
    assert_eq!((s.song_name.as_str(), s.artist_name.as_str(), s.track_id.as_str()), ("", "", ""));
    assert_eq!((s.position_ms, s.duration_ms, s.is_playing), (9, 8, false));
    let s = playback_state(NowPlayingResponse { info: None }, plays(true));
    assert_eq!((s.song_name.as_str(), s.artist_name.as_str(), s.track_id.as_str()), ("", "", ""));
    assert_eq!((s.position_ms, s.duration_ms, s.is_playing), (0, 0, true));
}

#[test]
fn requests() {
    let r = now_playing_request(Some("t"));
    assert_eq!(r.url, "http://localhost:10767/api/v1/playback/now-playing");
    assert_eq!(r.token.as_deref(), Some("t"));
    let r = is_playing_request(None);
    assert_eq!(r.url, "http://localhost:10767/api/v1/playback/is-playing");
    assert_eq!(r.token, None);
    assert_eq!(CIDER_API_BASE, "http://localhost:10767");
    assert_eq!(TOKEN_HEADER, "apptoken");
    assert_eq!(POLL_INTERVAL_MS, 500);
}

#[test]
fn failures_are_reported_up_to_the_fourth() {
    let mut p = Poller::new();
    for _ in 0..2 {
        assert_eq!(p.failed(), PollReport::Failure);
        assert_eq!(p.failed(), PollReport::Failure);
        assert_eq!(p.failed(), PollReport::Failure);
        assert_eq!(p.failed(), PollReport::GivingUp);
        assert_eq!(p.failed(), PollReport::Silence);
        assert_eq!(p.failed(), PollReport::Silence);
        assert_eq!(p.consecutive_errors, 6);
        p.succeeded();
    }
    assert_eq!(p.consecutive_errors, 0);
}
