//! What the music player reports.
//!
//! The player answers two requests with JSON: what is playing, and whether it
//! plays. Together they make the state of the playback.

use vstd::prelude::*;

verus! {

/// The address of the player's interface.
pub const CIDER_API_BASE: &'static str = "http://localhost:10767";

/// The header that carries the token of the interface.
pub const TOKEN_HEADER: &'static str = "apptoken";

/// The time between two polls of the player, in milliseconds.
pub const POLL_INTERVAL_MS: u64 = 500;

/// What plays, where in it the playback is, and whether it goes on.
#[derive(Debug)]
pub struct PlaybackState {
    pub song_name: String,
    pub artist_name: String,
    /// The playback position, cut to whole milliseconds.
    pub position_ms: i64,
    pub duration_ms: u64,
    pub is_playing: bool,
    pub track_id: String,
}

impl Clone for PlaybackState {
    fn clone(&self) -> (r: Self)
        ensures
            r == *self,
    {
        PlaybackState {
            song_name: self.song_name.clone(),
            artist_name: self.artist_name.clone(),
            position_ms: self.position_ms,
            duration_ms: self.duration_ms,
            is_playing: self.is_playing,
            track_id: self.track_id.clone(),
        }
    }
}

impl Default for PlaybackState {
    fn default() -> (r: Self)
        ensures
            r.song_name@.len() == 0,
            r.artist_name@.len() == 0,
            r.position_ms == 0,
            r.duration_ms == 0,
            !r.is_playing,
            r.track_id@.len() == 0,
    {
        PlaybackState {
            song_name: String::new(),
            artist_name: String::new(),
            position_ms: 0,
            duration_ms: 0,
            is_playing: false,
            track_id: String::new(),
        }
    }
}

/// The answer to the question what is playing.
#[derive(Debug)]
pub struct NowPlayingResponse {
    pub info: Option<SongInfo>,
}

/// A song as the player describes it.
#[derive(Debug)]
pub struct SongInfo {
    pub name: Option<String>,
    pub artist_name: Option<String>,
    /// The playback position, cut to whole milliseconds.
    pub position_ms: i64,
    pub duration_in_millis: u64,
    pub play_params: Option<PlayParams>,
}

/// How the player finds a song.
#[derive(Debug)]
pub struct PlayParams {
    pub id: Option<String>,
}

/// The answer to the question whether the player plays.
#[derive(Debug)]
pub struct IsPlayingResponse {
    pub status: Option<String>,
    pub is_playing: bool,
}

/// A request to the player, with the token to send where there is one.
#[derive(Debug)]
pub struct ApiRequest {
    pub url: String,
    pub token: Option<String>,
}

/// The text of an answer where there is one, else the empty text.
pub open spec fn text_or_empty(s: Option<String>) -> Seq<char> {
    match s {
        Some(t) => t@,
        None => Seq::empty(),
    }
}

/// Whether a state is what a song's description says of it.
pub open spec fn describes(info: SongInfo, state: PlaybackState) -> bool {
    &&& state.song_name@ == text_or_empty(info.name)
    &&& state.artist_name@ == text_or_empty(info.artist_name)
    &&& state.position_ms == info.position_ms
    &&& state.duration_ms == info.duration_in_millis
    &&& state.track_id@ == match info.play_params {
        Some(params) => text_or_empty(params.id),
        None => Seq::empty(),
    }
}

/// Whether a state is that of no song: nothing is named, and all times are
/// zero.
pub open spec fn describes_nothing(state: PlaybackState) -> bool {
    &&& state.song_name@.len() == 0
    &&& state.artist_name@.len() == 0
    &&& state.position_ms == 0
    &&& state.duration_ms == 0
    &&& state.track_id@.len() == 0
}

/// The text where there is one, else the empty text.
fn unwrap_text(s: Option<String>) -> (r: String)
    ensures
        r@ == text_or_empty(s),
{
    match s {
        Some(t) => t,
        None => String::new(),
    }
}

/// The state of the playback from the two answers of the player. What an answer
/// leaves out is empty or zero.
pub fn playback_state(now_playing: NowPlayingResponse, is_playing: IsPlayingResponse) -> (r:
    PlaybackState)
    ensures
        r.is_playing == is_playing.is_playing,
        match now_playing.info {
            Some(info) => describes(info, r),
            None => describes_nothing(r),
        },
{
    let info: SongInfo = match now_playing.info {
        Some(info) => info,
        None => SongInfo {
            name: None,
            artist_name: None,
            position_ms: 0,
            duration_in_millis: 0,
            play_params: None,
        },
    };
    let id: Option<String> = match info.play_params {
        Some(params) => params.id,
        None => None,
    };
    PlaybackState {
        song_name: unwrap_text(info.name),
        artist_name: unwrap_text(info.artist_name),
        position_ms: info.position_ms,
        duration_ms: info.duration_in_millis,
        is_playing: is_playing.is_playing,
        track_id: unwrap_text(id),
    }
}

/// A request for a path of the player's interface.
fn api_request(path: &str, token: Option<&str>) -> (r: ApiRequest)
    ensures
        r.url@ == CIDER_API_BASE@ + path@,
        match token {
            Some(t) => r.token matches Some(s) && s@ == t@,
            None => r.token is None,
        },
{
    ApiRequest {
        url: CIDER_API_BASE.to_owned().concat(path),
        token: match token {
            Some(t) => Some(t.to_owned()),
            None => None,
        },
    }
}

/// The request that asks what is playing.
pub fn now_playing_request(token: Option<&str>) -> (r: ApiRequest)
    ensures
        r.url@ == CIDER_API_BASE@ + "/api/v1/playback/now-playing"@,
        match token {
            Some(t) => r.token matches Some(s) && s@ == t@,
            None => r.token is None,
        },
{
    api_request("/api/v1/playback/now-playing", token)
}

/// The request that asks whether the player plays.
pub fn is_playing_request(token: Option<&str>) -> (r: ApiRequest)
    ensures
        r.url@ == CIDER_API_BASE@ + "/api/v1/playback/is-playing"@,
        match token {
            Some(t) => r.token matches Some(s) && s@ == t@,
            None => r.token is None,
        },
{
    api_request("/api/v1/playback/is-playing", token)
}

/// What to say of a failed poll.
#[derive(Debug, Clone, Copy, PartialEq, Eq)]
pub enum PollReport {
    /// Report the failure.
    Failure,
    /// Report that the player cannot be reached and no more will be said.
    GivingUp,
    /// Say nothing.
    Silence,
}

/// How many polls have failed since the last that did not.
#[derive(Debug)]
pub struct Poller {
    pub consecutive_errors: i32,
}

impl Poller {
    /// A poller that has not failed.
    pub fn new() -> (r: Self)
        ensures
            r.consecutive_errors == 0,
    {
        Poller { consecutive_errors: 0 }
    }

    /// Notes that a poll succeeded.
    pub fn succeeded(&mut self)
        ensures
            final(self).consecutive_errors == 0,
    {
        self.consecutive_errors = 0;
    }

    /// Notes that a poll failed. Of the failures in a row the first three are
    /// reported, with the fourth the poller gives up reporting.
    pub fn failed(&mut self) -> (r: PollReport)
        requires
            old(self).consecutive_errors < i32::MAX,
        ensures
            final(self).consecutive_errors == old(self).consecutive_errors + 1,
            r == (if final(self).consecutive_errors <= 3 {
                PollReport::Failure
            } else if final(self).consecutive_errors == 4 {
                PollReport::GivingUp
            } else {
                PollReport::Silence
            }),
    {
        self.consecutive_errors = self.consecutive_errors + 1;
        if self.consecutive_errors <= 3 {
            PollReport::Failure
        } else if self.consecutive_errors == 4 {
            PollReport::GivingUp
        } else {
            PollReport::Silence
        }
    }
}

/// A state describes a song where each of its parts is the one that the player
/// gave, or empty where it gave none.
pub proof fn law_state_of_song(info: SongInfo, state: PlaybackState)
    ensures
        describes(info, state) <==> {
            &&& state.position_ms == info.position_ms
            &&& state.duration_ms == info.duration_in_millis
            &&& match info.name {
                Some(t) => state.song_name@ == t@,
                None => state.song_name@ == Seq::<char>::empty(),
            }
            &&& match info.artist_name {
                Some(t) => state.artist_name@ == t@,
                None => state.artist_name@ == Seq::<char>::empty(),
            }
            &&& match info.play_params {
                Some(PlayParams { id: Some(t) }) => state.track_id@ == t@,
                _ => state.track_id@ == Seq::<char>::empty(),
            }
        },
{
}

/// The state without a song names nothing and counts from zero.
pub proof fn law_state_of_nothing(state: PlaybackState)
    ensures
        describes_nothing(state) <==> {
            &&& state.song_name@ == Seq::<char>::empty()
            &&& state.artist_name@ == Seq::<char>::empty()
            &&& state.track_id@ == Seq::<char>::empty()
            &&& state.position_ms == 0
            &&& state.duration_ms == 0
        },
{
    assert(describes_nothing(state) ==> state.song_name@ =~= Seq::<char>::empty());
    assert(describes_nothing(state) ==> state.artist_name@ =~= Seq::<char>::empty());
    assert(describes_nothing(state) ==> state.track_id@ =~= Seq::<char>::empty());
}

} // verus!
