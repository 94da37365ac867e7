//! Which line of lyrics to show, as the playback goes on.

use vstd::prelude::*;

use crate::lrc;
use crate::lrc::{Lyric, LyricLine};
use crate::number::OutOfRange;
use crate::playback::PlaybackState;
use crate::text;

verus! {

/// What is shown for a song without lyrics.
pub const NO_LYRICS_MESSAGE: &'static str = "\u{266a} No lyrics found";

/// The time between two looks at the playback, in milliseconds.
pub const SYNC_INTERVAL_MS: u64 = 100;

/// The lyrics of the current track and what was last shown of them.
#[derive(Debug)]
pub struct LyricsSync {
    current_track_id: String,
    current_lyrics: Vec<LyricLine>,
    last_lyric_text: String,
    offset_ms: i64,
}

/// What a `LyricsSync` stands for.
pub struct SyncView {
    pub track_id: Seq<char>,
    pub lyrics: Seq<Lyric>,
    pub shown: Seq<char>,
    pub offset_ms: int,
}

/// The position in the lyrics at a position of the playback: ahead of it by the
/// offset, and never before the start.
pub open spec fn lyrics_position(position_ms: int, offset_ms: int) -> nat {
    if position_ms + offset_ms < 0 {
        0
    } else {
        (position_ms + offset_ms) as nat
    }
}

/// Whether a state of the playback is that of another track.
pub open spec fn is_new_track(v: SyncView, state: PlaybackState) -> bool {
    state.track_id@ != v.track_id && state.track_id@.len() > 0
}

/// The text that belongs on the screen, where the playback calls for one: the
/// current line, or the message for a song without lyrics. While the playback
/// is paused none does.
pub open spec fn wanted_text(v: SyncView, state: PlaybackState) -> Option<Seq<char>> {
    if !state.is_playing {
        None
    } else if v.lyrics.len() > 0 {
        match lrc::current_index(
            v.lyrics,
            lyrics_position(state.position_ms as int, v.offset_ms),
        ) {
            Some(i) => Some(v.lyrics[i].text),
            None => None,
        }
    } else if state.song_name@.len() > 0 {
        Some(NO_LYRICS_MESSAGE@)
    } else {
        None
    }
}

/// The text to show now: the one that belongs on the screen, unless it was the
/// last one shown.
pub open spec fn new_text(v: SyncView, state: PlaybackState) -> Option<Seq<char>> {
    match wanted_text(v, state) {
        Some(t) => if t == v.shown {
            None
        } else {
            Some(t)
        },
        None => None,
    }
}

/// What has been shown once the text for a state is.
pub open spec fn after_showing(v: SyncView, state: PlaybackState) -> SyncView {
    match new_text(v, state) {
        Some(t) => SyncView { shown: t, ..v },
        None => v,
    }
}

/// Whether the position in the lyrics, where it is needed, can be computed in 64
/// bits.
pub open spec fn position_in_range(v: SyncView, state: PlaybackState) -> bool {
    state.is_playing && v.lyrics.len() > 0 ==> i64::MIN <= state.position_ms + v.offset_ms
        <= i64::MAX
}

/// What a `LyricsSync` stands for once lyrics for its track have come, if they
/// have.
pub open spec fn with_lyrics(v: SyncView, lyrics: Seq<Lyric>) -> SyncView {
    SyncView { lyrics, shown: Seq::empty(), ..v }
}

impl View for LyricsSync {
    type V = SyncView;

    closed spec fn view(&self) -> SyncView {
        SyncView {
            track_id: self.current_track_id@,
            lyrics: lrc::views(self.current_lyrics@),
            shown: self.last_lyric_text@,
            offset_ms: self.offset_ms as int,
        }
    }
}

impl LyricsSync {
    /// The lyrics are sorted by time, and the offset is one.
    pub open spec fn wf(&self) -> bool {
        lrc::sorted(self@.lyrics) && i64::MIN <= self@.offset_ms <= i64::MAX
    }

    /// No track yet, with lyrics to be shown early by the offset.
    pub fn new(offset_ms: i64) -> (r: Self)
        ensures
            r.wf(),
            r@.track_id.len() == 0,
            r@.lyrics.len() == 0,
            r@.shown.len() == 0,
            r@.offset_ms == offset_ms,
    {
        LyricsSync {
            current_track_id: String::new(),
            current_lyrics: Vec::new(),
            last_lyric_text: String::new(),
            offset_ms,
        }
    }

    /// Takes the track of a state of the playback. Where it is another than
    /// before, its lyrics have to be looked up: the names of its artist and
    /// song come back.
    pub fn take_track(&mut self, state: &PlaybackState) -> (r: Option<(String, String)>)
        requires
            old(self).wf(),
        ensures
            final(self).wf(),
            match r {
                Some((artist, song)) => {
                    &&& is_new_track(old(self)@, *state)
                    &&& artist@ == state.artist_name@
                    &&& song@ == state.song_name@
                    &&& final(self)@ == (SyncView { track_id: state.track_id@, ..old(self)@ })
                },
                None => !is_new_track(old(self)@, *state) && final(self)@ == old(self)@,
            },
    {
        if state.track_id == self.current_track_id || state.track_id.as_str().is_empty() {
            None
        } else {
            self.current_track_id = state.track_id.clone();
            Some((state.artist_name.clone(), state.song_name.clone()))
        }
    }

    /// Takes the lyrics that a lookup brought; a lookup that failed brought
    /// none.
    pub fn take_lyrics(&mut self, lyrics: Option<Vec<LyricLine>>)
        requires
            old(self).wf(),
            lyrics matches Some(lines) ==> lrc::sorted(lrc::views(lines@)),
        ensures
            final(self).wf(),
            final(self)@ == with_lyrics(
                old(self)@,
                match lyrics {
                    Some(lines) => lrc::views(lines@),
                    None => Seq::empty(),
                },
            ),
    {
        self.current_lyrics = match lyrics {
            Some(lines) => lines,
            None => Vec::new(),
        };
        self.last_lyric_text = String::new();
        assert(lyrics is None ==> self@.lyrics =~= Seq::empty());
    }

    /// The text to show at a state of the playback, if another is to be shown.
    pub fn tick(&mut self, state: &PlaybackState) -> (r: Result<Option<String>, OutOfRange>)
        requires
            old(self).wf(),
        ensures
            final(self).wf(),
            match r {
                Ok(shown) => {
                    &&& position_in_range(old(self)@, *state)
                    &&& new_text(old(self)@, *state) == (match shown {
                        Some(t) => Some(t@),
                        None => None,
                    })
                    &&& final(self)@ == after_showing(old(self)@, *state)
                },
                Err(_) => {
                    &&& !position_in_range(old(self)@, *state)
                    &&& final(self)@ == old(self)@
                },
            },
    {
        if !state.is_playing {
            return Ok(None);
        }
        let wanted: String = if self.current_lyrics.len() > 0 {
            let sum: i128 = state.position_ms as i128 + self.offset_ms as i128;
            if sum < i64::MIN as i128 || sum > i64::MAX as i128 {
                return Err(OutOfRange);
            }
            let position_ms: u64 = if sum < 0 {
                0
            } else {
                sum as u64
            };
            let ghost i = lrc::current_index(self@.lyrics, position_ms as nat);
            proof {
                lrc::law_current_is_latest_due(self@.lyrics, position_ms as nat);
                assert(i matches Some(k) ==> self@.lyrics[k].text == self.current_lyrics@[k].text@);
            }
            match lrc::find_current_lyric(self.current_lyrics.as_slice(), position_ms) {
                Some(line) => line.text.clone(),
                None => {
                    return Ok(None);
                },
            }
        } else if !state.song_name.as_str().is_empty() {
            NO_LYRICS_MESSAGE.to_owned()
        } else {
            return Ok(None);
        };
        if wanted == self.last_lyric_text {
            Ok(None)
        } else {
            self.last_lyric_text = wanted.clone();
            Ok(Some(wanted))
        }
    }
}

/// A text is shown once: at the same state of the playback nothing more is to be
/// shown, and nothing changes any more.
pub proof fn law_shown_once(v: SyncView, state: PlaybackState)
    ensures
        new_text(after_showing(v, state), state) is None,
        after_showing(after_showing(v, state), state) == after_showing(v, state),
{
}

/// While the playback is paused, what is shown stays.
pub proof fn law_paused_keeps_text(v: SyncView, state: PlaybackState)
    requires
        !state.is_playing,
    ensures
        new_text(v, state) is None,
        after_showing(v, state) == v,
{
}

/// Where the playback calls for a text, that text is the one shown afterwards.
pub proof fn law_wanted_text_is_shown(v: SyncView, state: PlaybackState)
    ensures
        wanted_text(v, state) matches Some(t) ==> after_showing(v, state).shown == t,
        wanted_text(v, state) is None ==> after_showing(v, state) == v,
{
}

/// What is shown of a track with lyrics is one of its lines that is due, or the
/// first line shortly before it is.
pub proof fn law_shows_line_of_track(v: SyncView, state: PlaybackState)
    requires
        lrc::sorted(v.lyrics),
        v.lyrics.len() > 0,
    ensures
        new_text(v, state) matches Some(t) ==> exists|i: int|
            0 <= i < v.lyrics.len() && #[trigger] v.lyrics[i].text == t && v.lyrics[i].time_ms
                <= lyrics_position(state.position_ms as int, v.offset_ms) + lrc::LEAD_IN_MS,
{
    let position = lyrics_position(state.position_ms as int, v.offset_ms);
    lrc::law_current_is_latest_due(v.lyrics, position);
    if let Some(t) = new_text(v, state) {
        let i = lrc::current_index(v.lyrics, position).unwrap();
        assert(v.lyrics[i].text == t);
    }
}

/// The message for a song without lyrics is shown exactly where a named song
/// plays, it has none, and the message is not on the screen already.
pub proof fn law_message_without_lyrics(v: SyncView, state: PlaybackState)
    requires
        v.lyrics.len() == 0,
    ensures
        new_text(v, state) == if state.is_playing && state.song_name@.len() > 0 && v.shown
            != NO_LYRICS_MESSAGE@ {
            Some(NO_LYRICS_MESSAGE@)
        } else {
            None
        },
{
}

/// After a change of track nothing of the old one holds a line back: with the
/// new lyrics, the first text that the playback calls for is shown, even if it
/// is the one last shown of the old track.
pub proof fn law_new_track_starts_afresh(
    v: SyncView,
    lyrics: Seq<Lyric>,
    state: PlaybackState,
)
    requires
        wanted_text(with_lyrics(v, lyrics), state) matches Some(t) && t.len() > 0,
    ensures
        new_text(with_lyrics(v, lyrics), state) == wanted_text(with_lyrics(v, lyrics), state),
{
}

/// The position in the lyrics is the sum of the playback position and the offset
/// wherever that is not negative, else zero; so it never falls while the playback
/// position rises.
pub proof fn law_position_is_shifted(position_ms: int, later_ms: int, offset_ms: int)
    ensures
        position_ms + offset_ms >= 0 ==> lyrics_position(position_ms, offset_ms) == position_ms
            + offset_ms,
        position_ms + offset_ms < 0 ==> lyrics_position(position_ms, offset_ms) == 0,
        position_ms <= later_ms ==> lyrics_position(position_ms, offset_ms) <= lyrics_position(
            later_ms,
            offset_ms,
        ),
{
}

/// While a song with lyrics plays, the text on the screen is that of the last
/// line whose time is at most the playback position plus the offset, or zero
/// where that is negative. Up to two seconds before the first line it is that of
/// the first line, and earlier there is none.
pub proof fn law_last_line_reached_is_wanted(v: SyncView, state: PlaybackState, k: int)
    requires
        state.is_playing,
        forall|i: int, j: int|
            0 <= i <= j < v.lyrics.len() ==> v.lyrics[i].time_ms <= v.lyrics[j].time_ms,
        0 <= k < v.lyrics.len(),
    ensures
        ({
            let sum = state.position_ms + v.offset_ms;
            let now = if sum < 0 {
                0
            } else {
                sum
            };
            let is_last = k + 1 == v.lyrics.len() || v.lyrics[k + 1].time_ms > now;
            let first = v.lyrics[0].time_ms;
            &&& v.lyrics[k].time_ms <= now && is_last ==> wanted_text(v, state) == Some(
                v.lyrics[k].text,
            )
            &&& now < first <= now + 2000 ==> wanted_text(v, state) == Some(v.lyrics[0].text)
            &&& first > now + 2000 ==> wanted_text(v, state) is None
        }),
{
    let sum = state.position_ms + v.offset_ms;
    let now = if sum < 0 {
        0
    } else {
        sum
    };
    lrc::law_current_line(v.lyrics, now as nat, k);
}

/// While a song without lyrics plays, the text on the screen is a message, for a
/// song with a name; and while nothing plays there is none.
pub proof fn law_text_without_lyrics(v: SyncView, state: PlaybackState)
    ensures
        state.is_playing && v.lyrics.len() == 0 ==> wanted_text(v, state) == (if state.song_name@
            == Seq::<char>::empty() {
            None
        } else {
            Some("\u{266a} No lyrics found"@)
        }),
        !state.is_playing ==> wanted_text(v, state) is None,
{
    assert(state.song_name@.len() == 0 ==> state.song_name@ =~= Seq::<char>::empty());
}

/// The text to show is the one that belongs on the screen, unless it is there
/// already. Showing it changes what is shown to it, and nothing else.
pub proof fn law_text_is_shown_where_it_is_new(v: SyncView, state: PlaybackState, t: Seq<char>)
    ensures
        wanted_text(v, state) == Some(t) && t != v.shown ==> {
            &&& new_text(v, state) == Some(t)
            &&& after_showing(v, state).shown == t
        },
        wanted_text(v, state) == Some(v.shown) || wanted_text(v, state) is None ==> {
            &&& new_text(v, state) is None
            &&& after_showing(v, state).shown == v.shown
        },
        after_showing(v, state).track_id == v.track_id,
        after_showing(v, state).lyrics == v.lyrics,
        after_showing(v, state).offset_ms == v.offset_ms,
{
}

/// A position is out of range only while a song with lyrics plays, where its sum
/// with the offset is no signed 64-bit number.
pub proof fn law_position_in_range(v: SyncView, state: PlaybackState)
    ensures
        position_in_range(v, state) <==> {
            ||| !state.is_playing
            ||| v.lyrics.len() == 0
            ||| -0x8000_0000_0000_0000 <= state.position_ms + v.offset_ms < 0x8000_0000_0000_0000
        },
{
}

/// The track is another one where the player names one, with another name than
/// before.
pub proof fn law_new_track(v: SyncView, state: PlaybackState)
    ensures
        is_new_track(v, state) <==> state.track_id@ != v.track_id && state.track_id@ != Seq::<
            char,
        >::empty(),
{
    assert(state.track_id@.len() == 0 ==> state.track_id@ =~= Seq::<char>::empty());
}

/// New lyrics take the place of the old ones, with nothing shown of them yet; the
/// track and the offset stay.
pub proof fn law_new_lyrics(v: SyncView, lyrics: Seq<Lyric>)
    ensures
        with_lyrics(v, lyrics).lyrics == lyrics,
        with_lyrics(v, lyrics).shown == Seq::<char>::empty(),
        with_lyrics(v, lyrics).track_id == v.track_id,
        with_lyrics(v, lyrics).offset_ms == v.offset_ms,
{
}

} // verus!
