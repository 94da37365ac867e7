//! The steps of a lookup.
//!
//! A lookup starts with `begin`. Each step tells what to do next: to send a
//! request and hand its outcome to the step that follows, or to stop.

use vstd::prelude::*;

use crate::lrc;
use crate::lrc::{Lyric, LyricLine};
use crate::lrclib;
use crate::lrclib::{Candidate, CandidateView, LrclibResponse, LrclibSearchResult, LyricsCache};
use crate::number::OutOfRange;
use crate::text;

verus! {

/// Why a lookup failed.
#[derive(Debug, Clone, Copy, PartialEq, Eq)]
pub enum FetchError {
    /// The service could not be reached.
    Unreachable,
    /// The service answered with something else than it should.
    Unreadable,
}

/// The outcome of the request by exact names.
#[derive(Debug)]
pub enum ExactReply {
    /// There was no answer.
    Unreachable,
    /// The answer was not a success.
    Refused,
    /// The answer was a success, but not what it should be.
    Unreadable,
    /// What the service knows of the track.
    Found(LrclibResponse),
}

/// What to do next in a lookup.
#[derive(Debug)]
pub enum FetchAction {
    /// Ask for the track by its exact names.
    AskExact { url: String },
    /// Search for the track.
    Search { attempt: usize, url: String },
    /// Stop: these are the lyrics.
    Ready { lyrics: Vec<LyricLine> },
    /// Stop: the lookup failed.
    Failed { error: FetchError },
    /// Stop: a time in the lyrics does not fit.
    OutOfRange,
}

/// What a `FetchAction` stands for.
pub enum FetchStep {
    AskExact { url: Seq<char> },
    Search { attempt: int, url: Seq<char> },
    Ready { lyrics: Seq<Lyric> },
    Failed { error: FetchError },
    OutOfRange,
}

impl View for FetchAction {
    type V = FetchStep;

    open spec fn view(&self) -> FetchStep {
        match *self {
            FetchAction::AskExact { url } => FetchStep::AskExact { url: url@ },
            FetchAction::Search { attempt, url } => FetchStep::Search {
                attempt: attempt as int,
                url: url@,
            },
            FetchAction::Ready { lyrics } => FetchStep::Ready { lyrics: lrc::views(lyrics@) },
            FetchAction::Failed { error } => FetchStep::Failed { error },
            FetchAction::OutOfRange => FetchStep::OutOfRange,
        }
    }
}

impl FetchStep {
    /// Lyrics that a step hands out are sorted by time.
    pub open spec fn wf(self) -> bool {
        self matches FetchStep::Ready { lyrics } ==> lrc::sorted(lyrics)
    }
}

/// The search at the given attempt.
pub open spec fn search_step(artist: Seq<char>, track: Seq<char>, attempt: int) -> FetchStep {
    FetchStep::Search {
        attempt,
        url: lrclib::search_url_of(lrclib::query_of(artist, track, attempt)),
    }
}

/// The first step: what the cache holds, or the request by exact names.
pub open spec fn begin_step(
    cache: Map<Seq<char>, Seq<Lyric>>,
    artist: Seq<char>,
    track: Seq<char>,
) -> FetchStep {
    let key = lrclib::key_of(artist, track);
    if cache.contains_key(key) {
        FetchStep::Ready { lyrics: cache[key] }
    } else {
        FetchStep::AskExact { url: lrclib::exact_url_of(artist, track) }
    }
}

/// The step after the request by exact names.
pub open spec fn exact_step(reply: ExactReply, artist: Seq<char>, track: Seq<char>) -> FetchStep {
    match reply {
        ExactReply::Unreachable => FetchStep::Failed { error: FetchError::Unreachable },
        ExactReply::Unreadable => FetchStep::Failed { error: FetchError::Unreadable },
        ExactReply::Refused => search_step(artist, track, 0),
        ExactReply::Found(response) => {
            let words = lrclib::playable(response.synced_lyrics, response.instrumental);
            if lrclib::text_in_range(words) {
                FetchStep::Ready { lyrics: lrclib::lyrics_in(words) }
            } else {
                FetchStep::OutOfRange
            }
        },
    }
}

/// The step after a search that found the given lyrics: these, where there are
/// any, else the next search. After the last one there are none.
pub open spec fn found_step(
    found: Seq<Lyric>,
    artist: Seq<char>,
    track: Seq<char>,
    attempt: int,
) -> FetchStep {
    if found.len() == 0 && attempt + 1 < lrclib::SEARCHES {
        search_step(artist, track, attempt + 1)
    } else {
        FetchStep::Ready { lyrics: found }
    }
}

/// The step after a search, given its results as candidates. A search that
/// failed has none.
pub open spec fn searched_step(
    cs: Seq<CandidateView>,
    artist: Seq<char>,
    track: Seq<char>,
    attempt: int,
    allow_mismatch: bool,
) -> FetchStep {
    let artist_lower = text::lowercase(artist);
    let track_lower = text::lowercase(track);
    if lrclib::choice_in_range(cs, artist_lower, track_lower, allow_mismatch) {
        found_step(
            lrclib::chosen_lyrics(cs, artist_lower, track_lower, allow_mismatch),
            artist,
            track,
            attempt,
        )
    } else {
        FetchStep::OutOfRange
    }
}

/// The candidates of a search, none where it failed.
pub open spec fn reply_candidates(reply: Option<Vec<LrclibSearchResult>>) -> Seq<CandidateView> {
    match reply {
        Some(results) => lrclib::candidates_of(results@),
        None => Seq::empty(),
    }
}

/// The cache after a step: lyrics that a request brought are kept.
pub open spec fn cache_after(
    cache: Map<Seq<char>, Seq<Lyric>>,
    artist: Seq<char>,
    track: Seq<char>,
    step: FetchStep,
) -> Map<Seq<char>, Seq<Lyric>> {
    match step {
        FetchStep::Ready { lyrics } => cache.insert(lrclib::key_of(artist, track), lyrics),
        _ => cache,
    }
}

impl FetchError {
    /// What the error is reported as.
    pub fn message(&self) -> (r: &'static str)
        ensures
            r@ == (match *self {
                FetchError::Unreachable => "Failed to fetch from LRCLIB"@,
                FetchError::Unreadable => "Failed to parse LRCLIB response"@,
            }),
    {
        match self {
            FetchError::Unreachable => "Failed to fetch from LRCLIB",
            FetchError::Unreadable => "Failed to parse LRCLIB response",
        }
    }
}

/// Starts the lookup of a track.
pub fn begin(cache: &LyricsCache, artist: &str, track: &str) -> (r: FetchAction)
    requires
        cache.wf(),
    ensures
        r@ == begin_step(cache@, artist@, track@),
        r@.wf(),
{
    let key: String = lrclib::cache_key(artist, track);
    match cache.get(key.as_str()) {
        Some(lyrics) => FetchAction::Ready { lyrics },
        None => FetchAction::AskExact { url: lrclib::exact_url(artist, track) },
    }
}

/// Keeps the lyrics that a step hands out.
fn keep(cache: &mut LyricsCache, artist: &str, track: &str, action: &FetchAction)
    requires
        old(cache).wf(),
        action@.wf(),
    ensures
        final(cache).wf(),
        final(cache)@ == cache_after(old(cache)@, artist@, track@, action@),
{
    match action {
        FetchAction::Ready { lyrics } => {
            let copy: Vec<LyricLine> = lyrics.clone();
            assert(copy@ =~= lyrics@);
            cache.insert(lrclib::cache_key(artist, track), copy);
        },
        _ => {},
    }
}

/// Makes a step of lyrics that were read.
fn ready(lyrics: Result<Vec<LyricLine>, OutOfRange>) -> (r: FetchAction)
    ensures
        r@ == (match lyrics {
            Ok(lines) => FetchStep::Ready { lyrics: lrc::views(lines@) },
            Err(_) => FetchStep::OutOfRange,
        }),
{
    match lyrics {
        Ok(lyrics) => FetchAction::Ready { lyrics },
        Err(_) => FetchAction::OutOfRange,
    }
}

/// Makes the search at the given attempt.
fn search(artist: &str, track: &str, attempt: usize) -> (r: FetchAction)
    requires
        attempt < lrclib::SEARCHES,
    ensures
        r@ == search_step(artist@, track@, attempt as int),
{
    let query: String = lrclib::search_query(artist, track, attempt);
    FetchAction::Search { attempt, url: lrclib::search_url(query.as_str()) }
}

/// Goes on after the request by exact names.
pub fn after_exact(cache: &mut LyricsCache, artist: &str, track: &str, reply: ExactReply) -> (r:
    FetchAction)
    requires
        old(cache).wf(),
    ensures
        r@ == exact_step(reply, artist@, track@),
        r@.wf(),
        final(cache).wf(),
        final(cache)@ == cache_after(old(cache)@, artist@, track@, r@),
{
    let action: FetchAction = match reply {
        ExactReply::Unreachable => FetchAction::Failed { error: FetchError::Unreachable },
        ExactReply::Unreadable => FetchAction::Failed { error: FetchError::Unreadable },
        ExactReply::Refused => search(artist, track, 0),
        ExactReply::Found(response) => {
            let instrumental: bool = match response.instrumental {
                Some(i) => i,
                None => false,
            };
            if instrumental {
                ready(lrclib::read_lyrics(None))
            } else {
                ready(lrclib::read_lyrics(response.synced_lyrics.as_ref()))
            }
        },
    };
    keep(cache, artist, track, &action);
    action
}

/// Goes on after a search that found the given lyrics.
pub fn after_found(artist: &str, track: &str, attempt: usize, found: Vec<LyricLine>) -> (r:
    FetchAction)
    requires
        attempt < lrclib::SEARCHES,
    ensures
        r@ == found_step(lrc::views(found@), artist@, track@, attempt as int),
{
    if found.len() == 0 && attempt + 1 < lrclib::SEARCHES {
        search(artist, track, attempt + 1)
    } else {
        FetchAction::Ready { lyrics: found }
    }
}

/// Goes on after a search. `reply` holds its results; nothing where there was
/// no answer, or none that could be read.
pub fn after_search(
    cache: &mut LyricsCache,
    artist: &str,
    track: &str,
    attempt: usize,
    reply: Option<Vec<LrclibSearchResult>>,
    allow_mismatch: bool,
) -> (r: FetchAction)
    requires
        old(cache).wf(),
        attempt < lrclib::SEARCHES,
    ensures
        r@ == searched_step(
            reply_candidates(reply),
            artist@,
            track@,
            attempt as int,
            allow_mismatch,
        ),
        r@.wf(),
        final(cache).wf(),
        final(cache)@ == cache_after(old(cache)@, artist@, track@, r@),
{
    let artist_lower: String = text::to_lowercase(artist);
    let track_lower: String = text::to_lowercase(track);
    let cs: Vec<Candidate> = match &reply {
        Some(results) => lrclib::candidates(results),
        None => {
            let none: Vec<Candidate> = Vec::new();
            assert(lrclib::candidate_views(none@) =~= Seq::empty());
            none
        },
    };
    let action: FetchAction = match lrclib::choose_lyrics(
        &cs,
        artist_lower.as_str(),
        track_lower.as_str(),
        allow_mismatch,
    ) {
        Ok(found) => after_found(artist, track, attempt, found),
        Err(_) => FetchAction::OutOfRange,
    };
    keep(cache, artist, track, &action);
    action
}

/// Lyrics that a request brought are found in the cache the next time, for the
/// same names in upper or lower case alike, without another request.
pub proof fn law_found_lyrics_are_kept(
    cache: Map<Seq<char>, Seq<Lyric>>,
    artist: Seq<char>,
    track: Seq<char>,
    step: FetchStep,
    artist_again: Seq<char>,
    track_again: Seq<char>,
)
    requires
        step is Ready,
        text::lowercase(artist) == text::lowercase(artist_again),
        text::lowercase(track) == text::lowercase(track_again),
    ensures
        begin_step(cache_after(cache, artist, track, step), artist_again, track_again) == step,
{
}

/// A lookup that has not brought lyrics leaves the cache as it is.
pub proof fn law_only_lyrics_are_kept(
    cache: Map<Seq<char>, Seq<Lyric>>,
    artist: Seq<char>,
    track: Seq<char>,
    step: FetchStep,
)
    requires
        !(step is Ready),
    ensures
        cache_after(cache, artist, track, step) == cache,
{
}

/// Lyrics kept for one key leave those of all others as they are.
pub proof fn law_other_tracks_stay(
    cache: Map<Seq<char>, Seq<Lyric>>,
    artist: Seq<char>,
    track: Seq<char>,
    step: FetchStep,
    other_artist: Seq<char>,
    other_track: Seq<char>,
)
    requires
        lrclib::key_of(artist, track) != lrclib::key_of(other_artist, other_track),
    ensures
        begin_step(cache_after(cache, artist, track, step), other_artist, other_track)
            == begin_step(cache, other_artist, other_track),
{
}

/// A lookup ends: each search is followed by a later one or by the end, and
/// there is none after the last.
pub proof fn law_lookup_ends(
    cs: Seq<CandidateView>,
    artist: Seq<char>,
    track: Seq<char>,
    attempt: int,
    allow_mismatch: bool,
)
    ensures
        searched_step(cs, artist, track, attempt, allow_mismatch) matches FetchStep::Search {
            attempt: next,
            ..
        } ==> next == attempt + 1 && next < lrclib::SEARCHES,
        !(searched_step(cs, artist, track, attempt, allow_mismatch) is AskExact),
        !(searched_step(cs, artist, track, attempt, allow_mismatch) is Failed),
{
}

/// An instrumental track, and one without timed lyrics, is found to have no
/// lines; nothing is searched for.
pub proof fn law_no_timed_lyrics_no_lines(
    response: LrclibResponse,
    artist: Seq<char>,
    track: Seq<char>,
)
    requires
        response.instrumental == Some(true) || response.synced_lyrics is None,
    ensures
        exact_step(ExactReply::Found(response), artist, track) == (FetchStep::Ready {
            lyrics: Seq::empty(),
        }),
{
}

/// What an action stands for: the same action, with texts and lyrics taken as
/// what they hold.
pub proof fn law_action_views(action: FetchAction)
    ensures
        match action {
            FetchAction::AskExact { url } => action@ == (FetchStep::AskExact { url: url@ }),
            FetchAction::Search { attempt, url } => action@ == (FetchStep::Search {
                attempt: attempt as int,
                url: url@,
            }),
            FetchAction::Ready { lyrics } => action@ == (FetchStep::Ready {
                lyrics: lyrics@.map_values(
                    |l: LyricLine| Lyric { time_ms: l.time_ms as nat, text: l.text@ },
                ),
            }),
            FetchAction::Failed { error } => action@ == (FetchStep::Failed { error }),
            FetchAction::OutOfRange => action@ is OutOfRange,
        },
{
    if let FetchAction::Ready { lyrics } = action {
        assert(lrc::views(lyrics@) =~= lyrics@.map_values(
            |l: LyricLine| Lyric { time_ms: l.time_ms as nat, text: l.text@ },
        ));
    }
}

/// A track that the service knows with timed lyrics has all of these, unless it is
/// instrumental, whatever else is known of it; a time out of range is told.
pub proof fn law_timed_lyrics_are_found(
    response: LrclibResponse,
    words: String,
    artist: Seq<char>,
    track: Seq<char>,
)
    requires
        response.synced_lyrics == Some(words),
        response.instrumental != Some(true),
    ensures
        lrc::lrc_in_range(words@) ==> exact_step(ExactReply::Found(response), artist, track) == (
        FetchStep::Ready { lyrics: lrc::lyrics(words@) }),
        !lrc::lrc_in_range(words@) ==> exact_step(
            ExactReply::Found(response),
            artist,
            track,
        ) is OutOfRange,
{
}

/// Lyrics without times never count: two answers that differ in these alone lead
/// to the same step.
pub proof fn law_plain_lyrics_do_not_count(
    a: LrclibResponse,
    b: LrclibResponse,
    artist: Seq<char>,
    track: Seq<char>,
)
    requires
        a.synced_lyrics == b.synced_lyrics,
        a.instrumental == b.instrumental,
    ensures
        exact_step(ExactReply::Found(a), artist, track) == exact_step(
            ExactReply::Found(b),
            artist,
            track,
        ),
{
}

/// A track that the service does not know is searched for by track and artist. A
/// service that cannot be reached, or that answers with something else, ends the
/// lookup.
pub proof fn law_track_unknown(artist: Seq<char>, track: Seq<char>)
    ensures
        exact_step(ExactReply::Refused, artist, track) == (FetchStep::Search {
            attempt: 0,
            url: "https://lrclib.net/api"@ + "/search?q="@ + lrclib::url_text(
                track + seq![' '] + artist,
            ),
        }),
        exact_step(ExactReply::Unreachable, artist, track) == (FetchStep::Failed {
            error: FetchError::Unreachable,
        }),
        exact_step(ExactReply::Unreadable, artist, track) == (FetchStep::Failed {
            error: FetchError::Unreadable,
        }),
{
    reveal_strlit(" ");
    assert(" "@ =~= seq![' ']);
}

/// A lookup starts with what is kept under the track's key, and with a request by
/// its exact names where nothing is.
pub proof fn law_lookup_starts(
    cache: Map<Seq<char>, Seq<Lyric>>,
    artist: Seq<char>,
    track: Seq<char>,
)
    ensures
        ({
            let key = text::lowercase(artist) + seq![':'] + text::lowercase(track);
            &&& cache.contains_key(key) ==> begin_step(cache, artist, track) == (FetchStep::Ready {
                lyrics: cache[key],
            })
            &&& !cache.contains_key(key) ==> begin_step(cache, artist, track) == (
            FetchStep::AskExact { url: lrclib::exact_url_of(artist, track) })
        }),
{
    lrclib::law_key(artist, track);
}

/// Lyrics that a step brings are kept under the track's key, and under no other.
pub proof fn law_kept_under_key(
    cache: Map<Seq<char>, Seq<Lyric>>,
    artist: Seq<char>,
    track: Seq<char>,
    lyrics: Seq<Lyric>,
    other: Seq<char>,
)
    ensures
        ({
            let key = text::lowercase(artist) + seq![':'] + text::lowercase(track);
            let after = cache_after(cache, artist, track, FetchStep::Ready { lyrics });
            &&& after.contains_key(key) && after[key] == lyrics
            &&& other != key ==> after.contains_key(other) == cache.contains_key(other)
            &&& other != key && cache.contains_key(other) ==> after[other] == cache[other]
        }),
{
    lrclib::law_key(artist, track);
}

/// Lyrics that a search found end the lookup. Where the first search found none,
/// the track alone is searched for; where the second found none, there are none.
pub proof fn law_searches(found: Seq<Lyric>, artist: Seq<char>, track: Seq<char>, attempt: int)
    requires
        0 <= attempt < 2,
    ensures
        found.len() > 0 || attempt == 1 ==> found_step(found, artist, track, attempt) == (
        FetchStep::Ready { lyrics: found }),
        found.len() == 0 && attempt == 0 ==> found_step(found, artist, track, attempt) == (
        FetchStep::Search {
            attempt: 1,
            url: "https://lrclib.net/api"@ + "/search?q="@ + lrclib::url_text(track),
        }),
{
}

/// A search leads where the lyrics chosen among its results lead; their names are
/// held in lower case against those of the track. A time out of range in lyrics
/// that are read is told.
pub proof fn law_search_results(
    cs: Seq<CandidateView>,
    artist: Seq<char>,
    track: Seq<char>,
    attempt: int,
    allow_mismatch: bool,
)
    ensures
        ({
            let (a, t) = (text::lowercase(artist), text::lowercase(track));
            let step = searched_step(cs, artist, track, attempt, allow_mismatch);
            &&& lrclib::choice_in_range(cs, a, t, allow_mismatch) ==> step == found_step(
                lrclib::chosen_lyrics(cs, a, t, allow_mismatch),
                artist,
                track,
                attempt,
            )
            &&& !lrclib::choice_in_range(cs, a, t, allow_mismatch) ==> step is OutOfRange
        }),
{
}

/// A search that failed has no results; one that did not has those that came.
pub proof fn law_search_reply(results: Vec<LrclibSearchResult>)
    ensures
        reply_candidates(Some(results)) == lrclib::candidates_of(results@),
        reply_candidates(None) == Seq::<CandidateView>::empty(),
{
}

/// A well-formed step hands out lyrics in the order of their times; a step that
/// hands out none is always well-formed.
pub proof fn law_ordered_steps(step: FetchStep, i: int, j: int)
    ensures
        !(step is Ready) ==> step.wf(),
        step.wf() ==> (step matches FetchStep::Ready { lyrics } ==> (0 <= i <= j < lyrics.len()
            ==> lyrics[i].time_ms <= lyrics[j].time_ms)),
{
}

} // verus!
