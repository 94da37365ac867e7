//! Lyrics from lrclib.net.
//!
//! A track is first asked for by its exact names. Where the service does not
//! know it, it is searched for: by track and artist, then by track alone. What
//! was found, or that nothing was, is kept in a cache.

use vstd::hash_map::StringHashMap;
use vstd::prelude::*;
use vstd::utf8::*;

use crate::lrc;
use crate::lrc::{Lyric, LyricLine};
use crate::number::OutOfRange;
use crate::text;

verus! {

/// The address of the service.
pub const LRCLIB_API: &'static str = "https://lrclib.net/api";

/// How requests name the program that makes them.
pub const USER_AGENT: &'static str = "lyrics-overlay/0.1.0";

/// How many searches are made for a track.
pub const SEARCHES: usize = 2;

/// What the service knows of one track.
#[derive(Debug)]
pub struct LrclibResponse {
    pub synced_lyrics: Option<String>,
    pub plain_lyrics: Option<String>,
    pub instrumental: Option<bool>,
}

/// One result of a search.
#[derive(Debug)]
pub struct LrclibSearchResult {
    pub id: i64,
    pub track_name: String,
    pub artist_name: String,
    pub synced_lyrics: Option<String>,
    pub instrumental: Option<bool>,
}

/// A search result that is held against a track: its names in lower case, and
/// its timed lyrics where it has any and is not instrumental.
#[derive(Debug)]
pub struct Candidate {
    pub track: String,
    pub artist: String,
    pub lyrics: Option<String>,
}

/// What a `Candidate` stands for.
pub struct CandidateView {
    pub track: Seq<char>,
    pub artist: Seq<char>,
    pub lyrics: Option<Seq<char>>,
}

impl View for Candidate {
    type V = CandidateView;

    open spec fn view(&self) -> CandidateView {
        CandidateView {
            track: self.track@,
            artist: self.artist@,
            lyrics: match self.lyrics {
                Some(l) => Some(l@),
                None => None,
            },
        }
    }
}

/// What a list of candidates stands for.
pub open spec fn candidate_views(s: Seq<Candidate>) -> Seq<CandidateView> {
    s.map_values(|c: Candidate| c@)
}

/// Whether a byte stands for itself in a URL: letters, digits, `-`, `.`, `_`
/// and `~`.
pub open spec fn unreserved(b: u8) -> bool {
    ||| '0' as u8 <= b <= '9' as u8
    ||| 'A' as u8 <= b <= 'Z' as u8
    ||| 'a' as u8 <= b <= 'z' as u8
    ||| b == '-' as u8
    ||| b == '.' as u8
    ||| b == '_' as u8
    ||| b == '~' as u8
}

/// The hexadecimal digit of a number below sixteen.
pub open spec fn hex_digit(n: int) -> char {
    if n < 10 {
        ('0' as int + n) as char
    } else {
        ('A' as int + (n - 10)) as char
    }
}

/// A byte in a URL: itself, or a percent sign and two hexadecimal digits.
pub open spec fn encoded_byte(b: u8) -> Seq<char> {
    if unreserved(b) {
        seq![b as char]
    } else {
        seq!['%', hex_digit(b as int / 16), hex_digit(b as int % 16)]
    }
}

/// Bytes in a URL.
pub open spec fn percent_encoded(bytes: Seq<u8>) -> Seq<char>
    decreases bytes.len(),
{
    if bytes.len() == 0 {
        Seq::empty()
    } else {
        encoded_byte(bytes.first()) + percent_encoded(bytes.drop_first())
    }
}

/// A text in a URL.
pub open spec fn url_text(s: Seq<char>) -> Seq<char> {
    percent_encoded(encode_utf8(s))
}

/// The URL that asks for a track by its exact names.
pub open spec fn exact_url_of(artist: Seq<char>, track: Seq<char>) -> Seq<char> {
    LRCLIB_API@ + "/get?artist_name="@ + url_text(artist) + "&track_name="@ + url_text(track)
}

/// What is searched for: track and artist at first, then the track alone.
pub open spec fn query_of(artist: Seq<char>, track: Seq<char>, attempt: int) -> Seq<char> {
    if attempt == 0 {
        track + " "@ + artist
    } else {
        track
    }
}

/// The URL of a search.
pub open spec fn search_url_of(query: Seq<char>) -> Seq<char> {
    LRCLIB_API@ + "/search?q="@ + url_text(query)
}

/// The key under which lyrics are kept, from the names in lower case.
pub open spec fn joined_key(artist: Seq<char>, track: Seq<char>) -> Seq<char> {
    artist + ":"@ + track
}

/// The key under which the lyrics of a track are kept.
pub open spec fn key_of(artist: Seq<char>, track: Seq<char>) -> Seq<char> {
    joined_key(text::lowercase(artist), text::lowercase(track))
}

/// Writes a text for a URL.
///
/// Trusted: `urlencoding::encode` encodes the text as UTF-8, keeps the
/// unreserved bytes, and writes each other byte as a percent sign and two
/// upper-case hexadecimal digits.
#[verifier::external_body]
fn url_encode(s: &str) -> (r: String)
    ensures
        r@ == url_text(s@),
{
    urlencoding::encode(s).into_owned()
}

/// The URL that asks for a track by its exact names.
pub fn exact_url(artist: &str, track: &str) -> (r: String)
    ensures
        r@ == exact_url_of(artist@, track@),
{
    let artist: String = url_encode(artist);
    let track: String = url_encode(track);
    LRCLIB_API.to_owned().concat("/get?artist_name=").concat(artist.as_str()).concat(
        "&track_name=",
    ).concat(track.as_str())
}

/// The URL of a search.
pub fn search_url(query: &str) -> (r: String)
    ensures
        r@ == search_url_of(query@),
{
    let query: String = url_encode(query);
    LRCLIB_API.to_owned().concat("/search?q=").concat(query.as_str())
}

/// What is searched for at the given attempt.
pub fn search_query(artist: &str, track: &str, attempt: usize) -> (r: String)
    requires
        attempt < SEARCHES,
    ensures
        r@ == query_of(artist@, track@, attempt as int),
{
    if attempt == 0 {
        track.to_owned().concat(" ").concat(artist)
    } else {
        track.to_owned()
    }
}

/// Joins names in lower case to a key of the cache.
pub fn join_key(artist_lower: &str, track_lower: &str) -> (r: String)
    ensures
        r@ == joined_key(artist_lower@, track_lower@),
{
    artist_lower.to_owned().concat(":").concat(track_lower)
}

/// The key under which the lyrics of a track are kept.
pub fn cache_key(artist: &str, track: &str) -> (r: String)
    ensures
        r@ == key_of(artist@, track@),
{
    let artist: String = text::to_lowercase(artist);
    let track: String = text::to_lowercase(track);
    join_key(artist.as_str(), track.as_str())
}

/// The lyrics found so far.
pub struct LyricsCache {
    entries: StringHashMap<Vec<LyricLine>>,
}

impl View for LyricsCache {
    type V = Map<Seq<char>, Seq<Lyric>>;

    closed spec fn view(&self) -> Map<Seq<char>, Seq<Lyric>> {
        self.entries@.map_values(|v: Vec<LyricLine>| lrc::views(v@))
    }
}

impl LyricsCache {
    /// All lyrics in the cache are sorted by time.
    pub open spec fn wf(&self) -> bool {
        forall|k: Seq<char>| self@.contains_key(k) ==> lrc::sorted(#[trigger] self@[k])
    }

    /// An empty cache.
    pub fn new() -> (r: Self)
        ensures
            r.wf(),
            r@ == Map::<Seq<char>, Seq<Lyric>>::empty(),
    {
        let r = LyricsCache { entries: StringHashMap::new() };
        assert(r@ =~= Map::<Seq<char>, Seq<Lyric>>::empty());
        r
    }

    /// The lyrics kept under a key.
    pub fn get(&self, key: &str) -> (r: Option<Vec<LyricLine>>)
        ensures
            match r {
                Some(lines) => self@.contains_key(key@) && lrc::views(lines@) == self@[key@],
                None => !self@.contains_key(key@),
            },
    {
        match self.entries.get(key) {
            Some(lines) => {
                let copy: Vec<LyricLine> = lines.clone();
                assert(copy@ =~= lines@);
                Some(copy)
            },
            None => None,
        }
    }

    /// Keeps lyrics under a key, in place of what was there.
    pub fn insert(&mut self, key: String, lines: Vec<LyricLine>)
        requires
            old(self).wf(),
            lrc::sorted(lrc::views(lines@)),
        ensures
            final(self).wf(),
            final(self)@ == old(self)@.insert(key@, lrc::views(lines@)),
    {
        let ghost before = self@;
        self.entries.insert(key, lines);
        assert(self@ =~= before.insert(key@, lrc::views(lines@)));
    }
}

/// Whether one of two names holds the other.
pub open spec fn names_match(a: Seq<char>, b: Seq<char>) -> bool {
    text::has_substring(a, b) || text::has_substring(b, a)
}

/// Whether a candidate has lyrics and its track matches; and its artist too,
/// where one is given.
pub open spec fn suits(c: CandidateView, track: Seq<char>, artist: Option<Seq<char>>) -> bool {
    &&& c.lyrics is Some
    &&& names_match(c.track, track)
    &&& artist matches Some(a) ==> names_match(c.artist, a)
}

/// The index of the first candidate that suits.
pub open spec fn first_suitable_index(
    cs: Seq<CandidateView>,
    track: Seq<char>,
    artist: Option<Seq<char>>,
) -> Option<int>
    decreases cs.len(),
{
    if cs.len() == 0 {
        None
    } else if suits(cs.first(), track, artist) {
        Some(0)
    } else {
        match first_suitable_index(cs.drop_first(), track, artist) {
            Some(i) => Some(i + 1),
            None => None,
        }
    }
}

/// The lyrics of the first candidate that suits.
pub open spec fn first_suitable(
    cs: Seq<CandidateView>,
    track: Seq<char>,
    artist: Option<Seq<char>>,
) -> Option<Seq<char>> {
    match first_suitable_index(cs, track, artist) {
        Some(i) => cs[i].lyrics,
        None => None,
    }
}

/// The lyrics in an LRC text, where there is one.
pub open spec fn lyrics_in(lrc_text: Option<Seq<char>>) -> Seq<Lyric> {
    match lrc_text {
        Some(t) => lrc::lyrics(t),
        None => Seq::empty(),
    }
}

/// Whether the times in an LRC text, where there is one, are in range.
pub open spec fn text_in_range(lrc_text: Option<Seq<char>>) -> bool {
    lrc_text matches Some(t) ==> lrc::lrc_in_range(t)
}

/// The lyrics chosen among candidates, the names in lower case: those of the
/// first one whose track and artist match. Where these hold no line, and lyrics
/// of another artist are allowed, those of the first one whose track matches.
pub open spec fn chosen_lyrics(
    cs: Seq<CandidateView>,
    artist: Seq<char>,
    track: Seq<char>,
    allow_mismatch: bool,
) -> Seq<Lyric> {
    let same_artist = lyrics_in(first_suitable(cs, track, Some(artist)));
    if same_artist.len() == 0 && allow_mismatch {
        lyrics_in(first_suitable(cs, track, None))
    } else {
        same_artist
    }
}

/// Whether the times in the lyrics that are read for the choice are in range.
pub open spec fn choice_in_range(
    cs: Seq<CandidateView>,
    artist: Seq<char>,
    track: Seq<char>,
    allow_mismatch: bool,
) -> bool {
    let same_artist = first_suitable(cs, track, Some(artist));
    &&& text_in_range(same_artist)
    &&& lyrics_in(same_artist).len() == 0 && allow_mismatch ==> text_in_range(
        first_suitable(cs, track, None),
    )
}

/// The timed lyrics of an answer or a result, unless it is instrumental.
pub open spec fn playable(synced: Option<String>, instrumental: Option<bool>) -> Option<Seq<char>> {
    match synced {
        Some(l) => if instrumental == Some(true) {
            None
        } else {
            Some(l@)
        },
        None => None,
    }
}

/// A search result as a candidate.
pub open spec fn candidate_of(result: LrclibSearchResult) -> CandidateView {
    CandidateView {
        track: text::lowercase(result.track_name@),
        artist: text::lowercase(result.artist_name@),
        lyrics: playable(result.synced_lyrics, result.instrumental),
    }
}

/// Search results as candidates.
pub open spec fn candidates_of(results: Seq<LrclibSearchResult>) -> Seq<CandidateView> {
    results.map_values(|r: LrclibSearchResult| candidate_of(r))
}

/// Whether one of two names holds the other.
pub fn match_names(a: &str, b: &str) -> (r: bool)
    ensures
        r == names_match(a@, b@),
{
    let a: Vec<char> = text::to_chars(a);
    let b: Vec<char> = text::to_chars(b);
    text::contains(a.as_slice(), b.as_slice()) || text::contains(b.as_slice(), a.as_slice())
}

/// Whether a candidate suits.
fn is_suitable(c: &Candidate, track: &str, artist: Option<&str>) -> (r: bool)
    ensures
        r == suits(c@, track@, wanted_artist(artist)),
{
    c.lyrics.is_some() && match_names(c.track.as_str(), track) && match artist {
        Some(a) => match_names(c.artist.as_str(), a),
        None => true,
    }
}

/// The artist to match, if any, as a sequence of characters.
pub open spec fn wanted_artist(artist: Option<&str>) -> Option<Seq<char>> {
    match artist {
        Some(a) => Some(a@),
        None => None,
    }
}

/// The index of the first candidate that suits.
fn find_suitable_index(cs: &Vec<Candidate>, track: &str, artist: Option<&str>) -> (r: Option<usize>)
    ensures
        first_suitable_index(candidate_views(cs@), track@, wanted_artist(artist)) == (match r {
            Some(i) => Some(i as int),
            None => None,
        }),
        r matches Some(i) ==> i < cs@.len() && cs@[i as int].lyrics is Some,
{
    let ghost all = candidate_views(cs@);
    let mut i: usize = 0;
    while i < cs.len()
        invariant
            i <= cs@.len(),
            all == candidate_views(cs@),
            forall|j: int| 0 <= j < i ==> !#[trigger] suits(all[j], track@, wanted_artist(artist)),
        decreases cs@.len() - i,
    {
        assert(all[i as int] == cs@[i as int]@);
        if is_suitable(&cs[i], track, artist) {
            proof {
                lemma_first_suitable_is(all, track@, wanted_artist(artist), i as int);
            }
            return Some(i);
        }
        i += 1;
    }
    proof {
        lemma_first_suitable(all, track@, wanted_artist(artist));
    }
    None
}

/// The lyrics of the first candidate that suits.
fn find_suitable<'a>(cs: &'a Vec<Candidate>, track: &str, artist: Option<&str>) -> (r: Option<
    &'a String,
>)
    ensures
        first_suitable(candidate_views(cs@), track@, wanted_artist(artist)) == (match r {
            Some(l) => Some(l@),
            None => None,
        }),
{
    match find_suitable_index(cs, track, artist) {
        Some(i) => {
            assert(candidate_views(cs@)[i as int] == cs@[i as int]@);
            cs[i].lyrics.as_ref()
        },
        None => None,
    }
}

/// Reads the lyrics in an LRC text, where there is one.
pub(crate) fn read_lyrics(lrc_text: Option<&String>) -> (r: Result<Vec<LyricLine>, OutOfRange>)
    ensures
        ({
            let t = match lrc_text {
                Some(l) => Some(l@),
                None => None,
            };
            match r {
                Ok(lines) => {
                    &&& text_in_range(t)
                    &&& lrc::views(lines@) == lyrics_in(t)
                    &&& lrc::sorted(lrc::views(lines@))
                },
                Err(_) => !text_in_range(t),
            }
        }),
{
    match lrc_text {
        Some(l) => lrc::checked_lrc(l.as_str()),
        None => {
            let none: Vec<LyricLine> = Vec::new();
            assert(lrc::views(none@) =~= Seq::empty());
            Ok(none)
        },
    }
}

/// Chooses lyrics among candidates for a track, its names in lower case.
pub fn choose_lyrics(
    cs: &Vec<Candidate>,
    artist_lower: &str,
    track_lower: &str,
    allow_mismatch: bool,
) -> (r: Result<Vec<LyricLine>, OutOfRange>)
    ensures
        match r {
            Ok(lines) => {
                &&& choice_in_range(candidate_views(cs@), artist_lower@, track_lower@, allow_mismatch)
                &&& lrc::views(lines@) == chosen_lyrics(
                    candidate_views(cs@),
                    artist_lower@,
                    track_lower@,
                    allow_mismatch,
                )
                &&& lrc::sorted(lrc::views(lines@))
            },
            Err(_) => !choice_in_range(
                candidate_views(cs@),
                artist_lower@,
                track_lower@,
                allow_mismatch,
            ),
        },
{
    let same_artist: Vec<LyricLine> = read_lyrics(
        find_suitable(cs, track_lower, Some(artist_lower)),
    )?;
    if same_artist.len() == 0 && allow_mismatch {
        read_lyrics(find_suitable(cs, track_lower, None))
    } else {
        Ok(same_artist)
    }
}

/// What there is to say of the choice among the results of a search, each by its
/// index.
#[derive(Debug, Clone, Copy, PartialEq, Eq)]
pub struct SearchReport {
    /// The first result whose track and artist match.
    pub matched: Option<usize>,
    /// The result of another artist whose lyrics are used.
    pub mismatched: Option<usize>,
    /// The result that would be used if lyrics of another artist were allowed.
    pub skipped: Option<usize>,
}

/// Whether the candidate at `r`, where it is one, is the first that suits, and
/// none does where it is not.
pub open spec fn is_first_suitable(
    cs: Seq<CandidateView>,
    track: Seq<char>,
    artist: Option<Seq<char>>,
    r: Option<usize>,
) -> bool {
    match r {
        Some(i) => {
            &&& i < cs.len()
            &&& suits(cs[i as int], track, artist)
            &&& forall|j: int| 0 <= j < i ==> !#[trigger] suits(cs[j], track, artist)
        },
        None => forall|j: int| 0 <= j < cs.len() ==> !#[trigger] suits(cs[j], track, artist),
    }
}

/// Whether a report says of a choice what happened: which candidate matched;
/// and where none that did holds a line, which other one is used, if that is
/// allowed, or else was skipped.
pub open spec fn reports(
    report: SearchReport,
    cs: Seq<CandidateView>,
    artist: Seq<char>,
    track: Seq<char>,
    allow_mismatch: bool,
) -> bool {
    let without_lines = chosen_lyrics(cs, artist, track, false).len() == 0;
    &&& is_first_suitable(cs, track, Some(artist), report.matched)
    &&& if without_lines && allow_mismatch {
        is_first_suitable(cs, track, None, report.mismatched)
    } else {
        report.mismatched is None
    }
    &&& if without_lines && !allow_mismatch {
        is_first_suitable(cs, track, None, report.skipped)
    } else {
        report.skipped is None
    }
}

/// Tells what there is to say of the choice among candidates for a track, its
/// names in lower case.
pub fn report_choice(
    cs: &Vec<Candidate>,
    artist_lower: &str,
    track_lower: &str,
    allow_mismatch: bool,
) -> (r: SearchReport)
    ensures
        reports(r, candidate_views(cs@), artist_lower@, track_lower@, allow_mismatch),
{
    let ghost all = candidate_views(cs@);
    let matched: Option<usize> = find_suitable_index(cs, track_lower, Some(artist_lower));
    let other: Option<usize> = find_suitable_index(cs, track_lower, None);
    proof {
        lemma_first_suitable(all, track_lower@, Some(artist_lower@));
        lemma_first_suitable(all, track_lower@, None);
    }
    let same_artist: Option<&String> = find_suitable(cs, track_lower, Some(artist_lower));
    let without_lines: bool = match read_lyrics(same_artist) {
        Ok(lines) => lines.len() == 0,
        Err(_) => {
            proof {
                lrc::lemma_out_of_range_has_lyrics(same_artist.unwrap()@);
            }
            false
        },
    };
    assert(without_lines == (chosen_lyrics(all, artist_lower@, track_lower@, false).len() == 0));
    SearchReport {
        matched,
        mismatched: if without_lines && allow_mismatch {
            other
        } else {
            None
        },
        skipped: if without_lines && !allow_mismatch {
            other
        } else {
            None
        },
    }
}

/// Tells what there is to say of the choice among the results of a search for a
/// track.
pub fn search_report(
    results: &Vec<LrclibSearchResult>,
    artist: &str,
    track: &str,
    allow_mismatch: bool,
) -> (r: SearchReport)
    ensures
        reports(
            r,
            candidates_of(results@),
            text::lowercase(artist@),
            text::lowercase(track@),
            allow_mismatch,
        ),
{
    let cs: Vec<Candidate> = candidates(results);
    let artist_lower: String = text::to_lowercase(artist);
    let track_lower: String = text::to_lowercase(track);
    report_choice(&cs, artist_lower.as_str(), track_lower.as_str(), allow_mismatch)
}

/// Makes a candidate of a search result.
fn candidate(result: &LrclibSearchResult) -> (r: Candidate)
    ensures
        r@ == candidate_of(*result),
{
    let instrumental: bool = match result.instrumental {
        Some(i) => i,
        None => false,
    };
    Candidate {
        track: text::to_lowercase(result.track_name.as_str()),
        artist: text::to_lowercase(result.artist_name.as_str()),
        lyrics: match &result.synced_lyrics {
            Some(l) => if instrumental {
                None
            } else {
                Some(l.clone())
            },
            None => None,
        },
    }
}

/// Makes candidates of search results.
pub fn candidates(results: &Vec<LrclibSearchResult>) -> (r: Vec<Candidate>)
    ensures
        candidate_views(r@) == candidates_of(results@),
{
    let mut r: Vec<Candidate> = Vec::new();
    let mut i: usize = 0;
    while i < results.len()
        invariant
            i <= results@.len(),
            candidate_views(r@) == candidates_of(results@).take(i as int),
        decreases results@.len() - i,
    {
        let ghost before = r@;
        let c: Candidate = candidate(&results[i]);
        r.push(c);
        assert(candidate_views(r@) =~= candidate_views(before).push(c@));
        assert(candidates_of(results@).take(i + 1) =~= candidates_of(results@).take(i as int).push(
            candidate_of(results@[i as int]),
        ));
        i += 1;
    }
    assert(candidates_of(results@).take(i as int) =~= candidates_of(results@));
    r
}

/// `first_suitable_index` is the least index of a candidate that suits.
proof fn lemma_first_suitable(cs: Seq<CandidateView>, track: Seq<char>, artist: Option<Seq<char>>)
    ensures
        match first_suitable_index(cs, track, artist) {
            Some(i) => {
                &&& 0 <= i < cs.len()
                &&& suits(cs[i], track, artist)
                &&& forall|j: int| 0 <= j < i ==> !#[trigger] suits(cs[j], track, artist)
            },
            None => forall|j: int| 0 <= j < cs.len() ==> !#[trigger] suits(cs[j], track, artist),
        },
    decreases cs.len(),
{
    if cs.len() > 0 && !suits(cs.first(), track, artist) {
        let rest = cs.drop_first();
        lemma_first_suitable(rest, track, artist);
        assert forall|j: int|
            0 < j < cs.len() && !suits(rest[j - 1], track, artist) implies !#[trigger] suits(
            cs[j],
            track,
            artist,
        ) by {
            assert(cs[j] == rest[j - 1]);
        }
    }
}

/// An index at which a candidate suits, and before which none does, is the
/// first one.
proof fn lemma_first_suitable_is(
    cs: Seq<CandidateView>,
    track: Seq<char>,
    artist: Option<Seq<char>>,
    i: int,
)
    requires
        0 <= i < cs.len(),
        suits(cs[i], track, artist),
        forall|j: int| 0 <= j < i ==> !#[trigger] suits(cs[j], track, artist),
    ensures
        first_suitable_index(cs, track, artist) == Some(i),
{
    lemma_first_suitable(cs, track, artist);
}

/// Lyrics of another artist are never chosen unless they are allowed; lyrics of
/// another track never are.
pub proof fn law_only_matching_lyrics(
    cs: Seq<CandidateView>,
    artist: Seq<char>,
    track: Seq<char>,
    allow_mismatch: bool,
)
    ensures
        chosen_lyrics(cs, artist, track, allow_mismatch).len() > 0 ==> exists|i: int|
            {
                &&& 0 <= i < cs.len()
                &&& suits(
                    #[trigger] cs[i],
                    track,
                    if allow_mismatch {
                        None
                    } else {
                        Some(artist)
                    },
                )
                &&& chosen_lyrics(cs, artist, track, allow_mismatch) == lyrics_in(cs[i].lyrics)
            },
{
    lemma_first_suitable(cs, track, Some(artist));
    lemma_first_suitable(cs, track, None);
    if lyrics_in(first_suitable(cs, track, Some(artist))).len() > 0 {
        let i = first_suitable_index(cs, track, Some(artist)).unwrap();
        assert(suits(cs[i], track, None));
    }
}

/// Lyrics of the right artist come first: where there are any, allowing others
/// changes nothing.
pub proof fn law_same_artist_comes_first(
    cs: Seq<CandidateView>,
    artist: Seq<char>,
    track: Seq<char>,
)
    requires
        chosen_lyrics(cs, artist, track, false).len() > 0,
    ensures
        chosen_lyrics(cs, artist, track, true) == chosen_lyrics(cs, artist, track, false),
{
}

/// A result is reported as skipped exactly where allowing lyrics of another
/// artist would use it.
pub proof fn law_skipped_would_be_used(
    cs: Seq<CandidateView>,
    artist: Seq<char>,
    track: Seq<char>,
    strict: SearchReport,
    lenient: SearchReport,
)
    requires
        reports(strict, cs, artist, track, false),
        reports(lenient, cs, artist, track, true),
    ensures
        strict.skipped == lenient.mismatched,
        strict.skipped matches Some(i) ==> {
            &&& chosen_lyrics(cs, artist, track, false).len() == 0
            &&& chosen_lyrics(cs, artist, track, true) == lyrics_in(cs[i as int].lyrics)
        },
{
    lemma_first_suitable(cs, track, None);
    if let (Some(i), Some(j)) = (strict.skipped, lenient.mismatched) {
        if i < j {
            assert(!suits(cs[i as int], track, None));
        } else if j < i {
            assert(!suits(cs[j as int], track, None));
        }
        lemma_first_suitable_is(cs, track, None, i as int);
    } else if let Some(i) = strict.skipped {
        assert(!suits(cs[i as int], track, None));
    } else if let Some(j) = lenient.mismatched {
        assert(!suits(cs[j as int], track, None));
    }
}

/// A name always matches itself, and matching does not depend on the order.
pub proof fn law_names_match(a: Seq<char>, b: Seq<char>)
    ensures
        names_match(a, a),
        names_match(a, b) == names_match(b, a),
{
    assert(a.subrange(0, a.len() as int) == a);
    assert(text::occurs_at(a, a, 0));
}

/// Whether a character may stand in an encoded text.
pub open spec fn url_safe(c: char) -> bool {
    c == '%' || ((c as u32) < 128 && unreserved(c as u8))
}

/// An encoded byte is made of characters that may stand in an encoded text, and
/// can be told from what follows it.
proof fn lemma_encoded_byte(a: u8, b: u8, rest_a: Seq<char>, rest_b: Seq<char>)
    ensures
        forall|i: int| 0 <= i < encoded_byte(a).len() ==> url_safe(#[trigger] encoded_byte(a)[i]),
        encoded_byte(a) + rest_a == encoded_byte(b) + rest_b ==> a == b && rest_a == rest_b,
{
    let x = encoded_byte(a) + rest_a;
    let y = encoded_byte(b) + rest_b;
    assert(x[0] == encoded_byte(a)[0]);
    assert(y[0] == encoded_byte(b)[0]);
    if x == y {
        if !unreserved(a) {
            assert(x[1] == encoded_byte(a)[1] && x[2] == encoded_byte(a)[2]);
        }
        if !unreserved(b) {
            assert(y[1] == encoded_byte(b)[1] && y[2] == encoded_byte(b)[2]);
        }
        assert(a == b);
        let n = encoded_byte(a).len() as int;
        assert(x.skip(n) == rest_a);
        assert(y.skip(n) == rest_b);
    }
}

/// Encoded bytes are made of characters that may stand in an encoded text.
proof fn lemma_percent_encoded_safe(bytes: Seq<u8>)
    ensures
        forall|i: int|
            0 <= i < percent_encoded(bytes).len() ==> url_safe(#[trigger] percent_encoded(bytes)[i]),
    decreases bytes.len(),
{
    if bytes.len() > 0 {
        lemma_percent_encoded_safe(bytes.drop_first());
        lemma_encoded_byte(bytes.first(), bytes.first(), Seq::empty(), Seq::empty());
        let head = encoded_byte(bytes.first());
        let tail = percent_encoded(bytes.drop_first());
        assert forall|i: int| 0 <= i < percent_encoded(bytes).len() implies url_safe(
            #[trigger] percent_encoded(bytes)[i],
        ) by {
            if i < head.len() {
                assert(percent_encoded(bytes)[i] == head[i]);
            } else {
                assert(percent_encoded(bytes)[i] == tail[i - head.len()]);
            }
        }
    }
}

/// Different bytes are encoded differently.
proof fn lemma_percent_encoded_injective(a: Seq<u8>, b: Seq<u8>)
    requires
        percent_encoded(a) == percent_encoded(b),
    ensures
        a == b,
    decreases a.len(),
{
    if a.len() == 0 || b.len() == 0 {
        assert(a.len() == 0 && b.len() == 0) by {
            if a.len() > 0 {
                assert(percent_encoded(a).len() > 0);
            }
            if b.len() > 0 {
                assert(percent_encoded(b).len() > 0);
            }
        }
        assert(a =~= b);
    } else {
        lemma_encoded_byte(
            a.first(),
            b.first(),
            percent_encoded(a.drop_first()),
            percent_encoded(b.drop_first()),
        );
        lemma_percent_encoded_injective(a.drop_first(), b.drop_first());
        assert(a =~= seq![a.first()] + a.drop_first());
        assert(b =~= seq![b.first()] + b.drop_first());
    }
}

/// A text in a URL holds nothing that ends a part of the URL, such as `&`, `=`,
/// `#`, `/` or a space.
pub proof fn law_url_text_is_safe(s: Seq<char>)
    ensures
        forall|i: int| 0 <= i < url_text(s).len() ==> url_safe(#[trigger] url_text(s)[i]),
{
    lemma_percent_encoded_safe(encode_utf8(s));
}

/// Different texts are written differently in a URL.
pub proof fn law_url_text_is_injective(a: Seq<char>, b: Seq<char>)
    requires
        url_text(a) == url_text(b),
    ensures
        a == b,
{
    lemma_percent_encoded_injective(encode_utf8(a), encode_utf8(b));
    encode_utf8_decode_utf8(a);
    encode_utf8_decode_utf8(b);
}

/// No two tracks are asked for with the same request.
pub proof fn law_exact_url_tells_tracks_apart(
    artist_a: Seq<char>,
    track_a: Seq<char>,
    artist_b: Seq<char>,
    track_b: Seq<char>,
)
    requires
        exact_url_of(artist_a, track_a) == exact_url_of(artist_b, track_b),
    ensures
        artist_a == artist_b,
        track_a == track_b,
{
    reveal_strlit("&track_name=");
    let head = LRCLIB_API@ + "/get?artist_name="@;
    let sep = "&track_name="@;
    let (ea, ta) = (url_text(artist_a), url_text(track_a));
    let (eb, tb) = (url_text(artist_b), url_text(track_b));
    law_url_text_is_safe(artist_a);
    law_url_text_is_safe(artist_b);
    let url = exact_url_of(artist_a, track_a);
    let n = head.len() as int;
    let rest = url.skip(n);
    assert(url == head + ea + sep + ta);
    assert(url == head + eb + sep + tb);
    assert(rest =~= ea + sep + ta);
    assert(rest =~= eb + sep + tb);
    let (i, j) = (ea.len() as int, eb.len() as int);
    assert(rest[i] == sep[0] && sep[0] == '&');
    assert(rest[j] == sep[0]);
    if i < j {
        assert(rest[i] == eb[i]);
    } else if j < i {
        assert(rest[j] == ea[j]);
    }
    assert(rest.take(i) =~= ea);
    assert(rest.take(i) =~= eb);
    assert(rest.skip(i + sep.len()) =~= ta);
    assert(rest.skip(i + sep.len()) =~= tb);
    law_url_text_is_injective(artist_a, artist_b);
    law_url_text_is_injective(track_a, track_b);
}

/// Two names match exactly where one is a part of the other.
pub proof fn law_names_match_where_one_holds_the_other(a: Seq<char>, b: Seq<char>)
    ensures
        names_match(a, b) <==> {
            ||| exists|before: Seq<char>, after: Seq<char>| a == #[trigger] (before + b + after)
            ||| exists|before: Seq<char>, after: Seq<char>| b == #[trigger] (before + a + after)
        },
        names_match(a, b) <==> {
            ||| exists|i: int|
                0 <= i && i + b.len() <= a.len() && #[trigger] a.skip(i).take(b.len() as int) == b
            ||| exists|i: int|
                0 <= i && i + a.len() <= b.len() && #[trigger] b.skip(i).take(a.len() as int) == a
        },
{
    lemma_part(a, b);
    lemma_part(b, a);
}

/// A text is found in another exactly where it is a part of it.
proof fn lemma_part(hay: Seq<char>, part: Seq<char>)
    ensures
        text::has_substring(hay, part) <==> exists|before: Seq<char>, after: Seq<char>|
            hay == #[trigger] (before + part + after),
        text::has_substring(hay, part) <==> exists|i: int|
            0 <= i && i + part.len() <= hay.len() && #[trigger] hay.skip(i).take(part.len() as int)
                == part,
{
    let n = part.len() as int;
    if text::has_substring(hay, part) {
        text::law_found_is_part(hay, part);
        let (before, after) = choose|before: Seq<char>, after: Seq<char>|
            hay == #[trigger] (before + part + after);
        assert(hay.skip(before.len() as int).take(n) =~= part);
    }
    if exists|before: Seq<char>, after: Seq<char>| hay == #[trigger] (before + part + after) {
        let (before, after) = choose|before: Seq<char>, after: Seq<char>|
            hay == #[trigger] (before + part + after);
        text::law_part_is_found(before, part, after);
    }
    if exists|i: int| 0 <= i && i + n <= hay.len() && #[trigger] hay.skip(i).take(n) == part {
        let i = choose|i: int| 0 <= i && i + n <= hay.len() && #[trigger] hay.skip(i).take(n) == part;
        assert(hay =~= hay.take(i) + part + hay.skip(i + n));
        text::law_part_is_found(hay.take(i), part, hay.skip(i + n));
    }
}

/// A candidate stands for its own names and lyrics, and a list for its candidates
/// in their order.
pub proof fn law_candidate_views(cs: Seq<Candidate>, i: int)
    requires
        0 <= i < cs.len(),
    ensures
        candidate_views(cs).len() == cs.len(),
        candidate_views(cs)[i].track == cs[i].track@,
        candidate_views(cs)[i].artist == cs[i].artist@,
        match cs[i].lyrics {
            Some(l) => candidate_views(cs)[i].lyrics == Some(l@),
            None => candidate_views(cs)[i].lyrics is None,
        },
{
}

/// Each search result becomes one candidate: its names in lower case, and its
/// timed lyrics where it has some and is not instrumental.
pub proof fn law_candidates_of_results(results: Seq<LrclibSearchResult>, i: int)
    requires
        0 <= i < results.len(),
    ensures
        ({
            let c = candidates_of(results)[i];
            let r = results[i];
            &&& candidates_of(results).len() == results.len()
            &&& c.track == text::lowercase(r.track_name@)
            &&& c.artist == text::lowercase(r.artist_name@)
            &&& r.instrumental == Some(true) || r.synced_lyrics is None ==> c.lyrics is None
            &&& r.instrumental != Some(true) ==> (r.synced_lyrics matches Some(l) ==> c.lyrics == Some(
                l@,
            ))
        }),
{
}

/// Timed lyrics are playable unless the track is instrumental.
pub proof fn law_playable(synced: Option<String>, instrumental: Option<bool>)
    ensures
        instrumental == Some(true) || synced is None ==> playable(synced, instrumental) is None,
        instrumental != Some(true) ==> (synced matches Some(l) ==> playable(synced, instrumental)
            == Some(l@)),
{
}

/// A candidate suits where it has lyrics and its names match those that are asked
/// for.
pub proof fn law_suits(c: CandidateView, track: Seq<char>, artist: Seq<char>)
    ensures
        suits(c, track, None) <==> c.lyrics is Some && names_match(c.track, track),
        suits(c, track, Some(artist)) <==> c.lyrics is Some && names_match(c.track, track)
            && names_match(c.artist, artist),
{
}

/// The first candidate that suits is taken: one that does, with none before it
/// that does. None is where none does.
pub proof fn law_first_suitable(
    cs: Seq<CandidateView>,
    track: Seq<char>,
    artist: Option<Seq<char>>,
    i: int,
)
    ensures
        0 <= i < cs.len() && suits(cs[i], track, artist) && (forall|j: int|
            0 <= j < i ==> !#[trigger] suits(cs[j], track, artist)) ==> {
            &&& first_suitable_index(cs, track, artist) == Some(i)
            &&& first_suitable(cs, track, artist) == cs[i].lyrics
        },
        (forall|j: int| 0 <= j < cs.len() ==> !#[trigger] suits(cs[j], track, artist)) ==> {
            &&& first_suitable_index(cs, track, artist) is None
            &&& first_suitable(cs, track, artist) is None
        },
{
    if 0 <= i < cs.len() && suits(cs[i], track, artist) && (forall|j: int|
        0 <= j < i ==> !#[trigger] suits(cs[j], track, artist)) {
        lemma_first_suitable_is(cs, track, artist, i);
    }
    lemma_first_suitable(cs, track, artist);
}

/// A report names the first candidate that suits, or none where none does.
pub proof fn law_reported_candidate(
    cs: Seq<CandidateView>,
    track: Seq<char>,
    artist: Option<Seq<char>>,
    r: Option<usize>,
)
    ensures
        is_first_suitable(cs, track, artist, r) <==> (match r {
            Some(i) => first_suitable_index(cs, track, artist) == Some(i as int),
            None => first_suitable_index(cs, track, artist) is None,
        }),
{
    lemma_first_suitable(cs, track, artist);
    if let Some(i) = r {
        if is_first_suitable(cs, track, artist, r) {
            lemma_first_suitable_is(cs, track, artist, i as int);
        }
    } else if let Some(i) = first_suitable_index(cs, track, artist) {
        assert(suits(cs[i], track, artist));
    }
}

/// What a report says of each choice: the first candidate whose track and artist
/// match; and, only where that one has no line, the first whose track matches, as
/// used where this is allowed and as skipped where it is not.
pub proof fn law_report(
    report: SearchReport,
    cs: Seq<CandidateView>,
    artist: Seq<char>,
    track: Seq<char>,
    allow_mismatch: bool,
)
    ensures
        ({
            let same = first_suitable(cs, track, Some(artist));
            let lines = match same {
                Some(l) => lrc::lyrics(l).len(),
                None => 0,
            };
            reports(report, cs, artist, track, allow_mismatch) <==> {
                &&& is_first_suitable(cs, track, Some(artist), report.matched)
                &&& lines > 0 ==> report.mismatched is None && report.skipped is None
                &&& lines == 0 && allow_mismatch ==> report.skipped is None && is_first_suitable(
                    cs,
                    track,
                    None,
                    report.mismatched,
                )
                &&& lines == 0 && !allow_mismatch ==> report.mismatched is None && is_first_suitable(
                    cs,
                    track,
                    None,
                    report.skipped,
                )
            }
        }),
{
}

/// Without lyrics of other artists, the lyrics chosen are all those of the first
/// candidate whose track and artist match. None are where none does.
pub proof fn law_lyrics_of_the_artist(
    cs: Seq<CandidateView>,
    artist: Seq<char>,
    track: Seq<char>,
)
    ensures
        match first_suitable(cs, track, Some(artist)) {
            Some(l) => {
                &&& chosen_lyrics(cs, artist, track, false) == lrc::lyrics(l)
                &&& choice_in_range(cs, artist, track, false) <==> lrc::lrc_in_range(l)
            },
            None => {
                &&& chosen_lyrics(cs, artist, track, false) == Seq::<Lyric>::empty()
                &&& choice_in_range(cs, artist, track, false)
            },
        },
{
}

/// Where those hold no line, allowing lyrics of other artists makes it the first
/// candidate whose track matches, and else changes nothing.
pub proof fn law_lyrics_of_another_artist(
    cs: Seq<CandidateView>,
    artist: Seq<char>,
    track: Seq<char>,
)
    ensures
        chosen_lyrics(cs, artist, track, false).len() > 0 ==> {
            &&& chosen_lyrics(cs, artist, track, true) == chosen_lyrics(cs, artist, track, false)
            &&& choice_in_range(cs, artist, track, true) == choice_in_range(cs, artist, track, false)
        },
        chosen_lyrics(cs, artist, track, false).len() == 0 ==> (match first_suitable(
            cs,
            track,
            None,
        ) {
            Some(l) => {
                &&& chosen_lyrics(cs, artist, track, true) == lrc::lyrics(l)
                &&& choice_in_range(cs, artist, track, true) <==> choice_in_range(
                    cs,
                    artist,
                    track,
                    false,
                ) && lrc::lrc_in_range(l)
            },
            None => {
                &&& chosen_lyrics(cs, artist, track, true) == Seq::<Lyric>::empty()
                &&& choice_in_range(cs, artist, track, true) == choice_in_range(
                    cs,
                    artist,
                    track,
                    false,
                )
            },
        }),
{
}

/// Without lyrics of other artists, lyrics that are chosen are those of a
/// candidate whose artist's name is a part of the wanted one, or the wanted one a
/// part of it; and so for the track.
pub proof fn law_chosen_names_hold_the_wanted(
    cs: Seq<CandidateView>,
    artist: Seq<char>,
    track: Seq<char>,
)
    requires
        chosen_lyrics(cs, artist, track, false).len() > 0,
    ensures
        exists|i: int|
            {
                let c = #[trigger] cs[i];
                &&& 0 <= i < cs.len()
                &&& c.lyrics matches Some(l) && chosen_lyrics(cs, artist, track, false)
                    == lrc::lyrics(l)
                &&& (exists|before: Seq<char>, after: Seq<char>|
                    c.artist == #[trigger] (before + artist + after)) || (exists|
                    before: Seq<char>,
                    after: Seq<char>,
                | artist == #[trigger] (before + c.artist + after))
                &&& (exists|before: Seq<char>, after: Seq<char>|
                    c.track == #[trigger] (before + track + after)) || (exists|
                    before: Seq<char>,
                    after: Seq<char>,
                | track == #[trigger] (before + c.track + after))
            },
{
    lemma_first_suitable(cs, track, Some(artist));
    let i = first_suitable_index(cs, track, Some(artist)).unwrap();
    let c = cs[i];
    law_names_match_where_one_holds_the_other(c.artist, artist);
    law_names_match_where_one_holds_the_other(c.track, track);
}

/// The lyrics in a text are those that are read from it, and none where there is
/// no text.
pub proof fn law_lyrics_in_text(t: Seq<char>)
    ensures
        lyrics_in(Some(t)) == lrc::lyrics(t),
        lyrics_in(None) == Seq::<Lyric>::empty(),
        text_in_range(Some(t)) == lrc::lrc_in_range(t),
        text_in_range(None),
{
}

/// The artist to match is the one that is given.
pub proof fn law_wanted_artist(artist: &str)
    ensures
        wanted_artist(Some(artist)) == Some(artist@),
        wanted_artist(None) is None,
{
}

/// A byte of a URL: letters, digits and four marks stand for themselves; of each
/// other byte there are a percent sign and two hexadecimal digits that count its
/// sixteens and its ones.
pub proof fn law_encoded_byte(b: u8)
    ensures
        ({
            let c = b as char;
            let plain = ('a' <= c <= 'z') || ('A' <= c <= 'Z') || ('0' <= c <= '9') || c == '-' || c
                == '_' || c == '.' || c == '~';
            let e = encoded_byte(b);
            let worth = |d: char|
                if '0' <= d <= '9' {
                    d as int - 48
                } else {
                    d as int - 65 + 10
                };
            &&& plain ==> e == seq![c]
            &&& !plain ==> {
                &&& e.len() == 3
                &&& e[0] == '%'
                &&& ('0' <= e[1] <= '9') || ('A' <= e[1] <= 'F')
                &&& ('0' <= e[2] <= '9') || ('A' <= e[2] <= 'F')
                &&& 16 * worth(e[1]) + worth(e[2]) == b
            }
        }),
{
}

/// A text in a URL is its UTF-8 bytes, written one by one.
pub proof fn law_url_text_by_bytes(a: Seq<u8>, b: Seq<u8>, one: u8, s: Seq<char>)
    ensures
        percent_encoded(a + b) == percent_encoded(a) + percent_encoded(b),
        percent_encoded(seq![one]) == encoded_byte(one),
        percent_encoded(Seq::empty()) == Seq::<char>::empty(),
        url_text(s) == percent_encoded(encode_utf8(s)),
    decreases a.len(),
{
    reveal_with_fuel(percent_encoded, 2);
    assert(seq![one].drop_first() =~= Seq::empty());
    assert(percent_encoded(seq![one]) =~= encoded_byte(one));
    if a.len() == 0 {
        assert(a + b =~= b);
        assert(percent_encoded(a) + percent_encoded(b) =~= percent_encoded(b));
    } else {
        law_url_text_by_bytes(a.drop_first(), b, one, s);
        assert((a + b).drop_first() =~= a.drop_first() + b);
        assert(percent_encoded(a + b) =~= percent_encoded(a) + percent_encoded(b));
    }
}

/// What the requests for a track are: its names, written for a URL, behind the
/// words that ask for them.
pub proof fn law_requests(artist: Seq<char>, track: Seq<char>)
    ensures
        exact_url_of(artist, track) == "https://lrclib.net/api"@ + "/get?artist_name"@ + seq!['=']
            + url_text(artist) + "&track_name"@ + seq!['='] + url_text(track),
        search_url_of(query_of(artist, track, 0)) == "https://lrclib.net/api"@ + "/search?q"@
            + seq!['='] + url_text(track + seq![' '] + artist),
        search_url_of(query_of(artist, track, 1)) == "https://lrclib.net/api"@ + "/search?q"@
            + seq!['='] + url_text(track),
        SEARCHES == 2,
{
    reveal_strlit("/get?artist_name=");
    reveal_strlit("/get?artist_name");
    reveal_strlit("&track_name=");
    reveal_strlit("&track_name");
    reveal_strlit("/search?q=");
    reveal_strlit("/search?q");
    reveal_strlit(" ");
    assert("/get?artist_name="@ =~= "/get?artist_name"@ + seq!['=']);
    assert("&track_name="@ =~= "&track_name"@ + seq!['=']);
    assert("/search?q="@ =~= "/search?q"@ + seq!['=']);
    assert(" "@ =~= seq![' ']);
    assert(exact_url_of(artist, track) =~= "https://lrclib.net/api"@ + "/get?artist_name"@ + seq![
        '=',
    ] + url_text(artist) + "&track_name"@ + seq!['='] + url_text(track));
    assert(search_url_of(track + seq![' '] + artist) =~= "https://lrclib.net/api"@ + "/search?q"@
        + seq!['='] + url_text(track + seq![' '] + artist));
    assert(search_url_of(track) =~= "https://lrclib.net/api"@ + "/search?q"@ + seq!['=']
        + url_text(track));
}

/// A search sends what it looks for, written for a URL.
pub proof fn law_search_request(query: Seq<char>)
    ensures
        search_url_of(query) == "https://lrclib.net/api"@ + "/search?q="@ + url_text(query),
{
}

/// The key of a track is the two names in lower case, with a colon between them.
pub proof fn law_key(artist: Seq<char>, track: Seq<char>)
    ensures
        joined_key(artist, track) == artist + seq![':'] + track,
        key_of(artist, track) == text::lowercase(artist) + seq![':'] + text::lowercase(track),
{
    reveal_strlit(":");
    assert(":"@ =~= seq![':']);
}

} // verus!
