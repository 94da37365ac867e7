use lyrics_overlay::fetch::{
    after_exact, after_found, after_search, begin, ExactReply, FetchAction, FetchError,
};
use lyrics_overlay::lrc::LyricLine;
use lyrics_overlay::lrclib::{
    cache_key, candidates, choose_lyrics, exact_url, join_key, match_names, report_choice,
    search_query, search_report, search_url, Candidate, LrclibResponse, LrclibSearchResult,
    LyricsCache, SearchReport, SEARCHES, USER_AGENT,
};

fn result(track: &str, artist: &str, lyrics: Option<&str>, instrumental: Option<bool>) -> LrclibSearchResult {
    LrclibSearchResult {
        id: 1,
        track_name: track.to_string(),
        artist_name: artist.to_string(),
        synced_lyrics: lyrics.map(|l| l.to_string()),
        instrumental,
    }
}

fn response(lyrics: Option<&str>, instrumental: Option<bool>) -> LrclibResponse {
    LrclibResponse {
        synced_lyrics: lyrics.map(|l| l.to_string()),
        plain_lyrics: None,
        instrumental,
    }
}

fn texts(action: &FetchAction) -> Vec<String> {
    match action {
        FetchAction::Ready { lyrics } => lyrics.iter().map(|l| l.text.clone()).collect(),
        other => panic!("{:?}", other),
    }
}

#[test]
fn urls_are_encoded() {
    assert_eq!(
        exact_url("Sigur R\u{f3}s", "a&b=c/d"),
        "https://lrclib.net/api/get?artist_name=Sigur%20R%C3%B3s&track_name=a%26b%3Dc%2Fd"
    );
    assert_eq!(
        search_url("A-z_0.9~ \u{1f3b5}%"),
        "https://lrclib.net/api/search?q=A-z_0.9~%20%F0%9F%8E%B5%25"
    );
    assert_eq!(search_url(""), "https://lrclib.net/api/search?q=");
    assert_eq!(USER_AGENT, "lyrics-overlay/0.1.0");
}

#[test]
fn encoded_texts_are_safe_and_different() {
    let names = ["", "a", "A", "%41", "a b", "a+b", "a&b", "\u{e9}", "e\u{301}"];
    for a in names {
        let url = search_url(a);
        let part = &url["https://lrclib.net/api/search?q=".len()..];
        assert!(part.chars().all(|c| c.is_ascii_alphanumeric() || "-._~%".contains(c)));
        for b in names {
            assert_eq!(a == b, search_url(a) == search_url(b));
        }
    }
}

#[test]
fn two_searches_are_made() {
    assert_eq!(SEARCHES, 2);
    assert_eq!(search_query("ABBA", "SOS", 0), "SOS ABBA");
    assert_eq!(search_query("ABBA", "SOS", 1), "SOS");
}

#[test]
fn key_does_not_depend_on_case() {
    assert_eq!(cache_key("ABBA", "SOS"), "abba:sos");
    assert_eq!(cache_key("\u{c9}tienne", "\u{130}"), "\u{e9}tienne:i\u{307}");
    assert_eq!(join_key("a", "B"), "a:B");
}

#[test]
fn names_match_where_one_holds_the_other() {
    assert!(match_names("the chain", "chain"));
    assert!(match_names("chain", "the chain"));
    assert!(match_names("", "x"));
    assert!(!match_names("abba", "queen"));
}

#[test]
fn candidates_are_in_lower_case() {
    let cs = candidates(&vec![
        result("SOS", "ABBA", Some("x"), None),
        result("SOS", "ABBA", Some("x"), Some(true)),
        result("SOS", "ABBA", Some("x"), Some(false)),
        result("SOS", "ABBA", None, Some(false)),
    ]);
    assert_eq!(cs.len(), 4);
    assert_eq!((cs[0].track.as_str(), cs[0].artist.as_str()), ("sos", "abba"));
    assert_eq!(cs[0].lyrics.as_deref(), Some("x"));
    assert_eq!(cs[1].lyrics, None);
    assert_eq!(cs[2].lyrics.as_deref(), Some("x"));
    assert_eq!(cs[3].lyrics, None);
}

fn candidate(track: &str, artist: &str, lyrics: Option<&str>) -> Candidate {
    Candidate {
        track: track.to_string(),
        artist: artist.to_string(),
        lyrics: lyrics.map(|l| l.to_string()),
    }
}

fn chosen(cs: &Vec<Candidate>, allow: bool) -> Vec<String> {
    choose_lyrics(cs, "abba", "sos", allow).unwrap().into_iter().map(|l| l.text).collect()
}

#[test]
fn artist_match_comes_first() {
    let cs = vec![
        candidate("sos", "rihanna", Some("[00:01] other")),
        candidate("mamma mia", "abba", Some("[00:01] wrong track")),
        candidate("sos", "abba", None),
        candidate("sos (live)", "abba tribute", Some("[00:01] right")),
        candidate("sos", "abba", Some("[00:01] later")),
    ];
    assert_eq!(chosen(&cs, false), vec!["right"]);
    assert_eq!(chosen(&cs, true), vec!["right"]);
}

#[test]
fn other_artist_only_where_allowed() {
    let cs = vec![candidate("sos", "rihanna", Some("[00:01] other"))];
    assert!(chosen(&cs, false).is_empty());
    assert_eq!(chosen(&cs, true), vec!["other"]);
}

#[test]
fn first_match_counts_even_without_lines() {
    let cs = vec![
        candidate("sos", "abba", Some("no timed lines")),
        candidate("sos", "abba", Some("[00:01] later")),
    ];
    assert!(chosen(&cs, false).is_empty());
    assert!(chosen(&cs, true).is_empty());
}

#[test]
fn choice_out_of_range() {
    let late = "[18446744073709551615:00] late";
    let cs = vec![candidate("sos", "rihanna", Some(late))];
    assert!(choose_lyrics(&cs, "abba", "sos", false).is_ok());
    assert!(choose_lyrics(&cs, "abba", "sos", true).is_err());
}

#[test]
fn cache_gives_back_what_was_kept() {
    let mut cache = LyricsCache::new();
    assert!(cache.get("k").is_none());
    cache.insert("k".to_string(), vec![LyricLine { time_ms: 7, text: "x".to_string() }]);
    let lines = cache.get("k").unwrap();
    assert_eq!((lines[0].time_ms, lines[0].text.as_str()), (7, "x"));
    cache.insert("k".to_string(), vec![]);
    assert_eq!(cache.get("k").unwrap().len(), 0);
    assert!(cache.get("other").is_none());
}

#[test]
fn lookup_by_exact_names_is_kept() {
    let mut cache = LyricsCache::new();
    match begin(&cache, "ABBA", "SOS") {
        FetchAction::AskExact { url } => {
            assert_eq!(url, "https://lrclib.net/api/get?artist_name=ABBA&track_name=SOS")
        }
        other => panic!("{:?}", other),
    }
    let found = ExactReply::Found(response(Some("[00:02] b\n[00:01] a"), Some(false)));
    assert_eq!(texts(&after_exact(&mut cache, "ABBA", "SOS", found)), vec!["a", "b"]);
    assert_eq!(texts(&begin(&cache, "abba", "Sos")), vec!["a", "b"]);
    assert!(matches!(begin(&cache, "abba", "waterloo"), FetchAction::AskExact { .. }));
}

#[test]
fn instrumental_and_untimed_tracks_have_no_lines() {
    let mut cache = LyricsCache::new();
    let r = ExactReply::Found(response(Some("[00:01] a"), Some(true)));
    assert!(texts(&after_exact(&mut cache, "a", "b", r)).is_empty());
    assert!(texts(&begin(&cache, "a", "b")).is_empty());
    let r = ExactReply::Found(response(None, None));
    assert!(texts(&after_exact(&mut cache, "a", "c", r)).is_empty());
}

#[test]
fn failed_lookup_is_not_kept() {
    let mut cache = LyricsCache::new();
    for (reply, error, message) in [
        (ExactReply::Unreachable, FetchError::Unreachable, "Failed to fetch from LRCLIB"),
        (ExactReply::Unreadable, FetchError::Unreadable, "Failed to parse LRCLIB response"),
    ] {
        match after_exact(&mut cache, "a", "b", reply) {
            FetchAction::Failed { error: e } => {
                assert_eq!(e, error);
                assert_eq!(e.message(), message);
            }
            other => panic!("{:?}", other),
        }
        assert!(matches!(begin(&cache, "a", "b"), FetchAction::AskExact { .. }));
    }
}

#[test]
fn refused_lookup_goes_on_with_searches() {
    let mut cache = LyricsCache::new();
    match after_exact(&mut cache, "ABBA", "SOS", ExactReply::Refused) {
        FetchAction::Search { attempt, url } => {
            assert_eq!(attempt, 0);
            assert_eq!(url, "https://lrclib.net/api/search?q=SOS%20ABBA");
        }
        other => panic!("{:?}", other),
    }
    match after_search(&mut cache, "ABBA", "SOS", 0, None, false) {
        FetchAction::Search { attempt, url } => {
            assert_eq!(attempt, 1);
            assert_eq!(url, "https://lrclib.net/api/search?q=SOS");
        }
        other => panic!("{:?}", other),
    }
    assert!(matches!(begin(&cache, "ABBA", "SOS"), FetchAction::AskExact { .. }));
    let results = vec![result("S.O.S. (SOS)", "Abba", Some("[00:01] a"), None)];
    let last = after_search(&mut cache, "ABBA", "SOS", 1, Some(results), false);
    assert_eq!(texts(&last), vec!["a"]);
    assert_eq!(texts(&begin(&cache, "ABBA", "SOS")), vec!["a"]);
}

#[test]
fn nothing_found_is_kept_too() {
    let mut cache = LyricsCache::new();
    let results = vec![result("SOS", "Rihanna", Some("[00:01] a"), None)];
    assert!(texts(&after_search(&mut cache, "ABBA", "SOS", 1, Some(results), false)).is_empty());
    assert!(texts(&begin(&cache, "ABBA", "SOS")).is_empty());
}

#[test]
fn mismatch_is_used_where_allowed() {
    let mut cache = LyricsCache::new();
    let results = vec![result("SOS", "Rihanna", Some("[00:01] a"), None)];
    assert_eq!(texts(&after_search(&mut cache, "ABBA", "SOS", 0, Some(results), true)), vec!["a"]);
}

#[test]
fn out_of_range_lyrics_stop_the_lookup() {
    let mut cache = LyricsCache::new();
    let late = "[18446744073709551615:00] late";
    let r = ExactReply::Found(response(Some(late), None));
    assert!(matches!(after_exact(&mut cache, "a", "b", r), FetchAction::OutOfRange));
    let results = vec![result("b", "a", Some(late), None)];
    assert!(matches!(
        after_search(&mut cache, "a", "b", 0, Some(results), false),
        FetchAction::OutOfRange
    ));
    assert!(matches!(begin(&cache, "a", "b"), FetchAction::AskExact { .. }));
}

#[test]
fn found_lyrics_end_the_searches() {
    let lines = vec![LyricLine { time_ms: 1, text: "a".to_string() }];
    assert_eq!(texts(&after_found("ABBA", "SOS", 0, lines)), vec!["a"]);
    assert!(matches!(after_found("ABBA", "SOS", 0, vec![]), FetchAction::Search { attempt: 1, .. }));
    assert!(texts(&after_found("ABBA", "SOS", 1, vec![])).is_empty());
}

fn report(matched: Option<usize>, mismatched: Option<usize>, skipped: Option<usize>) -> SearchReport {
    SearchReport { matched, mismatched, skipped }
}

#[test]
fn skipped_result_is_the_one_that_would_be_used() {
    let results = vec![
        result("Waterloo", "ABBA", Some("[00:01] wrong track"), None),
        result("SOS", "Rihanna", Some("[00:01] instrumental"), Some(true)),
        result("SOS (Remix)", "Rihanna", Some("[00:01] other"), None),
        result("SOS", "Avicii", Some("[00:01] later"), None),
    ];
    assert_eq!(search_report(&results, "ABBA", "sos", false), report(None, None, Some(2)));
    assert_eq!(search_report(&results, "ABBA", "sos", true), report(None, Some(2), None));
    let mut cache = LyricsCache::new();
    let used = after_search(&mut cache, "ABBA", "sos", 0, Some(results), true);
    assert_eq!(texts(&used), vec!["other"]);
}

#[test]
fn matched_result_with_lines_leaves_nothing_to_skip() {
    let results = vec![
        result("SOS", "Rihanna", Some("[00:01] other"), None),
        result("SOS", "ABBA", Some("[00:01] right"), None),
    ];
    assert_eq!(search_report(&results, "abba", "SOS", false), report(Some(1), None, None));
    assert_eq!(search_report(&results, "abba", "SOS", true), report(Some(1), None, None));
    assert_eq!(search_report(&vec![], "abba", "SOS", false), report(None, None, None));
}

#[test]
fn matched_result_without_lines_is_reported_too() {
    let cs = vec![
        candidate("sos", "rihanna", Some("[00:01] other")),
        candidate("sos", "abba", Some("no timed lines")),
    ];
    assert_eq!(report_choice(&cs, "abba", "sos", false), report(Some(1), None, Some(0)));
    assert_eq!(report_choice(&cs, "abba", "sos", true), report(Some(1), Some(0), None));
    let cs = vec![candidate("sos", "abba", Some("[18446744073709551615:00] late"))];
    assert_eq!(report_choice(&cs, "abba", "sos", false), report(Some(0), None, None));
}
