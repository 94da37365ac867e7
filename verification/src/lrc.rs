//! Timed lyrics in LRC form.
//!
//! Each line of an LRC text that holds a lyric has the form `[MM:SS.cs] Text`.
//! The lyrics of a text are its lines of that form, in the order of their times.

use vstd::arithmetic::power::*;
use vstd::prelude::*;

use crate::number;
use crate::number::OutOfRange;
use crate::text;

verus! {

/// How long before the first line it is already shown, in milliseconds.
pub const LEAD_IN_MS: u64 = 2000;

/// The most characters that a fraction of a second can have: the power of ten
/// by which a longer one is divided does not fit 64 bits.
pub const MAX_FRACTION_DIGITS: usize = 21;

/// One line of lyrics and the time at which it is sung.
#[derive(Debug)]
pub struct LyricLine {
    pub time_ms: u64,
    pub text: String,
}

/// What a `LyricLine` stands for.
pub struct Lyric {
    pub time_ms: nat,
    pub text: Seq<char>,
}

impl View for LyricLine {
    type V = Lyric;

    open spec fn view(&self) -> Lyric {
        Lyric { time_ms: self.time_ms as nat, text: self.text@ }
    }
}

impl Clone for LyricLine {
    fn clone(&self) -> (r: Self)
        ensures
            r == *self,
    {
        LyricLine { time_ms: self.time_ms, text: self.text.clone() }
    }
}

/// What a list of lines stands for.
pub open spec fn views(lines: Seq<LyricLine>) -> Seq<Lyric> {
    lines.map_values(|l: LyricLine| l@)
}

/// Whether no line comes before one with an earlier time.
pub open spec fn sorted(s: Seq<Lyric>) -> bool {
    forall|i: int, j: int| 0 <= i <= j < s.len() ==> s[i].time_ms <= s[j].time_ms
}

/// Whether the lines due at time `t` stand before all others.
pub open spec fn split_at_time(s: Seq<Lyric>, t: nat) -> bool {
    forall|i: int, j: int|
        0 <= i <= j < s.len() && s[j].time_ms <= t ==> s[i].time_ms <= t
}

/// How many lines are due at time `t`.
pub open spec fn due(s: Seq<Lyric>, t: nat) -> nat
    decreases s.len(),
{
    if s.len() == 0 {
        0
    } else {
        due(s.drop_last(), t) + if s.last().time_ms <= t {
            1nat
        } else {
            0nat
        }
    }
}

/// The lines of `s` in the order of their times; lines of one time keep their
/// order.
pub open spec fn by_time(s: Seq<Lyric>) -> Seq<Lyric>
    decreases s.len(),
{
    if s.len() == 0 {
        s
    } else {
        let rest = by_time(s.drop_last());
        rest.insert(due(rest, s.last().time_ms) as int, s.last())
    }
}

/// The lines of `s` with the time `t`.
pub open spec fn at_time(s: Seq<Lyric>, t: nat) -> Seq<Lyric> {
    s.filter(|l: Lyric| l.time_ms == t)
}

/// Whether `to` holds the lines of `from`, sorted by time, with lines of one
/// time in the order that they have in `from`.
pub open spec fn stable_sort_of(from: Seq<Lyric>, to: Seq<Lyric>) -> bool {
    &&& sorted(to)
    &&& to.to_multiset() == from.to_multiset()
    &&& forall|t: nat| #[trigger] at_time(to, t) == at_time(from, t)
}

/// The hundredths of a second that the digits after the point denote: one digit
/// counts tenths, and digits after the second are cut off.
pub open spec fn centiseconds(fraction: Seq<char>) -> Option<nat> {
    match number::u64_value(fraction) {
        Some(v) => Some(
            if fraction.len() == 1 {
                v * 10
            } else if fraction.len() == 2 {
                v
            } else {
                (v as int / pow(10, (fraction.len() - 2) as nat)) as nat
            },
        ),
        None => None,
    }
}

/// The part of a timestamp between its first point and its second, if it has
/// one.
pub open spec fn fraction(ts: Seq<char>) -> Option<Seq<char>> {
    let seconds = text::pieces(text::pieces(ts, ':')[1], '.');
    if seconds.len() > 1 {
        Some(seconds[1])
    } else {
        None
    }
}

/// The time in milliseconds that `MM:SS` or `MM:SS.cs` denotes.
pub open spec fn timestamp_ms(ts: Seq<char>) -> Option<nat> {
    let parts = text::pieces(ts, ':');
    if parts.len() != 2 {
        None
    } else {
        let cs = match fraction(ts) {
            Some(f) => centiseconds(f),
            None => Some(0),
        };
        match (number::u64_value(parts[0]), number::u64_value(text::pieces(parts[1], '.')[0]), cs) {
            (Some(m), Some(s), Some(c)) => Some(m * 60_000 + s * 1000 + c * 10),
            _ => None,
        }
    }
}

/// Whether the time that `ts` denotes, if it denotes one, can be computed in 64
/// bits.
pub open spec fn timestamp_in_range(ts: Seq<char>) -> bool {
    timestamp_ms(ts) matches Some(t) ==> {
        &&& t <= u64::MAX
        &&& fraction(ts) matches Some(f) ==> f.len() <= MAX_FRACTION_DIGITS
    }
}

/// The timestamp of a line: what stands between the bracket that opens it and
/// the next one that closes. Nothing where the line does not start with a
/// bracket or none closes.
pub open spec fn line_timestamp(line: Seq<char>) -> Option<Seq<char>> {
    let l = text::trimmed(line);
    let end = text::first_index(l, ']');
    if l.len() > 0 && l[0] == '[' && end < l.len() {
        Some(l.subrange(1, end))
    } else {
        None
    }
}

/// The text of a line: what follows the first closing bracket.
pub open spec fn line_text(line: Seq<char>) -> Seq<char> {
    let l = text::trimmed(line);
    text::trimmed(l.skip(text::first_index(l, ']') + 1))
}

/// The lyric on a line, if it holds one.
pub open spec fn lyric_of(line: Seq<char>) -> Option<Lyric> {
    match line_timestamp(line) {
        Some(ts) => match timestamp_ms(ts) {
            Some(time_ms) => if line_text(line).len() > 0 {
                Some(Lyric { time_ms, text: line_text(line) })
            } else {
                None
            },
            None => None,
        },
        None => None,
    }
}

/// Whether the time on a line, if it holds a lyric, can be computed in 64 bits.
pub open spec fn line_in_range(line: Seq<char>) -> bool {
    lyric_of(line) is Some ==> timestamp_in_range(line_timestamp(line).unwrap())
}

/// The lyrics on `lines`, in the order of the lines.
pub open spec fn lyrics_on(lines: Seq<Seq<char>>) -> Seq<Lyric>
    decreases lines.len(),
{
    if lines.len() == 0 {
        Seq::empty()
    } else {
        (match lyric_of(lines.first()) {
            Some(l) => seq![l],
            None => Seq::empty(),
        }) + lyrics_on(lines.drop_first())
    }
}

/// The lines of a text. A carriage return before a line feed is white space at
/// the end of its line.
pub open spec fn text_lines(lrc: Seq<char>) -> Seq<Seq<char>> {
    text::pieces(lrc, '\n')
}

/// The lyrics of an LRC text.
pub open spec fn lyrics(lrc: Seq<char>) -> Seq<Lyric> {
    by_time(lyrics_on(text_lines(lrc)))
}

/// Whether all times in an LRC text can be computed in 64 bits.
pub open spec fn lrc_in_range(lrc: Seq<char>) -> bool {
    forall|i: int| 0 <= i < text_lines(lrc).len() ==> line_in_range(#[trigger] text_lines(lrc)[i])
}

/// The index of the line to show at a position: the last one due. Before the
/// first line is due it is that line, from `LEAD_IN_MS` before its time on.
pub open spec fn current_index(s: Seq<Lyric>, position_ms: nat) -> Option<int> {
    if due(s, position_ms) > 0 {
        Some(due(s, position_ms) - 1)
    } else if s.len() > 0 && s[0].time_ms <= position_ms + LEAD_IN_MS {
        Some(0)
    } else {
        None
    }
}

/// The lines due stand before the others: there are `due` of them.
proof fn lemma_due(s: Seq<Lyric>, t: nat)
    requires
        split_at_time(s, t),
    ensures
        due(s, t) <= s.len(),
        forall|i: int| 0 <= i < due(s, t) ==> s[i].time_ms <= t,
        forall|i: int| due(s, t) <= i < s.len() ==> s[i].time_ms > t,
    decreases s.len(),
{
    if s.len() > 0 {
        let rest = s.drop_last();
        assert(split_at_time(rest, t));
        lemma_due(rest, t);
        if s.last().time_ms <= t {
            if due(rest, t) < rest.len() {
                assert(rest[due(rest, t) as int] == s[due(rest, t) as int]);
            }
        } else {
            assert forall|i: int| 0 <= i < due(s, t) implies s[i].time_ms <= t by {
                assert(rest[i] == s[i]);
            }
            assert forall|i: int| due(s, t) <= i < s.len() implies s[i].time_ms > t by {
                if i < rest.len() {
                    assert(rest[i] == s[i]);
                }
            }
        }
    }
}

/// A line put behind the lines due at its time keeps a sorted list sorted, and
/// comes after the lines of its own time.
proof fn lemma_insert(s: Seq<Lyric>, l: Lyric)
    requires
        sorted(s),
    ensures
        sorted(s.insert(due(s, l.time_ms) as int, l)),
        s.insert(due(s, l.time_ms) as int, l).to_multiset() == s.to_multiset().insert(l),
        forall|t: nat|
            #[trigger] at_time(s.insert(due(s, l.time_ms) as int, l), t) == if t == l.time_ms {
                at_time(s, t).push(l)
            } else {
                at_time(s, t)
            },
{
    lemma_due(s, l.time_ms);
    let p = due(s, l.time_ms) as int;
    let all = s.insert(p, l);
    broadcast use vstd::seq_lib::group_to_multiset_ensures;

    assert(all.remove(p) == s);
    assert(all[p] == l);
    assert(all.contains(l));
    assert(all.to_multiset() =~= s.to_multiset().insert(l));
    assert forall|t: nat| #[trigger] at_time(all, t) == (if t == l.time_ms {
        at_time(s, t).push(l)
    } else {
        at_time(s, t)
    }) by {
        let pred = |x: Lyric| x.time_ms == t;
        let a = s.take(p);
        let b = s.skip(p);
        assert(s == a + b);
        assert(all == a.push(l) + b);
        Seq::filter_distributes_over_add(a, b, pred);
        Seq::filter_distributes_over_add(a.push(l), b, pred);
        a.lemma_filter_push(l, pred);
        if t == l.time_ms {
            assert forall|i: int| 0 <= i < b.len() implies !pred(#[trigger] b[i]) by {
                assert(b[i] == s[p + i]);
            }
            b.lemma_all_neg_filter_empty(pred);
        }
    }
}

/// `by_time` sorts by time, keeps every line, and keeps lines of one time in
/// their order.
pub proof fn law_by_time_sorts(s: Seq<Lyric>)
    ensures
        stable_sort_of(s, by_time(s)),
    decreases s.len(),
{
    if s.len() > 0 {
        let rest = s.drop_last();
        law_by_time_sorts(rest);
        lemma_insert(by_time(rest), s.last());
        assert(s == rest.push(s.last()));
        broadcast use vstd::seq_lib::group_to_multiset_ensures;

        assert forall|t: nat| #[trigger] at_time(by_time(s), t) == at_time(s, t) by {
            rest.lemma_filter_push(s.last(), |x: Lyric| x.time_ms == t);
            assert(at_time(by_time(rest), t) == at_time(rest, t));
        }
    }
}

/// A list has one stable sort only: sorted, with the same lines of each time in
/// the same order, it can be arranged in one way.
pub proof fn law_stable_sort_is_unique(from: Seq<Lyric>, a: Seq<Lyric>, b: Seq<Lyric>)
    requires
        stable_sort_of(from, a),
        stable_sort_of(from, b),
    ensures
        a == b,
{
    lemma_sorted_by_parts(a, b);
}

/// Two sorted lists with the same lines of each time are equal.
proof fn lemma_sorted_by_parts(a: Seq<Lyric>, b: Seq<Lyric>)
    requires
        sorted(a),
        sorted(b),
        forall|t: nat| #[trigger] at_time(a, t) == at_time(b, t),
    ensures
        a == b,
    decreases a.len() + b.len(),
{
    if a.len() == 0 && b.len() == 0 {
        assert(a =~= b);
    } else {
        if a.len() == 0 {
            lemma_last_at_time(b);
            assert(at_time(a, b.last().time_ms) == at_time(b, b.last().time_ms));
            assert(false);
        } else if b.len() == 0 {
            lemma_last_at_time(a);
            assert(at_time(a, a.last().time_ms) == at_time(b, a.last().time_ms));
            assert(false);
        }
        let ta = a.last().time_ms;
        let tb = b.last().time_ms;
        lemma_last_at_time(a);
        lemma_last_at_time(b);
        assert(at_time(a, ta) == at_time(b, ta));
        assert(at_time(a, tb) == at_time(b, tb));
        if ta < tb {
            lemma_none_at_time(a, tb);
        } else if tb < ta {
            lemma_none_at_time(b, ta);
        }
        assert(ta == tb);
        assert(a.last() == b.last());
        let ra = a.drop_last();
        let rb = b.drop_last();
        assert forall|t: nat| #[trigger] at_time(ra, t) == at_time(rb, t) by {
            ra.lemma_filter_push(a.last(), |x: Lyric| x.time_ms == t);
            rb.lemma_filter_push(b.last(), |x: Lyric| x.time_ms == t);
            assert(a == ra.push(a.last()));
            assert(b == rb.push(b.last()));
            assert(at_time(a, t) == at_time(b, t));
            if t == ta {
                assert(at_time(ra, t) =~= at_time(a, t).drop_last());
                assert(at_time(rb, t) =~= at_time(b, t).drop_last());
            }
        }
        lemma_sorted_by_parts(ra, rb);
        assert(a =~= ra.push(a.last()));
        assert(b =~= rb.push(b.last()));
    }
}

/// The last line is the last one of its time.
proof fn lemma_last_at_time(s: Seq<Lyric>)
    requires
        s.len() > 0,
    ensures
        at_time(s, s.last().time_ms).len() > 0,
        at_time(s, s.last().time_ms).last() == s.last(),
{
    s.drop_last().lemma_filter_push(s.last(), |x: Lyric| x.time_ms == s.last().time_ms);
    assert(s == s.drop_last().push(s.last()));
}

/// A sorted list holds no line later than its last.
proof fn lemma_none_at_time(s: Seq<Lyric>, t: nat)
    requires
        sorted(s),
        s.len() > 0,
        s.last().time_ms < t,
    ensures
        at_time(s, t).len() == 0,
{
    let pred = |x: Lyric| x.time_ms == t;
    assert forall|i: int| 0 <= i < s.len() implies !pred(#[trigger] s[i]) by {
        assert(s[i].time_ms <= s.last().time_ms);
    }
    s.lemma_all_neg_filter_empty(pred);
}

/// The line shown is the latest one due: it is due, and all after it are not.
/// The first line is also shown for `LEAD_IN_MS` before it is due; earlier than
/// that nothing is.
pub proof fn law_current_is_latest_due(s: Seq<Lyric>, position_ms: nat)
    requires
        sorted(s),
    ensures
        match current_index(s, position_ms) {
            Some(k) => {
                &&& 0 <= k < s.len()
                &&& forall|j: int| k < j < s.len() ==> s[j].time_ms > position_ms
                &&& s[k].time_ms <= position_ms || (k == 0 && s[0].time_ms <= position_ms
                    + LEAD_IN_MS)
            },
            None => forall|j: int|
                0 <= j < s.len() ==> s[j].time_ms > position_ms + LEAD_IN_MS,
        },
{
    lemma_due(s, position_ms);
}

/// As the playback goes on, the lyrics never go back, and what is shown never
/// disappears.
pub proof fn law_lyrics_move_forward(s: Seq<Lyric>, earlier: nat, later: nat)
    requires
        sorted(s),
        earlier <= later,
    ensures
        current_index(s, earlier) matches Some(i) ==> {
            &&& current_index(s, later) matches Some(j)
            &&& i <= j
        },
{
    lemma_due(s, earlier);
    lemma_due(s, later);
    let n = due(s, earlier) as int;
    if n > due(s, later) {
        assert(s[n - 1].time_ms <= earlier);
    }
}

/// A timestamp `MM:SS` denotes its minutes and seconds.
pub proof fn law_minutes_and_seconds(mm: Seq<char>, ss: Seq<char>)
    requires
        number::digits(mm) && number::digits_value(mm) <= u64::MAX,
        number::digits(ss) && number::digits_value(ss) <= u64::MAX,
    ensures
        timestamp_ms(mm + seq![':'] + ss) == Some(
            number::digits_value(mm) * 60_000 + number::digits_value(ss) * 1000,
        ),
{
    lemma_two_parts(mm, ss, ':');
    lemma_one_part(ss, '.');
}

/// The first two digits of a fraction, with a zero behind a single one.
pub open spec fn two_digits(fraction: Seq<char>) -> Seq<char> {
    if fraction.len() == 1 {
        fraction.push('0')
    } else {
        fraction.take(2)
    }
}

/// Cutting digits off divides by a power of ten.
proof fn lemma_cut_digits(s: Seq<char>, n: int)
    requires
        number::digits(s),
        0 <= n <= s.len(),
    ensures
        number::digits_value(s.take(n)) == number::digits_value(s) as int / pow(
            10,
            (s.len() - n) as nat,
        ),
    decreases s.len() - n,
{
    let k = (s.len() - n) as nat;
    if k == 0 {
        lemma_pow0(10);
        assert(s.take(n) == s);
    } else {
        lemma_cut_digits(s, n + 1);
        let p = pow(10, (k - 1) as nat);
        let v = number::digits_value(s) as int;
        lemma_pow_positive(10, (k - 1) as nat);
        reveal(pow);
        assert(pow(10, k) == 10 * p);
        vstd::arithmetic::div_mod::lemma_div_denominator(v, p, 10);
        assert(s.take(n + 1).drop_last() == s.take(n));
        assert(number::digit(s[n]));
    }
}

/// The digits after the point are padded or cut to two: these are the
/// hundredths of a second.
pub proof fn law_fraction_is_padded_or_cut(fraction: Seq<char>)
    requires
        number::digits(fraction) && number::digits_value(fraction) <= u64::MAX,
    ensures
        centiseconds(fraction) == Some(number::digits_value(two_digits(fraction))),
{
    assert(number::digit(fraction[0]));
    if fraction.len() == 1 {
        assert(fraction.push('0').drop_last() == fraction);
    } else {
        lemma_cut_digits(fraction, 2);
        if fraction.len() == 2 {
            assert(fraction.take(2) == fraction);
        }
    }
}

/// A timestamp `MM:SS.cs` denotes its minutes, seconds and hundredths of a
/// second, the digits after the point padded or cut to two.
pub proof fn law_minutes_seconds_and_fraction(mm: Seq<char>, ss: Seq<char>, cs: Seq<char>)
    requires
        number::digits(mm) && number::digits_value(mm) <= u64::MAX,
        number::digits(ss) && number::digits_value(ss) <= u64::MAX,
        number::digits(cs) && number::digits_value(cs) <= u64::MAX,
    ensures
        timestamp_ms(mm + seq![':'] + (ss + seq!['.'] + cs)) == Some(
            number::digits_value(mm) * 60_000 + number::digits_value(ss) * 1000
                + number::digits_value(two_digits(cs)) * 10,
        ),
{
    lemma_two_parts(mm, ss + seq!['.'] + cs, ':');
    lemma_two_parts(ss, cs, '.');
    law_fraction_is_padded_or_cut(cs);
}

/// A line `[timestamp] text` holds the lyric with that time and that text.
pub proof fn law_line_holds_lyric(ts: Seq<char>, words: Seq<char>)
    requires
        timestamp_ms(ts) is Some,
        !ts.contains(']'),
        words.len() > 0,
        !text::white_space(words.first()),
        !text::white_space(words.last()),
    ensures
        lyric_of(seq!['['] + ts + seq![']', ' '] + words) == Some(
            Lyric { time_ms: timestamp_ms(ts).unwrap(), text: words },
        ),
{
    let line = seq!['['] + ts + seq![']', ' '] + words;
    let n = ts.len() as int;
    assert(line.last() == words.last());
    assert(text::trimmed(line) == line);
    assert forall|j: int| 0 <= j < n + 1 implies line[j] != ']' by {
        if j > 0 {
            assert(line[j] == ts[j - 1]);
        }
    }
    text::lemma_first_index_is(line, ']', n + 1);
    assert(line.subrange(1, n + 1) == ts);
    let rest = line.skip(n + 2);
    assert(rest == seq![' '] + words);
    assert(rest.drop_first() == words);
    assert(text::trimmed_start(words) == words);
    assert(text::trimmed_start(rest) == words);
}

/// The lyrics on lines are those on the first of them and those on the others.
proof fn lemma_lyrics_on_parts(a: Seq<Seq<char>>, b: Seq<Seq<char>>)
    ensures
        lyrics_on(a + b) == lyrics_on(a) + lyrics_on(b),
    decreases a.len(),
{
    if a.len() == 0 {
        assert(a + b =~= b);
        assert(lyrics_on(a) + lyrics_on(b) =~= lyrics_on(b));
    } else {
        lemma_lyrics_on_parts(a.drop_first(), b);
        assert((a + b).drop_first() =~= a.drop_first() + b);
        assert((a + b).first() == a.first());
        assert(lyrics_on(a + b) =~= lyrics_on(a) + lyrics_on(b));
    }
}

/// The pieces of two texts are those of the text that joins them with the
/// separator.
proof fn lemma_pieces_join(a: Seq<char>, b: Seq<char>, sep: char)
    ensures
        text::pieces(a + seq![sep] + b, sep) == text::pieces(a, sep) + text::pieces(b, sep),
{
    text::law_pieces_of_joined(a, b, sep);
}

/// Lines are read one by one: the lyrics on two texts, one below the other, are
/// those on the first and those on the second.
pub proof fn law_lines_are_independent(above: Seq<char>, below: Seq<char>)
    ensures
        lyrics_on(text_lines(above + seq!['\n'] + below)) == lyrics_on(text_lines(above))
            + lyrics_on(text_lines(below)),
{
    lemma_pieces_join(above, below, '\n');
    lemma_lyrics_on_parts(text_lines(above), text_lines(below));
}

/// Lines of which one holds a lyric have lyrics on them.
proof fn lemma_lyrics_on_has(lines: Seq<Seq<char>>, i: int)
    requires
        0 <= i < lines.len(),
        lyric_of(lines[i]) is Some,
    ensures
        lyrics_on(lines).len() > 0,
    decreases lines.len(),
{
    if i > 0 {
        lemma_lyrics_on_has(lines.drop_first(), i - 1);
    }
}

/// A text with a time out of range has lyrics: the one with that time.
pub proof fn lemma_out_of_range_has_lyrics(lrc: Seq<char>)
    requires
        !lrc_in_range(lrc),
    ensures
        lyrics(lrc).len() > 0,
{
    let lines = text_lines(lrc);
    let i = choose|i: int| 0 <= i < lines.len() && !line_in_range(#[trigger] lines[i]);
    lemma_lyrics_on_has(lines, i);
    law_by_time_sorts(lyrics_on(lines));
    broadcast use vstd::seq_lib::group_to_multiset_ensures;

    assert(lyrics(lrc).to_multiset().len() == lyrics_on(lines).to_multiset().len());
}

/// The lyrics on lines all have a text.
proof fn lemma_lyrics_on_have_text(lines: Seq<Seq<char>>)
    ensures
        forall|i: int| 0 <= i < lyrics_on(lines).len() ==> #[trigger] lyrics_on(lines)[i].text.len() > 0,
    decreases lines.len(),
{
    if lines.len() > 0 {
        let rest = lyrics_on(lines.drop_first());
        lemma_lyrics_on_have_text(lines.drop_first());
        assert forall|i: int| 0 <= i < lyrics_on(lines).len() implies #[trigger] lyrics_on(
            lines,
        )[i].text.len() > 0 by {
            let n = lyrics_on(lines).len() - rest.len();
            if i >= n {
                assert(lyrics_on(lines)[i] == rest[i - n]);
            }
        }
    }
}

/// No lyric of a text is empty, so that each can be seen.
pub proof fn law_lyrics_have_text(lrc: Seq<char>)
    ensures
        forall|i: int| 0 <= i < lyrics(lrc).len() ==> #[trigger] lyrics(lrc)[i].text.len() > 0,
{
    let read = lyrics_on(text_lines(lrc));
    lemma_lyrics_on_have_text(text_lines(lrc));
    law_by_time_sorts(read);
    broadcast use vstd::seq_lib::group_to_multiset_ensures;

    assert forall|i: int| 0 <= i < lyrics(lrc).len() implies #[trigger] lyrics(lrc)[i].text.len()
        > 0 by {
        let l = lyrics(lrc)[i];
        assert(lyrics(lrc).contains(l));
        assert(lyrics(lrc).to_multiset().count(l) > 0);
        assert(read.contains(l));
        let j = choose|j: int| 0 <= j < read.len() && read[j] == l;
        assert(read[j].text.len() > 0);
    }
}

/// A text without the separator is its only piece.
proof fn lemma_one_part(s: Seq<char>, sep: char)
    requires
        forall|i: int| 0 <= i < s.len() ==> s[i] != sep,
    ensures
        text::pieces(s, sep) == seq![s],
{
    text::lemma_first_index_is(s, sep, s.len() as int);
}

/// Two texts without the separator are the pieces of the text that joins them.
proof fn lemma_two_parts(a: Seq<char>, b: Seq<char>, sep: char)
    requires
        forall|i: int| 0 <= i < a.len() ==> a[i] != sep,
        forall|i: int| 0 <= i < b.len() ==> b[i] != sep,
    ensures
        text::pieces(a + seq![sep] + b, sep) == seq![a, b],
{
    let s = a + seq![sep] + b;
    text::lemma_first_index_is(s, sep, a.len() as int);
    assert(s.take(a.len() as int) == a);
    assert(s.skip(a.len() as int + 1) == b);
    lemma_one_part(b, sep);
    assert(text::pieces(s, sep) =~= seq![a, b]);
}

/// The digits after the point denote fewer than a hundred hundredths.
proof fn lemma_fraction_bound(fraction: Seq<char>)
    ensures
        centiseconds(fraction) matches Some(c) ==> c < 100,
{
    if let Some(v) = number::u64_value(fraction) {
        let run = if fraction.first() == '+' {
            fraction.drop_first()
        } else {
            fraction
        };
        number::lemma_digits_value_bound(run);
        let n = fraction.len();
        lemma_pow_increases(10, run.len(), n);
        lemma_pow0(10);
        lemma_pow1(10);
        reveal(pow);
        if n == 1 {
            assert(v < 10);
        } else {
            assert(pow(10, 2) == 10 * pow(10, 1));
            lemma_pow_adds(10, 2, (n - 2) as nat);
            let p = pow(10, (n - 2) as nat);
            lemma_pow_positive(10, (n - 2) as nat);
            assert(v < 100 * p);
            assert((v as int) / p < 100) by (nonlinear_arith)
                requires
                    0 <= v < 100 * p,
                    p > 0,
            ;
            assert(0 <= (v as int) / p) by (nonlinear_arith)
                requires
                    0 <= v,
                    p > 0,
            ;
            if n == 2 {
                assert(p == 1);
            }
        }
    }
}

/// A whole number divided by a power of ten, digit by digit.
fn without_last_digits(value: u64, n: usize) -> (r: u64)
    ensures
        r == value as int / pow(10, n as nat),
{
    let mut v: u64 = value;
    let mut i: usize = 0;
    proof {
        lemma_pow0(10);
    }
    while i < n
        invariant
            i <= n,
            v == value as int / pow(10, i as nat),
        decreases n - i,
    {
        proof {
            lemma_pow_positive(10, i as nat);
            reveal(pow);
            assert(pow(10, (i + 1) as nat) == 10 * pow(10, i as nat));
            vstd::arithmetic::div_mod::lemma_div_denominator(
                value as int,
                pow(10, i as nat),
                10,
            );
        }
        v = v / 10;
        i += 1;
    }
    v
}

/// The hundredths of a second that the digits after the point denote.
fn parse_centiseconds(fraction: &[char]) -> (r: Option<u64>)
    ensures
        match r {
            Some(c) => c < 100 && centiseconds(fraction@) == Some(c as nat),
            None => centiseconds(fraction@) is None,
        },
{
    match number::parse_u64(fraction) {
        Some(v) => {
            proof {
                lemma_fraction_bound(fraction@);
            }
            if fraction.len() == 1 {
                Some(v * 10)
            } else if fraction.len() == 2 {
                Some(v)
            } else {
                Some(without_last_digits(v, fraction.len() - 2))
            }
        },
        None => None,
    }
}

/// Reads a timestamp `MM:SS` or `MM:SS.cs`: its time in milliseconds, nothing
/// where the text has another form.
pub fn checked_timestamp(ts: &[char]) -> (r: Result<Option<u64>, OutOfRange>)
    ensures
        match r {
            Ok(Some(t)) => timestamp_in_range(ts@) && timestamp_ms(ts@) == Some(t as nat),
            Ok(None) => timestamp_ms(ts@) is None,
            Err(_) => !timestamp_in_range(ts@),
        },
{
    let colon: usize = text::find(ts, ':');
    proof {
        text::lemma_pieces(ts@, ':');
    }
    if colon == ts.len() {
        return Ok(None);
    }
    let rest: &[char] = &ts[colon + 1..ts.len()];
    proof {
        assert(rest@ == ts@.skip(colon + 1));
        text::lemma_pieces(rest@, ':');
        text::lemma_pieces(rest@, '.');
        assert(text::pieces(ts@, ':')[1] == text::pieces(ts@, ':').drop_first()[0]);
        assert(text::pieces(ts@, ':').len() == 1 + text::pieces(rest@, ':').len());
    }
    let again: usize = text::find(rest, ':');
    if again < rest.len() {
        return Ok(None);
    }
    assert(rest@.take(rest@.len() as int) == rest@);
    assert(text::pieces(ts@, ':')[1] == rest@);
    assert(ts@.take(colon as int) == ts@.subrange(0, colon as int));
    let minutes: u64 = match number::parse_u64(&ts[0..colon]) {
        Some(m) => m,
        None => {
            return Ok(None);
        },
    };
    let point: usize = text::find(rest, '.');
    let seconds: u64 = match number::parse_u64(&rest[0..point]) {
        Some(s) => s,
        None => {
            return Ok(None);
        },
    };
    assert(rest@.take(point as int) == rest@.subrange(0, point as int));
    let mut centisecs: u64 = 0;
    if point < rest.len() {
        let after: &[char] = &rest[point + 1..rest.len()];
        proof {
            assert(after@ == rest@.skip(point + 1));
            text::lemma_pieces(after@, '.');
            assert(text::pieces(rest@, '.')[1] == text::pieces(rest@, '.').drop_first()[0]);
        }
        let end: usize = text::find(after, '.');
        let digits: &[char] = &after[0..end];
        assert(digits@ == after@.take(end as int));
        assert(fraction(ts@) == Some(digits@));
        match parse_centiseconds(digits) {
            Some(c) => {
                centisecs = c;
            },
            None => {
                return Ok(None);
            },
        }
        if digits.len() > MAX_FRACTION_DIGITS {
            return Err(OutOfRange);
        }
    }
    assert(timestamp_ms(ts@) == Some((minutes * 60_000 + seconds * 1000 + centisecs * 10) as nat));
    let time: u128 = minutes as u128 * 60_000 + seconds as u128 * 1000 + centisecs as u128 * 10;
    if time > u64::MAX as u128 {
        Err(OutOfRange)
    } else {
        Ok(Some(time as u64))
    }
}

/// Reads a timestamp `MM:SS` or `MM:SS.cs`: its time in milliseconds, nothing
/// where the text has another form.
pub fn parse_timestamp(ts: &str) -> (r: Option<u64>)
    requires
        timestamp_in_range(ts@),
    ensures
        match r {
            Some(t) => timestamp_ms(ts@) == Some(t as nat),
            None => timestamp_ms(ts@) is None,
        },
{
    let chars: Vec<char> = text::to_chars(ts);
    match checked_timestamp(chars.as_slice()) {
        Ok(t) => t,
        Err(_) => None,
    }
}

/// How many lines are due at time `t`, by binary search. Where the lines due do
/// not all stand before the others, it finds some place at which a line that is
/// not due follows one that is.
fn count_due(lines: &[LyricLine], t: u64) -> (r: usize)
    ensures
        split_at_time(views(lines@), t as nat) ==> r == due(views(lines@), t as nat),
        r <= lines@.len(),
        r > 0 ==> lines@[r - 1].time_ms <= t,
        r < lines@.len() ==> lines@[r as int].time_ms > t,
{
    let mut low: usize = 0;
    let mut high: usize = lines.len();
    while low < high
        invariant
            low <= high <= lines@.len(),
            low > 0 ==> lines@[low - 1].time_ms <= t,
            high < lines@.len() ==> lines@[high as int].time_ms > t,
        decreases high - low,
    {
        let mid: usize = low + (high - low) / 2;
        if lines[mid].time_ms <= t {
            low = mid + 1;
        } else {
            high = mid;
        }
    }
    proof {
        let s = views(lines@);
        if split_at_time(s, t as nat) {
            lemma_due(s, t as nat);
            let n = due(s, t as nat) as int;
            if low < n {
                assert(s[low as int].time_ms <= t);
            } else if n < low {
                assert(s[low - 1].time_ms > t);
            }
        }
    }
    low
}

/// Reads one line of an LRC text.
fn parse_line(line: &str) -> (r: Result<Option<LyricLine>, OutOfRange>)
    ensures
        match r {
            Ok(Some(l)) => line_in_range(line@) && lyric_of(line@) == Some(l@),
            Ok(None) => lyric_of(line@) is None,
            Err(_) => !line_in_range(line@),
        },
{
    let chars: Vec<char> = text::to_chars(line);
    let (from, to): (usize, usize) = text::trim(chars.as_slice());
    let inner: &[char] = &chars.as_slice()[from..to];
    if inner.len() == 0 || inner[0] != '[' {
        return Ok(None);
    }
    let end: usize = text::find(inner, ']');
    proof {
        text::lemma_first_index(inner@, ']');
    }
    if end == inner.len() {
        return Ok(None);
    }
    let rest: &[char] = &inner[end + 1..inner.len()];
    assert(rest@ == inner@.skip(end + 1));
    let (first, last): (usize, usize) = text::trim(rest);
    if first == last {
        return Ok(None);
    }
    match checked_timestamp(&inner[1..end]) {
        Ok(Some(time_ms)) => {
            let base: usize = from + end + 1;
            let words: &str = line.substring_char(base + first, base + last);
            assert(words@ == rest@.subrange(first as int, last as int));
            Ok(Some(LyricLine { time_ms, text: words.to_owned() }))
        },
        Ok(None) => Ok(None),
        Err(e) => Err(e),
    }
}

/// All times in a text are in range where that on its first line is, and all
/// those below it are.
proof fn lemma_first_line_in_range(s: Seq<char>)
    ensures
        ({
            let end = text::first_index(s, '\n');
            lrc_in_range(s) <==> line_in_range(s.take(end)) && (end < s.len() ==> lrc_in_range(
                s.skip(end + 1),
            ))
        }),
{
    let end = text::first_index(s, '\n');
    text::lemma_first_index(s, '\n');
    let line = s.take(end);
    law_lyrics_of_one_line(line);
    if end < s.len() {
        assert(s =~= line + seq!['\n'] + s.skip(end + 1));
        law_lyrics_of_two_texts(line, s.skip(end + 1), 0);
    } else {
        assert(s =~= line);
    }
}

/// Reads an LRC text into its lyrics, or finds a time in it that does not fit.
pub fn checked_lrc(lrc: &str) -> (r: Result<Vec<LyricLine>, OutOfRange>)
    ensures
        match r {
            Ok(lines) => {
                &&& lrc_in_range(lrc@)
                &&& views(lines@) == lyrics(lrc@)
                &&& sorted(views(lines@))
            },
            Err(_) => !lrc_in_range(lrc@),
        },
{
    let chars: Vec<char> = text::to_chars(lrc);
    let all: &[char] = chars.as_slice();
    let mut lines: Vec<LyricLine> = Vec::new();
    let mut rest: &str = lrc;
    let mut from: usize = 0;
    let mut more: bool = true;
    let ghost mut read: Seq<Lyric> = Seq::empty();
    assert(all@.skip(0) == all@);
    assert(views(lines@) =~= by_time(read));
    while more
        invariant
            all@ == lrc@,
            from <= all@.len(),
            rest@ == all@.skip(from as int),
            views(lines@) == by_time(read),
            lyrics_on(text_lines(lrc@)) == read + (if more {
                lyrics_on(text_lines(rest@))
            } else {
                Seq::empty()
            }),
            lrc_in_range(lrc@) == (more ==> lrc_in_range(rest@)),
        decreases (if more { all@.len() - from + 1 } else { 0 }),
    {
        let left: &[char] = &all[from..all.len()];
        let end: usize = text::find(left, '\n');
        let ghost tail = text_lines(left@);
        proof {
            assert(left@ == rest@);
            text::lemma_pieces(left@, '\n');
            assert(left@.subrange(0, end as int) == left@.take(end as int));
            lemma_first_line_in_range(left@);
        }
        let (line, behind): (&str, &str) = text::split_behind(rest, &left[0..end]);
        assert(tail.first() == line@);
        let ghost known = read;
        match parse_line(line) {
            Ok(Some(l)) => {
                proof {
                    law_by_time_sorts(read);
                    lemma_due(views(lines@), l@.time_ms);
                    assert(read.push(l@).drop_last() == read);
                    read = read.push(l@);
                }
                let at: usize = count_due(lines.as_slice(), l.time_ms);
                let ghost before = lines@;
                let ghost added = l@;
                lines.insert(at, l);
                assert(views(lines@) == views(before).insert(at as int, added));
            },
            Ok(None) => {},
            Err(e) => {
                return Err(e);
            },
        }
        assert(known + lyrics_on(tail) == read + lyrics_on(tail.drop_first()));
        if end == left.len() {
            assert(tail.drop_first() =~= Seq::empty());
            more = false;
        } else {
            let feed: &[char] = &left[end..end + 1];
            assert(behind@.take(1) == feed@);
            let (_, next): (&str, &str) = text::split_behind(behind, feed);
            assert(next@ == all@.skip(from + end + 1));
            assert(next@ == left@.skip(end + 1));
            rest = next;
            from = from + end + 1;
        }
    }
    proof {
        law_by_time_sorts(read);
    }
    Ok(lines)
}

/// Reads an LRC text into its lyrics, in the order of their times.
pub fn parse_lrc(lrc: &str) -> (r: Vec<LyricLine>)
    requires
        lrc_in_range(lrc@),
    ensures
        views(r@) == lyrics(lrc@),
        stable_sort_of(lyrics_on(text_lines(lrc@)), views(r@)),
{
    proof {
        law_by_time_sorts(lyrics_on(text_lines(lrc@)));
    }
    match checked_lrc(lrc) {
        Ok(lines) => lines,
        Err(_) => Vec::new(),
    }
}

/// Finds the line to show at a playback position among lyrics in the order of
/// their times. Of lyrics in another order it finds some line.
pub fn find_current_lyric(lyrics: &[LyricLine], position_ms: u64) -> (r: Option<&LyricLine>)
    requires
        lyrics@.len() > 0 && lyrics@[0].time_ms > position_ms ==> position_ms + LEAD_IN_MS
            <= u64::MAX,
    ensures
        split_at_time(views(lyrics@), position_ms as nat) ==> r == (match current_index(
            views(lyrics@),
            position_ms as nat,
        ) {
            Some(i) => Some(&lyrics@[i]),
            None => None,
        }),
        match r {
            Some(line) => exists|i: int|
                0 <= i < lyrics@.len() && *line == #[trigger] lyrics@[i] && (line.time_ms
                    <= position_ms || (i == 0 && line.time_ms <= position_ms + LEAD_IN_MS)),
            None => lyrics@.len() == 0 || lyrics@[0].time_ms > position_ms + LEAD_IN_MS,
        },
{
    if lyrics.len() == 0 {
        return None;
    }
    let idx: usize = count_due(lyrics, position_ms);
    assert(views(lyrics@)[0].time_ms == lyrics@[0].time_ms);
    if idx == 0 {
        if position_ms + LEAD_IN_MS >= lyrics[0].time_ms {
            Some(&lyrics[0])
        } else {
            None
        }
    } else {
        Some(&lyrics[idx - 1])
    }
}

/// A line stands for its own time and text, and a list for its lines in their
/// order.
pub proof fn law_views(lines: Seq<LyricLine>, i: int)
    requires
        0 <= i < lines.len(),
    ensures
        views(lines).len() == lines.len(),
        views(lines)[i].time_ms == lines[i].time_ms,
        views(lines)[i].text == lines[i].text@,
{
}

/// Lines are split by a time where none that is due follows one that is not: into
/// as many as are due and the others. Lines in the order of their times are split
/// by every time.
pub proof fn law_due_lines_come_first(s: Seq<Lyric>, t: nat, i: int)
    requires
        forall|j: int, k: int|
            0 <= j <= k < s.len() && s[k].time_ms <= t ==> s[j].time_ms <= t,
        0 <= i < s.len(),
    ensures
        split_at_time(s, t),
        i < due(s, t) <==> s[i].time_ms <= t,
        (forall|j: int, k: int| 0 <= j <= k < s.len() ==> s[j].time_ms <= s[k].time_ms) ==> sorted(
            s,
        ),
{
    lemma_due(s, t);
}

/// A stable sort has the order of the times, and for each time the lines that the
/// list has, in the order that they have there.
pub proof fn law_stable_sort(from: Seq<Lyric>, to: Seq<Lyric>, i: int, j: int, t: nat)
    requires
        stable_sort_of(from, to),
    ensures
        0 <= i <= j < to.len() ==> to[i].time_ms <= to[j].time_ms,
        to.filter(|l: Lyric| l.time_ms == t) == from.filter(|l: Lyric| l.time_ms == t),
        to.to_multiset() == from.to_multiset(),
{
    assert(at_time(to, t) == at_time(from, t));
}

/// At each position the line shown is the last whose time the position has
/// reached; before the first time it is the first line, for two seconds; and
/// earlier there is none.
pub proof fn law_current_line(s: Seq<Lyric>, position_ms: nat, k: int)
    requires
        forall|i: int, j: int|
            0 <= i <= j < s.len() && s[j].time_ms <= position_ms ==> s[i].time_ms <= position_ms,
        0 <= k < s.len(),
    ensures
        s[k].time_ms <= position_ms && (k + 1 == s.len() || s[k + 1].time_ms > position_ms)
            ==> current_index(s, position_ms) == Some(k),
        position_ms < s[0].time_ms <= position_ms + 2000 ==> current_index(s, position_ms) == Some(
            0int,
        ),
        s[0].time_ms > position_ms + 2000 ==> current_index(s, position_ms) is None,
{
    lemma_due(s, position_ms);
    let n = due(s, position_ms) as int;
    if s[k].time_ms <= position_ms && (k + 1 == s.len() || s[k + 1].time_ms > position_ms) {
        assert(k < n);
        if k + 1 < n {
            assert(s[k + 1].time_ms <= position_ms);
        }
    } else if s[0].time_ms > position_ms && n > 0 {
        assert(s[0].time_ms <= position_ms);
    }
}

/// Without lines none is shown.
pub proof fn law_no_current_line(s: Seq<Lyric>, position_ms: nat)
    requires
        s.len() == 0,
    ensures
        current_index(s, position_ms) is None,
{
}

/// A timestamp without a point: the minutes before the colon and the seconds
/// behind it, where both are numbers.
pub proof fn law_timestamp_without_fraction(mm: Seq<char>, ss: Seq<char>)
    requires
        !mm.contains(':'),
        !ss.contains(':') && !ss.contains('.'),
    ensures
        timestamp_ms(mm + seq![':'] + ss) == (match (number::u64_value(mm), number::u64_value(ss)) {
            (Some(m), Some(s)) => Some(60_000 * m + 1000 * s),
            _ => None,
        }),
        timestamp_in_range(mm + seq![':'] + ss) <==> (timestamp_ms(mm + seq![':'] + ss) matches Some(
            t,
        ) ==> t < 0x1_0000_0000_0000_0000),
{
    lemma_two_parts(mm, ss, ':');
    lemma_one_part(ss, '.');
}

/// A timestamp with a point: what stands between it and the next one counts
/// tenths of a second with one character, hundredths with two, and with more
/// hundredths once the rest is cut off. What stands behind a second point counts
/// nothing.
pub proof fn law_timestamp_with_fraction(
    mm: Seq<char>,
    ss: Seq<char>,
    cs: Seq<char>,
    rest: Seq<char>,
)
    requires
        !mm.contains(':'),
        !ss.contains(':') && !ss.contains('.'),
        !cs.contains(':') && !cs.contains('.'),
        !rest.contains(':'),
        rest.len() > 0 ==> rest[0] == '.',
    ensures
        ({
            let ts = mm + seq![':'] + (ss + seq!['.'] + cs + rest);
            let time = match (number::u64_value(mm), number::u64_value(ss), number::u64_value(cs)) {
                (Some(m), Some(s), Some(c)) => Some(
                    60_000 * m + 1000 * s + if cs.len() == 1 {
                        100 * c as int
                    } else if cs.len() == 2 {
                        10 * c as int
                    } else {
                        10 * (c as int / pow(10, (cs.len() - 2) as nat))
                    },
                ),
                _ => None,
            };
            &&& match timestamp_ms(ts) {
                Some(t) => time == Some(t as int),
                None => time is None,
            }
            &&& timestamp_in_range(ts) <==> (time matches Some(t) ==> t < 0x1_0000_0000_0000_0000
                && cs.len() <= 21)
        }),
{
    let seconds = ss + seq!['.'] + cs + rest;
    let ts = mm + seq![':'] + seconds;
    assert forall|i: int| 0 <= i < seconds.len() implies seconds[i] != ':' by {
        let (n, k) = (ss.len() as int, cs.len() as int);
        if i < n {
            assert(seconds[i] == ss[i]);
        } else if n < i <= n + k {
            assert(seconds[i] == cs[i - n - 1]);
        } else if i > n + k {
            assert(seconds[i] == rest[i - n - k - 1]);
        }
    }
    lemma_two_parts(mm, seconds, ':');
    let tail = cs + rest;
    assert(seconds =~= ss + seq!['.'] + tail);
    text::law_pieces_of_joined(ss, tail, '.');
    text::law_one_piece(ss, '.');
    if rest.len() == 0 {
        assert(tail =~= cs);
        text::law_one_piece(cs, '.');
        assert(text::pieces(seconds, '.') =~= seq![ss, cs]);
    } else {
        let more = rest.drop_first();
        assert(tail =~= cs + seq!['.'] + more);
        text::law_pieces_of_joined(cs, more, '.');
        text::law_one_piece(cs, '.');
        assert(text::pieces(seconds, '.') =~= seq![ss, cs] + text::pieces(more, '.'));
    }
    assert(fraction(ts) == Some(cs));
    if let Some(c) = number::u64_value(cs) {
        if cs.len() > 2 {
            lemma_pow_positive(10, (cs.len() - 2) as nat);
            vstd::arithmetic::div_mod::lemma_div_pos_is_pos(
                c as int,
                pow(10, (cs.len() - 2) as nat),
            );
        }
    }
}

/// A timestamp has one colon: without one, and with more, it denotes no time.
pub proof fn law_timestamp_has_one_colon(a: Seq<char>, b: Seq<char>, c: Seq<char>)
    ensures
        !a.contains(':') ==> timestamp_ms(a) is None && timestamp_in_range(a),
        timestamp_ms(a + seq![':'] + b + seq![':'] + c) is None,
        timestamp_in_range(a + seq![':'] + b + seq![':'] + c),
{
    if !a.contains(':') {
        text::law_one_piece(a, ':');
    }
    text::law_pieces_of_joined(a + seq![':'] + b, c, ':');
    text::law_pieces_of_joined(a, b, ':');
    text::lemma_pieces(a, ':');
    text::lemma_pieces(b, ':');
    text::lemma_pieces(c, ':');
}

/// The hundredths of a second after the point are those that two digits denote:
/// a single one counts tens, and what follows the second is cut off.
pub proof fn law_hundredths(a: char, b: char, more: Seq<char>)
    requires
        '0' <= a <= '9',
        '0' <= b <= '9',
        forall|i: int| 0 <= i < more.len() ==> '0' <= #[trigger] more[i] <= '9',
        number::digits_value(seq![a, b] + more) <= u64::MAX,
    ensures
        centiseconds(seq![a]) == Some(((a as int - 48) * 10) as nat),
        centiseconds(seq![a, b] + more) == Some(((a as int - 48) * 10 + (b as int - 48)) as nat),
{
    let none = Seq::<char>::empty();
    number::law_decimal_notation(none, a);
    assert(none.push(a) =~= seq![a]);
    number::law_decimal_notation(seq![a], '0');
    number::law_decimal_notation(seq![a], b);
    assert(seq![a].push(b) =~= seq![a, b]);
    number::law_digits(seq![a]);
    law_fraction_is_padded_or_cut(seq![a]);
    assert(two_digits(seq![a]) =~= seq![a].push('0'));
    let all = seq![a, b] + more;
    assert forall|i: int| 0 <= i < all.len() implies '0' <= #[trigger] all[i] <= '9' by {
        if i >= 2 {
            assert(all[i] == more[i - 2]);
        }
    }
    number::law_digits(all);
    law_fraction_is_padded_or_cut(all);
    assert(two_digits(all) =~= seq![a, b]);
}

/// A line with a timestamp in brackets, after white space or none, holds the
/// lyric with the time that the timestamp denotes and the text that follows,
/// without the white space around it. It holds none where there is no such time
/// or no such text.
pub proof fn law_line_with_timestamp(
    before: Seq<char>,
    ts: Seq<char>,
    space: Seq<char>,
    words: Seq<char>,
    after: Seq<char>,
)
    requires
        forall|i: int| 0 <= i < before.len() ==> text::white_space(#[trigger] before[i]),
        forall|i: int| 0 <= i < space.len() ==> text::white_space(#[trigger] space[i]),
        forall|i: int| 0 <= i < after.len() ==> text::white_space(#[trigger] after[i]),
        words.len() > 0 ==> !text::white_space(words[0]) && !text::white_space(
            words[words.len() - 1],
        ),
        !ts.contains(']'),
    ensures
        ({
            let line = before + (seq!['['] + ts + seq![']'] + space + words) + after;
            &&& lyric_of(line) == (match timestamp_ms(ts) {
                Some(time_ms) => if words.len() > 0 {
                    Some(Lyric { time_ms, text: words })
                } else {
                    None
                },
                None => None,
            })
            &&& line_in_range(line) <==> words.len() == 0 || timestamp_in_range(ts)
        }),
{
    let line = before + (seq!['['] + ts + seq![']'] + space + words) + after;
    let head = seq!['['] + ts + seq![']'];
    let n = ts.len() as int;
    // Without words the space behind the bracket is white space at the end.
    let (core, tail) = if words.len() > 0 {
        (head + space + words, after)
    } else {
        (head, space + after)
    };
    assert(line =~= before + core + tail);
    assert forall|i: int| 0 <= i < tail.len() implies text::white_space(#[trigger] tail[i]) by {
        if words.len() == 0 {
            if i < space.len() {
                assert(tail[i] == space[i]);
            } else {
                assert(tail[i] == after[i - space.len()]);
            }
        }
    }
    assert(core[0] == '[');
    assert(core[core.len() - 1] == if words.len() > 0 {
        words[words.len() - 1]
    } else {
        ']'
    });
    text::law_trimming_takes_white_space(before, core, tail);
    assert(core[n + 1] == ']');
    assert forall|j: int| 0 <= j < n + 1 implies core[j] != ']' by {
        if j > 0 {
            assert(core[j] == ts[j - 1]);
        }
    }
    text::lemma_first_index_is(core, ']', n + 1);
    assert(core.subrange(1, n + 1) =~= ts);
    let rest = core.skip(n + 2);
    let none = Seq::<char>::empty();
    if words.len() > 0 {
        assert(rest =~= space + words + none);
        text::law_trimming_takes_white_space(space, words, none);
    } else {
        assert(rest =~= none + none + none);
        text::law_trimming_takes_white_space(none, none, none);
        assert(words =~= none);
    }
}

/// A line that does not start with a bracket, or in which none closes, holds no
/// lyric.
pub proof fn law_line_without_timestamp(before: Seq<char>, core: Seq<char>, after: Seq<char>)
    requires
        forall|i: int| 0 <= i < before.len() ==> text::white_space(#[trigger] before[i]),
        forall|i: int| 0 <= i < after.len() ==> text::white_space(#[trigger] after[i]),
        core.len() > 0 ==> !text::white_space(core[0]) && !text::white_space(core[core.len() - 1]),
        core.len() == 0 || core[0] != '[' || !core.contains(']'),
    ensures
        lyric_of(before + core + after) is None,
        line_in_range(before + core + after),
{
    text::law_trimming_takes_white_space(before, core, after);
    text::lemma_first_index(core, ']');
}

/// The lyrics of a single line are the one lyric on it, or none.
pub proof fn law_lyrics_of_one_line(line: Seq<char>)
    ensures
        lyric_of(line) is Some ==> lyrics_on(seq![line]) == seq![lyric_of(line).unwrap()],
        lyric_of(line) is None ==> lyrics_on(seq![line]) == Seq::<Lyric>::empty(),
        !line.contains('\n') ==> lyrics(line) == lyrics_on(seq![line]),
        !line.contains('\n') ==> (lrc_in_range(line) <==> line_in_range(line)),
{
    reveal_with_fuel(lyrics_on, 2);
    assert(seq![line].drop_first() =~= Seq::empty());
    let on = lyrics_on(seq![line]);
    assert(lyric_of(line) matches Some(l) ==> on =~= seq![l]);
    if !line.contains('\n') {
        text::law_one_piece(line, '\n');
        assert(text_lines(line) =~= seq![line]);
        assert(text_lines(line)[0] == line);
        reveal_with_fuel(by_time, 2);
        if on.len() == 1 {
            assert(on.drop_last() =~= Seq::empty());
            assert(by_time(on) =~= on);
        }
    }
}

/// The lyrics of a text are in the order of their times.
pub proof fn law_lyrics_are_in_order(lrc: Seq<char>, i: int, j: int)
    requires
        0 <= i <= j < lyrics(lrc).len(),
    ensures
        lyrics(lrc)[i].time_ms <= lyrics(lrc)[j].time_ms,
{
    law_by_time_sorts(lyrics_on(text_lines(lrc)));
}

/// The lyrics of two texts, one below the other, are those of both: of each time,
/// first those of the text above and then those of the one below, in their order.
pub proof fn law_lyrics_of_two_texts(above: Seq<char>, below: Seq<char>, t: nat)
    ensures
        ({
            let whole = above + seq!['\n'] + below;
            let now = |l: Lyric| l.time_ms == t;
            &&& lyrics(whole).filter(now) == lyrics(above).filter(now) + lyrics(below).filter(now)
            &&& lyrics(whole).to_multiset() == lyrics(above).to_multiset().add(
                lyrics(below).to_multiset(),
            )
            &&& lrc_in_range(whole) <==> lrc_in_range(above) && lrc_in_range(below)
        }),
{
    let whole = above + seq!['\n'] + below;
    let now = |l: Lyric| l.time_ms == t;
    law_lines_are_independent(above, below);
    let (a, b) = (lyrics_on(text_lines(above)), lyrics_on(text_lines(below)));
    law_by_time_sorts(a);
    law_by_time_sorts(b);
    law_by_time_sorts(a + b);
    assert(at_time(by_time(a), t) == at_time(a, t));
    assert(at_time(by_time(b), t) == at_time(b, t));
    assert(at_time(by_time(a + b), t) == at_time(a + b, t));
    Seq::filter_distributes_over_add(a, b, now);
    vstd::seq_lib::lemma_multiset_commutative(a, b);
    lemma_pieces_join(above, below, '\n');
    let (x, y) = (text_lines(above), text_lines(below));
    let all = text_lines(whole);
    assert(all == x + y);
    if lrc_in_range(whole) {
        assert forall|i: int| 0 <= i < x.len() implies line_in_range(#[trigger] x[i]) by {
            assert(all[i] == x[i]);
        }
        assert forall|i: int| 0 <= i < y.len() implies line_in_range(#[trigger] y[i]) by {
            assert(all[x.len() + i] == y[i]);
        }
    }
    if lrc_in_range(above) && lrc_in_range(below) {
        assert forall|i: int| 0 <= i < all.len() implies line_in_range(#[trigger] all[i]) by {
            if i < x.len() {
                assert(all[i] == x[i]);
            } else {
                assert(all[i] == y[i - x.len()]);
            }
        }
    }
}

/// From text to lyric: a text `[MM:SS.cs] words`, its only line, has one lyric,
/// with the words and the milliseconds that the digits of its timestamp count.
pub proof fn law_text_of_one_line(
    mm: Seq<char>,
    ss: Seq<char>,
    tenths: char,
    hundredths: char,
    words: Seq<char>,
)
    requires
        number::digits(mm) && number::digits_value(mm) <= u64::MAX,
        number::digits(ss) && number::digits_value(ss) <= u64::MAX,
        '0' <= tenths <= '9',
        '0' <= hundredths <= '9',
        words.len() > 0,
        !text::white_space(words[0]),
        !text::white_space(words[words.len() - 1]),
        !words.contains('\n'),
    ensures
        ({
            let ts = mm + seq![':'] + (ss + seq!['.'] + seq![tenths, hundredths]);
            let found = lyrics(seq!['['] + ts + seq![']', ' '] + words);
            &&& found.len() == 1
            &&& found[0].text == words
            &&& found[0].time_ms == 60_000 * number::digits_value(mm) + 1000
                * number::digits_value(ss) + 100 * (tenths as int - 48) + 10 * (hundredths as int
                - 48)
        }),
{
    let cs = seq![tenths, hundredths];
    let ts = mm + seq![':'] + (ss + seq!['.'] + cs);
    let line = seq!['['] + ts + seq![']', ' '] + words;
    let none = Seq::<char>::empty();
    number::law_decimal_notation(none, tenths);
    number::law_decimal_notation(seq![tenths], hundredths);
    assert(none.push(tenths) =~= seq![tenths]);
    assert(seq![tenths].push(hundredths) =~= cs);
    number::law_digits(cs);
    number::law_digits(mm);
    number::law_digits(ss);
    assert(cs + none =~= cs);
    law_hundredths(tenths, hundredths, none);
    law_minutes_seconds_and_fraction(mm, ss, cs);
    assert(two_digits(cs) =~= cs);
    assert forall|i: int| 0 <= i < ts.len() implies ts[i] != ']' && ts[i] != '\n' by {
        let (n, k) = (mm.len() as int, ss.len() as int);
        if i < n {
            assert(ts[i] == mm[i]);
        } else if n < i <= n + k {
            assert(ts[i] == ss[i - n - 1]);
        } else if i > n + k + 1 {
            assert(ts[i] == cs[i - n - k - 2]);
        }
    }
    law_line_holds_lyric(ts, words);
    assert forall|i: int| 0 <= i < line.len() implies line[i] != '\n' by {
        let n = ts.len() as int;
        if 0 < i <= n {
            assert(line[i] == ts[i - 1]);
        } else if i > n + 2 {
            assert(line[i] == words[i - n - 3]);
        }
    }
    law_lyrics_of_one_line(line);
}

/// The lyrics on lines are those of which a line holds one.
proof fn lemma_lyrics_on_contains(lines: Seq<Seq<char>>, l: Lyric)
    ensures
        lyrics_on(lines).contains(l) <==> exists|i: int|
            0 <= i < lines.len() && lyric_of(#[trigger] lines[i]) == Some(l),
    decreases lines.len(),
{
    if lines.len() > 0 {
        let first = seq![lines.first()];
        let rest = lines.drop_first();
        assert(lines =~= first + rest);
        lemma_lyrics_on_parts(first, rest);
        law_lyrics_of_one_line(lines.first());
        lemma_lyrics_on_contains(rest, l);
        let (a, b) = (lyrics_on(first), lyrics_on(rest));
        if lyrics_on(lines).contains(l) {
            let k = choose|k: int| 0 <= k < lyrics_on(lines).len() && lyrics_on(lines)[k] == l;
            if k < a.len() {
                assert(lyric_of(lines[0]) == Some(l));
            } else {
                assert(b[k - a.len()] == l);
                let i = choose|i: int| 0 <= i < rest.len() && lyric_of(#[trigger] rest[i]) == Some(l);
                assert(lines[i + 1] == rest[i]);
            }
        }
        if exists|i: int| 0 <= i < lines.len() && lyric_of(#[trigger] lines[i]) == Some(l) {
            let i = choose|i: int| 0 <= i < lines.len() && lyric_of(#[trigger] lines[i]) == Some(l);
            if i == 0 {
                assert((a + b)[0] == l);
            } else {
                assert(rest[i - 1] == lines[i]);
                let k = choose|k: int| 0 <= k < b.len() && b[k] == l;
                assert((a + b)[a.len() + k] == l);
            }
        }
    }
}

/// Every lyric of a text is the one on some line of it, with the time and the text
/// of that line; and every lyric on a line is one of the text.
pub proof fn law_every_lyric_is_on_a_line(lrc: Seq<char>, l: Lyric)
    ensures
        lyrics(lrc).contains(l) <==> exists|i: int|
            0 <= i < text_lines(lrc).len() && lyric_of(#[trigger] text_lines(lrc)[i]) == Some(l),
{
    let read = lyrics_on(text_lines(lrc));
    lemma_lyrics_on_contains(text_lines(lrc), l);
    law_by_time_sorts(read);
    broadcast use vstd::seq_lib::group_to_multiset_ensures;

    assert(lyrics(lrc).contains(l) <==> lyrics(lrc).to_multiset().count(l) > 0);
    assert(read.contains(l) <==> read.to_multiset().count(l) > 0);
}

} // verus!
