//! Text as a sequence of characters: white space, searching and splitting.

use vstd::prelude::*;
use vstd::utf8::*;

verus! {

/// What `str::to_lowercase` makes of a text.
pub uninterp spec fn lowercase(s: Seq<char>) -> Seq<char>;

/// The lower-case form of a text.
///
/// Trusted: what `str::to_lowercase` returns depends on the text alone. How
/// each character is mapped is left to the Unicode tables of the standard
/// library.
#[verifier::external_body]
pub(crate) fn to_lowercase(s: &str) -> (r: String)
    ensures
        r@ == lowercase(s@),
{
    s.to_lowercase()
}

/// Whether `c` has the Unicode property `White_Space`.
pub open spec fn white_space(c: char) -> bool {
    ||| '\u{9}' <= c <= '\u{d}'
    ||| c == ' '
    ||| c == '\u{85}'
    ||| c == '\u{a0}'
    ||| c == '\u{1680}'
    ||| '\u{2000}' <= c <= '\u{200a}'
    ||| c == '\u{2028}'
    ||| c == '\u{2029}'
    ||| c == '\u{202f}'
    ||| c == '\u{205f}'
    ||| c == '\u{3000}'
}

/// `s` without the white space at its start.
pub open spec fn trimmed_start(s: Seq<char>) -> Seq<char>
    decreases s.len(),
{
    if s.len() > 0 && white_space(s.first()) {
        trimmed_start(s.drop_first())
    } else {
        s
    }
}

/// `s` without the white space at its end.
pub open spec fn trimmed_end(s: Seq<char>) -> Seq<char>
    decreases s.len(),
{
    if s.len() > 0 && white_space(s.last()) {
        trimmed_end(s.drop_last())
    } else {
        s
    }
}

/// `s` without the white space at either end.
pub open spec fn trimmed(s: Seq<char>) -> Seq<char> {
    trimmed_end(trimmed_start(s))
}

/// The first index of `c` in `s`, or the length of `s` where there is none.
pub open spec fn first_index(s: Seq<char>, c: char) -> int
    decreases s.len(),
{
    if s.len() == 0 || s.first() == c {
        0
    } else {
        1 + first_index(s.drop_first(), c)
    }
}

/// The pieces of `s` between the occurrences of `sep`: one more than there are
/// occurrences.
pub open spec fn pieces(s: Seq<char>, sep: char) -> Seq<Seq<char>>
    decreases s.len(),
{
    let i = first_index(s, sep);
    if 0 <= i < s.len() {
        seq![s.take(i)] + pieces(s.skip(i + 1), sep)
    } else {
        seq![s]
    }
}

/// Whether `needle` stands somewhere in `hay`, without a gap.
pub open spec fn has_substring(hay: Seq<char>, needle: Seq<char>) -> bool {
    exists|i: int| #[trigger] occurs_at(hay, needle, i)
}

/// Whether `needle` stands in `hay` from index `i` on.
pub open spec fn occurs_at(hay: Seq<char>, needle: Seq<char>, i: int) -> bool {
    0 <= i && i + needle.len() <= hay.len() && hay.subrange(i, i + needle.len()) == needle
}

/// `first_index` is the least index at which `c` stands.
pub proof fn lemma_first_index(s: Seq<char>, c: char)
    ensures
        0 <= first_index(s, c) <= s.len(),
        forall|i: int| 0 <= i < first_index(s, c) ==> s[i] != c,
        first_index(s, c) < s.len() ==> s[first_index(s, c)] == c,
        first_index(s, c) < s.len() <==> s.contains(c),
    decreases s.len(),
{
    if s.len() > 0 && s.first() != c {
        lemma_first_index(s.drop_first(), c);
        assert forall|i: int| 0 <= i < first_index(s, c) implies s[i] != c by {
            if i > 0 {
                assert(s.drop_first()[i - 1] == s[i]);
            }
        }
    }
    if s.contains(c) {
        let i = choose|i: int| 0 <= i < s.len() && s[i] == c;
        assert(!(i < first_index(s, c)));
    }
    if first_index(s, c) < s.len() {
        assert(s[first_index(s, c)] == c);
    }
}

/// An index before which `c` does not stand, and at which it stands, is the
/// first one.
pub proof fn lemma_first_index_is(s: Seq<char>, c: char, i: int)
    requires
        0 <= i <= s.len(),
        forall|j: int| 0 <= j < i ==> s[j] != c,
        i < s.len() ==> s[i] == c,
    ensures
        first_index(s, c) == i,
{
    lemma_first_index(s, c);
    let f = first_index(s, c);
    if f < i {
        assert(s[f] != c);
    }
}

/// A text has at least one piece; the first ends at the first separator, and
/// the others are the pieces of what follows it.
pub proof fn lemma_pieces(s: Seq<char>, sep: char)
    ensures
        pieces(s, sep).len() >= 1,
        pieces(s, sep)[0] == s.take(first_index(s, sep)),
        first_index(s, sep) == s.len() ==> pieces(s, sep).len() == 1,
        first_index(s, sep) < s.len() ==> {
            &&& pieces(s, sep).len() >= 2
            &&& pieces(s, sep).drop_first() == pieces(s.skip(first_index(s, sep) + 1), sep)
        },
    decreases s.len(),
{
    lemma_first_index(s, sep);
    let i = first_index(s, sep);
    if i < s.len() {
        lemma_pieces(s.skip(i + 1), sep);
        assert(pieces(s, sep).drop_first() =~= pieces(s.skip(i + 1), sep));
    } else {
        assert(s.take(i) == s);
    }
}

/// Whether `c` is white space.
pub fn is_white_space(c: char) -> (r: bool)
    ensures
        r == white_space(c),
{
    ('\u{9}' <= c && c <= '\u{d}') || c == ' ' || c == '\u{85}' || c == '\u{a0}' || c == '\u{1680}'
        || ('\u{2000}' <= c && c <= '\u{200a}') || c == '\u{2028}' || c == '\u{2029}' || c
        == '\u{202f}' || c == '\u{205f}' || c == '\u{3000}'
}

/// The characters of `s`.
pub fn to_chars(s: &str) -> (r: Vec<char>)
    ensures
        r@ == s@,
{
    let mut r: Vec<char> = Vec::new();
    for c in it: s.chars()
        invariant
            it.seq() == s@,
            r@ == s@.take(it.index() as int),
    {
        r.push(c);
    }
    r
}

/// Whether two texts are the same.
pub fn same(a: &str, b: &str) -> (r: bool)
    ensures
        r == (a@ == b@),
{
    a.to_owned() == b.to_owned()
}

/// How many bytes a character has in UTF-8.
fn width(c: char) -> (r: usize)
    ensures
        r == encode_scalar(c as u32).len(),
{
    let n: u32 = c as u32;
    if n < 0x80 {
        1
    } else if n < 0x800 {
        2
    } else if n < 0x1_0000 {
        3
    } else {
        4
    }
}

/// The encoding of a text is made of those of its two parts, and the second
/// starts at a boundary between characters.
proof fn lemma_encode_parts(s: Seq<char>, n: int)
    requires
        0 <= n <= s.len(),
    ensures
        encode_utf8(s) == encode_utf8(s.take(n)) + encode_utf8(s.skip(n)),
        is_char_boundary(encode_utf8(s), encode_utf8(s.take(n)).len() as int),
    decreases n,
{
    encode_utf8_valid_utf8(s);
    if n == 0 {
        assert(s.skip(0) == s);
        assert(encode_utf8(s.take(0)) =~= Seq::empty());
        assert(encode_utf8(s) =~= encode_utf8(s.take(0)) + encode_utf8(s.skip(0)));
    } else {
        let rest = s.drop_first();
        let first = encode_scalar(s[0] as u32);
        lemma_encode_parts(rest, n - 1);
        encode_utf8_first_scalar(s);
        assert(s.take(n).drop_first() == rest.take(n - 1));
        assert(s.skip(n) == rest.skip(n - 1));
        assert(encode_utf8(s) =~= encode_utf8(s.take(n)) + encode_utf8(s.skip(n)));
        assert(pop_first_scalar(encode_utf8(s)) =~= encode_utf8(rest));
        assert(encode_utf8(s.take(n)).len() == first.len() + encode_utf8(rest.take(n - 1)).len());
    }
}

/// Texts with the same encoding are the same.
proof fn lemma_encode_injective(a: Seq<char>, b: Seq<char>)
    requires
        encode_utf8(a) == encode_utf8(b),
    ensures
        a == b,
{
    encode_utf8_decode_utf8(a);
    encode_utf8_decode_utf8(b);
}

/// Splits a text behind the characters that it starts with.
pub fn split_behind<'a>(s: &'a str, head: &[char]) -> (r: (&'a str, &'a str))
    requires
        head@.len() <= s@.len(),
        s@.take(head@.len() as int) == head@,
    ensures
        r.0@ == head@,
        r.1@ == s@.skip(head@.len() as int),
{
    let bytes: &[u8] = s.as_bytes();
    let n: usize = bytes.len();
    let mut at: usize = 0;
    let mut i: usize = 0;
    while i < head.len()
        invariant
            i <= head@.len() <= s@.len(),
            s@.take(head@.len() as int) == head@,
            n == encode_utf8(s@).len(),
            at == encode_utf8(s@.take(i as int)).len(),
        decreases head@.len() - i,
    {
        proof {
            let part = s@.take(i + 1);
            lemma_encode_parts(s@, i + 1);
            lemma_encode_parts(part, i as int);
            assert(part.take(i as int) == s@.take(i as int));
            assert(head@[i as int] == s@[i as int]);
            assert(part.skip(i as int) == seq![head@[i as int]]);
            assert(seq![head@[i as int]].drop_first() == Seq::<char>::empty());
            reveal_with_fuel(encode_utf8, 2);
        }
        at = at + width(head[i]);
        i += 1;
    }
    proof {
        lemma_encode_parts(s@, head@.len() as int);
    }
    let (a, b) = s.split_at(at);
    proof {
        let k = head@.len() as int;
        assert(encode_utf8(s@).subrange(0, at as int) =~= encode_utf8(s@.take(k)));
        assert(encode_utf8(s@).subrange(at as int, n as int) =~= encode_utf8(s@.skip(k)));
        lemma_encode_injective(a@, s@.take(k));
        lemma_encode_injective(b@, s@.skip(k));
    }
    (a, b)
}

/// The first index of `c` in `s`, or the length of `s` where there is none.
pub fn find(s: &[char], c: char) -> (r: usize)
    ensures
        r == first_index(s@, c),
        r <= s@.len(),
{
    let mut i: usize = 0;
    while i < s.len() && s[i] != c
        invariant
            i <= s@.len(),
            forall|j: int| 0 <= j < i ==> s@[j] != c,
        decreases s@.len() - i,
    {
        i += 1;
    }
    proof {
        lemma_first_index_is(s@, c, i as int);
    }
    i
}

/// Where `s` starts and ends without the white space at either end.
pub fn trim(s: &[char]) -> (r: (usize, usize))
    ensures
        r.0 <= r.1 <= s@.len(),
        s@.subrange(r.0 as int, r.1 as int) == trimmed(s@),
{
    let mut from: usize = 0;
    assert(s@.skip(0) == s@);
    while from < s.len() && is_white_space(s[from])
        invariant
            from <= s@.len(),
            trimmed_start(s@.skip(from as int)) == trimmed_start(s@),
        decreases s@.len() - from,
    {
        assert(s@.skip(from as int).drop_first() == s@.skip(from + 1));
        from += 1;
    }
    let mut to: usize = s.len();
    assert(s@.subrange(from as int, to as int) == trimmed_start(s@));
    while from < to && is_white_space(s[to - 1])
        invariant
            from <= to <= s@.len(),
            trimmed_end(s@.subrange(from as int, to as int)) == trimmed(s@),
        decreases to - from,
    {
        assert(s@.subrange(from as int, to as int).drop_last() == s@.subrange(
            from as int,
            to - 1,
        ));
        to -= 1;
    }
    (from, to)
}

/// Whether `hay` holds `needle`.
pub fn contains(hay: &[char], needle: &[char]) -> (r: bool)
    ensures
        r == has_substring(hay@, needle@),
{
    let mut i: usize = 0;
    while needle.len() <= hay.len() && i <= hay.len() - needle.len()
        invariant
            i <= hay@.len() + 1,
            forall|j: int| 0 <= j < i ==> !#[trigger] occurs_at(hay@, needle@, j),
        decreases hay@.len() + 1 - i,
    {
        let mut k: usize = 0;
        while k < needle.len() && hay[i + k] == needle[k]
            invariant
                i + needle.len() <= hay.len(),
                k <= needle@.len(),
                forall|j: int| 0 <= j < k ==> hay@[i + j] == needle@[j],
            decreases needle@.len() - k,
        {
            k += 1;
        }
        if k == needle.len() {
            assert(hay@.subrange(i as int, i + needle@.len()) == needle@);
            assert(occurs_at(hay@, needle@, i as int));
            return true;
        }
        assert(!occurs_at(hay@, needle@, i as int)) by {
            assert(hay@[i + k] != needle@[k as int]);
            if hay@.subrange(i as int, i + needle@.len()) == needle@ {
                assert(hay@.subrange(i as int, i + needle@.len())[k as int] == hay@[i + k]);
            }
        }
        i += 1;
    }
    false
}

/// White space before a text does not change where it starts.
proof fn lemma_trimmed_start(before: Seq<char>, rest: Seq<char>)
    requires
        forall|i: int| 0 <= i < before.len() ==> white_space(#[trigger] before[i]),
    ensures
        trimmed_start(before + rest) == trimmed_start(rest),
    decreases before.len(),
{
    if before.len() == 0 {
        assert(before + rest == rest);
    } else {
        let less = before.drop_first();
        assert forall|i: int| 0 <= i < less.len() implies white_space(#[trigger] less[i]) by {
            assert(less[i] == before[i + 1]);
        }
        lemma_trimmed_start(less, rest);
        assert(white_space(before[0]));
        assert((before + rest).drop_first() == less + rest);
    }
}

/// White space after a text does not change where it ends.
proof fn lemma_trimmed_end(rest: Seq<char>, after: Seq<char>)
    requires
        forall|i: int| 0 <= i < after.len() ==> white_space(#[trigger] after[i]),
    ensures
        trimmed_end(rest + after) == trimmed_end(rest),
    decreases after.len(),
{
    if after.len() == 0 {
        assert(rest + after == rest);
    } else {
        let less = after.drop_last();
        assert forall|i: int| 0 <= i < less.len() implies white_space(#[trigger] less[i]) by {
            assert(less[i] == after[i]);
        }
        lemma_trimmed_end(rest, less);
        assert(white_space(after[after.len() - 1]));
        assert((rest + after).last() == after.last());
        assert((rest + after).drop_last() == rest + less);
    }
}

/// Trimming takes away the white space around a text and nothing else: what is
/// left of a text that starts and ends with something else is that text.
pub proof fn law_trimming_takes_white_space(before: Seq<char>, core: Seq<char>, after: Seq<char>)
    requires
        forall|i: int| 0 <= i < before.len() ==> white_space(#[trigger] before[i]),
        forall|i: int| 0 <= i < after.len() ==> white_space(#[trigger] after[i]),
        core.len() > 0 ==> !white_space(core[0]) && !white_space(core[core.len() - 1]),
    ensures
        trimmed(before + core + after) == core,
{
    assert(before + core + after == before + (core + after));
    lemma_trimmed_start(before, core + after);
    if core.len() > 0 {
        assert((core + after).first() == core[0]);
        lemma_trimmed_end(core, after);
    } else {
        assert(core + after == after + Seq::<char>::empty());
        lemma_trimmed_start(after, Seq::empty());
        assert(core =~= Seq::empty());
    }
}

/// Each text is what is left of it by trimming, with white space around it.
pub proof fn law_trimmed_is_part(s: Seq<char>)
    ensures
        trimmed(s).len() > 0 ==> !white_space(trimmed(s)[0]) && !white_space(
            trimmed(s)[trimmed(s).len() - 1],
        ),
        exists|before: Seq<char>, after: Seq<char>|
            {
                &&& s == #[trigger] (before + trimmed(s) + after)
                &&& forall|i: int| 0 <= i < before.len() ==> white_space(#[trigger] before[i])
                &&& forall|i: int| 0 <= i < after.len() ==> white_space(#[trigger] after[i])
            },
{
    let start = lemma_start_part(s);
    let end = lemma_end_part(trimmed_start(s));
    assert(s == start + trimmed(s) + end);
    if trimmed(s).len() > 0 {
        assert(trimmed(s)[0] == trimmed_start(s)[0]);
    }
}

/// What `trimmed_start` takes away is white space.
proof fn lemma_start_part(s: Seq<char>) -> (before: Seq<char>)
    ensures
        s == before + trimmed_start(s),
        forall|i: int| 0 <= i < before.len() ==> white_space(#[trigger] before[i]),
        trimmed_start(s).len() > 0 ==> !white_space(trimmed_start(s)[0]),
    decreases s.len(),
{
    if s.len() > 0 && white_space(s.first()) {
        let less = lemma_start_part(s.drop_first());
        let before = seq![s.first()] + less;
        let core = trimmed_start(s);
        assert(core == trimmed_start(s.drop_first()));
        assert(s =~= seq![s.first()] + s.drop_first());
        assert(seq![s.first()] + (less + core) =~= before + core);
        before
    } else {
        assert(s =~= Seq::empty() + s);
        Seq::empty()
    }
}

/// What `trimmed_end` takes away is white space.
proof fn lemma_end_part(s: Seq<char>) -> (after: Seq<char>)
    ensures
        s == trimmed_end(s) + after,
        forall|i: int| 0 <= i < after.len() ==> white_space(#[trigger] after[i]),
        trimmed_end(s).len() > 0 ==> !white_space(trimmed_end(s)[trimmed_end(s).len() - 1]),
    decreases s.len(),
{
    if s.len() > 0 && white_space(s.last()) {
        let less = lemma_end_part(s.drop_last());
        let after = less + seq![s.last()];
        let core = trimmed_end(s);
        assert(core == trimmed_end(s.drop_last()));
        assert(s =~= s.drop_last() + seq![s.last()]);
        assert((core + less) + seq![s.last()] =~= core + after);
        after
    } else {
        assert(s =~= s + Seq::empty());
        Seq::empty()
    }
}

/// A text without the separator is its only piece.
pub proof fn law_one_piece(s: Seq<char>, sep: char)
    requires
        !s.contains(sep),
    ensures
        pieces(s, sep) == seq![s],
{
    lemma_first_index(s, sep);
}

/// The pieces of two texts joined by the separator are those of the first and
/// those of the second.
pub proof fn law_pieces_of_joined(a: Seq<char>, b: Seq<char>, sep: char)
    ensures
        pieces(a + seq![sep] + b, sep) == pieces(a, sep) + pieces(b, sep),
    decreases a.len(),
{
    let s = a + seq![sep] + b;
    let i = first_index(a, sep);
    lemma_first_index(a, sep);
    assert forall|j: int| 0 <= j < i implies s[j] != sep by {
        assert(s[j] == a[j]);
    }
    lemma_first_index_is(s, sep, i);
    if i < a.len() {
        let rest = a.skip(i + 1);
        assert(s.take(i) == a.take(i));
        assert(s.skip(i + 1) == rest + seq![sep] + b);
        law_pieces_of_joined(rest, b, sep);
        assert(pieces(s, sep) =~= pieces(a, sep) + pieces(b, sep));
    } else {
        assert(s.take(i) == a);
        assert(s.skip(i + 1) == b);
        assert(pieces(s, sep) =~= pieces(a, sep) + pieces(b, sep));
    }
}

/// A text is found in every text that it is a part of.
pub proof fn law_part_is_found(before: Seq<char>, part: Seq<char>, after: Seq<char>)
    ensures
        has_substring(before + part + after, part),
{
    let hay = before + part + after;
    let i = before.len() as int;
    assert(hay.subrange(i, i + part.len()) == part);
    assert(occurs_at(hay, part, i));
}

/// A text is found only in texts that it is a part of.
pub proof fn law_found_is_part(hay: Seq<char>, part: Seq<char>)
    requires
        has_substring(hay, part),
    ensures
        exists|before: Seq<char>, after: Seq<char>| hay == #[trigger] (before + part + after),
{
    let i = choose|i: int| #[trigger] occurs_at(hay, part, i);
    let before = hay.take(i);
    let after = hay.skip(i + part.len());
    assert(part == hay.subrange(i, i + part.len()));
    assert(hay == before + part + after);
}

} // verus!
