//! Decimal integers in text: an optional sign and at least one digit, with
//! nothing around them.

use vstd::prelude::*;

verus! {

/// A number does not fit the integer that it is meant for.
#[derive(Debug, Clone, Copy, PartialEq, Eq)]
pub struct OutOfRange;

/// Whether `c` is one of the ten decimal digits of ASCII.
pub open spec fn digit(c: char) -> bool {
    '0' <= c <= '9'
}

/// Whether `s` is a run of one or more digits.
pub open spec fn digits(s: Seq<char>) -> bool {
    s.len() > 0 && forall|i: int| 0 <= i < s.len() ==> digit(#[trigger] s[i])
}

/// The number that a run of digits denotes.
pub open spec fn digits_value(s: Seq<char>) -> nat
    decreases s.len(),
{
    if s.len() == 0 {
        0
    } else {
        digits_value(s.drop_last()) * 10 + (s.last() as nat - '0' as nat) as nat
    }
}

/// The number that `s` denotes: digits, with a `+` before them or none.
pub open spec fn unsigned_value(s: Seq<char>) -> Option<nat> {
    let run = if s.len() > 0 && s.first() == '+' {
        s.drop_first()
    } else {
        s
    };
    if digits(run) {
        Some(digits_value(run))
    } else {
        None
    }
}

/// The number that `s` denotes: digits, with a `+`, a `-` or no sign before
/// them.
pub open spec fn signed_value(s: Seq<char>) -> Option<int> {
    if s.len() > 0 && s.first() == '-' {
        if digits(s.drop_first()) {
            Some(-digits_value(s.drop_first()))
        } else {
            None
        }
    } else {
        match unsigned_value(s) {
            Some(v) => Some(v as int),
            None => None,
        }
    }
}

/// The number that `s` denotes where it fits a `u64`.
pub open spec fn u64_value(s: Seq<char>) -> Option<nat> {
    match unsigned_value(s) {
        Some(v) => if v <= u64::MAX {
            Some(v)
        } else {
            None
        },
        None => None,
    }
}

/// A digit appended to a run multiplies its number by ten and adds itself.
proof fn lemma_digits_value_push(s: Seq<char>, c: char)
    ensures
        digits_value(s.push(c)) == digits_value(s) * 10 + (c as nat - '0' as nat) as nat,
{
    assert(s.push(c).drop_last() == s);
}

/// Digits appended to a run never make the number smaller.
proof fn lemma_prefix_not_larger(s: Seq<char>, n: int)
    requires
        0 <= n <= s.len(),
    ensures
        digits_value(s.take(n)) <= digits_value(s),
    decreases s.len() - n,
{
    if n == s.len() {
        assert(s.take(n) == s);
    } else {
        lemma_prefix_not_larger(s, n + 1);
        assert(s.take(n + 1) == s.take(n).push(s[n]));
        lemma_digits_value_push(s.take(n), s[n]);
    }
}

/// A run of `n` digits denotes less than the `n`-th power of ten.
pub proof fn lemma_digits_value_bound(s: Seq<char>)
    requires
        forall|i: int| 0 <= i < s.len() ==> digit(#[trigger] s[i]),
    ensures
        digits_value(s) < vstd::arithmetic::power::pow(10, s.len()),
    decreases s.len(),
{
    vstd::arithmetic::power::lemma_pow0(10);
    if s.len() > 0 {
        lemma_digits_value_bound(s.drop_last());
        let n = (s.len() - 1) as nat;
        reveal(vstd::arithmetic::power::pow);
        assert(vstd::arithmetic::power::pow(10, s.len()) == 10 * vstd::arithmetic::power::pow(
            10,
            n,
        ));
    }
}

/// Reads a run of digits: its value where it is one and the value is at most
/// `max`, nothing otherwise.
fn parse_digits(s: &[char], max: u64) -> (r: Option<u64>)
    ensures
        r == (if digits(s@) && digits_value(s@) <= max {
            Some(digits_value(s@) as u64)
        } else {
            None
        }),
{
    if s.len() == 0 {
        return None;
    }
    let mut value: u64 = 0;
    let mut i: usize = 0;
    while i < s.len()
        invariant
            i <= s@.len(),
            forall|j: int| 0 <= j < i ==> digit(#[trigger] s@[j]),
            value == digits_value(s@.take(i as int)),
            value <= max,
            s@.len() > 0,
        decreases s@.len() - i,
    {
        let c: char = s[i];
        if c < '0' || '9' < c {
            assert(!digit(s@[i as int]));
            return None;
        }
        let d: u64 = (c as u32 - '0' as u32) as u64;
        proof {
            lemma_digits_value_push(s@.take(i as int), c);
            assert(s@.take(i + 1) == s@.take(i as int).push(c));
            lemma_prefix_not_larger(s@, i + 1);
        }
        if d > max || value > (max - d) / 10 {
            assert(value * 10 + d > max);
            return None;
        }
        value = value * 10 + d;
        i += 1;
    }
    assert(s@.take(i as int) == s@);
    Some(value)
}

/// Reads an unsigned number of at most `max`.
fn parse_unsigned(s: &[char], max: u64) -> (r: Option<u64>)
    ensures
        r == (match unsigned_value(s@) {
            Some(v) => if v <= max {
                Some(v as u64)
            } else {
                None
            },
            None => None,
        }),
{
    if s.len() > 0 && s[0] == '+' {
        let rest: &[char] = &s[1..s.len()];
        assert(rest@ == s@.drop_first());
        parse_digits(rest, max)
    } else {
        parse_digits(s, max)
    }
}

/// Reads a `u64`.
pub fn parse_u64(s: &[char]) -> (r: Option<u64>)
    ensures
        match r {
            Some(v) => u64_value(s@) == Some(v as nat),
            None => u64_value(s@) is None,
        },
{
    parse_unsigned(s, u64::MAX)
}

/// Reads a signed number from `-max - 1` up to `max`.
fn parse_signed(s: &[char], max: i64) -> (r: Option<i64>)
    requires
        max >= 0,
    ensures
        r == (match signed_value(s@) {
            Some(v) => if -max - 1 <= v <= max {
                Some(v as i64)
            } else {
                None
            },
            None => None,
        }),
{
    if s.len() > 0 && s[0] == '-' {
        let rest: &[char] = &s[1..s.len()];
        assert(rest@ == s@.drop_first());
        match parse_digits(rest, max as u64 + 1) {
            Some(v) => {
                if v == 0 {
                    Some(0)
                } else {
                    Some(-1 - (v - 1) as i64)
                }
            },
            None => None,
        }
    } else {
        match parse_unsigned(s, max as u64) {
            Some(v) => Some(v as i64),
            None => None,
        }
    }
}

/// Reads an `i64`.
pub fn parse_i64(s: &[char]) -> (r: Option<i64>)
    ensures
        r == (match signed_value(s@) {
            Some(v) => if i64::MIN <= v <= i64::MAX {
                Some(v as i64)
            } else {
                None
            },
            None => None,
        }),
{
    parse_signed(s, i64::MAX)
}

/// Reads an `i32`.
pub fn parse_i32(s: &[char]) -> (r: Option<i32>)
    ensures
        r == (match signed_value(s@) {
            Some(v) => if i32::MIN <= v <= i32::MAX {
                Some(v as i32)
            } else {
                None
            },
            None => None,
        }),
{
    match parse_signed(s, i32::MAX as i64) {
        Some(v) => Some(v as i32),
        None => None,
    }
}

/// Reads a `u32`.
pub fn parse_u32(s: &[char]) -> (r: Option<u32>)
    ensures
        r == (match unsigned_value(s@) {
            Some(v) => if v <= u32::MAX {
                Some(v as u32)
            } else {
                None
            },
            None => None,
        }),
{
    match parse_unsigned(s, u32::MAX as u64) {
        Some(v) => Some(v as u32),
        None => None,
    }
}

/// A run of digits is one or more of the characters from `0` to `9`.
pub proof fn law_digits(s: Seq<char>)
    ensures
        digits(s) <==> s.len() > 0 && forall|i: int| 0 <= i < s.len() ==> '0' <= #[trigger] s[i] <= '9',
{
    if digits(s) {
        assert forall|i: int| 0 <= i < s.len() implies '0' <= #[trigger] s[i] <= '9' by {
            assert(digit(s[i]));
        }
    }
}

/// Decimal notation: no digits denote zero, and a digit behind a run counts
/// ones where the run counts tens.
pub proof fn law_decimal_notation(s: Seq<char>, c: char)
    requires
        '0' <= c <= '9',
    ensures
        digits_value(Seq::empty()) == 0,
        digits_value(s.push(c)) == 10 * digits_value(s) + (c as int - 48),
{
    lemma_digits_value_push(s, c);
}

/// An unsigned number is a run of digits, with a plus sign before it or none.
pub proof fn law_unsigned_number(run: Seq<char>)
    requires
        run.len() > 0,
        forall|i: int| 0 <= i < run.len() ==> '0' <= #[trigger] run[i] <= '9',
    ensures
        unsigned_value(run) == Some(digits_value(run)),
        unsigned_value(seq!['+'] + run) == Some(digits_value(run)),
{
    law_digits(run);
    assert((seq!['+'] + run).drop_first() == run);
}

/// Nothing else is an unsigned number.
pub proof fn law_unsigned_number_only(s: Seq<char>)
    requires
        unsigned_value(s) is Some,
    ensures
        exists|run: Seq<char>|
            {
                &&& run.len() > 0
                &&& forall|i: int| 0 <= i < run.len() ==> '0' <= #[trigger] run[i] <= '9'
                &&& s == run || s == seq!['+'] + run
                &&& unsigned_value(s) == Some(#[trigger] digits_value(run))
            },
{
    let run = if s.first() == '+' {
        s.drop_first()
    } else {
        s
    };
    if s.len() == 0 {
        assert(s.first() == '+' ==> !digits(s));
        assert(!digits(s));
    }
    law_digits(run);
    assert(unsigned_value(s) == Some(digits_value(run)));
    assert(s =~= run || s =~= seq!['+'] + run);
}

/// A signed number is an unsigned one, or a run of digits behind a minus sign,
/// which denotes the negative of their number.
pub proof fn law_signed_number(s: Seq<char>, run: Seq<char>)
    requires
        run.len() > 0,
        forall|i: int| 0 <= i < run.len() ==> '0' <= #[trigger] run[i] <= '9',
    ensures
        signed_value(seq!['-'] + run) == Some(-(digits_value(run) as int)),
        s.len() == 0 || s[0] != '-' ==> signed_value(s) == (match unsigned_value(s) {
            Some(v) => Some(v as int),
            None => None,
        }),
{
    law_digits(run);
    assert((seq!['-'] + run).drop_first() == run);
}

/// Behind a minus sign nothing but a run of digits makes a number.
pub proof fn law_negative_number_only(s: Seq<char>)
    requires
        s.len() > 0 && s[0] == '-',
        signed_value(s) is Some,
    ensures
        s.len() > 1,
        forall|i: int| 1 <= i < s.len() ==> '0' <= #[trigger] s[i] <= '9',
{
    let run = s.drop_first();
    law_digits(run);
    assert forall|i: int| 1 <= i < s.len() implies '0' <= #[trigger] s[i] <= '9' by {
        assert(s[i] == run[i - 1]);
    }
}

/// A 64-bit number is an unsigned one below two to the 64th.
pub proof fn law_u64_number(s: Seq<char>)
    ensures
        u64_value(s) == (match unsigned_value(s) {
            Some(v) => if v < 0x1_0000_0000_0000_0000 {
                Some(v)
            } else {
                None
            },
            None => None,
        }),
{
}

} // verus!
