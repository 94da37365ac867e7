//! Settings from environment variables.
//!
//! Each function takes what the environment holds for its variable: nothing
//! where the variable is not set, or is not valid Unicode.

use vstd::prelude::*;

use crate::number;
use crate::text;

verus! {

/// The variable with the width of the overlay, in pixels.
pub const WIDTH_VAR: &'static str = "LYRICS_WIDTH";

/// The variable with the height of the overlay, in pixels.
pub const HEIGHT_VAR: &'static str = "LYRICS_HEIGHT";

/// The variable with the distance from the top of the screen, in pixels.
pub const TOP_MARGIN_VAR: &'static str = "LYRICS_TOP_MARGIN";

/// The variable with the distance from the right of the screen, in pixels.
pub const RIGHT_MARGIN_VAR: &'static str = "LYRICS_RIGHT_MARGIN";

/// The variable with the time by which lyrics are shown early, in milliseconds.
pub const OFFSET_VAR: &'static str = "LYRICS_OFFSET_MS";

/// The variable that allows lyrics of another artist.
pub const ALLOW_MISMATCH_VAR: &'static str = "LYRICS_ALLOW_ARTIST_MISMATCH";

/// The whole number in a setting where it lies between `low` and `high`, else
/// `default`.
pub open spec fn number_or(value: Option<int>, low: int, high: int, default: int) -> int {
    match value {
        Some(v) => if low <= v <= high {
            v
        } else {
            default
        },
        None => default,
    }
}

/// The number that a setting denotes, with a `+` before it or none.
pub open spec fn unsigned_setting(value: Option<&str>) -> Option<int> {
    match value {
        Some(s) => match number::unsigned_value(s@) {
            Some(v) => Some(v as int),
            None => None,
        },
        None => None,
    }
}

/// The number that a setting denotes, with a sign before it or none.
pub open spec fn signed_setting(value: Option<&str>) -> Option<int> {
    match value {
        Some(s) => number::signed_value(s@),
        None => None,
    }
}

/// The `u32` in a setting, or the default.
pub fn get_env_u32(value: Option<&str>, default: u32) -> (r: u32)
    ensures
        r == number_or(unsigned_setting(value), 0, u32::MAX as int, default as int),
{
    match value {
        Some(s) => {
            let chars: Vec<char> = text::to_chars(s);
            match number::parse_u32(chars.as_slice()) {
                Some(v) => v,
                None => default,
            }
        },
        None => default,
    }
}

/// The `i32` in a setting, or the default.
pub fn get_env_i32(value: Option<&str>, default: i32) -> (r: i32)
    ensures
        r == number_or(signed_setting(value), i32::MIN as int, i32::MAX as int, default as int),
{
    match value {
        Some(s) => {
            let chars: Vec<char> = text::to_chars(s);
            match number::parse_i32(chars.as_slice()) {
                Some(v) => v,
                None => default,
            }
        },
        None => default,
    }
}

/// The width of the overlay in pixels, 600 by default.
pub fn overlay_width(value: Option<&str>) -> (r: u32)
    ensures
        r == number_or(unsigned_setting(value), 0, u32::MAX as int, 600),
{
    get_env_u32(value, 600)
}

/// The height of the overlay in pixels, 80 by default.
pub fn overlay_height(value: Option<&str>) -> (r: u32)
    ensures
        r == number_or(unsigned_setting(value), 0, u32::MAX as int, 80),
{
    get_env_u32(value, 80)
}

/// The distance from the top of the screen in pixels, 50 by default.
pub fn top_margin(value: Option<&str>) -> (r: i32)
    ensures
        r == number_or(signed_setting(value), i32::MIN as int, i32::MAX as int, 50),
{
    get_env_i32(value, 50)
}

/// The distance from the right of the screen in pixels, 10 by default.
pub fn right_margin(value: Option<&str>) -> (r: i32)
    ensures
        r == number_or(signed_setting(value), i32::MIN as int, i32::MAX as int, 10),
{
    get_env_i32(value, 10)
}

/// The time in milliseconds by which lyrics are shown early, 300 by default. It
/// makes up for the latency of the system.
pub fn get_lyrics_offset_ms(value: Option<&str>) -> (r: i64)
    ensures
        r == number_or(signed_setting(value), i64::MIN as int, i64::MAX as int, 300),
{
    match value {
        Some(s) => {
            let chars: Vec<char> = text::to_chars(s);
            match number::parse_i64(chars.as_slice()) {
                Some(v) => v,
                None => 300,
            }
        },
        None => 300,
    }
}

/// Whether a setting says yes, given also its lower-case form: it is `1`, or
/// `true` in any case.
pub fn says_yes(value: &str, lowered: &str) -> (r: bool)
    ensures
        r == (value@ == "1"@ || lowered@ == "true"@),
{
    text::same(value, "1") || text::same(lowered, "true")
}

/// Whether lyrics of another artist are allowed; their timing is likely to be
/// wrong. They are not by default.
pub fn allow_artist_mismatch(value: Option<&str>) -> (r: bool)
    ensures
        r == (value matches Some(v) && (v@ == "1"@ || text::lowercase(v@) == "true"@)),
{
    match value {
        Some(v) => {
            let lowered: String = text::to_lowercase(v);
            says_yes(v, lowered.as_str())
        },
        None => false,
    }
}

/// A number within its bounds is taken as it is; in all other cases the default
/// counts.
pub proof fn law_number_or_default(v: int, low: int, high: int, default: int)
    ensures
        number_or(None, low, high, default) == default,
        low <= v <= high ==> number_or(Some(v), low, high, default) == v,
        v < low || v > high ==> number_or(Some(v), low, high, default) == default,
{
}

/// A setting of digits denotes their number, a minus sign before them its
/// negative where that is allowed; a variable that is not set denotes nothing.
pub proof fn law_setting_is_decimal(s: &str, run: Seq<char>)
    requires
        run.len() > 0,
        forall|i: int| 0 <= i < run.len() ==> '0' <= #[trigger] run[i] <= '9',
    ensures
        s@ == run || s@ == seq!['+'] + run ==> {
            &&& unsigned_setting(Some(s)) == Some(number::digits_value(run) as int)
            &&& signed_setting(Some(s)) == Some(number::digits_value(run) as int)
        },
        s@ == seq!['-'] + run ==> {
            &&& unsigned_setting(Some(s)) is None
            &&& signed_setting(Some(s)) == Some(-(number::digits_value(run) as int))
        },
        unsigned_setting(None) is None,
        signed_setting(None) is None,
{
    number::law_unsigned_number(run);
    number::law_signed_number(s@, run);
    if s@ == run {
        assert(s@[0] == run[0]);
    }
    if s@ == seq!['-'] + run {
        assert(s@[0] == '-');
        assert(!number::digit(s@[0]));
    }
}

/// A setting denotes the number that its text does, and nothing where that is
/// none.
pub proof fn law_setting_is_only_decimal(s: &str)
    ensures
        unsigned_setting(Some(s)) == (match number::unsigned_value(s@) {
            Some(v) => Some(v as int),
            None => None,
        }),
        signed_setting(Some(s)) == number::signed_value(s@),
{
}

} // verus!
