//! The time stamps of rows and events.

use vstd::prelude::*;

verus! {

/// Whether a character is a decimal digit.
pub open spec fn is_digit(c: char) -> bool {
    '0' <= c <= '9'
}

/// Two decimal digits stand at `i`, for a number from `least` to `greatest`.
pub open spec fn has_number(text: Seq<char>, i: int, least: int, greatest: int) -> bool {
    &&& is_digit(text[i])
    &&& is_digit(text[i + 1])
    &&& least <= 10 * (text[i] as int - '0' as int) + (text[i + 1] as int - '0' as int) <= greatest
}

/// The shape of a time stamp: year, month, day, hour, minute, second and
/// milliseconds of a UTC date, as in `2018-01-26T18:30:09.453Z`. A year has four
/// digits, or a plus sign and five or six.
pub open spec fn is_utc_stamp(text: Seq<char>) -> bool {
    let n = text.len();
    &&& n == 24 || 26 <= n <= 27
    &&& if n == 24 { is_digit(text[0]) } else { text[0] == '+' }
    &&& forall|i: int| 0 < i < n - 20 ==> is_digit(#[trigger] text[i])
    &&& text[n - 20] == '-'
    &&& has_number(text, n - 19, 1, 12)
    &&& text[n - 17] == '-'
    &&& has_number(text, n - 16, 1, 31)
    &&& text[n - 14] == 'T'
    &&& has_number(text, n - 13, 0, 23)
    &&& text[n - 11] == ':'
    &&& has_number(text, n - 10, 0, 59)
    &&& text[n - 8] == ':'
    &&& has_number(text, n - 7, 0, 59)
    &&& text[n - 5] == '.'
    &&& is_digit(text[n - 4])
    &&& is_digit(text[n - 3])
    &&& is_digit(text[n - 2])
    &&& text[n - 1] == 'Z'
}

/// `chrono::Utc::now`, written by `DateTime::to_rfc3339_opts` with milliseconds
/// and `Z`. The shape of the text is stated, with what each number of it can be;
/// which time it is is left unsaid, for the clock decides.
#[verifier::external_body]
pub(crate) fn now() -> (text: String)
    ensures
        is_utc_stamp(text@),
{
    chrono::Utc::now().to_rfc3339_opts(chrono::SecondsFormat::Millis, true)
}

} // verus!
