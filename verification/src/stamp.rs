//! Identifiers and times for what happens now.
use chrono::Local;
use uuid::Uuid;
use vstd::prelude::*;

verus! {

/// A lower-case hexadecimal digit.
pub open spec fn is_hex(c: char) -> bool {
    ('0' <= c && c <= '9') || ('a' <= c && c <= 'f')
}

/// The form of a random identifier: thirty-two hexadecimal digits in groups of
/// eight, four, four, four and twelve, the third group starting with a four
/// and the fourth with eight, nine, a or b.
pub open spec fn is_random_id(s: Seq<char>) -> bool {
    &&& s.len() == 36
    &&& s[8] == '-' && s[13] == '-' && s[18] == '-' && s[23] == '-'
    &&& forall|i: int|
        0 <= i < 36 && i != 8 && i != 13 && i != 18 && i != 23 ==> is_hex(#[trigger] s[i])
    &&& s[14] == '4'
    &&& s[19] == '8' || s[19] == '9' || s[19] == 'a' || s[19] == 'b'
}

/// `uuid::Uuid::new_v4` as text: a random identifier in hyphenated lower-case
/// form. Which one it is depends on chance; that two of them differ is not
/// claimed.
#[verifier::external_body]
pub(crate) fn random_id() -> (r: String)
    ensures
        is_random_id(r@),
{
    Uuid::new_v4().to_string()
}

/// A decimal digit.
pub open spec fn is_digit(c: char) -> bool {
    '0' <= c && c <= '9'
}

/// The form of a year: four digits, or a sign and more than four.
pub open spec fn is_year(s: Seq<char>) -> bool {
    ||| s.len() == 4 && forall|i: int| 0 <= i < 4 ==> is_digit(#[trigger] s[i])
    ||| s.len() > 5 && s[0] == '+' && forall|i: int| 0 < i < s.len() ==> is_digit(#[trigger] s[i])
}

/// The form of a date: year, month and day, with hyphens between them.
pub open spec fn is_date(s: Seq<char>) -> bool {
    let n = s.len();
    &&& n >= 10
    &&& is_year(s.take(n - 6))
    &&& s[n - 6] == '-' && is_digit(s[n - 5]) && is_digit(s[n - 4])
    &&& s[n - 3] == '-' && is_digit(s[n - 2]) && is_digit(s[n - 1])
}

/// The form of a time to the second: a date, a `T`, and hours, minutes and
/// seconds with colons between them.
pub open spec fn is_time(s: Seq<char>) -> bool {
    let n = s.len();
    &&& n >= 19
    &&& is_date(s.take(n - 9))
    &&& s[n - 9] == 'T' && is_digit(s[n - 8]) && is_digit(s[n - 7])
    &&& s[n - 6] == ':' && is_digit(s[n - 5]) && is_digit(s[n - 4])
    &&& s[n - 3] == ':' && is_digit(s[n - 2]) && is_digit(s[n - 1])
}

/// The date of a time.
pub open spec fn date_of(time: Seq<char>) -> Seq<char> {
    time.take(time.len() - 9)
}

/// The pattern of a second.
pub open spec fn second_pattern() -> Seq<char> {
    "%Y-%m-%dT%H:%M:%S"@
}

/// The pattern of a day.
pub open spec fn day_pattern() -> Seq<char> {
    "%Y-%m-%d"@
}

/// `chrono::Local::now` formatted after one of the two patterns. Which instant
/// it is depends on the clock and the machine's time zone, and is not claimed;
/// the form is, and that it is the pattern's. The crate takes a clock that
/// stands behind the beginning of 1970.
#[verifier::external_body]
fn local_now(pattern: &str) -> (r: String)
    requires
        pattern@ == second_pattern() || pattern@ == day_pattern(),
    ensures
        pattern@ == second_pattern() ==> is_time(r@),
        pattern@ == day_pattern() ==> is_date(r@),
{
    Local::now().format(pattern).to_string()
}

/// The local time to the second.
pub(crate) fn timestamp() -> (r: String)
    ensures
        is_time(r@),
{
    local_now("%Y-%m-%dT%H:%M:%S")
}

/// The date of a time.
pub(crate) fn date_part(time: &str) -> (r: String)
    requires
        is_time(time@),
    ensures
        r@ == date_of(time@),
{
    let n = time.unicode_len();
    let date = time.substring_char(0, n - 9);
    assert(date@ =~= date_of(time@));
    date.to_owned()
}

/// The local date.
pub(crate) fn today() -> (r: String)
    ensures
        is_date(r@),
{
    local_now("%Y-%m-%d")
}

} // verus!
