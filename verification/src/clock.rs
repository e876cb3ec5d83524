//! The time of day, as it stands at the head of a note.
use vstd::prelude::*;

verus! {

/// A decimal digit.
pub open spec fn digit(c: char) -> bool {
    '0' <= c <= '9'
}

/// Two digits stand in `t` at `at`, and make a number from `low` to `high`.
pub open spec fn two_digits(t: Seq<char>, at: int, low: int, high: int) -> bool {
    &&& digit(t[at])
    &&& digit(t[at + 1])
    &&& low <= 10 * (t[at] as int - '0' as int) + (t[at + 1] as int - '0' as int) <= high
}

/// A date and a time: a year of four digits or more, which may have a sign
/// before it, then `-MM-DD HH:MM:SS`. The second may be 60.
pub open spec fn clock_text(t: Seq<char>) -> bool {
    let year = t.len() - 15;
    &&& year >= 4
    &&& digit(t[0]) || (year >= 5 && (t[0] == '+' || t[0] == '-'))
    &&& forall|i: int| 1 <= i < year ==> digit(#[trigger] t[i])
    &&& t[year] == '-' && two_digits(t, year + 1, 1, 12)
    &&& t[year + 3] == '-' && two_digits(t, year + 4, 1, 31)
    &&& t[year + 6] == ' ' && two_digits(t, year + 7, 0, 23)
    &&& t[year + 9] == ':' && two_digits(t, year + 10, 0, 59)
    &&& t[year + 12] == ':' && two_digits(t, year + 13, 0, 60)
}

/// `chrono::Local::now`, written by `DateTime::format` with the one pattern
/// used here. Which time comes out depends on the machine; it is always a year,
/// a month, a day, an hour, a minute and a second, set out as `clock_text`
/// says. Nothing is stated of which moment it is.
#[verifier::external_body]
fn local_time(pattern: &str) -> (r: String)
    requires
        pattern@ == "%Y-%m-%d %H:%M:%S"@,
    ensures
        clock_text(r@),
{
    chrono::Local::now().format(pattern).to_string()
}

/// The present date and time.
pub fn now() -> (r: String)
    ensures
        clock_text(r@),
{
    local_time("%Y-%m-%d %H:%M:%S")
}

} // verus!
