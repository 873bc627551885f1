//! The time that a telegram states of itself.
//!
//! The meter writes it as twelve digits, `YYMMDDhhmmss`, which an `S` may
//! follow while daylight saving time is in force.

use vstd::prelude::*;
use vstd::string::StrSliceExecFns;

verus! {

/// A calendar date and a time of day.
#[derive(Debug, Clone, Copy, PartialEq, Eq, Structural)]
pub struct DateTime {
    /// The year, with its century.
    pub year: i32,
    /// The month, from 1.
    pub month: u32,
    /// The day of the month, from 1.
    pub day: u32,
    /// The hour of the day, from 0.
    pub hour: u32,
    /// The minute of the hour.
    pub minute: u32,
    /// The second of the minute.
    pub second: u32,
}

/// What `chrono::NaiveDateTime::parse_from_str` makes of `text` under
/// `format`: the date and time that it reads, or `None` where it reports an
/// error.
pub uninterp spec fn chrono_datetime(text: Seq<char>, format: Seq<char>) -> Option<DateTime>;

/// Calls `chrono::NaiveDateTime::parse_from_str`, which reads `text` by the
/// strftime-like `format`, and returns the fields of the date and time that
/// it gives, or `None` where it reports an error. The result depends on the
/// two texts alone; nothing more is claimed of it.
#[verifier::external_body]
fn parse_datetime(text: &str, format: &str) -> (r: Option<DateTime>)
    ensures
        r == chrono_datetime(text@, format@),
{
    match chrono::NaiveDateTime::parse_from_str(text, format) {
        Ok(t) => Some(
            DateTime {
                year: chrono::Datelike::year(&t),
                month: chrono::Datelike::month(&t),
                day: chrono::Datelike::day(&t),
                hour: chrono::Timelike::hour(&t),
                minute: chrono::Timelike::minute(&t),
                second: chrono::Timelike::second(&t),
            },
        ),
        Err(_) => None,
    }
}

/// `s` without the `S` that may end it.
pub open spec fn strip_dst_flag(s: Seq<char>) -> Seq<char> {
    if s.len() > 0 && s.last() == 'S' {
        s.drop_last()
    } else {
        s
    }
}

/// The layout of the meter's time: year without century, month, day, hour,
/// minute, second, two digits each.
pub open spec fn compact_layout() -> Seq<char> {
    "%y%m%d%H%M%S"@
}

/// The date and time that the meter's text `s` states, if it states one.
pub open spec fn timestamp_of(s: Seq<char>) -> Option<DateTime> {
    chrono_datetime(strip_dst_flag(s), compact_layout())
}

/// `s` without the `S` that may end it.
pub fn without_dst_flag(s: &str) -> (r: &str)
    ensures
        r@ == strip_dst_flag(s@),
{
    let n = s.unicode_len();
    if n > 0 && s.get_char(n - 1) == 'S' {
        let r = s.substring_char(0, n - 1);
        proof {
            assert(s@.subrange(0, n - 1) =~= s@.drop_last());
        }
        r
    } else {
        s
    }
}

/// Reads the meter's time: drops one trailing `S`, then reads the rest as
/// `YYMMDDhhmmss`. `None` where the text is no such time.
pub fn get_timestamp(str_value: &str) -> (r: Option<DateTime>)
    ensures
        r == timestamp_of(str_value@),
{
    parse_datetime(without_dst_flag(str_value), "%y%m%d%H%M%S")
}

} // verus!
