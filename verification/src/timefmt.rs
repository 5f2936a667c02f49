//! Display formatting for UTC timestamps (seconds since the epoch), done by
//! the chrono crate behind one trusted wrapper.

use vstd::prelude::*;

verus! {

use vstd::string::StrSliceExecFns;

/// Latest second of year 9999; timestamps are kept below this so the
/// rendered year always has four digits.
pub const TIMESTAMP_DISPLAY_MAX: i64 = 253402300799;

/// The text chrono renders for `secs` as `YYYY-MM-DD HH:MM:SS` in UTC: a
/// function of the timestamp alone.
pub uninterp spec fn datetime_display_of(secs: int) -> Seq<char>;

/// Relies on chrono's DateTime::from_timestamp_secs and strftime-style
/// formatting: for an in-range timestamp the `%Y-%m-%d %H:%M:%S` rendering in
/// UTC is deterministic, nineteen characters long (four-digit year), and made
/// of digits, `-`, `:` and a space only.
#[verifier::external_body]
fn format_datetime_raw(secs: i64) -> (r: String)
    requires
        0 <= secs <= TIMESTAMP_DISPLAY_MAX,
    ensures
        r@ == datetime_display_of(secs as int),
        r@.len() == 19,
        forall|i: int| 0 <= i < r@.len() ==> r@[i] != '\n' && r@[i] != '\t' && r@[i] != '\r',
{
    match chrono::DateTime::from_timestamp_secs(secs) {
        Some(dt) => dt.format("%Y-%m-%d %H:%M:%S").to_string(),
        None => String::new(),
    }
}

/// Render `secs` as `YYYY-MM-DD HH:MM:SS`; out-of-range timestamps are
/// clamped into the displayable span first.
pub fn format_datetime(secs: i64) -> (r: String)
    ensures
        r@ == datetime_display_of(clamp_displayable(secs as int)),
        r@.len() == 19,
        forall|i: int| 0 <= i < r@.len() ==> r@[i] != '\n' && r@[i] != '\t' && r@[i] != '\r',
{
    let clamped: i64 = if secs < 0 {
        0
    } else if secs > TIMESTAMP_DISPLAY_MAX {
        TIMESTAMP_DISPLAY_MAX
    } else {
        secs
    };
    format_datetime_raw(clamped)
}

/// The timestamp actually rendered: negative and far-future values are
/// pinned to the ends of the displayable span.
pub open spec fn clamp_displayable(secs: int) -> int {
    if secs < 0 {
        0
    } else if secs > TIMESTAMP_DISPLAY_MAX {
        TIMESTAMP_DISPLAY_MAX as int
    } else {
        secs
    }
}

/// The minute-precision rendering: the date and time without seconds.
pub open spec fn datetime_minutes_of(secs: int) -> Seq<char> {
    datetime_display_of(clamp_displayable(secs)).subrange(0, 16)
}

/// Render `secs` as `YYYY-MM-DD HH:MM`.
pub fn format_datetime_minutes(secs: i64) -> (r: String)
    ensures
        r@ == datetime_minutes_of(secs as int),
        forall|i: int| 0 <= i < r@.len() ==> r@[i] != '\n' && r@[i] != '\t' && r@[i] != '\r',
{
    let full = format_datetime(secs);
    let r = full.as_str().substring_char(0, 16).to_owned();
    r
}

} // verus!
