//! Writing out moments of time.

use core::fmt::Write;

use vstd::prelude::*;

use crate::strings::opt_view;

verus! {

/// What a moment looks like: `seconds` and `nanos` since 1970, `offset` seconds east of
/// Greenwich, written as `format` says. None if there is no such moment or no such format.
pub uninterp spec fn formatted_time(
    seconds: i64,
    nanos: u32,
    offset: i32,
    format: Seq<char>,
) -> Option<Seq<char>>;

/// Calls `chrono::DateTime::from_timestamp` and `chrono::FixedOffset::east_opt`, and writes the
/// moment with `chrono::DateTime::format`. What comes out depends on the arguments alone: the
/// time zone enters only as the offset. Writing fails on a format with an unknown specifier.
#[verifier::external_body]
pub(crate) fn format_time(seconds: i64, nanos: u32, offset: i32, format: &str) -> (r: Option<
    String,
>)
    ensures
        opt_view(r) == formatted_time(seconds, nanos, offset, format@),
{
    let zone = chrono::FixedOffset::east_opt(offset)?;
    let time = chrono::DateTime::from_timestamp(seconds, nanos)?.with_timezone(&zone);
    let mut text = String::new();
    match write!(text, "{}", time.format(format)) {
        Ok(()) => Some(text),
        Err(_) => None,
    }
}

/// When something was last changed, or `-`, given what the moment looks like.
pub fn timestamp_text(written: Option<String>) -> (r: String)
    ensures
        r@ == match written {
            Some(t) => t@,
            None => "-"@,
        },
{
    match written {
        Some(t) => t,
        None => "-".to_string(),
    }
}

/// When a commit was made, or that it is not known, given what the moment looks like.
pub fn commit_time_text(written: Option<String>) -> (r: String)
    ensures
        r@ == match written {
            Some(t) => t@,
            None => "时间未知"@,
        },
{
    match written {
        Some(t) => t,
        None => "时间未知".to_string(),
    }
}

/// When something was last changed, `offset` seconds east of Greenwich.
pub fn timestamp_label(seconds: i64, offset: i32) -> (r: String)
    ensures
        r@ == match formatted_time(seconds, 0, offset, "%Y-%m-%d %H:%M:%S"@) {
            Some(t) => t,
            None => "-"@,
        },
{
    timestamp_text(format_time(seconds, 0, offset, "%Y-%m-%d %H:%M:%S"))
}

/// When a commit was made, `offset` seconds east of Greenwich.
pub fn commit_time_label(seconds: i64, offset: i32) -> (r: String)
    ensures
        r@ == match formatted_time(seconds, 0, offset, "%Y-%m-%d %H:%M:%S"@) {
            Some(t) => t,
            None => "时间未知"@,
        },
{
    commit_time_text(format_time(seconds, 0, offset, "%Y-%m-%d %H:%M:%S"))
}

} // verus!
