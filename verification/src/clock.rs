//! The clocks the library reads.

use vstd::prelude::*;

verus! {

/// Whole seconds since the Unix epoch (`SystemTime::now().duration_since(UNIX_EPOCH)`),
/// or the error's message when the clock is set before the epoch. Nothing is stated of
/// the result: it depends on the time of the call.
#[verifier::external_body]
pub(crate) fn unix_seconds() -> (r: Result<u64, String>) {
    match std::time::SystemTime::now().duration_since(std::time::UNIX_EPOCH) {
        Ok(d) => Ok(d.as_secs()),
        Err(e) => Err(e.to_string()),
    }
}

/// The current time in whole seconds since the Unix epoch, read through
/// `unix_seconds`: a clock set before 1970 reads as 0, and a reading beyond
/// `i64::MAX` as `i64::MAX`. Nothing more is stated: it depends on the time
/// of the call.
pub(crate) fn now_seconds() -> (r: i64)
    ensures
        r >= 0,
{
    match unix_seconds() {
        Ok(t) => if t > i64::MAX as u64 {
            i64::MAX
        } else {
            t as i64
        },
        Err(_) => 0,
    }
}

/// What `chrono` writes for the UTC time `secs` seconds after the Unix epoch
/// in RFC 3339 form (`DateTime::to_rfc3339`; no fraction, offset `+00:00`), or
/// `None` when the time is out of `chrono`'s range.
pub uninterp spec fn rfc3339_text(secs: i64) -> Option<Seq<char>>;

/// `chrono::DateTime::from_timestamp(secs, 0)` written by `to_rfc3339`; the
/// text is named `rfc3339_text`. `from_timestamp` gives `None` rather than
/// failing for a time out of range.
#[verifier::external_body]
pub(crate) fn format_rfc3339(secs: i64) -> (r: Option<String>)
    ensures
        match r {
            Some(t) => rfc3339_text(secs) == Some(t@),
            None => rfc3339_text(secs) is None,
        },
{
    chrono::DateTime::from_timestamp(secs, 0).map(|d| d.to_rfc3339())
}

/// What `chrono` writes for the UTC time `secs` seconds after the Unix epoch
/// with the pattern `%Y%m%dT%H%M%SZ`, or `None` when the time is out of
/// `chrono`'s range.
pub uninterp spec fn compact_text(secs: i64) -> Option<Seq<char>>;

/// `chrono::DateTime::from_timestamp(secs, 0)` formatted with
/// `%Y%m%dT%H%M%SZ`; the text is named `compact_text`.
#[verifier::external_body]
pub(crate) fn format_compact(secs: i64) -> (r: Option<String>)
    ensures
        match r {
            Some(t) => compact_text(secs) == Some(t@),
            None => compact_text(secs) is None,
        },
{
    chrono::DateTime::from_timestamp(secs, 0).map(|d| d.format("%Y%m%dT%H%M%SZ").to_string())
}

/// What `chrono` writes for the UTC time `secs` seconds after the Unix epoch
/// with the pattern `%Y-%m-%d %H:%M:%S`, or `None` when the time is out of
/// `chrono`'s range.
pub uninterp spec fn utc_text(secs: i64) -> Option<Seq<char>>;

/// `chrono::DateTime::from_timestamp(secs, 0)` formatted with
/// `%Y-%m-%d %H:%M:%S`; the text is named `utc_text`.
#[verifier::external_body]
pub(crate) fn format_utc(secs: i64) -> (r: Option<String>)
    ensures
        match r {
            Some(t) => utc_text(secs) == Some(t@),
            None => utc_text(secs) is None,
        },
{
    chrono::DateTime::from_timestamp(secs, 0).map(|d| d.format("%Y-%m-%d %H:%M:%S").to_string())
}

} // verus!
