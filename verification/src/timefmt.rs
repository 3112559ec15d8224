//! HTTP timestamps. The client stores a last-modified instant as whole
//! seconds since the Unix epoch; RFC 2822 parsing and formatting are done by
//! chrono and trusted.

use vstd::prelude::*;

verus! {

/// The largest timestamp RFC 2822 can carry: the last second of year 9999.
pub const MAX_RFC2822_SECS: i64 = 253402300799;

/// The seconds-since-epoch reading of an RFC 2822 timestamp text, if it
/// parses: a function of the text alone.
pub uninterp spec fn rfc2822_secs_of(s: Seq<char>) -> Option<i64>;

/// The RFC 2822 rendering of a timestamp, at UTC: a function of the
/// timestamp alone.
pub uninterp spec fn rfc2822_text_of(t: i64) -> Seq<char>;

/// Relies on chrono's `DateTime::parse_from_rfc2822`: the parse depends on
/// the text alone.
#[verifier::external_body]
pub fn parse_rfc2822_secs(s: &str) -> (r: Option<i64>)
    ensures
        r == rfc2822_secs_of(s@),
{
    chrono::DateTime::parse_from_rfc2822(s).ok().map(|d| d.timestamp())
}

/// Relies on chrono's `DateTime::to_rfc2822`: the text depends on the
/// timestamp alone. Timestamps of years 0 through 9999 are representable;
/// the bound keeps the call from panicking on a year RFC 2822 cannot write.
#[verifier::external_body]
pub fn format_rfc2822_secs(t: i64) -> (r: String)
    requires
        0 <= t <= MAX_RFC2822_SECS,
    ensures
        r@ == rfc2822_text_of(t),
{
    match chrono::DateTime::<chrono::Utc>::from_timestamp(t, 0) {
        Some(d) => d.to_rfc2822(),
        None => String::new(),
    }
}

} // verus!
