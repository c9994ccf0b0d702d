//! Instants as Unix timestamps in nanoseconds, read from and written as RFC 3339 text
//! with the `time` crate.
use vstd::prelude::*;

verus! {

/// Bound on every instant that the `time` crate can represent without its `large-dates`
/// feature (years -9999..=9999 with offsets under a day): |t| < 10^21 ns.
pub const INSTANT_LIMIT: i128 = 1_000_000_000_000_000_000_000;

/// Whether `t` lies within the representable range.
pub open spec fn in_range(t: int) -> bool {
    -INSTANT_LIMIT < t < INSTANT_LIMIT
}

pub const NANOS_PER_MILLI: i128 = 1_000_000;
pub const NANOS_PER_SECOND: i128 = 1_000_000_000;

/// The instant that an RFC 3339 timestamp denotes, if it parses.
pub uninterp spec fn spec_rfc3339_instant(text: Seq<char>) -> Option<i128>;

/// The RFC 3339 text of an instant, if it can be formatted.
pub uninterp spec fn spec_rfc3339_text(t: i128) -> Option<Seq<char>>;

/// Parses RFC 3339 text with `time::OffsetDateTime::parse` and reads the instant back as Unix
/// nanoseconds. Claimed: the result is a function of the text alone, and a parsed instant lies in
/// the representable range.
#[verifier::external_body]
pub(crate) fn parse_rfc3339(text: &str) -> (r: Option<i128>)
    ensures
        r == spec_rfc3339_instant(text@),
        r matches Some(t) ==> in_range(t as int),
{
    time::OffsetDateTime::parse(text, &time::format_description::well_known::Rfc3339).ok().map(
        |t| t.unix_timestamp_nanos(),
    )
}

/// Formats an instant as RFC 3339 text with `time::OffsetDateTime::format`, after
/// `time::OffsetDateTime::from_unix_timestamp_nanos`. Claimed: the result is a function of the
/// instant alone.
#[verifier::external_body]
pub(crate) fn format_rfc3339(t: i128) -> (r: Option<String>)
    ensures
        r matches Some(s) ==> spec_rfc3339_text(t) == Some(s@),
        r is None ==> spec_rfc3339_text(t) is None,
{
    time::OffsetDateTime::from_unix_timestamp_nanos(t).ok().and_then(
        |v| v.format(&time::format_description::well_known::Rfc3339).ok(),
    )
}

/// The current instant, from `time::OffsetDateTime::now_utc`. Claimed: it lies in the
/// representable range; nothing else is said of it.
#[verifier::external_body]
pub(crate) fn now() -> (r: i128)
    ensures
        in_range(r as int),
{
    time::OffsetDateTime::now_utc().unix_timestamp_nanos()
}

#[verifier::external_type_specification]
#[verifier::external_body]
pub struct ExInstant(std::time::Instant);

/// A reading of the monotonic clock, `std::time::Instant::now`. Nothing is claimed of it.
#[verifier::external_body]
pub(crate) fn instant_now() -> std::time::Instant {
    std::time::Instant::now()
}

/// The nanoseconds since `origin` on the monotonic clock, `Instant::elapsed` read with
/// `Duration::as_nanos`. Nothing is claimed of the reading: it depends on when it is taken.
#[verifier::external_body]
pub(crate) fn elapsed_nanos(origin: &std::time::Instant) -> u128 {
    origin.elapsed().as_nanos()
}

} // verus!
