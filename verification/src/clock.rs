//! The wall clock and the text of its instants.
use vstd::prelude::*;

verus! {

/// `chrono::Utc::now()` as nanoseconds since the Unix epoch
/// (`DateTime::timestamp_nanos_opt`): none when the instant lies outside what `i64`
/// nanoseconds can count. Nothing is stated of the value: it is the time of the call.
/// `Utc::now` panics when the machine's clock reads before 1970.
#[verifier::external_body]
pub fn current_time_nanos() -> Option<i64> {
    chrono::Utc::now().timestamp_nanos_opt()
}

/// The RFC 3339 text of an instant given in nanoseconds since the Unix epoch.
pub uninterp spec fn rfc3339(nanos: i64) -> Seq<char>;

/// `chrono::DateTime::<Utc>::from_timestamp_nanos(nanos).to_rfc3339()`: the RFC 3339
/// text of the instant, which depends on `nanos` alone; its form is not stated here.
#[verifier::external_body]
pub fn rfc3339_text(nanos: i64) -> (r: String)
    ensures
        r@ == rfc3339(nanos),
{
    chrono::DateTime::from_timestamp_nanos(nanos).to_rfc3339()
}

} // verus!
