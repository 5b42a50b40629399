//! The clock and the identifier source, and chrono's range of instants.
use vstd::prelude::*;

verus! {

/// Every instant this library handles, in milliseconds since the Unix epoch,
/// lies within this distance of the epoch (chrono's dates span years
/// -262143 to 262142, some 8.3e15 milliseconds either way).
pub const TIME_BOUND: i64 = 9007199254740992;

pub const MILLIS_PER_MINUTE: i64 = 60000;

/// The first millisecond chrono can represent: -262143-01-01T00:00:00Z.
pub const EARLIEST_MILLIS: i64 = -8334601315200000;

/// The last millisecond chrono can represent: +262142-12-31T23:59:59.999Z.
pub const LATEST_MILLIS: i64 = 8210266876799999;

/// The RFC 3339 text of the instant `ms` milliseconds after the epoch, as
/// chrono writes it.
pub uninterp spec fn rfc3339_of_millis(ms: i64) -> Seq<char>;

/// Reads the system clock (`std::time::SystemTime::now`), turns the reading
/// into a `chrono::DateTime<Utc>` with chrono's `From<SystemTime>`, which,
/// unlike `Utc::now`, also takes a reading before 1970, and returns
/// `DateTime::timestamp_millis` of the result. What time it is nothing here can
/// say; the contract claims only that the count lies between chrono's first and
/// last representable instants (`DateTime::MIN_UTC`, `DateTime::MAX_UTC`),
/// which holds of every `DateTime<Utc>`.
#[verifier::external_body]
pub(crate) fn now_millis() -> (t: i64)
    ensures
        EARLIEST_MILLIS <= t <= LATEST_MILLIS,
        -TIME_BOUND <= t <= TIME_BOUND,
{
    chrono::DateTime::<chrono::Utc>::from(std::time::SystemTime::now()).timestamp_millis()
}

/// Writes instant `ms` as RFC 3339 text through
/// `chrono::DateTime::from_timestamp_millis` and `DateTime::to_rfc3339`.
/// chrono answers `None` only outside its range; the text is named, not stated.
#[verifier::external_body]
pub(crate) fn format_rfc3339(ms: i64) -> (r: Option<String>)
    ensures
        EARLIEST_MILLIS <= ms <= LATEST_MILLIS ==> r is Some,
        r matches Some(s) ==> s@ == rfc3339_of_millis(ms),
{
    chrono::DateTime::from_timestamp_millis(ms).map(|d| d.to_rfc3339())
}

/// Draws a fresh identifier with `uuid::Uuid::new_v4` and returns its 128 bits
/// (`Uuid::as_u128`). The value is random: the contract claims nothing of it.
#[verifier::external_body]
pub(crate) fn new_id() -> (id: u128) {
    uuid::Uuid::new_v4().as_u128()
}

} // verus!
