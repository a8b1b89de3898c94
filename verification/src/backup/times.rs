//! Display of file modification times.

use vstd::prelude::*;

verus! {

/// The RFC 3339 text (UTC) `jiff` gives the instant `secs` seconds after
/// the Unix epoch.
pub uninterp spec fn rfc3339_of_second(secs: i64) -> Seq<char>;

/// The seconds `jiff` can represent as a timestamp.
pub open spec fn in_timestamp_range(secs: i64) -> bool {
    -377705023201 <= secs <= 253402207200
}

/// Calls `jiff::Timestamp::from_second` and formats the timestamp with
/// `ToString`. Claimed, as jiff documents: the construction fails only
/// outside the supported range; the text is `rfc3339_of_second` of the
/// input.
#[verifier::external_body]
fn second_text(secs: i64) -> (r: Option<String>)
    ensures
        r is Some <==> in_timestamp_range(secs),
        r matches Some(t) ==> t@ == rfc3339_of_second(secs),
{
    match jiff::Timestamp::from_second(secs) {
        Ok(t) => Some(t.to_string()),
        Err(_) => None,
    }
}

/// The modification label of a browsed file, given its modification time
/// in whole seconds since the epoch when the system reports one (and it
/// is not before the epoch): those seconds taken as a signed number and
/// written as RFC 3339, when representable.
pub fn modified_label(mtime_secs: Option<u64>) -> (r: Option<String>)
    ensures
        match mtime_secs {
            None => r is None,
            Some(s) => if in_timestamp_range(s as i64) {
                r matches Some(t) && t@ == rfc3339_of_second(s as i64)
            } else {
                r is None
            },
        },
{
    match mtime_secs {
        None => None,
        Some(s) => second_text(s as i64),
    }
}

} // verus!
