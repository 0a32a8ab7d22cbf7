//! Timestamps for lock creation and link expiry. Both depend on the wall
//! clock, so nothing is claimed of the values they return.

use vstd::prelude::*;

verus! {

/// Relies on chrono's `Utc::now` and `DateTime::to_rfc3339`: the current
/// instant rendered in RFC 3339 form. The result depends on the clock, so
/// no clause pins it.
#[verifier::external_body]
pub(crate) fn now_rfc3339() -> (r: String) {
    chrono::Utc::now().to_rfc3339()
}

/// Relies on chrono's `Utc::now`, `TimeDelta::try_seconds` and
/// `DateTime::to_rfc3339`: the instant one day from now, in RFC 3339 form.
/// `try_seconds` is documented to return `Some` for 86400, and adding a day
/// to the current date stays far inside chrono's representable range. The
/// result depends on the clock, so no clause pins it.
#[verifier::external_body]
pub(crate) fn expiry_rfc3339_one_day() -> (r: String) {
    let t = chrono::Utc::now() + chrono::Duration::try_seconds(86400).unwrap();
    t.to_rfc3339()
}

} // verus!
