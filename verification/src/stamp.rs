//! Fresh record identifiers and creation times.

use vstd::prelude::*;

verus! {

/// A fresh random identifier: `uuid::Uuid::new_v4`, written in its hyphenated
/// form. The value is random; all that is claimed is the hyphenated length of
/// 36 characters.
#[verifier::external_body]
pub(crate) fn new_id() -> (id: String)
    ensures
        id@.len() == 36,
{
    uuid::Uuid::new_v4().to_string()
}

/// The current time as RFC 3339 text: `chrono::Utc::now().to_rfc3339()`.
/// Nothing is claimed of the value, which depends on the clock.
#[verifier::external_body]
pub(crate) fn now_rfc3339() -> String {
    chrono::Utc::now().to_rfc3339()
}

} // verus!
