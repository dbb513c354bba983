//! Text that several owners share.

use std::sync::Arc;
use vstd::prelude::*;

verus! {

/// Copies `text` into a shared string with `<std::sync::Arc<str> as From<&str>>::from`.
///
/// Trusted: the shared string holds the same characters.
#[verifier::external_body]
pub(crate) fn shared_str(text: &str) -> (shared: Arc<str>)
    ensures
        shared@ == text@,
{
    Arc::from(text)
}

} // verus!
