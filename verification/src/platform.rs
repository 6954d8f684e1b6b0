//! What the library asks of the platform it runs on.

use vstd::prelude::*;

verus! {

/// `std::path::is_separator`, asked of the backslash: it separates path
/// components on Windows and nowhere else. Nothing is claimed of the
/// answer.
#[verifier::external_body]
pub(crate) fn backslash_separates() -> bool {
    std::path::is_separator('\\')
}

} // verus!
