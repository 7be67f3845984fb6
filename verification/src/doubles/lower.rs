//! Lower case, for matching whatever the case of the letters.

use vstd::prelude::*;

verus! {

/// What a text becomes in lower case.
pub uninterp spec fn lowered(s: Seq<char>) -> Seq<char>;

/// `str::to_lowercase`: the text with the Unicode lower case mapping applied to it.
/// What it gives is a function of the text alone, named `lowered`.
#[verifier::external_body]
pub(crate) fn lowercase(s: &str) -> (r: String)
    ensures
        r@ == lowered(s@),
{
    s.to_lowercase()
}

} // verus!
