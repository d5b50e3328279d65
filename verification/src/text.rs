//! Comparison of texts.

use vstd::prelude::*;

verus! {

/// Whether `text` reads as `expected`.
pub fn is_text(text: &String, expected: &str) -> (same: bool)
    ensures
        same == (text@ == expected@),
{
    *text == expected.to_owned()
}

} // verus!
