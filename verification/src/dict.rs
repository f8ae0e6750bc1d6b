//! Dictionary lookup: an external collaborator that answers whether a
//! word is recognized. The answer is a fixed function of the word, so
//! the rest of the library reasons about it by name.

use vstd::prelude::*;

verus! {

/// Whether the dictionary recognizes the word spelled by these
/// characters (the lookup itself is case-insensitive).
pub uninterp spec fn in_dictionary(w: Seq<char>) -> bool;

/// Relies on webster::dictionary: the answer comes from a fixed
/// dictionary embedded in the binary, so it depends on the word's
/// characters alone.
#[verifier::external_body]
pub(crate) fn lookup_word(w: &Vec<char>) -> (r: bool)
    ensures
        r == in_dictionary(w@),
{
    let s: String = w.iter().collect();
    webster::dictionary(&s).is_some()
}

} // verus!
