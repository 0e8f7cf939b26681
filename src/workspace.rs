//! Which directory entries a workspace listing shows.

use vstd::prelude::*;
use vstd::string::StrSliceExecFns;

verus! {

/// A name that starts with a dot is hidden.
pub open spec fn hidden(name: Seq<char>) -> bool {
    name.len() > 0 && name[0] == '.'
}

/// Whether a directory entry is hidden from the workspace listing, it and
/// everything under it.
pub fn is_hidden_name(name: &str) -> (r: bool)
    ensures
        r == hidden(name@),
{
    name.unicode_len() > 0 && name.get_char(0) == '.'
}

} // verus!
