//! Search across the files of a workspace. The search itself is not
//! implemented: every query finds nothing.

use vstd::prelude::*;

verus! {

/// One match in a file.
pub struct SearchMatch {
    pub line: u32,
    pub column: u32,
    pub text: String,
}

/// The matches in one file.
pub struct SearchResult {
    pub file_path: String,
    pub relative_path: String,
    pub matches: Vec<SearchMatch>,
}

/// Searches a workspace; finds nothing, whatever the query and options.
pub fn search_in_files(
    workspace_path: String,
    query: String,
    use_regex: bool,
    case_sensitive: bool,
    whole_word: bool,
    max_results: usize,
) -> (r: Result<Vec<SearchResult>, String>)
    ensures
        r matches Ok(v) && v@.len() == 0,
{
    Ok(Vec::new())
}

} // verus!
