//! Reading the process id out of a checkpoint image's decoded process-tree
//! dump, a JSON document of the shape `{"entries": [{"pid": ..., ...}, ...]}`.

use vstd::prelude::*;

verus! {

/// The pid of the first process-tree entry of a decoded dump, or nothing when
/// the text is not such a document; a function of the text alone.
pub uninterp spec fn pstree_pid_of(text: Seq<char>) -> Option<i32>;

/// Relies on `json::parse` and `json::JsonValue`: parses the decoded
/// process-tree dump and picks `entries[0].pid`. Indexing a missing member
/// yields the crate's null value, and `as_i32` returns a number only when one
/// is there and fits; neither panics. The result depends on the text alone.
#[verifier::external_body]
pub fn parse_pid(pstree_text: &str) -> (r: Option<i32>)
    ensures
        r == pstree_pid_of(pstree_text@),
{
    match json::parse(pstree_text) {
        Ok(doc) => doc["entries"][0]["pid"].as_i32(),
        Err(_) => None,
    }
}

} // verus!
