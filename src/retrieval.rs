//! Retrieval by identifier: which identifiers may name a workspace, and what a
//! lookup yields. Every failure is the same denial.

use vstd::prelude::*;
use crate::token::TOKEN_LEN;

verus! {

/// The one outcome of a refused retrieval; it does not say which check failed.
#[derive(Clone, Copy, PartialEq, Eq, Debug, Structural)]
pub enum AccessDenied {
    Denied,
}

/// Characters that could lead a path out of the workspace root.
pub open spec fn is_path_char(c: char) -> bool {
    c == '.' || c == '/' || c == '\\'
}

/// An identifier is looked up only if it has the identifier length and no
/// path character.
pub open spec fn identifier_ok(id: Seq<char>) -> bool {
    &&& id.len() == TOKEN_LEN
    &&& forall|i: int| 0 <= i < id.len() ==> !is_path_char(#[trigger] id[i])
}

/// Whether `id` may be looked up at all.
pub fn identifier_accepted(id: &str) -> (r: bool)
    ensures
        r == identifier_ok(id@),
{
    let n = id.unicode_len();
    if n != TOKEN_LEN {
        return false;
    }
    let mut i: usize = 0;
    while i < n
        invariant
            n == id@.len(),
            0 <= i <= n,
            forall|j: int| 0 <= j < i ==> !is_path_char(#[trigger] id@[j]),
        decreases n - i,
    {
        let c = id.get_char(i);
        if c == '.' || c == '/' || c == '\\' {
            return false;
        }
        i = i + 1;
    }
    true
}

/// The file a retrieval of `id` serves. `workspace_is_dir` tells whether the
/// workspace directory named `id` exists; `first_entry` is the first entry of
/// its listing, if it could be read and is not empty. The caller looks only
/// when `identifier_accepted(id)` holds.
pub fn download_target(id: &str, workspace_is_dir: bool, first_entry: Option<String>) -> (r: Result<
    String,
    AccessDenied,
>)
    ensures
        r is Ok <==> (identifier_ok(id@) && workspace_is_dir && first_entry is Some),
        r is Ok ==> r->Ok_0@ == first_entry->Some_0@,
        r is Err ==> r->Err_0 == AccessDenied::Denied,
{
    if !identifier_accepted(id) || !workspace_is_dir {
        return Err(AccessDenied::Denied);
    }
    match first_entry {
        Some(e) => Ok(e),
        None => Err(AccessDenied::Denied),
    }
}

} // verus!
