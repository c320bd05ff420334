//! The file-tree presentation rule: which directory entries are kept out
//! of the tree. Entries whose name starts with a dot, and the usual
//! build or dependency directories, are excluded from presentation (not
//! from the filesystem).

use vstd::prelude::*;

use crate::text::str_eq;

verus! {

/// A directory entry named `name` is left out of the tree: it is hidden
/// (its name starts with `.`, which also covers `.git`) or it is one of
/// the build and dependency directories.
pub open spec fn spec_hidden_entry(name: Seq<char>) -> bool {
    ||| name.len() > 0 && name[0] == '.'
    ||| name == "target"@
    ||| name == "node_modules"@
    ||| name == "__pycache__"@
}

/// Decides whether a directory entry is kept out of the tree.
pub fn is_hidden_entry(name: &str) -> (r: bool)
    ensures
        r == spec_hidden_entry(name@),
{
    let n = name.unicode_len();
    if n > 0 && name.get_char(0) == '.' {
        return true;
    }
    if str_eq(name, "target") {
        return true;
    }
    if str_eq(name, "node_modules") {
        return true;
    }
    str_eq(name, "__pycache__")
}

} // verus!
