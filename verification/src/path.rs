//! Paths as text, with `/` between their components.

use crate::text::to_chars;
use vstd::prelude::*;
use vstd::string::StringExecFns;

verus! {

/// The path of `part` below `base`. A separator is put between the two
/// unless `base` is empty or ends in one; a `part` that starts at the root
/// stands for itself.
pub open spec fn joined(base: Seq<char>, part: Seq<char>) -> Seq<char> {
    if part.len() > 0 && part[0] == '/' {
        part
    } else if base.len() == 0 || base.last() == '/' {
        base + part
    } else {
        base + seq!['/'] + part
    }
}

/// The path of `part` below `base`.
pub fn join(base: &str, part: &str) -> (path: String)
    ensures
        path@ == joined(base@, part@),
{
    let head = to_chars(base);
    let tail = to_chars(part);
    if tail.len() > 0 && tail[0] == '/' {
        return String::from_str(part);
    }
    let mut path = String::from_str(base);
    if head.len() > 0 && head[head.len() - 1] != '/' {
        proof {
            reveal_strlit("/");
            assert("/"@ =~= seq!['/']);
        }
        path.append("/");
    }
    path.append(part);
    path
}

} // verus!
