//! Joining file-system paths held as strings.

use vstd::prelude::*;
use crate::text::{chars_of, owned, push_str};

verus! {

/// `dir` joined with `name` as `Path::join` does on Unix: an absolute `name`
/// replaces `dir`; otherwise a `/` goes between them unless `dir` is empty or
/// already ends with one.
pub open spec fn path_join(dir: Seq<char>, name: Seq<char>) -> Seq<char> {
    if name.len() > 0 && name[0] == '/' {
        name
    } else if dir.len() == 0 || dir.last() == '/' {
        dir + name
    } else {
        dir + "/"@ + name
    }
}

/// Joins `dir` and `name` (see `path_join`).
pub fn join_path(dir: &str, name: &str) -> (r: String)
    ensures
        r@ == path_join(dir@, name@),
{
    let d = chars_of(dir);
    let n = chars_of(name);
    if n.len() > 0 && n[0] == '/' {
        return owned(name);
    }
    let mut r = owned(dir);
    if d.len() > 0 && d[d.len() - 1] != '/' {
        push_str(&mut r, "/");
    }
    push_str(&mut r, name);
    r
}

} // verus!
