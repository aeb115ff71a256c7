use vstd::prelude::*;
use crate::naming::{path_join, spec_path_join};
use crate::text::{chars_of, owned, push_str};

verus! {

/// `path` has a `..` component: two dots standing between separators or the
/// ends of the path.
pub open spec fn has_parent_component(path: Seq<char>) -> bool {
    exists|i: int|
        0 <= i && i + 2 <= path.len() && (i == 0 || path[i - 1] == '/') && #[trigger] path[i] == '.'
            && path[i + 1] == '.' && (i + 2 == path.len() || path[i + 2] == '/')
}

/// Where a file capability may touch `relative` under `root`: an absolute path
/// or one that climbs with `..` is refused; any other is joined to the root.
pub open spec fn workspace_path(root: Seq<char>, relative: Seq<char>) -> Result<Seq<char>, Seq<char>> {
    if (relative.len() > 0 && relative[0] == '/') || has_parent_component(relative) {
        Err("filesystem_path_denied:"@ + relative)
    } else {
        Ok(spec_path_join(root, relative))
    }
}

/// Resolves a path a file capability was asked to touch against its root.
pub fn resolve_workspace_path(root: &str, relative: &str) -> (r: Result<String, String>)
    ensures
        match (r, workspace_path(root@, relative@)) {
            (Ok(p), Ok(q)) => p@ == q,
            (Err(e), Err(m)) => e@ == m,
            _ => false,
        },
{
    let p = chars_of(relative);
    let mut climbs = false;
    let mut i: usize = 0;
    while p.len() >= 2 && i <= p.len() - 2
        invariant
            p@ == relative@,
            i <= p@.len(),
            !climbs ==> forall|k: int| 0 <= k < i ==> !(
                0 <= k && k + 2 <= p@.len() && (k == 0 || p@[k - 1] == '/') && #[trigger] p@[k] == '.'
                    && p@[k + 1] == '.' && (k + 2 == p@.len() || p@[k + 2] == '/')),
            climbs ==> has_parent_component(relative@),
        decreases p@.len() - i,
    {
        if (i == 0 || p[i - 1] == '/') && p[i] == '.' && p[i + 1] == '.' && (i + 2 == p.len() || p[i + 2] == '/') {
            climbs = true;
        }
        i = i + 1;
    }
    if (p.len() > 0 && p[0] == '/') || climbs {
        let mut e = owned("filesystem_path_denied:");
        push_str(&mut e, relative);
        return Err(e);
    }
    Ok(path_join(root, relative))
}

} // verus!
