use vstd::prelude::*;
use vstd::string::StringSliceAdditionalSpecFns;
use crate::text::{hex_bytes, hex_of_bytes, lemma_hex_bytes_injective, owned, push_str, chars_of};

verus! {

/// A run id as a file-name-safe string: the lowercase hex of its UTF-8 bytes.
pub open spec fn spec_hex_id(value: Seq<u8>) -> Seq<char> {
    hex_bytes(value)
}

/// The lowercase hex of the UTF-8 bytes of `value`.
pub fn hex_id(value: &str) -> (r: String)
    ensures
        r@ == spec_hex_id(value.spec_bytes()),
{
    hex_of_bytes(value.as_bytes())
}

/// Different byte strings give different hex ids, so no two run ids share a file.
pub proof fn lemma_hex_id_injective(a: Seq<u8>, b: Seq<u8>)
    requires
        spec_hex_id(a) == spec_hex_id(b),
    ensures
        a == b,
{
    lemma_hex_bytes_injective(a, b);
}

/// `name` appended to the path `root` (as `Path::join` does on Unix): an
/// absolute `name` replaces `root`; otherwise a `/` separates them unless `root`
/// is empty or already ends with one.
pub open spec fn spec_path_join(root: Seq<char>, name: Seq<char>) -> Seq<char> {
    if name.len() > 0 && name[0] == '/' {
        name
    } else if root.len() == 0 || root.last() == '/' {
        root + name
    } else {
        root + "/"@ + name
    }
}

/// `name` appended to the path `root`.
pub fn path_join(root: &str, name: &str) -> (r: String)
    ensures
        r@ == spec_path_join(root@, name@),
{
    let n = chars_of(name);
    if n.len() > 0 && n[0] == '/' {
        return owned(name);
    }
    let rc = chars_of(root);
    let mut out = owned(root);
    if rc.len() > 0 && rc[rc.len() - 1] != '/' {
        proof {
            reveal_strlit("/");
        }
        push_str(&mut out, "/");
    }
    push_str(&mut out, name);
    out
}

} // verus!
