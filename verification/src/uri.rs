//! Dataset URI handling shared by the storage engines: a dataset URI
//! is either a plain filesystem path or a path behind a `file://`
//! scheme.

use vstd::prelude::*;

use vstd::string::StrSliceExecFns;

verus! {

/// Whether `p` is a prefix of `s`.
pub open spec fn has_prefix(s: Seq<char>, p: Seq<char>) -> bool {
    p.len() <= s.len() && s.subrange(0, p.len() as int) == p
}

/// The filesystem path a URI stands for: the part after the `file://`
/// scheme when it carries one, the URI itself otherwise.
pub open spec fn spec_uri_path(u: Seq<char>) -> Seq<char> {
    if has_prefix(u, "file://"@) {
        u.skip("file://"@.len() as int)
    } else {
        u
    }
}

/// Whether a string starts with another.
fn str_starts_with(s: &str, p: &str) -> (r: bool)
    ensures
        r == has_prefix(s@, p@),
{
    let n = s.unicode_len();
    let m = p.unicode_len();
    if m > n {
        return false;
    }
    let mut i: usize = 0;
    while i < m
        invariant
            n == s@.len(),
            m == p@.len(),
            m <= n,
            0 <= i <= m,
            forall|k: int| 0 <= k < i ==> s@[k] == p@[k],
        decreases m - i,
    {
        if s.get_char(i) != p.get_char(i) {
            proof {
                assert(s@.subrange(0, m as int)[i as int] != p@[i as int]);
            }
            return false;
        }
        i = i + 1;
    }
    proof {
        assert(s@.subrange(0, m as int) =~= p@);
    }
    true
}

/// Extracts the filesystem path from a dataset URI: strips a leading
/// `file://` scheme and otherwise leaves the URI unchanged.
pub fn uri_to_path<'a>(uri: &'a str) -> (r: &'a str)
    ensures
        r@ == spec_uri_path(uri@),
{
    proof {
        reveal_strlit("file://");
    }
    if str_starts_with(uri, "file://") {
        let n = uri.unicode_len();
        let r = uri.substring_char(7, n);
        proof {
            assert(r@ =~= uri@.skip(7));
        }
        r
    } else {
        uri
    }
}

} // verus!
