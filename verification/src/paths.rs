//! Paths as plain strings.
//!
//! The vault works on paths as strings with `/` separators. Its root is a
//! canonical absolute path without a trailing separator. A path is strictly
//! inside the root when it extends the root by a separator and a non-empty
//! remainder; that remainder is the entry's vault-relative key.

use vstd::prelude::*;
use vstd::string::StrSliceExecFns;
use vstd::string::StringExecFns;

verus! {

/// `path` is strictly inside `root`: it extends `root` by `/` and more.
pub open spec fn path_inside_root(path: Seq<char>, root: Seq<char>) -> bool {
    &&& path.len() > root.len() + 1
    &&& path.subrange(0, root.len() as int) == root
    &&& path[root.len() as int] == '/'
}

/// The vault-relative key of a path inside the root: what follows the
/// separator after the root.
pub open spec fn rel_path_of(path: Seq<char>, root: Seq<char>) -> Seq<char> {
    path.subrange(root.len() as int + 1, path.len() as int)
}

/// Index one past the last occurrence of `c` in `s`; 0 when `c` does not
/// occur.
pub open spec fn after_last(s: Seq<char>, c: char) -> int
    decreases s.len(),
{
    if s.len() == 0 {
        0
    } else if s[s.len() - 1] == c {
        s.len() as int
    } else {
        after_last(s.drop_last(), c)
    }
}

/// `after_last` is determined by a witness position: the character stands
/// just before `i`, and nowhere later.
proof fn lemma_after_last_at(s: Seq<char>, c: char, i: int)
    requires
        0 <= i <= s.len(),
        i == 0 || s[i - 1] == c,
        forall|k: int| i <= k < s.len() ==> s[k] != c,
    ensures
        after_last(s, c) == i,
    decreases s.len(),
{
    if s.len() == 0 {
    } else if s[s.len() - 1] == c {
        assert(i == s.len());
    } else {
        assert(i < s.len() || s[i - 1] != c || i <= s.len() - 1);
        lemma_after_last_at(s.drop_last(), c, i);
    }
}

/// The extension of `path`: what follows the last dot of its file name,
/// unless that dot begins the name or the name has none.
pub open spec fn spec_extension(path: Seq<char>) -> Option<Seq<char>> {
    let name = path.subrange(after_last(path, '/'), path.len() as int);
    let dot = after_last(name, '.');
    if dot <= 1 {
        None
    } else {
        Some(name.subrange(dot, name.len() as int))
    }
}

/// Decide whether `path` lies strictly inside `root`.
pub fn check_inside_root(path: &str, root: &str) -> (b: bool)
    ensures
        b == path_inside_root(path@, root@),
{
    let plen = path.unicode_len();
    let rlen = root.unicode_len();
    if plen <= rlen {
        return false;
    }
    if plen - rlen < 2 {
        return false;
    }
    let mut i: usize = 0;
    while i < rlen
        invariant
            plen == path@.len(),
            rlen == root@.len(),
            plen > rlen + 1,
            0 <= i <= rlen,
            forall|j: int| 0 <= j < i ==> path@[j] == root@[j],
        decreases rlen - i,
    {
        if path.get_char(i) != root.get_char(i) {
            proof {
                if path@.subrange(0, rlen as int) == root@ {
                    assert(path@.subrange(0, rlen as int)[i as int] == path@[i as int]);
                }
            }
            return false;
        }
        i += 1;
    }
    proof {
        assert(path@.subrange(0, rlen as int) =~= root@);
    }
    path.get_char(rlen) == '/'
}

/// The vault-relative key of a path inside the root.
pub fn rel_path(path: &str, root: &str) -> (r: String)
    requires
        path_inside_root(path@, root@),
    ensures
        r@ == rel_path_of(path@, root@),
{
    let plen = path.unicode_len();
    let rlen = root.unicode_len();
    path.substring_char(rlen + 1, plen).to_owned()
}

/// The extension of `path`, in executable code.
pub fn extension_of(path: &str) -> (r: Option<String>)
    ensures
        match (r, spec_extension(path@)) {
            (Some(e), Some(se)) => e@ == se,
            (None, None) => true,
            _ => false,
        },
{
    let len = path.unicode_len();
    let mut i: usize = len;
    while i > 0 && path.get_char(i - 1) != '/'
        invariant
            len == path@.len(),
            0 <= i <= len,
            forall|k: int| i <= k < len ==> path@[k] != '/',
        decreases i,
    {
        i -= 1;
    }
    proof {
        lemma_after_last_at(path@, '/', i as int);
    }
    let ghost name = path@.subrange(i as int, len as int);
    let mut d: usize = len;
    while d > i && path.get_char(d - 1) != '.'
        invariant
            len == path@.len(),
            i <= d <= len,
            name == path@.subrange(i as int, len as int),
            forall|k: int| d <= k < len ==> path@[k] != '.',
        decreases d,
    {
        d -= 1;
    }
    proof {
        assert forall|k: int| d - i <= k < name.len() implies name[k] != '.' by {
            assert(name[k] == path@[i + k]);
        }
        if d > i {
            assert(name[d - i - 1] == path@[d - 1]);
        }
        lemma_after_last_at(name, '.', d - i as int);
    }
    if d - i <= 1 {
        None
    } else {
        proof {
            assert(name.subrange(d - i as int, name.len() as int) =~= path@.subrange(
                d as int,
                len as int,
            ));
        }
        Some(path.substring_char(d, len).to_owned())
    }
}

} // verus!
