//! Path values as plain strings: joining, traversal detection, nesting,
//! and the relative path stored inside a created symlink.
//!
//! Paths are modelled as `/`-separated strings.  A directory of `"."`
//! stands for the place the declaration file lives in, and joining a
//! relative path onto it yields the relative path itself.

use vstd::prelude::*;

use crate::text::has_prefix;
use crate::text::str_eq;
use crate::text::str_has_prefix;

verus! {

/// A declared path escapes its directory when its first segment is a
/// current- or parent-directory hop.
pub open spec fn is_traversal(p: Seq<char>) -> bool {
    ||| p == "."@
    ||| p == ".."@
    ||| has_prefix(p, "./"@)
    ||| has_prefix(p, "../"@)
}

/// Decides `is_traversal`.
pub fn path_is_traversal(p: &str) -> (r: bool)
    ensures
        r == is_traversal(p@),
{
    str_eq(p, ".") || str_eq(p, "..") || str_has_prefix(p, "./") || str_has_prefix(p, "../")
}

/// Joining a relative path onto a directory.
pub open spec fn spec_join(dir: Seq<char>, rel: Seq<char>) -> Seq<char> {
    if dir == "."@ {
        rel
    } else {
        dir + "/"@ + rel
    }
}

/// Joins a relative path onto a directory.
pub fn join_path(dir: &str, rel: &str) -> (r: String)
    ensures
        r@ == spec_join(dir@, rel@),
{
    if str_eq(dir, ".") {
        return rel.to_owned();
    }
    let mut s = dir.to_owned();
    s.append("/");
    s.append(rel);
    s
}

/// How many separators a relative path holds; one less than its number
/// of segments, for a path with single separators and no trailing one.
pub open spec fn slash_count(p: Seq<char>) -> nat
    decreases p.len(),
{
    if p.len() == 0 {
        0
    } else {
        (if p[0] == '/' {
            1nat
        } else {
            0nat
        }) + slash_count(p.skip(1))
    }
}

/// `n` parent-directory hops, each written `../`.
pub open spec fn parent_hops(n: nat) -> Seq<char>
    decreases n,
{
    if n == 0 {
        Seq::empty()
    } else {
        "../"@ + parent_hops((n - 1) as nat)
    }
}

proof fn lemma_parent_hops_snoc(n: nat)
    ensures
        parent_hops(n + 1) == parent_hops(n) + "../"@,
    decreases n,
{
    if n == 0 {
        assert(parent_hops(1) =~= parent_hops(0) + "../"@);
    } else {
        lemma_parent_hops_snoc((n - 1) as nat);
        assert(parent_hops(n + 1) =~= parent_hops(n) + "../"@);
    }
}

/// The path value stored in a created symlink: from the link's location,
/// climb back up as many levels as the link target sits below the
/// declaring directory, then descend to the source.
pub open spec fn spec_link_path(target_rel: Seq<char>, source_rel: Seq<char>) -> Seq<char> {
    parent_hops(slash_count(target_rel)) + source_rel
}

/// Counts the separators of a relative path.
pub fn count_slashes(p: &str) -> (n: usize)
    ensures
        n == slash_count(p@),
{
    let len = p.unicode_len();
    let mut i: usize = 0;
    let mut n: usize = 0;
    proof {
        assert(p@.skip(0) =~= p@);
    }
    while i < len
        invariant
            i <= len,
            len == p@.len(),
            n <= i,
            slash_count(p@) == n + slash_count(p@.skip(i as int)),
        decreases len - i,
    {
        proof {
            assert(p@.skip(i as int)[0] == p@[i as int]);
            assert(p@.skip(i as int).skip(1) =~= p@.skip(i + 1));
        }
        if p.get_char(i) == '/' {
            n += 1;
        }
        i += 1;
    }
    proof {
        assert(p@.skip(len as int) =~= Seq::<char>::empty());
    }
    n
}

/// Computes `spec_link_path`.
pub fn link_path_value(target_rel: &str, source_rel: &str) -> (r: String)
    ensures
        r@ == spec_link_path(target_rel@, source_rel@),
{
    let hops = count_slashes(target_rel);
    let mut s = String::new();
    let mut i: usize = 0;
    while i < hops
        invariant
            i <= hops,
            s@ == parent_hops(i as nat),
        decreases hops - i,
    {
        s.append("../");
        proof {
            lemma_parent_hops_snoc(i as nat);
        }
        i += 1;
    }
    s.append(source_rel);
    s
}

/// Whether directory `d` lies strictly beneath directory `a`.
pub open spec fn nested_under(d: Seq<char>, a: Seq<char>) -> bool {
    if a == "."@ {
        has_prefix(d, "./"@)
    } else {
        d.len() > a.len() && d.subrange(0, a.len() as int) == a && d[a.len() as int] == '/'
    }
}

/// Decides `nested_under`.
pub fn dir_nested_under(d: &str, a: &str) -> (r: bool)
    ensures
        r == nested_under(d@, a@),
{
    if str_eq(a, ".") {
        return str_has_prefix(d, "./");
    }
    let alen = a.unicode_len();
    let dlen = d.unicode_len();
    if dlen <= alen {
        return false;
    }
    if !str_has_prefix(d, a) {
        return false;
    }
    d.get_char(alen) == '/'
}

} // verus!
