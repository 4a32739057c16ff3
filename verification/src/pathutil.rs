//! Verified path arithmetic over plain strings. A repository root is an
//! absolute directory path without a trailing separator; files changed in the
//! repository are paths relative to that root.

use vstd::prelude::*;

use crate::strutil::{lemma_rfind_idx, rfind_char, rfind_idx, str_eq};

verus! {

/// A usable directory path: nonempty and without a trailing separator.
pub open spec fn norm_dir(p: Seq<char>) -> bool {
    p.len() > 0 && p[p.len() - 1] != '/'
}

/// No two separators in a row.
pub open spec fn no_dup_sep(p: Seq<char>) -> bool {
    forall|i: int| 0 <= i < p.len() - 1 ==> !(#[trigger] p[i] == '/' && p[i + 1] == '/')
}

/// A well-formed path relative to the repository root: nonempty, neither
/// beginning nor ending with a separator, and with no empty components.
pub open spec fn valid_rel(p: Seq<char>) -> bool {
    p.len() > 0 && p[0] != '/' && p[p.len() - 1] != '/' && no_dup_sep(p)
}

/// The directory part of a well-formed relative path is empty or itself well
/// formed.
pub proof fn lemma_parent_of_valid(p: Seq<char>)
    requires
        valid_rel(p),
    ensures
        parent_of(p).len() == 0 || valid_rel(parent_of(p)),
{
    crate::strutil::lemma_rfind_idx(p, '/');
    let r = rfind_idx(p, '/');
    if r > 0 {
        let q = p.subrange(0, r);
        assert(q[0] == p[0]);
        assert(q[q.len() - 1] == p[r - 1]);
        assert(p[r] == '/');
        assert(!(p[r - 1] == '/' && p[r - 1 + 1] == '/'));
        assert forall|i: int| 0 <= i < q.len() - 1 implies !(#[trigger] q[i] == '/' && q[i + 1]
            == '/') by {
            assert(q[i] == p[i] && q[i + 1] == p[i + 1]);
        }
    }
}

/// The directory `rel` names when resolved against `root`; `root` itself
/// when `rel` is empty.
pub open spec fn join_rel(root: Seq<char>, rel: Seq<char>) -> Seq<char> {
    if rel.len() == 0 {
        root
    } else {
        root + seq!['/'] + rel
    }
}

/// `dir` lies at or below `root`.
pub open spec fn is_under(root: Seq<char>, dir: Seq<char>) -> bool {
    dir == root || (dir.len() > root.len() && dir.subrange(0, root.len() as int) == root
        && dir[root.len() as int] == '/')
}

/// The path of `dir` relative to `root`; empty for `root` itself.
pub open spec fn rel_of(root: Seq<char>, dir: Seq<char>) -> Seq<char> {
    if dir == root {
        Seq::<char>::empty()
    } else {
        dir.subrange(root.len() as int + 1, dir.len() as int)
    }
}

/// Resolving a relative path against `root` lands at or below `root`, and
/// taking the relative part again gives the path back.
pub proof fn lemma_rel_of_join(root: Seq<char>, rel: Seq<char>)
    requires
        rel.len() > 0,
    ensures
        is_under(root, join_rel(root, rel)),
        join_rel(root, rel) != root,
        rel_of(root, join_rel(root, rel)) == rel,
{
    let dir = join_rel(root, rel);
    assert(dir.subrange(0, root.len() as int) =~= root);
    assert(dir[root.len() as int] == '/');
    assert(dir != root);
    assert(rel_of(root, dir) =~= rel);
}

/// Joining a normalized root with an empty or well-formed relative path
/// gives a normalized directory at or below the root, from which the
/// relative path can be taken back.
pub proof fn lemma_join_under(root: Seq<char>, rel: Seq<char>)
    requires
        norm_dir(root),
        rel.len() == 0 || valid_rel(rel),
    ensures
        norm_dir(join_rel(root, rel)),
        is_under(root, join_rel(root, rel)),
        rel_of(root, join_rel(root, rel)) == rel,
{
    if rel.len() > 0 {
        lemma_rel_of_join(root, rel);
        let d = join_rel(root, rel);
        assert(d[d.len() - 1] == rel[rel.len() - 1]);
    } else {
        assert(rel_of(root, root) =~= rel);
    }
}

/// Joining two clean paths gives a clean path.
pub proof fn lemma_join_clean(a: Seq<char>, b: Seq<char>)
    requires
        norm_dir(a),
        no_dup_sep(a),
        b.len() > 0,
        b[0] != '/',
        b[b.len() - 1] != '/',
        no_dup_sep(b),
    ensures
        norm_dir(join_rel(a, b)),
        no_dup_sep(join_rel(a, b)),
{
    let d = join_rel(a, b);
    assert(d[d.len() - 1] == b[b.len() - 1]);
    assert forall|i: int| 0 <= i < d.len() - 1 implies !(#[trigger] d[i] == '/' && d[i + 1] == '/')
        by {
        if i < a.len() - 1 {
            assert(d[i] == a[i] && d[i + 1] == a[i + 1]);
        } else if i == a.len() - 1 {
            assert(d[i] == a[a.len() - 1]);
        } else if i == a.len() {
            assert(d[i + 1] == b[0]);
        } else {
            assert(d[i] == b[i - a.len() - 1] && d[i + 1] == b[i - a.len()]);
        }
    }
}

/// The parent of a clean directory strictly below the root is itself a clean
/// directory at or below the root.
pub proof fn lemma_parent_under(root: Seq<char>, full: Seq<char>)
    requires
        norm_dir(root),
        is_under(root, full),
        full != root,
        no_dup_sep(full),
    ensures
        is_under(root, parent_of(full)),
        norm_dir(parent_of(full)),
        no_dup_sep(parent_of(full)),
{
    crate::strutil::lemma_rfind_idx(full, '/');
    let r = rfind_idx(full, '/');
    assert(full[root.len() as int] == '/');
    assert(r >= root.len());
    let q = full.subrange(0, r);
    assert(q.len() >= root.len());
    if r == root.len() {
        assert(q =~= root);
    } else {
        assert(q.subrange(0, root.len() as int) =~= full.subrange(0, root.len() as int));
        assert(q[root.len() as int] == full[root.len() as int]);
        assert(q[q.len() - 1] == full[r - 1]);
        assert(!(full[r - 1] == '/' && full[r - 1 + 1] == '/'));
    }
    assert forall|i: int| 0 <= i < q.len() - 1 implies !(#[trigger] q[i] == '/' && q[i + 1] == '/')
        by {
        assert(q[i] == full[i] && q[i + 1] == full[i + 1]);
    }
}

/// Join a root directory and a relative path.
pub fn path_join(root: &str, rel: &str) -> (r: String)
    ensures
        r@ == join_rel(root@, rel@),
{
    if rel.unicode_len() == 0 {
        root.to_owned()
    } else {
        let mut s = root.to_owned();
        s.append("/");
        s.append(rel);
        proof {
            reveal_strlit("/");
            assert(s@ =~= join_rel(root@, rel@));
        }
        s
    }
}

/// Whether `dir` lies at or below `root`.
pub fn check_under(root: &str, dir: &str) -> (r: bool)
    ensures
        r == is_under(root@, dir@),
{
    if str_eq(dir, root) {
        return true;
    }
    let rlen = root.unicode_len();
    let dlen = dir.unicode_len();
    if dlen > rlen {
        let pre = dir.substring_char(0, rlen);
        str_eq(pre, root) && dir.get_char(rlen) == '/'
    } else {
        false
    }
}

/// The path of `dir` relative to `root`.
pub fn rel_to_root(root: &str, dir: &str) -> (r: String)
    requires
        is_under(root@, dir@),
    ensures
        r@ == rel_of(root@, dir@),
{
    if str_eq(dir, root) {
        String::new()
    } else {
        let rlen = root.unicode_len();
        let dlen = dir.unicode_len();
        dir.substring_char(rlen + 1, dlen).to_owned()
    }
}

/// The directory part of a relative path: everything before the last
/// separator, empty when there is none (the file sits at the root).
pub open spec fn parent_of(p: Seq<char>) -> Seq<char> {
    let r = rfind_idx(p, '/');
    if r < 0 {
        Seq::<char>::empty()
    } else {
        p.subrange(0, r)
    }
}

/// The file-name part of a relative path: everything after the last
/// separator.
pub open spec fn base_name_of(p: Seq<char>) -> Seq<char> {
    let r = rfind_idx(p, '/');
    p.subrange(r + 1, p.len() as int)
}

/// A parent is strictly shorter than the path it is taken from.
pub proof fn lemma_parent_shorter(p: Seq<char>)
    requires
        p.len() > 0,
    ensures
        parent_of(p).len() < p.len(),
{
    lemma_rfind_idx(p, '/');
}

/// The directory part of a relative path.
pub fn parent_dir(p: &str) -> (r: String)
    ensures
        r@ == parent_of(p@),
{
    proof {
        lemma_rfind_idx(p@, '/');
    }
    match rfind_char(p, '/') {
        Some(i) => {
            let q = p.substring_char(0, i).to_owned();
            assert(q@ == parent_of(p@));
            q
        },
        None => {
            let q = String::new();
            assert(q@ == parent_of(p@));
            q
        },
    }
}

/// The file-name part of a relative path.
pub fn base_name<'a>(p: &'a str) -> (r: &'a str)
    ensures
        r@ == base_name_of(p@),
{
    proof {
        lemma_rfind_idx(p@, '/');
    }
    let len = p.unicode_len();
    match rfind_char(p, '/') {
        Some(i) => p.substring_char(i + 1, len),
        None => {
            proof {
                assert(p@.subrange(0, p@.len() as int) =~= p@);
            }
            p
        },
    }
}

} // verus!
