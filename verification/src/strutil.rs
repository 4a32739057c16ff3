//! Verified helpers over strings: equality, lexicographic order, searching
//! for a character, prefixes and suffixes, and sorted duplicate-free vectors
//! of strings.

use vstd::prelude::*;

verus! {

/// Strict lexicographic order on character sequences, by code point.
pub open spec fn lex_lt(a: Seq<char>, b: Seq<char>) -> bool
    decreases a.len(),
{
    if b.len() == 0 {
        false
    } else if a.len() == 0 {
        true
    } else if a[0] != b[0] {
        (a[0] as u32) < (b[0] as u32)
    } else {
        lex_lt(a.subrange(1, a.len() as int), b.subrange(1, b.len() as int))
    }
}

/// `lex_lt` is a strict total order: of two sequences, exactly one of
/// "less", "greater" and "equal" holds.
pub proof fn lemma_lex_lt_connected(a: Seq<char>, b: Seq<char>)
    ensures
        lex_lt(a, b) || lex_lt(b, a) || a == b,
        lex_lt(a, b) ==> !lex_lt(b, a) && a != b,
    decreases a.len(),
{
    if a.len() == 0 && b.len() == 0 {
        assert(a =~= b);
    } else if a.len() > 0 && b.len() > 0 {
        if a[0] == b[0] {
            let at = a.subrange(1, a.len() as int);
            let bt = b.subrange(1, b.len() as int);
            lemma_lex_lt_connected(at, bt);
            if !lex_lt(a, b) && !lex_lt(b, a) {
                assert(at == bt);
                assert forall|k: int| 0 <= k < a.len() implies a[k] == b[k] by {
                    if k > 0 {
                        assert(at[k - 1] == a[k] && bt[k - 1] == b[k]);
                    }
                }
                assert(a =~= b);
            }
            if lex_lt(a, b) && a == b {
                assert(at == bt);
            }
        } else {
            assert((a[0] as u32) != (b[0] as u32)) by {
                vstd::utf8::char_u32_cast(a[0], a[0] as u32);
                vstd::utf8::char_u32_cast(b[0], b[0] as u32);
            }
        }
    }
}

/// `lex_lt` is transitive.
pub proof fn lemma_lex_lt_trans(a: Seq<char>, b: Seq<char>, c: Seq<char>)
    requires
        lex_lt(a, b),
        lex_lt(b, c),
    ensures
        lex_lt(a, c),
    decreases a.len(),
{
    if a.len() > 0 {
        if a[0] == b[0] && b[0] == c[0] {
            lemma_lex_lt_trans(
                a.subrange(1, a.len() as int),
                b.subrange(1, b.len() as int),
                c.subrange(1, c.len() as int),
            );
        }
    }
}

/// A sequence of character sequences in strictly increasing order (hence
/// duplicate-free).
pub open spec fn strictly_sorted(s: Seq<Seq<char>>) -> bool {
    forall|i: int, j: int| 0 <= i < j < s.len() ==> lex_lt(s[i], s[j])
}

/// The views of a vector of strings.
pub open spec fn str_views(v: Seq<String>) -> Seq<Seq<char>> {
    v.map_values(|s: String| s@)
}

/// An element of a sequence is in the set of its elements.
pub proof fn lemma_contains_at<A>(s: Seq<A>, i: int)
    requires
        0 <= i < s.len(),
    ensures
        s.contains(s[i]),
        s.to_set().contains(s[i]),
{
    assert(0 <= i < s.len() && s[i] == s[i]);
}

/// Two strictly sorted sequences with the same elements are the same
/// sequence: a sorted set has one listing.
pub proof fn lemma_sorted_same_set(a: Seq<Seq<char>>, b: Seq<Seq<char>>)
    requires
        strictly_sorted(a),
        strictly_sorted(b),
        a.to_set() == b.to_set(),
    ensures
        a == b,
    decreases a.len(),
{
    if a.len() == 0 {
        if b.len() > 0 {
            lemma_contains_at(b, 0);
            assert(a.to_set().contains(b[0]));
            assert(a.contains(b[0]));
        }
        assert(a =~= b);
    } else if b.len() == 0 {
        lemma_contains_at(a, 0);
        assert(b.to_set().contains(a[0]));
        assert(b.contains(a[0]));
    } else {
        // The heads are equal: each head occurs in the other sequence, and a
        // strictly later occurrence would put it strictly above the other head.
        lemma_contains_at(a, 0);
        assert(b.to_set().contains(a[0]));
        let j = choose|j: int| 0 <= j < b.len() && b[j] == a[0];
        lemma_contains_at(b, 0);
        assert(a.to_set().contains(b[0]));
        let i = choose|i: int| 0 <= i < a.len() && a[i] == b[0];
        if j > 0 {
            assert(lex_lt(b[0], b[j]));
            if i > 0 {
                assert(lex_lt(a[0], a[i]));
                lemma_lex_lt_connected(a[0], b[0]);
            }
        }
        assert(a[0] == b[0]);
        let at = a.subrange(1, a.len() as int);
        let bt = b.subrange(1, b.len() as int);
        assert forall|p: int, q: int| 0 <= p < q < at.len() implies lex_lt(at[p], at[q]) by {
            assert(at[p] == a[p + 1] && at[q] == a[q + 1]);
        }
        assert forall|p: int, q: int| 0 <= p < q < bt.len() implies lex_lt(bt[p], bt[q]) by {
            assert(bt[p] == b[p + 1] && bt[q] == b[q + 1]);
        }
        assert forall|x: Seq<char>| at.to_set().contains(x) implies bt.to_set().contains(x) by {
            let k = choose|k: int| 0 <= k < at.len() && at[k] == x;
            assert(a[k + 1] == x);
            assert(lex_lt(a[0], x));
            lemma_lex_lt_connected(a[0], x);
            lemma_contains_at(a, k + 1);
            assert(b.to_set().contains(x));
            let m = choose|m: int| 0 <= m < b.len() && b[m] == x;
            assert(m != 0);
            assert(bt[m - 1] == x);
            lemma_contains_at(bt, m - 1);
        }
        assert forall|x: Seq<char>| bt.to_set().contains(x) implies at.to_set().contains(x) by {
            let k = choose|k: int| 0 <= k < bt.len() && bt[k] == x;
            assert(b[k + 1] == x);
            assert(lex_lt(b[0], x));
            lemma_lex_lt_connected(b[0], x);
            lemma_contains_at(b, k + 1);
            assert(a.to_set().contains(x));
            let m = choose|m: int| 0 <= m < a.len() && a[m] == x;
            assert(m != 0);
            assert(at[m - 1] == x);
            lemma_contains_at(at, m - 1);
        }
        assert(at.to_set() =~= bt.to_set());
        lemma_sorted_same_set(at, bt);
        assert forall|k: int| 0 <= k < a.len() implies a[k] == b[k] by {
            if k > 0 {
                assert(at[k - 1] == a[k] && bt[k - 1] == b[k]);
            }
        }
        assert(a =~= b);
    }
}

/// Compare two string slices for equality of their character sequences.
pub fn str_eq(a: &str, b: &str) -> (r: bool)
    ensures
        r == (a@ == b@),
{
    let alen = a.unicode_len();
    let blen = b.unicode_len();
    if alen != blen {
        assert(a@ != b@) by {
            assert(a@.len() != b@.len());
        }
        return false;
    }
    let mut i: usize = 0;
    while i < alen
        invariant
            alen == a@.len(),
            blen == b@.len(),
            alen == blen,
            i <= alen,
            forall|j: int| 0 <= j < i ==> a@[j] == b@[j],
        decreases alen - i,
    {
        if a.get_char(i) != b.get_char(i) {
            return false;
        }
        i += 1;
    }
    proof {
        assert(a@ =~= b@);
    }
    true
}

/// Compare two string slices in lexicographic order.
pub fn str_lt(a: &str, b: &str) -> (r: bool)
    ensures
        r == lex_lt(a@, b@),
{
    let alen = a.unicode_len();
    let blen = b.unicode_len();
    let min = if alen < blen {
        alen
    } else {
        blen
    };
    proof {
        assert(a@.subrange(0, alen as int) =~= a@);
        assert(b@.subrange(0, blen as int) =~= b@);
    }
    let mut i: usize = 0;
    while i < min
        invariant
            alen == a@.len(),
            blen == b@.len(),
            min == if alen < blen {
                alen
            } else {
                blen
            },
            i <= min,
            lex_lt(a@, b@) == lex_lt(
                a@.subrange(i as int, alen as int),
                b@.subrange(i as int, blen as int),
            ),
        decreases min - i,
    {
        let ca = a.get_char(i);
        let cb = b.get_char(i);
        let ghost asub = a@.subrange(i as int, alen as int);
        let ghost bsub = b@.subrange(i as int, blen as int);
        if ca != cb {
            assert(lex_lt(asub, bsub) == ((ca as u32) < (cb as u32)));
            return (ca as u32) < (cb as u32);
        }
        proof {
            assert(asub.subrange(1, asub.len() as int) =~= a@.subrange(
                i + 1,
                alen as int,
            ));
            assert(bsub.subrange(1, bsub.len() as int) =~= b@.subrange(
                i + 1,
                blen as int,
            ));
        }
        i += 1;
    }
    proof {
        let asub = a@.subrange(i as int, alen as int);
        let bsub = b@.subrange(i as int, blen as int);
        if alen < blen {
            assert(asub.len() == 0 && bsub.len() > 0);
            assert(lex_lt(asub, bsub));
        } else {
            assert(bsub.len() == 0);
            assert(!lex_lt(asub, bsub));
        }
    }
    alen < blen
}

/// Index of the first occurrence of `c` in `s`, or -1 if `c` does not occur.
pub open spec fn find_idx(s: Seq<char>, c: char) -> int
    decreases s.len(),
{
    if s.len() == 0 {
        -1
    } else if s[0] == c {
        0
    } else {
        let r = find_idx(s.subrange(1, s.len() as int), c);
        if r == -1 {
            -1
        } else {
            r + 1
        }
    }
}

/// `find_idx` finds exactly the first occurrence.
pub proof fn lemma_find_idx(s: Seq<char>, c: char)
    ensures
        -1 <= find_idx(s, c) < s.len(),
        find_idx(s, c) >= 0 ==> s[find_idx(s, c)] == c && forall|j: int|
            0 <= j < find_idx(s, c) ==> s[j] != c,
        find_idx(s, c) == -1 ==> forall|j: int| 0 <= j < s.len() ==> s[j] != c,
    decreases s.len(),
{
    if s.len() > 0 && s[0] != c {
        let t = s.subrange(1, s.len() as int);
        lemma_find_idx(t, c);
        assert forall|j: int| 1 <= j < s.len() && find_idx(t, c) == -1 implies s[j] != c by {
            assert(t[j - 1] == s[j]);
        }
        assert forall|j: int|
            1 <= j < find_idx(s, c) && find_idx(s, c) >= 0 implies s[j] != c by {
            assert(t[j - 1] == s[j]);
        }
    }
}

/// Index of the last occurrence of `c` in `s`, or -1 if `c` does not occur.
pub open spec fn rfind_idx(s: Seq<char>, c: char) -> int
    decreases s.len(),
{
    if s.len() == 0 {
        -1
    } else if s[s.len() - 1] == c {
        s.len() - 1
    } else {
        rfind_idx(s.subrange(0, s.len() - 1), c)
    }
}

/// `rfind_idx` finds exactly the last occurrence.
pub proof fn lemma_rfind_idx(s: Seq<char>, c: char)
    ensures
        -1 <= rfind_idx(s, c) < s.len(),
        rfind_idx(s, c) >= 0 ==> s[rfind_idx(s, c)] == c && forall|j: int|
            rfind_idx(s, c) < j < s.len() ==> s[j] != c,
        rfind_idx(s, c) == -1 ==> forall|j: int| 0 <= j < s.len() ==> s[j] != c,
    decreases s.len(),
{
    if s.len() > 0 && s[s.len() - 1] != c {
        let t = s.subrange(0, s.len() - 1);
        lemma_rfind_idx(t, c);
        assert forall|j: int| 0 <= j < t.len() implies t[j] == s[j] by {}
    }
}

/// First occurrence of `c` in `s`, as an index usable for slicing.
pub fn find_char(s: &str, c: char) -> (r: Option<usize>)
    ensures
        match r {
            Some(i) => i as int == find_idx(s@, c),
            None => find_idx(s@, c) == -1,
        },
{
    proof {
        lemma_find_idx(s@, c);
    }
    let len = s.unicode_len();
    let mut i: usize = 0;
    while i < len
        invariant
            len == s@.len(),
            i <= len,
            forall|j: int| 0 <= j < i ==> s@[j] != c,
            -1 <= find_idx(s@, c) < s@.len(),
            find_idx(s@, c) >= 0 ==> s@[find_idx(s@, c)] == c && forall|j: int|
                0 <= j < find_idx(s@, c) ==> s@[j] != c,
            find_idx(s@, c) == -1 ==> forall|j: int| 0 <= j < s@.len() ==> s@[j] != c,
        decreases len - i,
    {
        if s.get_char(i) == c {
            return Some(i);
        }
        i += 1;
    }
    None
}

/// Last occurrence of `c` in `s`, as an index usable for slicing.
pub fn rfind_char(s: &str, c: char) -> (r: Option<usize>)
    ensures
        match r {
            Some(i) => i as int == rfind_idx(s@, c),
            None => rfind_idx(s@, c) == -1,
        },
{
    proof {
        lemma_rfind_idx(s@, c);
    }
    let len = s.unicode_len();
    let mut i: usize = len;
    while i > 0
        invariant
            len == s@.len(),
            i <= len,
            forall|j: int| i <= j < len ==> s@[j] != c,
            -1 <= rfind_idx(s@, c) < s@.len(),
            rfind_idx(s@, c) >= 0 ==> s@[rfind_idx(s@, c)] == c && forall|j: int|
                rfind_idx(s@, c) < j < s@.len() ==> s@[j] != c,
            rfind_idx(s@, c) == -1 ==> forall|j: int| 0 <= j < s@.len() ==> s@[j] != c,
        decreases i,
    {
        i -= 1;
        if s.get_char(i) == c {
            return Some(i);
        }
    }
    None
}

/// `p` is a suffix of `s`.
pub open spec fn has_suffix(s: Seq<char>, p: Seq<char>) -> bool {
    p.len() <= s.len() && s.subrange(s.len() - p.len(), s.len() as int) == p
}

/// Whether `s` ends with `p`.
pub fn ends_with_str(s: &str, p: &str) -> (r: bool)
    ensures
        r == has_suffix(s@, p@),
{
    let slen = s.unicode_len();
    let plen = p.unicode_len();
    if plen > slen {
        return false;
    }
    let tail = s.substring_char(slen - plen, slen);
    str_eq(tail, p)
}

/// Whether the view of `p` occurs among the views of the strings in `v`.
pub fn contains_str(v: &Vec<String>, p: &str) -> (r: bool)
    ensures
        r == str_views(v@).to_set().contains(p@),
{
    let len = v.len();
    let mut i: usize = 0;
    while i < len
        invariant
            len == v@.len(),
            i <= len,
            forall|j: int| 0 <= j < i ==> str_views(v@)[j] != p@,
        decreases len - i,
    {
        assert(str_views(v@)[i as int] == v@[i as int]@);
        if str_eq(&v[i], p) {
            proof {
                lemma_contains_at(str_views(v@), i as int);
            }
            return true;
        }
        i += 1;
    }
    proof {
        if str_views(v@).to_set().contains(p@) {
            let k = choose|k: int| 0 <= k < str_views(v@).len() && str_views(v@)[k] == p@;
            assert(str_views(v@)[k] != p@);
        }
    }
    false
}

/// Insert `s` into a strictly sorted vector of strings, keeping it sorted
/// and duplicate-free: the elements afterwards are the elements before plus
/// `s`.
pub fn insert_str_sorted(v: &mut Vec<String>, s: String)
    requires
        strictly_sorted(str_views(old(v)@)),
    ensures
        strictly_sorted(str_views(final(v)@)),
        str_views(final(v)@).to_set() == str_views(old(v)@).to_set().insert(s@),
{
    let len = v.len();
    let mut i: usize = 0;
    while i < len && str_lt(&v[i], &s)
        invariant
            len == v@.len(),
            i <= len,
            v@ == old(v)@,
            strictly_sorted(str_views(v@)),
            forall|j: int| 0 <= j < i ==> lex_lt(str_views(v@)[j], s@),
        decreases len - i,
    {
        assert(str_views(v@)[i as int] == v@[i as int]@);
        i += 1;
    }
    if i < len {
        assert(str_views(v@)[i as int] == v@[i as int]@);
        if str_eq(&v[i], &s) {
            proof {
                assert(str_views(v@).to_set().contains(s@));
                assert(str_views(v@).to_set() =~= str_views(v@).to_set().insert(s@));
            }
            return ;
        }
        proof {
            lemma_lex_lt_connected(v@[i as int]@, s@);
            assert(lex_lt(s@, v@[i as int]@));
        }
    }
    let ghost oldv = v@;
    v.insert(i, s);
    proof {
        let nv = str_views(v@);
        let ov = str_views(oldv);
        assert(v@ == oldv.insert(i as int, s));
        assert(nv.len() == ov.len() + 1);
        assert forall|k: int| 0 <= k < nv.len() implies nv[k] == (if k < i {
            ov[k]
        } else if k == i {
            s@
        } else {
            ov[k - 1]
        }) by {
            assert(nv[k] == v@[k]@);
            if k < i {
                assert(v@[k] == oldv[k]);
            } else if k > i {
                assert(v@[k] == oldv[k - 1]);
            }
        }
        assert forall|p: int, q: int| 0 <= p < q < nv.len() implies lex_lt(nv[p], nv[q]) by {
            if p < i && q == i {
            } else if p == i && q > i {
                // s is below everything at or after the split point
                if i < ov.len() {
                    if q - 1 > i {
                        lemma_lex_lt_trans(s@, ov[i as int], ov[q - 1]);
                    }
                }
            }
        }
        assert(strictly_sorted(nv));
        assert forall|x: Seq<char>| nv.to_set().contains(x) implies ov.to_set().insert(
            s@,
        ).contains(x) by {
            let k = choose|k: int| 0 <= k < nv.len() && nv[k] == x;
            if k != i {
                if k < i {
                    assert(ov[k] == x);
                } else {
                    assert(ov[k - 1] == x);
                }
            }
        }
        assert forall|x: Seq<char>| ov.to_set().insert(s@).contains(x) implies nv.to_set().contains(
            x,
        ) by {
            if x == s@ {
                assert(nv[i as int] == x);
            } else {
                let k = choose|k: int| 0 <= k < ov.len() && ov[k] == x;
                if k < i {
                    assert(nv[k] == x);
                } else {
                    assert(nv[k + 1] == x);
                }
            }
        }
        assert(nv.to_set() =~= ov.to_set().insert(s@));
    }
}

} // verus!
