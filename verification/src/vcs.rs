//! The pure part of the version-control change source: turning the raw,
//! NUL-separated outputs of the underlying queries (branch diff, unstaged,
//! staged, untracked) into one ordered, duplicate-free set of changed paths.

use vstd::prelude::*;

use crate::strutil::{
    find_char, find_idx, insert_str_sorted, lemma_contains_at, lemma_find_idx, str_views,
    strictly_sorted,
};

verus! {

/// The entries of one NUL-separated output: the nonempty segments, in order.
pub open spec fn nul_entries(s: Seq<char>) -> Seq<Seq<char>>
    decreases s.len(),
    via nul_entries_dec
{
    let i = find_idx(s, '\0');
    if i < 0 {
        if s.len() == 0 {
            Seq::<Seq<char>>::empty()
        } else {
            seq![s]
        }
    } else {
        let first = s.subrange(0, i);
        let rest = nul_entries(s.subrange(i + 1, s.len() as int));
        if first.len() == 0 {
            rest
        } else {
            seq![first] + rest
        }
    }
}

#[via_fn]
proof fn nul_entries_dec(s: Seq<char>) {
    lemma_find_idx(s, '\0');
}

/// `p` occurs as an entry in one of the outputs.
pub open spec fn entry_of(outs: Seq<Seq<char>>, p: Seq<char>) -> bool {
    exists|i: int| 0 <= i < outs.len() && nul_entries(#[trigger] outs[i]).contains(p)
}

/// The entries of one NUL-separated output, as strings.
fn nul_split(out: &str) -> (r: Vec<String>)
    ensures
        r@.len() == nul_entries(out@).len(),
        forall|j: int| 0 <= j < r@.len() ==> (#[trigger] r@[j])@ == nul_entries(out@)[j],
    decreases out@.len(),
{
    proof {
        lemma_find_idx(out@, '\0');
    }
    match find_char(out, '\0') {
        None => {
            if out.unicode_len() == 0 {
                Vec::new()
            } else {
                let mut v: Vec<String> = Vec::new();
                v.push(out.to_owned());
                v
            }
        },
        Some(i) => {
            let len = out.unicode_len();
            let mut rest = nul_split(out.substring_char(i + 1, len));
            if i == 0 {
                rest
            } else {
                let first = out.substring_char(0, i);
                let mut v: Vec<String> = Vec::new();
                v.push(first.to_owned());
                v.append(&mut rest);
                proof {
                    assert(nul_entries(out@) =~= seq![out@.subrange(0, i as int)] + nul_entries(
                        out@.subrange(i + 1, out@.len() as int),
                    ));
                }
                v
            }
        },
    }
}

/// Union of the changed paths of the underlying queries, deduplicated and
/// in lexicographic order: the same path reported by several queries appears
/// once, and the output is stable whatever the queries' own order.
pub fn changed_from_outputs(outputs: &Vec<String>) -> (r: Vec<String>)
    ensures
        strictly_sorted(str_views(r@)),
        forall|x: Seq<char>|
            str_views(r@).to_set().contains(x) ==> entry_of(str_views(outputs@), x),
        forall|i: int, k: int|
            0 <= i < outputs@.len() && 0 <= k < nul_entries(outputs@[i]@).len() ==> str_views(
                r@,
            ).to_set().contains(#[trigger] nul_entries(outputs@[i]@)[k]),
{
    let ghost outs = str_views(outputs@);
    let mut acc: Vec<String> = Vec::new();
    let n = outputs.len();
    let mut i: usize = 0;
    while i < n
        invariant
            n == outputs@.len(),
            i <= n,
            outs == str_views(outputs@),
            strictly_sorted(str_views(acc@)),
            forall|x: Seq<char>| str_views(acc@).to_set().contains(x) ==> entry_of(outs, x),
            forall|i2: int, k: int|
                0 <= i2 < i && 0 <= k < nul_entries(outs[i2]).len() ==> str_views(
                    acc@,
                ).to_set().contains(#[trigger] nul_entries(outs[i2])[k]),
        decreases n - i,
    {
        let out: &String = &outputs[i];
        assert(outs[i as int] == out@);
        let entries = nul_split(out.as_str());
        let m = entries.len();
        let mut k: usize = 0;
        while k < m
            invariant
                m == entries@.len(),
                i < n,
                n == outputs@.len(),
                outs == str_views(outputs@),
                outs[i as int] == outputs@[i as int]@,
                k <= m,
                entries@.len() == nul_entries(outs[i as int]).len(),
                forall|j: int|
                    0 <= j < entries@.len() ==> (#[trigger] entries@[j])@ == nul_entries(
                        outs[i as int],
                    )[j],
                strictly_sorted(str_views(acc@)),
                forall|x: Seq<char>| str_views(acc@).to_set().contains(x) ==> entry_of(outs, x),
                forall|i2: int, k2: int|
                    0 <= i2 < i && 0 <= k2 < nul_entries(outs[i2]).len() ==> str_views(
                        acc@,
                    ).to_set().contains(#[trigger] nul_entries(outs[i2])[k2]),
                forall|k2: int|
                    0 <= k2 < k ==> str_views(acc@).to_set().contains(
                        nul_entries(outs[i as int])[k2],
                    ),
            decreases m - k,
        {
            let e: &String = &entries[k];
            assert(e@ == nul_entries(outs[i as int])[k as int]);
            let ghost pre = str_views(acc@).to_set();
            insert_str_sorted(&mut acc, e.clone());
            proof {
                assert(nul_entries(outs[i as int]).contains(e@)) by {
                    assert(nul_entries(outs[i as int])[k as int] == e@);
                }
                assert(entry_of(outs, e@));
                assert forall|x: Seq<char>|
                    str_views(acc@).to_set().contains(x) implies entry_of(outs, x) by {
                    if x != e@ {
                        assert(pre.contains(x));
                    }
                }
            }
            k += 1;
        }
        i += 1;
    }
    proof {
        assert forall|i2: int, k: int|
            0 <= i2 < outputs@.len() && 0 <= k < nul_entries(outputs@[i2]@).len() implies str_views(
            acc@,
        ).to_set().contains(#[trigger] nul_entries(outputs@[i2]@)[k]) by {
            assert(outs[i2] == outputs@[i2]@);
            assert(str_views(acc@).to_set().contains(nul_entries(outs[i2])[k]));
        }
    }
    acc
}

} // verus!
