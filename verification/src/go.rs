//! The per-directory compiled-module backend. A changed module-dependency
//! file rebuilds everything under its containing module root; a changed
//! source file rebuilds its containing directory, but only while that
//! directory still exists. The mapping is a pure computation over path
//! structure: no outside query is issued and there is no fallback path.
//! It does not walk the module's own dependency graph, a narrower guarantee
//! than the graph-query backend's reverse-dependency closure; that is an
//! accepted limitation of this strategy, not an oversight.

use vstd::prelude::*;

use crate::backend::{
    has_dir, labels_of, plan_is_single_run, verb_with_labels, Affected, Backend, Env, Invocation,
    RunPlan, Target,
};
use crate::fsview::FsView;
use crate::pathutil::{
    base_name, base_name_of, is_under, join_rel, lemma_parent_of_valid, norm_dir, parent_dir,
    parent_of, path_join, rel_of, valid_rel,
};
use crate::strutil::{
    ends_with_str, has_suffix, insert_str_sorted, lemma_contains_at, str_eq, str_views,
    strictly_sorted,
};

verus! {

pub struct GoBackend;

/// A module-definition marker sits at the repository root.
pub open spec fn go_detects(fs: Set<Seq<char>>, dir: Seq<char>) -> bool {
    fs.contains(join_rel(dir, "go.mod"@)) || fs.contains(join_rel(dir, "go.work"@))
}

/// The file is one of the module-dependency files: a change to one rebuilds
/// everything under its directory.
pub open spec fn is_go_dep_name(n: Seq<char>) -> bool {
    n == "go.mod"@ || n == "go.sum"@ || n == "go.work"@ || n == "go.work.sum"@
}

/// The file is a source file of the backend's language, judged by its name.
pub open spec fn is_go_source(p: Seq<char>) -> bool {
    has_suffix(base_name_of(p), ".go"@) && base_name_of(p).len() > ".go"@.len()
}

/// The label of the directory `rel` levels below the root: the whole-tree
/// wildcard for the root itself.
pub open spec fn go_label_of(rel: Seq<char>) -> Seq<char> {
    if rel.len() == 0 {
        "./..."@
    } else {
        "./"@ + rel + "/..."@
    }
}

/// The changed file `f` makes the directory `rel` (relative to the root) an
/// affected package: a dependency file does so always, a source file only
/// while the directory exists.
pub open spec fn go_file_selects(
    fs: Set<Seq<char>>,
    root: Seq<char>,
    f: Seq<char>,
    rel: Seq<char>,
) -> bool {
    parent_of(f) == rel && (is_go_dep_name(base_name_of(f)) || (is_go_source(f) && fs.contains(
        join_rel(root, rel),
    )))
}

/// Some changed file makes `rel` an affected package.
pub open spec fn go_selected(
    fs: Set<Seq<char>>,
    root: Seq<char>,
    changed: Seq<Seq<char>>,
    rel: Seq<char>,
) -> bool {
    exists|i: int| 0 <= i < changed.len() && go_file_selects(fs, root, #[trigger] changed[i], rel)
}

/// The changed file contributes a package at all.
pub open spec fn go_relevant(fs: Set<Seq<char>>, root: Seq<char>, f: Seq<char>) -> bool {
    is_go_dep_name(base_name_of(f)) || (is_go_source(f) && fs.contains(
        join_rel(root, parent_of(f)),
    ))
}

/// What `affected_targets` returns: one target per affected package
/// directory, sorted by that directory's relative path, without duplicates;
/// a directory is listed exactly when some changed file selects it, and each
/// target is the backend's resolution of its directory.
pub open spec fn go_affected_post(
    root: Seq<char>,
    changed: Seq<Seq<char>>,
    fs: Set<Seq<char>>,
    ts: Seq<Target>,
) -> bool {
    &&& strictly_sorted(ts.map_values(|t: Target| rel_of(root, t.dir@)))
    &&& forall|j: int|
        0 <= j < ts.len() ==> {
            let rel = rel_of(root, (#[trigger] ts[j]).dir@);
            &&& ts[j].dir@ == join_rel(root, rel)
            &&& ts[j].label@ == go_label_of(rel)
            &&& go_selected(fs, root, changed, rel)
        }
    &&& forall|i: int|
        0 <= i < changed.len() ==> (go_relevant(fs, root, #[trigger] changed[i]) ==> has_dir(
            ts,
            join_rel(root, parent_of(changed[i])),
        ))
}

/// The files the formatter is given: the changed files with the language's
/// own source suffix that still exist, resolved to full paths, in input
/// order.
pub open spec fn go_fmt_files(
    fs: Set<Seq<char>>,
    root: Seq<char>,
    changed: Seq<Seq<char>>,
) -> Seq<Seq<char>>
    decreases changed.len(),
{
    if changed.len() == 0 {
        Seq::<Seq<char>>::empty()
    } else {
        let rest = go_fmt_files(fs, root, changed.drop_last());
        let f = changed.last();
        if is_go_source(f) && fs.contains(join_rel(root, f)) {
            rest.push(join_rel(root, f))
        } else {
            rest
        }
    }
}

/// Law: an empty changed-file set yields no targets.
pub proof fn lemma_go_empty_changed(
    root: Seq<char>,
    fs: Set<Seq<char>>,
    ts: Seq<Target>,
)
    requires
        go_affected_post(root, Seq::<Seq<char>>::empty(), fs, ts),
    ensures
        ts.len() == 0,
{
    if ts.len() > 0 {
        assert(go_selected(fs, root, Seq::<Seq<char>>::empty(), rel_of(root, ts[0].dir@)));
        let i = choose|i: int|
            0 <= i < Seq::<Seq<char>>::empty().len() && go_file_selects(
                fs,
                root,
                Seq::<Seq<char>>::empty()[i],
                rel_of(root, ts[0].dir@),
            );
    }
}

/// Law: deleted files never produce a target whose directory does not exist.
/// A changed source file only selects a directory that exists; the one
/// exception is a changed module-dependency file, whose directory is taken
/// on faith, so it is assumed present here.
pub proof fn lemma_go_no_phantom_dirs(
    root: Seq<char>,
    changed: Seq<Seq<char>>,
    fs: Set<Seq<char>>,
    ts: Seq<Target>,
)
    requires
        go_affected_post(root, changed, fs, ts),
        forall|i: int|
            0 <= i < changed.len() && is_go_dep_name(base_name_of(#[trigger] changed[i]))
                ==> fs.contains(join_rel(root, parent_of(changed[i]))),
    ensures
        forall|j: int| 0 <= j < ts.len() ==> fs.contains((#[trigger] ts[j]).dir@),
{
    assert forall|j: int| 0 <= j < ts.len() implies fs.contains((#[trigger] ts[j]).dir@) by {
        let rel = rel_of(root, ts[j].dir@);
        assert(go_selected(fs, root, changed, rel));
        let i = choose|i: int|
            0 <= i < changed.len() && go_file_selects(fs, root, #[trigger] changed[i], rel);
        assert(parent_of(changed[i]) == rel);
        if is_go_dep_name(base_name_of(changed[i])) {
            assert(fs.contains(join_rel(root, rel)));
        } else {
            assert(is_go_source(changed[i]) && fs.contains(join_rel(root, rel)));
        }
        assert(ts[j].dir@ == join_rel(root, rel));
    }
}

impl GoBackend {
    /// Whether the file name is one of the module-dependency files.
    fn dep_file_name(base: &str) -> (r: bool)
        ensures
            r == is_go_dep_name(base@),
    {
        str_eq(base, "go.mod") || str_eq(base, "go.sum") || str_eq(base, "go.work") || str_eq(
            base,
            "go.work.sum",
        )
    }

    /// Whether the file name carries the language's source suffix.
    fn source_file_name(base: &str) -> (r: bool)
        ensures
            r == (has_suffix(base@, ".go"@) && base@.len() > ".go"@.len()),
    {
        ends_with_str(base, ".go") && base.unicode_len() > ".go".unicode_len()
    }
}

impl Backend for GoBackend {
    fn name(&self) -> (r: &str)
        ensures
            r@ == "go"@,
    {
        "go"
    }

    fn detect(&self, fs: &FsView, dir: &str) -> (r: bool)
        ensures
            r == go_detects(fs.present_set(), dir@),
    {
        let a = path_join(dir, "go.mod");
        let b = path_join(dir, "go.work");
        fs.has(a.as_str()) || fs.has(b.as_str())
    }

    fn affected_targets(&self, repo_root: &str, changed_files: &Vec<String>, env: &Env) -> (r:
        Affected)
        ensures
            r.degraded == false,
            go_affected_post(
                repo_root@,
                str_views(changed_files@),
                env.fs.present_set(),
                r.targets@,
            ),
    {
        let ghost fs = env.fs.present_set();
        let ghost cs = str_views(changed_files@);
        let mut rels: Vec<String> = Vec::new();
        let n = changed_files.len();
        let mut i: usize = 0;
        while i < n
            invariant
                n == changed_files@.len(),
                i <= n,
                cs == str_views(changed_files@),
                fs == env.fs.present_set(),
                crate::backend::all_valid_rel(changed_files@),
                norm_dir(repo_root@),
                strictly_sorted(str_views(rels@)),
                forall|x: Seq<char>|
                    str_views(rels@).to_set().contains(x) ==> exists|k: int|
                        0 <= k < i && go_file_selects(fs, repo_root@, #[trigger] cs[k], x),
                forall|k: int|
                    0 <= k < i ==> (go_relevant(fs, repo_root@, #[trigger] cs[k]) ==> str_views(
                        rels@,
                    ).to_set().contains(parent_of(cs[k]))),
            decreases n - i,
        {
            let f: &String = &changed_files[i];
            assert(cs[i as int] == f@);
            let base = base_name(f.as_str());
            let ghost pre = str_views(rels@).to_set();
            if Self::dep_file_name(base) {
                let par = parent_dir(f.as_str());
                insert_str_sorted(&mut rels, par);
                proof {
                    assert(go_file_selects(fs, repo_root@, cs[i as int], parent_of(cs[i as int])));
                    assert forall|x: Seq<char>|
                        str_views(rels@).to_set().contains(x) implies exists|k: int|
                        0 <= k < i + 1 && go_file_selects(fs, repo_root@, #[trigger] cs[k], x) by {
                        if x == parent_of(cs[i as int]) {
                            assert(go_file_selects(fs, repo_root@, cs[i as int], x));
                        } else {
                            assert(pre.contains(x));
                        }
                    }
                }
            } else if Self::source_file_name(base) {
                let par = parent_dir(f.as_str());
                let dir = path_join(repo_root, par.as_str());
                if env.fs.has(dir.as_str()) {
                    insert_str_sorted(&mut rels, par);
                    proof {
                        assert(go_file_selects(
                            fs,
                            repo_root@,
                            cs[i as int],
                            parent_of(cs[i as int]),
                        ));
                        assert forall|x: Seq<char>|
                            str_views(rels@).to_set().contains(x) implies exists|k: int|
                            0 <= k < i + 1 && go_file_selects(
                                fs,
                                repo_root@,
                                #[trigger] cs[k],
                                x,
                            ) by {
                            if x == parent_of(cs[i as int]) {
                                assert(go_file_selects(fs, repo_root@, cs[i as int], x));
                            } else {
                                assert(pre.contains(x));
                            }
                        }
                    }
                }
            }
            i += 1;
        }
        let mut targets: Vec<Target> = Vec::new();
        let m = rels.len();
        let mut k: usize = 0;
        while k < m
            invariant
                m == rels@.len(),
                k <= m,
                cs == str_views(changed_files@),
                fs == env.fs.present_set(),
                crate::backend::all_valid_rel(changed_files@),
                norm_dir(repo_root@),
                strictly_sorted(str_views(rels@)),
                forall|x: Seq<char>|
                    str_views(rels@).to_set().contains(x) ==> exists|kk: int|
                        0 <= kk < cs.len() && go_file_selects(fs, repo_root@, #[trigger] cs[kk], x),
                forall|kk: int|
                    0 <= kk < cs.len() ==> (go_relevant(fs, repo_root@, #[trigger] cs[kk])
                        ==> str_views(rels@).to_set().contains(parent_of(cs[kk]))),
                targets@.len() == k,
                forall|j: int|
                    0 <= j < k ==> (#[trigger] targets@[j]).dir@ == join_rel(
                        repo_root@,
                        str_views(rels@)[j],
                    ) && targets@[j].label@ == go_label_of(str_views(rels@)[j]),
            decreases m - k,
        {
            let relref: &String = &rels[k];
            assert(str_views(rels@)[k as int] == relref@);
            proof {
                lemma_contains_at(str_views(rels@), k as int);
                if relref@.len() > 0 {
                    let kk = choose|kk: int|
                        0 <= kk < cs.len() && go_file_selects(fs, repo_root@, cs[kk], relref@);
                    assert(valid_rel(cs[kk]));
                    lemma_parent_of_valid(cs[kk]);
                    assert(valid_rel(relref@));
                }
                crate::pathutil::lemma_join_under(repo_root@, relref@);
            }
            let dir = path_join(repo_root, relref.as_str());
            let t = self.resolve_target(repo_root, dir);
            targets.push(t);
            k += 1;
        }
        proof {
            let root = repo_root@;
            let ts = targets@;
            let relseq = str_views(rels@);
            assert forall|j: int| 0 <= j < ts.len() implies rel_of(root, #[trigger] ts[j].dir@)
                == relseq[j] && is_under(root, ts[j].dir@) by {
                lemma_contains_at(relseq, j);
                if relseq[j].len() > 0 {
                    let kk = choose|kk: int|
                        0 <= kk < cs.len() && go_file_selects(fs, root, cs[kk], relseq[j]);
                    lemma_parent_of_valid(cs[kk]);
                }
                crate::pathutil::lemma_join_under(root, relseq[j]);
            }
            assert(ts.map_values(|t: Target| rel_of(root, t.dir@)) =~= relseq);
            assert forall|j: int| 0 <= j < ts.len() implies {
                let rel = rel_of(root, (#[trigger] ts[j]).dir@);
                &&& ts[j].dir@ == join_rel(root, rel)
                &&& ts[j].label@ == go_label_of(rel)
                &&& go_selected(fs, root, cs, rel)
            } by {
                lemma_contains_at(relseq, j);
                assert(relseq.to_set().contains(relseq[j]));
            }
            assert forall|i2: int|
                0 <= i2 < cs.len() && go_relevant(fs, root, #[trigger] cs[i2]) implies has_dir(
                ts,
                join_rel(root, parent_of(cs[i2])),
            ) by {
                let x = parent_of(cs[i2]);
                assert(relseq.to_set().contains(x));
                let j = choose|j: int| 0 <= j < relseq.len() && relseq[j] == x;
                assert(ts[j].dir@ == join_rel(root, x));
            }
        }
        Affected { targets, degraded: false }
    }

    fn resolve_target(&self, repo_root: &str, dir: String) -> (t: Target)
        ensures
            t.label@ == go_label_of(rel_of(repo_root@, dir@)),
    {
        let rel = crate::pathutil::rel_to_root(repo_root, dir.as_str());
        let label = if rel.unicode_len() == 0 {
            proof {
                reveal_strlit("./...");
            }
            "./...".to_owned()
        } else {
            let mut s = "./".to_owned();
            s.append(rel.as_str());
            s.append("/...");
            proof {
                reveal_strlit("./");
                assert(s@ == go_label_of(rel_of(repo_root@, dir@)));
            }
            s
        };
        Target { label, dir }
    }

    fn build(&self, repo_root: &str, targets: &Vec<Target>, env: &Env) -> (r: RunPlan)
        ensures
            targets@.len() > 0 ==> plan_is_single_run(r, "go"@, seq!["build"@] + labels_of(
                targets@,
            )),
    {
        if targets.len() == 0 {
            return RunPlan::NoOp;
        }
        let args = verb_with_labels("build", targets);
        RunPlan::Run {
            steps: vec![Invocation { program: "go".to_owned(), args }],
            fallback: None,
        }
    }

    fn test(&self, repo_root: &str, targets: &Vec<Target>, env: &Env) -> (r: RunPlan)
        ensures
            targets@.len() > 0 ==> plan_is_single_run(r, "go"@, seq!["test"@] + labels_of(
                targets@,
            )),
    {
        if targets.len() == 0 {
            return RunPlan::NoOp;
        }
        let args = verb_with_labels("test", targets);
        RunPlan::Run {
            steps: vec![Invocation { program: "go".to_owned(), args }],
            fallback: None,
        }
    }

    fn lint(&self, repo_root: &str, targets: &Vec<Target>, env: &Env) -> (r: RunPlan)
        ensures
            targets@.len() > 0 ==> plan_is_single_run(
                r,
                "golangci-lint"@,
                seq!["run"@] + labels_of(targets@),
            ),
    {
        if targets.len() == 0 {
            return RunPlan::NoOp;
        }
        let args = verb_with_labels("run", targets);
        RunPlan::Run {
            steps: vec![Invocation { program: "golangci-lint".to_owned(), args }],
            fallback: None,
        }
    }

    fn fmt(&self, repo_root: &str, changed_files: &Vec<String>, env: &Env) -> (r: RunPlan)
        ensures
            ({
                let files = go_fmt_files(env.fs.present_set(), repo_root@, str_views(
                    changed_files@,
                ));
                if files.len() == 0 {
                    r == RunPlan::NoOp
                } else {
                    plan_is_single_run(r, "gofmt"@, seq!["-w"@] + files)
                }
            }),
    {
        let ghost fs = env.fs.present_set();
        let ghost cs = str_views(changed_files@);
        let mut files: Vec<String> = Vec::new();
        let n = changed_files.len();
        let mut i: usize = 0;
        proof {
            assert(cs.subrange(0, 0) =~= Seq::<Seq<char>>::empty());
            assert(go_fmt_files(fs, repo_root@, cs.subrange(0, 0)) =~= Seq::<Seq<char>>::empty());
        }
        while i < n
            invariant
                n == changed_files@.len(),
                i <= n,
                cs == str_views(changed_files@),
                fs == env.fs.present_set(),
                str_views(files@) == go_fmt_files(fs, repo_root@, cs.subrange(0, i as int)),
            decreases n - i,
        {
            let f: &String = &changed_files[i];
            assert(cs[i as int] == f@);
            let ghost prefix = cs.subrange(0, i as int);
            let base = base_name(f.as_str());
            let keep = Self::source_file_name(base);
            let full = path_join(repo_root, f.as_str());
            if keep && env.fs.has(full.as_str()) {
                files.push(full);
            }
            proof {
                let prefix2 = cs.subrange(0, i + 1);
                assert(prefix2.drop_last() =~= prefix);
                assert(prefix2.last() == cs[i as int]);
                assert(str_views(files@) =~= go_fmt_files(fs, repo_root@, prefix2));
            }
            i += 1;
        }
        proof {
            assert(cs.subrange(0, n as int) =~= cs);
        }
        if files.len() == 0 {
            return RunPlan::NoOp;
        }
        let mut args: Vec<String> = Vec::new();
        args.push("-w".to_owned());
        let m = files.len();
        let mut k: usize = 0;
        while k < m
            invariant
                m == files@.len(),
                k <= m,
                args@.len() == 1 + k,
                str_views(args@)[0] == "-w"@,
                forall|j: int| 0 <= j < k ==> str_views(args@)[j + 1] == str_views(files@)[j],
            decreases m - k,
        {
            args.push(files[k].clone());
            assert(str_views(args@)[k + 1] == files@[k as int]@);
            assert forall|j: int| 0 <= j < k implies str_views(args@)[j + 1] == str_views(files@)[j]
                by {
                assert(str_views(args@)[j + 1] == args@[j + 1]@);
            }
            k += 1;
        }
        proof {
            let want = seq!["-w"@] + go_fmt_files(fs, repo_root@, cs);
            assert forall|j: int| 0 <= j < str_views(args@).len() implies str_views(args@)[j]
                == want[j] by {
                if j > 0 {
                    assert(str_views(args@)[j] == str_views(files@)[j - 1]);
                }
            }
            assert(str_views(args@) =~= want);
        }
        RunPlan::Run {
            steps: vec![Invocation { program: "gofmt".to_owned(), args }],
            fallback: None,
        }
    }
}

} // verus!
