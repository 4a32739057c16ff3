//! The graph-query backend. Affected targets come from a reverse-dependency
//! query over the whole target universe; the answer is deduplicated to
//! package granularity. When the query mechanism fails, target resolution
//! degrades to a directory-ancestor search for the nearest build-definition
//! marker, trading dependency-closure correctness for availability.

use vstd::prelude::*;

use crate::backend::{
    dirs_of, extend_dirs, extend_labels, has_dir, has_label, is_cmd, labels_of, plan_is_single_run,
    verb_with_labels, views_of, Affected, Backend, Env, Invocation, RunPlan, Target,
};
use crate::fsview::FsView;
use crate::pathutil::{
    base_name, base_name_of, is_under, join_rel, lemma_parent_of_valid, lemma_parent_shorter,
    lemma_rel_of_join, norm_dir, parent_dir, parent_of, path_join, rel_of, valid_rel,
};
use crate::strutil::{
    ends_with_str, find_char, find_idx, has_suffix, insert_str_sorted, lemma_contains_at,
    lemma_find_idx, lemma_lex_lt_connected, lemma_sorted_same_set, str_eq, str_views,
    strictly_sorted,
};

verus! {

pub struct BazelBackend;

/// A workspace marker sits at the repository root.
pub open spec fn bazel_detects(fs: Set<Seq<char>>, dir: Seq<char>) -> bool {
    ||| fs.contains(join_rel(dir, "WORKSPACE"@))
    ||| fs.contains(join_rel(dir, "WORKSPACE.bazel"@))
    ||| fs.contains(join_rel(dir, "MODULE.bazel"@))
}

/// The graph tool to invoke: the version-pinning launcher when installed,
/// otherwise the bare tool.
pub open spec fn bazel_prog(bazelisk: bool) -> Seq<char> {
    if bazelisk {
        "bazelisk"@
    } else {
        "bazel"@
    }
}

/// The package part of a label: everything before the first colon.
pub open spec fn label_pkg(l: Seq<char>) -> Seq<char> {
    let f = find_idx(l, ':');
    if f < 0 {
        l
    } else {
        l.subrange(0, f)
    }
}

/// A label with every leading target-universe root marker stripped.
pub open spec fn trim_slashes(s: Seq<char>) -> Seq<char>
    decreases s.len(),
{
    if s.len() >= 2 && s[0] == '/' && s[1] == '/' {
        trim_slashes(s.subrange(2, s.len() as int))
    } else {
        s
    }
}

/// The directory, relative to the root, that owns a label.
pub open spec fn label_rel(l: Seq<char>) -> Seq<char> {
    label_pkg(trim_slashes(l))
}

/// The label of the directory `rel` below the root: all targets in that
/// package, or the whole-tree wildcard for the root itself.
pub open spec fn bazel_label_of(rel: Seq<char>) -> Seq<char> {
    if rel.len() == 0 {
        "//...:all"@
    } else {
        "//"@ + rel + ":all"@
    }
}

/// The file is a build-definition file, judged by its name alone.
pub open spec fn is_build_file_name(n: Seq<char>) -> bool {
    ||| n == "BUILD"@
    ||| n == "BUILD.bazel"@
    ||| n == "WORKSPACE"@
    ||| n == "WORKSPACE.bazel"@
    ||| n == "MODULE.bazel"@
    ||| has_suffix(n, ".bzl"@)
}

/// The directory `rel` below the root holds a build-definition marker.
pub open spec fn has_build_marker(fs: Set<Seq<char>>, root: Seq<char>, rel: Seq<char>) -> bool {
    ||| fs.contains(join_rel(join_rel(root, rel), "BUILD"@))
    ||| fs.contains(join_rel(join_rel(root, rel), "BUILD.bazel"@))
}

/// The nearest ancestor of `rel` (itself included, the root last) that holds
/// a build-definition marker.
pub open spec fn nearest_pkg(fs: Set<Seq<char>>, root: Seq<char>, rel: Seq<char>) -> Option<
    Seq<char>,
>
    decreases rel.len(),
    via nearest_pkg_dec
{
    if has_build_marker(fs, root, rel) {
        Some(rel)
    } else if rel.len() == 0 {
        None
    } else {
        nearest_pkg(fs, root, parent_of(rel))
    }
}

#[via_fn]
proof fn nearest_pkg_dec(fs: Set<Seq<char>>, root: Seq<char>, rel: Seq<char>) {
    if !has_build_marker(fs, root, rel) && rel.len() > 0 {
        lemma_parent_shorter(rel);
    }
}

/// A query-output line with a trailing carriage return removed.
pub open spec fn clean_line(l: Seq<char>) -> Seq<char> {
    if l.len() > 0 && l[l.len() - 1] == '\r' {
        l.drop_last()
    } else {
        l
    }
}

/// The labels in the query's standard output: one per nonempty line.
pub open spec fn out_labels(s: Seq<char>) -> Seq<Seq<char>>
    decreases s.len(),
    via out_labels_dec
{
    let i = find_idx(s, '\n');
    if i < 0 {
        if clean_line(s).len() == 0 {
            Seq::<Seq<char>>::empty()
        } else {
            seq![clean_line(s)]
        }
    } else {
        let first = clean_line(s.subrange(0, i));
        let rest = out_labels(s.subrange(i + 1, s.len() as int));
        if first.len() == 0 {
            rest
        } else {
            seq![first] + rest
        }
    }
}

#[via_fn]
proof fn out_labels_dec(s: Seq<char>) {
    lemma_find_idx(s, '\n');
}

/// A changed file, normalized to forward separators.
pub open spec fn slashed(s: Seq<char>) -> Seq<char>
    decreases s.len(),
{
    if s.len() == 0 {
        s
    } else {
        slashed(s.drop_last()).push(
            if s.last() == '\\' {
                '/'
            } else {
                s.last()
            },
        )
    }
}

/// A normalized file path quoted for the query's set literal.
pub open spec fn quoted(f: Seq<char>) -> Seq<char> {
    seq!['"'] + slashed(f) + seq!['"']
}

/// The set literal of the query: the quoted files joined by single spaces.
pub open spec fn set_expr(files: Seq<Seq<char>>) -> Seq<char>
    decreases files.len(),
{
    if files.len() == 0 {
        Seq::<char>::empty()
    } else if files.len() == 1 {
        quoted(files[0])
    } else {
        set_expr(files.drop_last()) + seq![' '] + quoted(files.last())
    }
}

/// The reverse-dependency query over the whole target universe, asking for
/// every target that transitively depends on one of the files.
pub open spec fn rdeps_query_of(files: Seq<Seq<char>>) -> Seq<char> {
    "rdeps(//..., set("@ + set_expr(files) + "))"@
}

/// `l` is the package wildcard of one of the labels in `in_labels`.
pub open spec fn label_from(in_labels: Seq<Seq<char>>, l: Seq<char>) -> bool {
    exists|i: int| 0 <= i < in_labels.len() && l == label_pkg(#[trigger] in_labels[i]) + ":all"@
}

/// `rel` is the nearest marker ancestor of one of the changed files.
pub open spec fn fallback_hit(
    fs: Set<Seq<char>>,
    root: Seq<char>,
    changed: Seq<Seq<char>>,
    rel: Seq<char>,
) -> bool {
    exists|i: int|
        0 <= i < changed.len() && nearest_pkg(fs, root, parent_of(#[trigger] changed[i])) == Some(
            rel,
        )
}

/// What `deduplicate_to_packages` returns: the package wildcard labels of
/// the input labels, sorted and without duplicates, each with the package's
/// own directory.
pub open spec fn dedup_post(root: Seq<char>, in_labels: Seq<Seq<char>>, out: Seq<Target>) -> bool {
    &&& strictly_sorted(labels_of(out))
    &&& forall|j: int|
        0 <= j < out.len() ==> (#[trigger] out[j]).dir@ == join_rel(root, label_rel(out[j].label@))
    &&& forall|j: int|
        0 <= j < out.len() ==> label_from(in_labels, (#[trigger] out[j]).label@)
    &&& forall|i: int|
        0 <= i < in_labels.len() ==> has_label(out, label_pkg(#[trigger] in_labels[i]) + ":all"@)
}

/// What the degraded path returns: for each changed file the nearest
/// ancestor directory holding a build-definition marker, deduplicated and
/// sorted by that directory's relative path, each resolved to its package
/// target.
pub open spec fn fallback_post(
    root: Seq<char>,
    changed: Seq<Seq<char>>,
    fs: Set<Seq<char>>,
    ts: Seq<Target>,
) -> bool {
    &&& strictly_sorted(ts.map_values(|t: Target| rel_of(root, t.dir@)))
    &&& forall|j: int|
        0 <= j < ts.len() ==> {
            let rel = rel_of(root, (#[trigger] ts[j]).dir@);
            &&& ts[j].dir@ == join_rel(root, rel)
            &&& ts[j].label@ == bazel_label_of(rel)
            &&& fallback_hit(fs, root, changed, rel)
        }
    &&& forall|i: int|
        0 <= i < changed.len() ==> match nearest_pkg(fs, root, parent_of(#[trigger] changed[i])) {
            Some(rel) => has_dir(ts, join_rel(root, rel)),
            None => true,
        }
}

/// The view of the query outcome.
pub open spec fn query_view(q: Option<String>) -> Option<Seq<char>> {
    match q {
        Some(s) => Some(s@),
        None => None,
    }
}

/// What `affected_targets` returns. An empty changed-file set asks for
/// nothing. Otherwise the query's answer, deduplicated to packages, is the
/// precise path; a failed query degrades to the ancestor search, and the
/// result says so.
pub open spec fn bazel_affected_post(
    root: Seq<char>,
    changed: Seq<Seq<char>>,
    fs: Set<Seq<char>>,
    query: Option<Seq<char>>,
    ts: Seq<Target>,
    degraded: bool,
) -> bool {
    if changed.len() == 0 {
        ts.len() == 0 && !degraded
    } else {
        match query {
            Some(out) => !degraded && dedup_post(root, out_labels(out), ts),
            None => degraded && fallback_post(root, changed, fs, ts),
        }
    }
}

/// The files the formatter is given: the changed build-definition files
/// that still exist, resolved to full paths, in input order.
pub open spec fn bazel_fmt_files(
    fs: Set<Seq<char>>,
    root: Seq<char>,
    changed: Seq<Seq<char>>,
) -> Seq<Seq<char>>
    decreases changed.len(),
{
    if changed.len() == 0 {
        Seq::<Seq<char>>::empty()
    } else {
        let rest = bazel_fmt_files(fs, root, changed.drop_last());
        let f = changed.last();
        if is_build_file_name(base_name_of(f)) && fs.contains(join_rel(root, f)) {
            rest.push(join_rel(root, f))
        } else {
            rest
        }
    }
}

/// Everything before the first colon of a label.
fn before_colon<'a>(s: &'a str) -> (r: &'a str)
    ensures
        r@ == label_pkg(s@),
{
    proof {
        lemma_find_idx(s@, ':');
    }
    match find_char(s, ':') {
        Some(i) => s.substring_char(0, i),
        None => {
            proof {
                assert(s@.subrange(0, s@.len() as int) =~= s@);
            }
            s
        },
    }
}

/// Strip every leading target-universe root marker from a label.
fn trim_leading_slashes<'a>(s: &'a str) -> (r: &'a str)
    ensures
        r@ == trim_slashes(s@),
    decreases s@.len(),
{
    let len = s.unicode_len();
    if len >= 2 && s.get_char(0) == '/' && s.get_char(1) == '/' {
        trim_leading_slashes(s.substring_char(2, len))
    } else {
        s
    }
}

/// The directory owning a label: the label's package below the root.
pub fn label_to_dir(repo_root: &str, label: &str) -> (r: String)
    ensures
        r@ == join_rel(repo_root@, label_rel(label@)),
{
    let t = trim_leading_slashes(label);
    let p = before_colon(t);
    path_join(repo_root, p)
}

/// A line of query output with a trailing carriage return removed.
fn clean_line_exec<'a>(l: &'a str) -> (r: &'a str)
    ensures
        r@ == clean_line(l@),
{
    let len = l.unicode_len();
    if len > 0 && l.get_char(len - 1) == '\r' {
        let r = l.substring_char(0, len - 1);
        proof {
            assert(l@.drop_last() =~= l@.subrange(0, len - 1));
        }
        r
    } else {
        l
    }
}

impl BazelBackend {
    /// The graph tool to invoke.
    fn bazel_cmd(env: &Env) -> (r: &'static str)
        ensures
            r@ == bazel_prog(env.bazelisk),
    {
        if env.bazelisk {
            "bazelisk"
        } else {
            "bazel"
        }
    }

    /// The reverse-dependency query for the given changed files, built as a
    /// single request over the whole target universe.
    pub fn rdeps_query(changed_files: &Vec<String>) -> (r: String)
        ensures
            r@ == rdeps_query_of(str_views(changed_files@)),
    {
        let ghost cs = str_views(changed_files@);
        let mut expr = String::new();
        let n = changed_files.len();
        let mut i: usize = 0;
        proof {
            assert(cs.subrange(0, 0) =~= Seq::<Seq<char>>::empty());
        }
        while i < n
            invariant
                n == changed_files@.len(),
                i <= n,
                cs == str_views(changed_files@),
                expr@ == set_expr(cs.subrange(0, i as int)),
            decreases n - i,
        {
            let f: &String = &changed_files[i];
            assert(cs[i as int] == f@);
            if i > 0 {
                expr.append(" ");
            }
            expr.append("\"");
            let norm = replace_backslashes(f.as_str());
            expr.append(norm.as_str());
            expr.append("\"");
            proof {
                reveal_strlit(" ");
                reveal_strlit("\"");
                let prefix2 = cs.subrange(0, i + 1);
                assert(prefix2.drop_last() =~= cs.subrange(0, i as int));
                assert(prefix2.last() == cs[i as int]);
                assert(expr@ =~= set_expr(prefix2));
            }
            i += 1;
        }
        proof {
            assert(cs.subrange(0, n as int) =~= cs);
        }
        let mut q = "rdeps(//..., set(".to_owned();
        q.append(expr.as_str());
        q.append("))");
        q
    }

    /// Parse the query's label-only output: one target per nonempty line,
    /// each owning the directory its package names.
    pub fn parse_query_output(repo_root: &str, out: &str) -> (r: Vec<Target>)
        ensures
            r@.len() == out_labels(out@).len(),
            forall|j: int|
                0 <= j < r@.len() ==> (#[trigger] r@[j]).label@ == out_labels(out@)[j]
                    && r@[j].dir@ == join_rel(repo_root@, label_rel(out_labels(out@)[j])),
        decreases out@.len(),
    {
        proof {
            lemma_find_idx(out@, '\n');
        }
        match find_char(out, '\n') {
            None => {
                let line = clean_line_exec(out);
                if line.unicode_len() == 0 {
                    Vec::new()
                } else {
                    let dir = label_to_dir(repo_root, line);
                    let t = Target { label: line.to_owned(), dir };
                    let mut v: Vec<Target> = Vec::new();
                    v.push(t);
                    v
                }
            },
            Some(i) => {
                let len = out.unicode_len();
                let first = clean_line_exec(out.substring_char(0, i));
                let mut rest = Self::parse_query_output(
                    repo_root,
                    out.substring_char(i + 1, len),
                );
                if first.unicode_len() == 0 {
                    rest
                } else {
                    let dir = label_to_dir(repo_root, first);
                    let t = Target { label: first.to_owned(), dir };
                    let mut v: Vec<Target> = Vec::new();
                    v.push(t);
                    v.append(&mut rest);
                    proof {
                        assert(out_labels(out@) =~= seq![clean_line(out@.subrange(0, i as int))]
                            + out_labels(out@.subrange(i + 1, out@.len() as int)));
                    }
                    v
                }
            },
        }
    }

    /// Collapse every label sharing a package prefix into one "all targets
    /// in this package" wildcard label; stable (sorted, set-based), so
    /// repeated runs over the same input give identical output.
    pub fn deduplicate_to_packages(repo_root: &str, targets: &Vec<Target>) -> (r: Vec<Target>)
        ensures
            dedup_post(repo_root@, labels_of(targets@), r@),
    {
        let ghost in_labels = labels_of(targets@);
        let mut pkgs: Vec<String> = Vec::new();
        let n = targets.len();
        let mut i: usize = 0;
        while i < n
            invariant
                n == targets@.len(),
                i <= n,
                in_labels == labels_of(targets@),
                strictly_sorted(str_views(pkgs@)),
                forall|x: Seq<char>|
                    str_views(pkgs@).to_set().contains(x) ==> exists|k: int|
                        0 <= k < i && x == label_pkg(#[trigger] in_labels[k]) + ":all"@,
                forall|k: int|
                    0 <= k < i ==> str_views(pkgs@).to_set().contains(
                        label_pkg(#[trigger] in_labels[k]) + ":all"@,
                    ),
            decreases n - i,
        {
            let t: &Target = &targets[i];
            assert(in_labels[i as int] == t.label@);
            let pkg = before_colon(t.label.as_str());
            let mut lbl = pkg.to_owned();
            lbl.append(":all");
            assert(lbl@ == label_pkg(in_labels[i as int]) + ":all"@);
            let ghost pre = str_views(pkgs@).to_set();
            insert_str_sorted(&mut pkgs, lbl);
            proof {
                assert forall|x: Seq<char>|
                    str_views(pkgs@).to_set().contains(x) implies exists|k: int|
                    0 <= k < i + 1 && x == label_pkg(#[trigger] in_labels[k]) + ":all"@ by {
                    if x != label_pkg(in_labels[i as int]) + ":all"@ {
                        assert(pre.contains(x));
                    }
                }
            }
            i += 1;
        }
        let mut out: Vec<Target> = Vec::new();
        let m = pkgs.len();
        let mut k: usize = 0;
        while k < m
            invariant
                m == pkgs@.len(),
                k <= m,
                in_labels == labels_of(targets@),
                strictly_sorted(str_views(pkgs@)),
                forall|x: Seq<char>|
                    str_views(pkgs@).to_set().contains(x) ==> exists|kk: int|
                        0 <= kk < in_labels.len() && x == label_pkg(#[trigger] in_labels[kk])
                            + ":all"@,
                forall|kk: int|
                    0 <= kk < in_labels.len() ==> str_views(pkgs@).to_set().contains(
                        label_pkg(#[trigger] in_labels[kk]) + ":all"@,
                    ),
                out@.len() == k,
                forall|j: int|
                    0 <= j < k ==> (#[trigger] out@[j]).label@ == str_views(pkgs@)[j]
                        && out@[j].dir@ == join_rel(repo_root@, label_rel(str_views(pkgs@)[j])),
            decreases m - k,
        {
            let lbl: &String = &pkgs[k];
            assert(str_views(pkgs@)[k as int] == lbl@);
            let dir = label_to_dir(repo_root, lbl.as_str());
            out.push(Target { label: lbl.clone(), dir });
            k += 1;
        }
        proof {
            let relseq = str_views(pkgs@);
            assert(labels_of(out@) =~= relseq);
            assert forall|j: int| 0 <= j < out@.len() implies label_from(
                labels_of(targets@),
                (#[trigger] out@[j]).label@,
            ) by {
                lemma_contains_at(relseq, j);
                assert(relseq.to_set().contains(out@[j].label@));
                let w = choose|w: int|
                    0 <= w < in_labels.len() && out@[j].label@ == label_pkg(in_labels[w])
                        + ":all"@;
                assert(0 <= w < labels_of(targets@).len() && out@[j].label@ == label_pkg(
                    labels_of(targets@)[w],
                ) + ":all"@);
                assert(label_from(labels_of(targets@), out@[j].label@));
            }
            assert forall|i2: int| 0 <= i2 < in_labels.len() implies has_label(
                out@,
                label_pkg(#[trigger] in_labels[i2]) + ":all"@,
            ) by {
                let x = label_pkg(in_labels[i2]) + ":all"@;
                assert(relseq.to_set().contains(x));
                let j = choose|j: int| 0 <= j < relseq.len() && relseq[j] == x;
                assert(out@[j].label@ == x);
            }
        }
        out
    }

    /// The nearest ancestor of the changed file's directory that holds a
    /// build-definition marker, walking upward and stopping at the root.
    fn fallback_pkg(repo_root: &str, fs: &FsView, f: &str) -> (r: Option<String>)
        requires
            norm_dir(repo_root@),
            valid_rel(f@),
        ensures
            match r {
                Some(rel) => nearest_pkg(fs.present_set(), repo_root@, parent_of(f@)) == Some(rel@)
                    && (rel@.len() == 0 || valid_rel(rel@)),
                None => nearest_pkg(fs.present_set(), repo_root@, parent_of(f@)) is None,
            },
    {
        let mut rel = parent_dir(f);
        proof {
            lemma_parent_of_valid(f@);
        }
        loop
            invariant
                norm_dir(repo_root@),
                rel@.len() == 0 || valid_rel(rel@),
                nearest_pkg(fs.present_set(), repo_root@, parent_of(f@)) == nearest_pkg(
                    fs.present_set(),
                    repo_root@,
                    rel@,
                ),
            decreases rel@.len(),
        {
            let dir = path_join(repo_root, rel.as_str());
            let b1 = path_join(dir.as_str(), "BUILD");
            let b2 = path_join(dir.as_str(), "BUILD.bazel");
            if fs.has(b1.as_str()) || fs.has(b2.as_str()) {
                return Some(rel);
            }
            if rel.unicode_len() == 0 {
                return None;
            }
            proof {
                lemma_parent_shorter(rel@);
                lemma_parent_of_valid(rel@);
            }
            rel = parent_dir(rel.as_str());
        }
    }
}

impl Backend for BazelBackend {
    fn name(&self) -> (r: &str)
        ensures
            r@ == "bazel"@,
    {
        "bazel"
    }

    fn detect(&self, fs: &FsView, dir: &str) -> (r: bool)
        ensures
            r == bazel_detects(fs.present_set(), dir@),
    {
        let a = path_join(dir, "WORKSPACE");
        let b = path_join(dir, "WORKSPACE.bazel");
        let c = path_join(dir, "MODULE.bazel");
        fs.has(a.as_str()) || fs.has(b.as_str()) || fs.has(c.as_str())
    }

    fn affected_targets(&self, repo_root: &str, changed_files: &Vec<String>, env: &Env) -> (r:
        Affected)
        ensures
            bazel_affected_post(
                repo_root@,
                str_views(changed_files@),
                env.fs.present_set(),
                query_view(env.query_output),
                r.targets@,
                r.degraded,
            ),
    {
        let ghost fs = env.fs.present_set();
        let ghost cs = str_views(changed_files@);
        if changed_files.len() == 0 {
            return Affected { targets: Vec::new(), degraded: false };
        }
        match &env.query_output {
            Some(out) => {
                let parsed = Self::parse_query_output(repo_root, out.as_str());
                let targets = Self::deduplicate_to_packages(repo_root, &parsed);
                proof {
                    assert(labels_of(parsed@) =~= out_labels(out@));
                    assert forall|j: int| 0 <= j < targets@.len() implies is_under(
                        repo_root@,
                        #[trigger] targets@[j].dir@,
                    ) by {
                        let rel = label_rel(targets@[j].label@);
                        if rel.len() > 0 {
                            lemma_rel_of_join(repo_root@, rel);
                        }
                    }
                }
                Affected { targets, degraded: false }
            },
            None => {
                let mut rels: Vec<String> = Vec::new();
                let n = changed_files.len();
                let mut i: usize = 0;
                while i < n
                    invariant
                        n == changed_files@.len(),
                        i <= n,
                        cs == str_views(changed_files@),
                        fs == env.fs.present_set(),
                        crate::backend::all_valid_rel(changed_files@),
                        norm_dir(repo_root@),
                        strictly_sorted(str_views(rels@)),
                        forall|x: Seq<char>|
                            str_views(rels@).to_set().contains(x) ==> (x.len() == 0 || valid_rel(
                                x,
                            )) && exists|k: int|
                                0 <= k < i && nearest_pkg(fs, repo_root@, parent_of(
                                    #[trigger] cs[k],
                                )) == Some(x),
                        forall|k: int|
                            0 <= k < i ==> match nearest_pkg(fs, repo_root@, parent_of(
                                #[trigger] cs[k],
                            )) {
                                Some(rel) => str_views(rels@).to_set().contains(rel),
                                None => true,
                            },
                    decreases n - i,
                {
                    let f: &String = &changed_files[i];
                    assert(cs[i as int] == f@);
                    let ghost pre = str_views(rels@).to_set();
                    match Self::fallback_pkg(repo_root, &env.fs, f.as_str()) {
                        Some(rel) => {
                            insert_str_sorted(&mut rels, rel);
                            proof {
                                assert forall|x: Seq<char>|
                                    str_views(rels@).to_set().contains(x) implies (x.len() == 0
                                    || valid_rel(x)) && exists|k: int|
                                    0 <= k < i + 1 && nearest_pkg(fs, repo_root@, parent_of(
                                        #[trigger] cs[k],
                                    )) == Some(x) by {
                                    if pre.contains(x) {
                                    } else {
                                        assert(nearest_pkg(fs, repo_root@, parent_of(cs[i as int]))
                                            == Some(x));
                                    }
                                }
                            }
                        },
                        None => {},
                    }
                    i += 1;
                }
                let mut targets: Vec<Target> = Vec::new();
                let m = rels.len();
                let mut k: usize = 0;
                while k < m
                    invariant
                        m == rels@.len(),
                        k <= m,
                        cs == str_views(changed_files@),
                        fs == env.fs.present_set(),
                        norm_dir(repo_root@),
                        strictly_sorted(str_views(rels@)),
                        forall|x: Seq<char>|
                            str_views(rels@).to_set().contains(x) ==> (x.len() == 0 || valid_rel(
                                x,
                            )) && exists|kk: int|
                                0 <= kk < cs.len() && nearest_pkg(fs, repo_root@, parent_of(
                                    #[trigger] cs[kk],
                                )) == Some(x),
                        forall|kk: int|
                            0 <= kk < cs.len() ==> match nearest_pkg(fs, repo_root@, parent_of(
                                #[trigger] cs[kk],
                            )) {
                                Some(rel) => str_views(rels@).to_set().contains(rel),
                                None => true,
                            },
                        targets@.len() == k,
                        forall|j: int|
                            0 <= j < k ==> (#[trigger] targets@[j]).dir@ == join_rel(
                                repo_root@,
                                str_views(rels@)[j],
                            ) && targets@[j].label@ == bazel_label_of(str_views(rels@)[j]),
                    decreases m - k,
                {
                    let relref: &String = &rels[k];
                    assert(str_views(rels@)[k as int] == relref@);
                    proof {
                        lemma_contains_at(str_views(rels@), k as int);
                        crate::pathutil::lemma_join_under(repo_root@, relref@);
                    }
                    let dir = path_join(repo_root, relref.as_str());
                    let t = self.resolve_target(repo_root, dir);
                    targets.push(t);
                    k += 1;
                }
                proof {
                    let root = repo_root@;
                    let ts = targets@;
                    let relseq = str_views(rels@);
                    assert forall|j: int| 0 <= j < ts.len() implies rel_of(
                        root,
                        #[trigger] ts[j].dir@,
                    ) == relseq[j] && is_under(root, ts[j].dir@) by {
                        lemma_contains_at(relseq, j);
                        crate::pathutil::lemma_join_under(root, relseq[j]);
                    }
                    assert(ts.map_values(|t: Target| rel_of(root, t.dir@)) =~= relseq);
                    assert forall|j: int| 0 <= j < ts.len() implies {
                        let rel = rel_of(root, (#[trigger] ts[j]).dir@);
                        &&& ts[j].dir@ == join_rel(root, rel)
                        &&& ts[j].label@ == bazel_label_of(rel)
                        &&& fallback_hit(fs, root, cs, rel)
                    } by {
                        lemma_contains_at(relseq, j);
                        assert(relseq.to_set().contains(relseq[j]));
                        let w = choose|w: int|
                            0 <= w < cs.len() && nearest_pkg(fs, root, parent_of(cs[w])) == Some(
                                relseq[j],
                            );
                        assert(0 <= w < cs.len() && nearest_pkg(fs, root, parent_of(cs[w]))
                            == Some(relseq[j]));
                        assert(fallback_hit(fs, root, cs, relseq[j]));
                    }
                    assert forall|i2: int| 0 <= i2 < cs.len() implies match nearest_pkg(
                        fs,
                        root,
                        parent_of(#[trigger] cs[i2]),
                    ) {
                        Some(rel) => has_dir(ts, join_rel(root, rel)),
                        None => true,
                    } by {
                        if nearest_pkg(fs, root, parent_of(cs[i2])) is Some {
                            let x = nearest_pkg(fs, root, parent_of(cs[i2])).unwrap();
                            assert(relseq.to_set().contains(x));
                            let j = choose|j: int| 0 <= j < relseq.len() && relseq[j] == x;
                            assert(ts[j].dir@ == join_rel(root, x));
                        }
                    }
                }
                Affected { targets, degraded: true }
            },
        }
    }

    fn resolve_target(&self, repo_root: &str, dir: String) -> (t: Target)
        ensures
            t.label@ == bazel_label_of(rel_of(repo_root@, dir@)),
    {
        let rel = crate::pathutil::rel_to_root(repo_root, dir.as_str());
        let label = if rel.unicode_len() == 0 {
            proof {
                reveal_strlit("//...:all");
            }
            "//...:all".to_owned()
        } else {
            let mut s = "//".to_owned();
            s.append(rel.as_str());
            s.append(":all");
            proof {
                reveal_strlit("//");
                assert(s@ == bazel_label_of(rel_of(repo_root@, dir@)));
            }
            s
        };
        Target { label, dir }
    }

    fn build(&self, repo_root: &str, targets: &Vec<Target>, env: &Env) -> (r: RunPlan)
        ensures
            targets@.len() > 0 ==> plan_is_single_run(
                r,
                bazel_prog(env.bazelisk),
                seq!["build"@] + labels_of(targets@),
            ),
    {
        if targets.len() == 0 {
            return RunPlan::NoOp;
        }
        let args = verb_with_labels("build", targets);
        RunPlan::Run {
            steps: vec![Invocation { program: Self::bazel_cmd(env).to_owned(), args }],
            fallback: None,
        }
    }

    fn test(&self, repo_root: &str, targets: &Vec<Target>, env: &Env) -> (r: RunPlan)
        ensures
            targets@.len() > 0 ==> plan_is_single_run(
                r,
                bazel_prog(env.bazelisk),
                seq!["test"@] + labels_of(targets@),
            ),
    {
        if targets.len() == 0 {
            return RunPlan::NoOp;
        }
        let args = verb_with_labels("test", targets);
        RunPlan::Run {
            steps: vec![Invocation { program: Self::bazel_cmd(env).to_owned(), args }],
            fallback: None,
        }
    }

    fn lint(&self, repo_root: &str, targets: &Vec<Target>, env: &Env) -> (r: RunPlan)
        ensures
            targets@.len() > 0 && env.buildifier ==> {
                &&& r matches RunPlan::Run { steps, fallback }
                &&& steps@.len() == 1
                &&& is_cmd(
                    steps@[0],
                    bazel_prog(env.bazelisk),
                    seq!["run"@, "//:buildifier"@, "--"@] + labels_of(targets@),
                )
                &&& fallback matches Some(fb) && is_cmd(
                    fb,
                    "buildifier"@,
                    seq!["-lint=warn"@, "-r"@] + dirs_of(targets@),
                )
            },
            targets@.len() > 0 && !env.buildifier ==> (r matches RunPlan::SkipTool { tool } && tool@
                == "buildifier"@),
    {
        if targets.len() == 0 {
            return RunPlan::NoOp;
        }
        if !env.buildifier {
            return RunPlan::SkipTool { tool: "buildifier".to_owned() };
        }
        let mut args: Vec<String> = Vec::new();
        args.push("run".to_owned());
        args.push("//:buildifier".to_owned());
        args.push("--".to_owned());
        proof {
            assert(str_views(args@) =~= seq!["run"@, "//:buildifier"@, "--"@]);
        }
        extend_labels(&mut args, targets);
        let mut fb_args: Vec<String> = Vec::new();
        fb_args.push("-lint=warn".to_owned());
        fb_args.push("-r".to_owned());
        proof {
            assert(str_views(fb_args@) =~= seq!["-lint=warn"@, "-r"@]);
        }
        extend_dirs(&mut fb_args, targets);
        RunPlan::Run {
            steps: vec![Invocation { program: Self::bazel_cmd(env).to_owned(), args }],
            fallback: Some(Invocation { program: "buildifier".to_owned(), args: fb_args }),
        }
    }

    fn fmt(&self, repo_root: &str, changed_files: &Vec<String>, env: &Env) -> (r: RunPlan)
        ensures
            ({
                let files = bazel_fmt_files(env.fs.present_set(), repo_root@, str_views(
                    changed_files@,
                ));
                if files.len() == 0 {
                    r == RunPlan::NoOp
                } else if !env.buildifier {
                    r matches RunPlan::SkipTool { tool } && tool@ == "buildifier"@
                } else {
                    plan_is_single_run(r, "buildifier"@, seq!["-mode=fix"@] + files)
                }
            }),
    {
        let ghost fs = env.fs.present_set();
        let ghost cs = str_views(changed_files@);
        let mut files: Vec<String> = Vec::new();
        let n = changed_files.len();
        let mut i: usize = 0;
        proof {
            assert(cs.subrange(0, 0) =~= Seq::<Seq<char>>::empty());
        }
        while i < n
            invariant
                n == changed_files@.len(),
                i <= n,
                cs == str_views(changed_files@),
                fs == env.fs.present_set(),
                str_views(files@) == bazel_fmt_files(fs, repo_root@, cs.subrange(0, i as int)),
            decreases n - i,
        {
            let f: &String = &changed_files[i];
            assert(cs[i as int] == f@);
            let base = base_name(f.as_str());
            let keep = str_eq(base, "BUILD") || str_eq(base, "BUILD.bazel") || str_eq(
                base,
                "WORKSPACE",
            ) || str_eq(base, "WORKSPACE.bazel") || str_eq(base, "MODULE.bazel") || ends_with_str(
                base,
                ".bzl",
            );
            let full = path_join(repo_root, f.as_str());
            if keep && env.fs.has(full.as_str()) {
                files.push(full);
            }
            proof {
                let prefix2 = cs.subrange(0, i + 1);
                assert(prefix2.drop_last() =~= cs.subrange(0, i as int));
                assert(prefix2.last() == cs[i as int]);
                assert(str_views(files@) =~= bazel_fmt_files(fs, repo_root@, prefix2));
            }
            i += 1;
        }
        proof {
            assert(cs.subrange(0, n as int) =~= cs);
        }
        if files.len() == 0 {
            return RunPlan::NoOp;
        }
        if !env.buildifier {
            return RunPlan::SkipTool { tool: "buildifier".to_owned() };
        }
        let mut args: Vec<String> = Vec::new();
        args.push("-mode=fix".to_owned());
        let m = files.len();
        let mut k: usize = 0;
        while k < m
            invariant
                m == files@.len(),
                k <= m,
                args@.len() == 1 + k,
                str_views(args@)[0] == "-mode=fix"@,
                forall|j: int| 0 <= j < k ==> str_views(args@)[j + 1] == str_views(files@)[j],
            decreases m - k,
        {
            args.push(files[k].clone());
            assert(str_views(args@)[k + 1] == files@[k as int]@);
            assert forall|j: int| 0 <= j < k implies str_views(args@)[j + 1] == str_views(files@)[j]
                by {
                assert(str_views(args@)[j + 1] == args@[j + 1]@);
            }
            k += 1;
        }
        proof {
            let want = seq!["-mode=fix"@] + bazel_fmt_files(fs, repo_root@, cs);
            assert forall|j: int| 0 <= j < str_views(args@).len() implies str_views(args@)[j]
                == want[j] by {
                if j > 0 {
                    assert(str_views(args@)[j] == str_views(files@)[j - 1]);
                }
            }
            assert(str_views(args@) =~= want);
        }
        RunPlan::Run {
            steps: vec![Invocation { program: "buildifier".to_owned(), args }],
            fallback: None,
        }
    }
}

/// A changed file, normalized to forward separators, built by splitting at
/// each backslash.
fn replace_backslashes(s: &str) -> (r: String)
    ensures
        r@ == slashed(s@),
    decreases s@.len(),
{
    proof {
        lemma_find_idx(s@, '\\');
    }
    match find_char(s, '\\') {
        None => {
            proof {
                lemma_slashed_id(s@);
            }
            s.to_owned()
        },
        Some(i) => {
            let len = s.unicode_len();
            let mut acc = s.substring_char(0, i).to_owned();
            acc.append("/");
            let rest = replace_backslashes(s.substring_char(i + 1, len));
            acc.append(rest.as_str());
            proof {
                reveal_strlit("/");
                let pre = s@.subrange(0, i as int);
                let post = s@.subrange(i + 1, s@.len() as int);
                lemma_slashed_id(pre);
                assert(s@ =~= (pre + seq![s@[i as int]]) + post);
                lemma_slashed_concat(pre + seq![s@[i as int]], post);
                lemma_slashed_concat(pre, seq![s@[i as int]]);
                let single = seq![s@[i as int]];
                assert(single.drop_last() =~= Seq::<char>::empty());
                assert(single.last() == s@[i as int] && s@[i as int] == '\\');
                assert(slashed(Seq::<char>::empty()) =~= Seq::<char>::empty());
                assert(slashed(single) =~= seq!['/']);
                assert(acc@ =~= slashed(s@));
            }
            acc
        },
    }
}

/// The package part of a label holds no colon.
proof fn lemma_pkg_no_colon(l: Seq<char>)
    ensures
        forall|j: int| 0 <= j < label_pkg(l).len() ==> label_pkg(l)[j] != ':',
{
    lemma_find_idx(l, ':');
}

/// Taking the package of a package wildcard gives the package back.
proof fn lemma_pkg_of_pkg_all(p: Seq<char>)
    requires
        forall|j: int| 0 <= j < p.len() ==> p[j] != ':',
    ensures
        label_pkg(p + ":all"@) == p,
{
    reveal_strlit(":all");
    let q = p + ":all"@;
    assert(q[p.len() as int] == ':');
    assert forall|j: int| 0 <= j < p.len() implies q[j] != ':' by {
        assert(q[j] == p[j]);
    }
    lemma_find_idx(q, ':');
    let f = find_idx(q, ':');
    assert(f == p.len());
    assert(label_pkg(q) =~= p);
}

/// Law (idempotence): deduplication to package granularity is a set
/// operation. Applied a second time to its own output it changes nothing.
pub proof fn lemma_dedup_idempotent(
    root: Seq<char>,
    labels: Seq<Seq<char>>,
    r1: Seq<Target>,
    r2: Seq<Target>,
)
    requires
        dedup_post(root, labels, r1),
        dedup_post(root, labels_of(r1), r2),
    ensures
        views_of(r1) == views_of(r2),
{
    let l1 = labels_of(r1);
    let l2 = labels_of(r2);
    assert forall|x: Seq<char>| l1.to_set().contains(x) implies l2.to_set().contains(x) by {
        let j = choose|j: int| 0 <= j < l1.len() && l1[j] == x;
        assert(r1[j].label@ == x);
        assert(has_label(r2, label_pkg(l1[j]) + ":all"@));
        assert(label_from(labels, x));
        let k = choose|k: int| 0 <= k < labels.len() && x == label_pkg(labels[k]) + ":all"@;
        lemma_pkg_no_colon(labels[k]);
        lemma_pkg_of_pkg_all(label_pkg(labels[k]));
        assert(label_pkg(x) == label_pkg(labels[k]));
        assert(label_pkg(x) + ":all"@ =~= x);
        let m = choose|m: int| 0 <= m < r2.len() && r2[m].label@ == label_pkg(l1[j]) + ":all"@;
        assert(l2[m] == x);
        lemma_contains_at(l2, m);
    }
    assert forall|x: Seq<char>| l2.to_set().contains(x) implies l1.to_set().contains(x) by {
        let j = choose|j: int| 0 <= j < l2.len() && l2[j] == x;
        assert(r2[j].label@ == x);
        assert(label_from(l1, x));
        let i = choose|i: int| 0 <= i < l1.len() && x == label_pkg(l1[i]) + ":all"@;
        assert(label_from(labels, l1[i]));
        let k = choose|k: int| 0 <= k < labels.len() && l1[i] == label_pkg(labels[k]) + ":all"@;
        lemma_pkg_no_colon(labels[k]);
        lemma_pkg_of_pkg_all(label_pkg(labels[k]));
        assert(label_pkg(l1[i]) == label_pkg(labels[k]));
        assert(x == l1[i]);
        lemma_contains_at(l1, i);
    }
    assert(l1.to_set() =~= l2.to_set());
    lemma_sorted_same_set(l1, l2);
    assert forall|j: int| 0 <= j < views_of(r1).len() implies views_of(r1)[j] == views_of(r2)[j]
        by {
        assert(l1[j] == r1[j].label@ && l2[j] == r2[j].label@);
        assert(r1[j].dir@ == join_rel(root, label_rel(r1[j].label@)));
        assert(r2[j].dir@ == join_rel(root, label_rel(r2[j].label@)));
    }
    assert(views_of(r1) =~= views_of(r2));
}

/// Law (order blindness): deduplication gives the same targets for any two
/// inputs with the same set of labels, whatever their order or multiplicity.
pub proof fn lemma_dedup_order_blind(
    root: Seq<char>,
    la: Seq<Seq<char>>,
    lb: Seq<Seq<char>>,
    r1: Seq<Target>,
    r2: Seq<Target>,
)
    requires
        dedup_post(root, la, r1),
        dedup_post(root, lb, r2),
        la.to_set() == lb.to_set(),
    ensures
        views_of(r1) == views_of(r2),
{
    let l1 = labels_of(r1);
    let l2 = labels_of(r2);
    assert forall|x: Seq<char>| l1.to_set().contains(x) implies l2.to_set().contains(x) by {
        let j = choose|j: int| 0 <= j < l1.len() && l1[j] == x;
        assert(r1[j].label@ == x);
        assert(label_from(la, x));
        let k = choose|k: int| 0 <= k < la.len() && x == label_pkg(la[k]) + ":all"@;
        lemma_contains_at(la, k);
        assert(lb.to_set().contains(la[k]));
        let m = choose|m: int| 0 <= m < lb.len() && lb[m] == la[k];
        assert(has_label(r2, label_pkg(lb[m]) + ":all"@));
        let w = choose|w: int| 0 <= w < r2.len() && r2[w].label@ == label_pkg(lb[m]) + ":all"@;
        assert(l2[w] == x);
        lemma_contains_at(l2, w);
    }
    assert forall|x: Seq<char>| l2.to_set().contains(x) implies l1.to_set().contains(x) by {
        let j = choose|j: int| 0 <= j < l2.len() && l2[j] == x;
        assert(r2[j].label@ == x);
        assert(label_from(lb, x));
        let k = choose|k: int| 0 <= k < lb.len() && x == label_pkg(lb[k]) + ":all"@;
        lemma_contains_at(lb, k);
        assert(la.to_set().contains(lb[k]));
        let m = choose|m: int| 0 <= m < la.len() && la[m] == lb[k];
        assert(has_label(r1, label_pkg(la[m]) + ":all"@));
        let w = choose|w: int| 0 <= w < r1.len() && r1[w].label@ == label_pkg(la[m]) + ":all"@;
        assert(l1[w] == x);
        lemma_contains_at(l1, w);
    }
    assert(l1.to_set() =~= l2.to_set());
    lemma_sorted_same_set(l1, l2);
    assert forall|j: int| 0 <= j < views_of(r1).len() implies views_of(r1)[j] == views_of(r2)[j]
        by {
        assert(l1[j] == r1[j].label@ && l2[j] == r2[j].label@);
        assert(r1[j].dir@ == join_rel(root, label_rel(r1[j].label@)));
        assert(r2[j].dir@ == join_rel(root, label_rel(r2[j].label@)));
    }
    assert(views_of(r1) =~= views_of(r2));
}

/// Law: when the query ran and every label of its answer lies in the one
/// package `p`, the affected targets are exactly that package's wildcard —
/// and the result is not degraded.
pub proof fn lemma_affected_single_package(
    root: Seq<char>,
    changed: Seq<Seq<char>>,
    fs: Set<Seq<char>>,
    out: Seq<char>,
    ts: Seq<Target>,
    degraded: bool,
    p: Seq<char>,
)
    requires
        bazel_affected_post(root, changed, fs, Some(out), ts, degraded),
        changed.len() > 0,
        out_labels(out).len() > 0,
        forall|i: int| 0 <= i < out_labels(out).len() ==> label_pkg(#[trigger] out_labels(out)[i])
            == p,
    ensures
        !degraded,
        ts.len() == 1,
        ts[0].label@ == p + ":all"@,
{
    let ls = out_labels(out);
    assert(has_label(ts, label_pkg(ls[0]) + ":all"@));
    let j0 = choose|j: int| 0 <= j < ts.len() && ts[j].label@ == label_pkg(ls[0]) + ":all"@;
    assert(ts.len() >= 1);
    assert forall|j: int| 0 <= j < ts.len() implies ts[j].label@ == p + ":all"@ by {
        assert(label_from(ls, ts[j].label@));
        let k = choose|k: int| 0 <= k < ls.len() && ts[j].label@ == label_pkg(ls[k]) + ":all"@;
    }
    if ts.len() > 1 {
        assert(labels_of(ts)[0] == p + ":all"@ && labels_of(ts)[1] == p + ":all"@);
        assert(crate::strutil::lex_lt(labels_of(ts)[0], labels_of(ts)[1]));
        lemma_lex_lt_connected(labels_of(ts)[0], labels_of(ts)[1]);
    }
}

/// Law: on the degraded path the result carries, for each changed file with
/// a marker ancestor, the nearest such ancestor — so it is nonempty as soon
/// as one exists — and the result says it is degraded.
pub proof fn lemma_fallback_covers(
    root: Seq<char>,
    changed: Seq<Seq<char>>,
    fs: Set<Seq<char>>,
    ts: Seq<Target>,
    degraded: bool,
    i: int,
)
    requires
        bazel_affected_post(root, changed, fs, None::<Seq<char>>, ts, degraded),
        0 <= i < changed.len(),
        nearest_pkg(fs, root, parent_of(changed[i])) is Some,
    ensures
        degraded,
        has_dir(ts, join_rel(root, nearest_pkg(fs, root, parent_of(changed[i])).unwrap())),
        ts.len() > 0,
{
    let rel = nearest_pkg(fs, root, parent_of(changed[i])).unwrap();
    assert(has_dir(ts, join_rel(root, rel)));
    let j = choose|j: int| 0 <= j < ts.len() && ts[j].dir@ == join_rel(root, rel);
}

/// Law: an empty changed-file set yields no targets at all, whether or not
/// the query ran.
pub proof fn lemma_bazel_empty_changed(
    root: Seq<char>,
    fs: Set<Seq<char>>,
    query: Option<Seq<char>>,
    ts: Seq<Target>,
    degraded: bool,
)
    requires
        bazel_affected_post(root, Seq::<Seq<char>>::empty(), fs, query, ts, degraded),
    ensures
        ts.len() == 0,
        !degraded,
{
}

/// Normalizing leaves a path without backslashes unchanged.
proof fn lemma_slashed_id(s: Seq<char>)
    requires
        forall|j: int| 0 <= j < s.len() ==> s[j] != '\\',
    ensures
        slashed(s) == s,
    decreases s.len(),
{
    if s.len() > 0 {
        lemma_slashed_id(s.drop_last());
        assert(slashed(s) =~= s);
    } else {
        assert(slashed(s) =~= s);
    }
}

/// Normalizing distributes over concatenation.
proof fn lemma_slashed_concat(a: Seq<char>, b: Seq<char>)
    ensures
        slashed(a + b) == slashed(a) + slashed(b),
    decreases b.len(),
{
    if b.len() == 0 {
        assert(a + b =~= a);
        assert(slashed(a + b) =~= slashed(a) + slashed(b));
    } else {
        lemma_slashed_concat(a, b.drop_last());
        assert((a + b).drop_last() =~= a + b.drop_last());
        assert((a + b).last() == b.last());
        assert(slashed(a + b) =~= slashed(a) + slashed(b));
    }
}

} // verus!
