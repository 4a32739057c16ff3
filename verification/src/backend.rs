//! The backend capability: the contract every build-system strategy
//! implements. A backend decides, from plain values — the repository root,
//! the changed files, a filesystem snapshot and the answers of outside tools
//! — which targets are affected and what the underlying tool shall run.

use vstd::prelude::*;

use crate::fsview::FsView;
use crate::pathutil::{is_under, norm_dir, valid_rel};
use crate::strutil::str_views;

verus! {

/// A build target identified by a backend.
#[derive(Debug, Clone)]
pub struct Target {
    /// Backend-specific label (e.g. "./internal/db/...").
    pub label: String,
    /// The directory this target lives in.
    pub dir: String,
}

/// The mathematical content of a target: its label and directory as
/// character sequences.
pub struct TargetV {
    pub label: Seq<char>,
    pub dir: Seq<char>,
}

impl View for Target {
    type V = TargetV;

    open spec fn view(&self) -> TargetV {
        TargetV { label: self.label@, dir: self.dir@ }
    }
}

/// The labels of a sequence of targets.
pub open spec fn labels_of(ts: Seq<Target>) -> Seq<Seq<char>> {
    ts.map_values(|t: Target| t.label@)
}

/// The views of a sequence of targets.
pub open spec fn views_of(ts: Seq<Target>) -> Seq<TargetV> {
    ts.map_values(|t: Target| t@)
}

/// The directories of a sequence of targets.
pub open spec fn dirs_of(ts: Seq<Target>) -> Seq<Seq<char>> {
    ts.map_values(|t: Target| t.dir@)
}

/// Some target in `ts` has directory `d`.
pub open spec fn has_dir(ts: Seq<Target>, d: Seq<char>) -> bool {
    exists|j: int| 0 <= j < ts.len() && ts[j].dir@ == d
}

/// Some target in `ts` has label `l`.
pub open spec fn has_label(ts: Seq<Target>, l: Seq<char>) -> bool {
    exists|j: int| 0 <= j < ts.len() && ts[j].label@ == l
}

/// Every changed file is a well-formed path relative to the root.
pub open spec fn all_valid_rel(files: Seq<String>) -> bool {
    forall|i: int| 0 <= i < files.len() ==> valid_rel(#[trigger] files[i]@)
}

/// One planned invocation of an outside tool, to be run at the repository
/// root with its output inherited.
#[derive(Debug, Clone)]
pub struct Invocation {
    pub program: String,
    pub args: Vec<String>,
}

/// Whether `i` invokes `program` with exactly the arguments `args`.
pub open spec fn is_cmd(i: Invocation, program: Seq<char>, args: Seq<Seq<char>>) -> bool {
    i.program@ == program && str_views(i.args@) == args
}

/// What an operation decided to run.
#[derive(Debug)]
pub enum RunPlan {
    /// Nothing to do; succeed without running anything.
    NoOp,
    /// An optional tool is not installed: warn, then succeed.
    SkipTool { tool: String },
    /// Run the steps in order, stopping at the first failure. If a step
    /// fails and a fallback is given, run the fallback in its place instead
    /// of failing.
    Run { steps: Vec<Invocation>, fallback: Option<Invocation> },
}

/// The outcome of target resolution: the targets, and whether they came from
/// a degraded path (the precise mechanism failed and a heuristic answered in
/// its place).
pub struct Affected {
    pub targets: Vec<Target>,
    pub degraded: bool,
}

/// What the outside world answered before an operation is planned: a
/// filesystem snapshot, which optional tools are installed, and the raw
/// output of the reverse-dependency query where one was run.
pub struct Env {
    pub fs: FsView,
    /// Standard output of the graph query; None when the query tool was
    /// missing, failed, or produced output that was not valid text.
    pub query_output: Option<String>,
    /// Whether the version-pinning launcher for the graph tool is installed.
    pub bazelisk: bool,
    /// Whether the build-definition formatter is installed.
    pub buildifier: bool,
}

/// Trait implemented by each build system backend.
pub trait Backend: Sized {
    /// The backend's short name.
    fn name(&self) -> (r: &str);

    /// Whether this backend owns the given directory, judged by marker files
    /// in the snapshot.
    fn detect(&self, fs: &FsView, dir: &str) -> (r: bool);

    /// Given the set of changed files, the targets that need to be operated
    /// on. Every returned target lies at or below the repository root.
    fn affected_targets(&self, repo_root: &str, changed_files: &Vec<String>, env: &Env) -> (r:
        Affected)
        requires
            norm_dir(repo_root@),
            all_valid_rel(changed_files@),
        ensures
            forall|i: int|
                0 <= i < r.targets@.len() ==> is_under(repo_root@, #[trigger] r.targets@[i].dir@),
    ;

    /// Format a directory at or below the repository root as a
    /// backend-specific target. The target keeps the directory.
    fn resolve_target(&self, repo_root: &str, dir: String) -> (t: Target)
        requires
            norm_dir(repo_root@),
            is_under(repo_root@, dir@),
            norm_dir(dir@),
        ensures
            t.dir@ == dir@,
            t.label@.len() > 0,
    ;

    /// Plan the build of the given targets; with no targets there is nothing
    /// to do and the plan is the successful no-op.
    fn build(&self, repo_root: &str, targets: &Vec<Target>, env: &Env) -> (r: RunPlan)
        ensures
            targets@.len() == 0 ==> r == RunPlan::NoOp,
    ;

    /// Plan the tests of the given targets; no targets, nothing to do.
    fn test(&self, repo_root: &str, targets: &Vec<Target>, env: &Env) -> (r: RunPlan)
        ensures
            targets@.len() == 0 ==> r == RunPlan::NoOp,
    ;

    /// Plan the lint of the given targets; no targets, nothing to do.
    fn lint(&self, repo_root: &str, targets: &Vec<Target>, env: &Env) -> (r: RunPlan)
        ensures
            targets@.len() == 0 ==> r == RunPlan::NoOp,
    ;

    /// Plan the formatting of the changed files that concern this backend.
    fn fmt(&self, repo_root: &str, changed_files: &Vec<String>, env: &Env) -> (r: RunPlan)
        requires
            norm_dir(repo_root@),
            all_valid_rel(changed_files@),
    ;
}

/// Append the labels of the targets to an argument list.
pub fn extend_labels(args: &mut Vec<String>, targets: &Vec<Target>)
    ensures
        str_views(final(args)@) == str_views(old(args)@) + labels_of(targets@),
{
    let ghost base = str_views(old(args)@);
    let len = targets.len();
    let mut i: usize = 0;
    while i < len
        invariant
            len == targets@.len(),
            i <= len,
            args@.len() == base.len() + i,
            forall|j: int| 0 <= j < base.len() ==> str_views(args@)[j] == base[j],
            forall|j: int| 0 <= j < i ==> str_views(args@)[base.len() + j] == targets@[j].label@,
        decreases len - i,
    {
        args.push(targets[i].label.clone());
        assert forall|j: int|
            0 <= j < args@.len() implies str_views(args@)[j] == args@[j]@ by {}
        i += 1;
    }
    proof {
        assert forall|j: int| 0 <= j < str_views(args@).len() implies str_views(args@)[j] == (base
            + labels_of(targets@))[j] by {
            if j >= base.len() {
                assert(str_views(args@)[base.len() + (j - base.len())] == targets@[j
                    - base.len()].label@);
            }
        }
        assert(str_views(args@) =~= base + labels_of(targets@));
    }
}

/// Append the directories of the targets to an argument list.
pub fn extend_dirs(args: &mut Vec<String>, targets: &Vec<Target>)
    ensures
        str_views(final(args)@) == str_views(old(args)@) + dirs_of(targets@),
{
    let ghost base = str_views(old(args)@);
    let len = targets.len();
    let mut i: usize = 0;
    while i < len
        invariant
            len == targets@.len(),
            i <= len,
            args@.len() == base.len() + i,
            forall|j: int| 0 <= j < base.len() ==> str_views(args@)[j] == base[j],
            forall|j: int| 0 <= j < i ==> str_views(args@)[base.len() + j] == targets@[j].dir@,
        decreases len - i,
    {
        args.push(targets[i].dir.clone());
        assert forall|j: int|
            0 <= j < args@.len() implies str_views(args@)[j] == args@[j]@ by {}
        i += 1;
    }
    proof {
        assert forall|j: int| 0 <= j < str_views(args@).len() implies str_views(args@)[j] == (base
            + dirs_of(targets@))[j] by {
            if j >= base.len() {
                assert(str_views(args@)[base.len() + (j - base.len())] == targets@[j
                    - base.len()].dir@);
            }
        }
        assert(str_views(args@) =~= base + dirs_of(targets@));
    }
}

/// The arguments `[verb, label, label, ...]` for a tool that takes a verb
/// and then the target labels.
pub fn verb_with_labels(verb: &str, targets: &Vec<Target>) -> (args: Vec<String>)
    ensures
        str_views(args@) == seq![verb@] + labels_of(targets@),
{
    let mut args: Vec<String> = Vec::new();
    args.push(verb.to_owned());
    proof {
        assert(str_views(args@) =~= seq![verb@]);
    }
    extend_labels(&mut args, targets);
    args
}

/// The plan runs exactly one invocation, with no fallback.
pub open spec fn plan_is_single_run(r: RunPlan, program: Seq<char>, args: Seq<Seq<char>>) -> bool {
    &&& r matches RunPlan::Run { steps, fallback }
    &&& fallback is None
    &&& steps@.len() == 1
    &&& is_cmd(steps@[0], program, args)
}

} // verus!
