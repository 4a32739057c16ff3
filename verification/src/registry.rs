//! The backend registry: the closed, ordered set of known build-system
//! variants. The first backend whose detection predicate matches the
//! repository root wins; no match means the repository is unsupported.

use vstd::prelude::*;

use crate::backend::{
    dirs_of, is_cmd, labels_of, plan_is_single_run, Affected, Backend, Env, RunPlan, Target,
};
use crate::bazel::{bazel_detects, bazel_fmt_files, bazel_prog, BazelBackend};
use crate::fsview::FsView;
use crate::go::{go_detects, go_fmt_files, GoBackend};
use crate::js::{js_detects, orchestrator_at, script_invocation, JsBackend, Orchestrator};
use crate::strutil::str_views;

verus! {

/// One of the known backend variants: tagged dispatch over a closed set, not
/// open-ended plugin inheritance.
pub enum AnyBackend {
    Bazel(BazelBackend),
    Go(GoBackend),
    Js(JsBackend),
}

/// The label this backend gives the directory `dir` below `root`.
pub open spec fn backend_label_of(b: &AnyBackend, root: Seq<char>, dir: Seq<char>) -> Seq<char> {
    match b {
        AnyBackend::Bazel(_) => crate::bazel::bazel_label_of(crate::pathutil::rel_of(root, dir)),
        AnyBackend::Go(_) => crate::go::go_label_of(crate::pathutil::rel_of(root, dir)),
        AnyBackend::Js(_) => crate::js::js_label_of(crate::pathutil::rel_of(root, dir)),
    }
}

/// Whether the backend's detection predicate matches `dir`.
pub open spec fn backend_detects(b: &AnyBackend, fs: Set<Seq<char>>, dir: Seq<char>) -> bool {
    match b {
        AnyBackend::Bazel(_) => bazel_detects(fs, dir),
        AnyBackend::Go(_) => go_detects(fs, dir),
        AnyBackend::Js(j) => js_detects(str_views(j.lock_files@), fs, dir),
    }
}

impl Backend for AnyBackend {
    fn name(&self) -> (r: &str)
        ensures
            match self {
                AnyBackend::Bazel(_) => r@ == "bazel"@,
                AnyBackend::Go(_) => r@ == "go"@,
                AnyBackend::Js(j) => r@ == j.name@,
            },
    {
        match self {
            AnyBackend::Bazel(b) => b.name(),
            AnyBackend::Go(b) => b.name(),
            AnyBackend::Js(b) => b.name(),
        }
    }

    fn detect(&self, fs: &FsView, dir: &str) -> (r: bool)
        ensures
            r == backend_detects(self, fs.present_set(), dir@),
    {
        match self {
            AnyBackend::Bazel(b) => b.detect(fs, dir),
            AnyBackend::Go(b) => b.detect(fs, dir),
            AnyBackend::Js(b) => b.detect(fs, dir),
        }
    }

    fn affected_targets(&self, repo_root: &str, changed_files: &Vec<String>, env: &Env) -> (r:
        Affected)
        ensures
            match self {
                AnyBackend::Bazel(_) => crate::bazel::bazel_affected_post(
                    repo_root@,
                    str_views(changed_files@),
                    env.fs.present_set(),
                    crate::bazel::query_view(env.query_output),
                    r.targets@,
                    r.degraded,
                ),
                AnyBackend::Go(_) => !r.degraded && crate::go::go_affected_post(
                    repo_root@,
                    str_views(changed_files@),
                    env.fs.present_set(),
                    r.targets@,
                ),
                AnyBackend::Js(_) => !r.degraded && r.targets@.len() == 1 && r.targets@[0].label@
                    == "."@ && r.targets@[0].dir@ == repo_root@,
            },
    {
        match self {
            AnyBackend::Bazel(b) => b.affected_targets(repo_root, changed_files, env),
            AnyBackend::Go(b) => b.affected_targets(repo_root, changed_files, env),
            AnyBackend::Js(b) => b.affected_targets(repo_root, changed_files, env),
        }
    }

    fn resolve_target(&self, repo_root: &str, dir: String) -> (t: Target)
        ensures
            t.label@ == backend_label_of(self, repo_root@, dir@),
    {
        match self {
            AnyBackend::Bazel(b) => b.resolve_target(repo_root, dir),
            AnyBackend::Go(b) => b.resolve_target(repo_root, dir),
            AnyBackend::Js(b) => b.resolve_target(repo_root, dir),
        }
    }

    fn build(&self, repo_root: &str, targets: &Vec<Target>, env: &Env) -> (r: RunPlan)
        ensures
            targets@.len() > 0 ==> match self {
                AnyBackend::Bazel(_) => plan_is_single_run(
                    r,
                    bazel_prog(env.bazelisk),
                    seq!["build"@] + labels_of(targets@),
                ),
                AnyBackend::Go(_) => plan_is_single_run(r, "go"@, seq!["build"@] + labels_of(
                    targets@,
                )),
                AnyBackend::Js(j) => {
                    let orch = orchestrator_at(env.fs.present_set(), repo_root@);
                    &&& r matches RunPlan::Run { steps, fallback }
                    &&& fallback is None
                    &&& steps@.len() == 2
                    &&& is_cmd(steps@[0], j.cmd@, seq!["install"@])
                    &&& is_cmd(
                        steps@[1],
                        script_invocation(orch, j.cmd@, "build"@).0,
                        script_invocation(orch, j.cmd@, "build"@).1,
                    )
                },
            },
    {
        match self {
            AnyBackend::Bazel(b) => b.build(repo_root, targets, env),
            AnyBackend::Go(b) => b.build(repo_root, targets, env),
            AnyBackend::Js(b) => b.build(repo_root, targets, env),
        }
    }

    fn test(&self, repo_root: &str, targets: &Vec<Target>, env: &Env) -> (r: RunPlan)
        ensures
            targets@.len() > 0 ==> match self {
                AnyBackend::Bazel(_) => plan_is_single_run(
                    r,
                    bazel_prog(env.bazelisk),
                    seq!["test"@] + labels_of(targets@),
                ),
                AnyBackend::Go(_) => plan_is_single_run(r, "go"@, seq!["test"@] + labels_of(
                    targets@,
                )),
                AnyBackend::Js(j) => {
                    let orch = orchestrator_at(env.fs.present_set(), repo_root@);
                    plan_is_single_run(
                        r,
                        script_invocation(orch, j.cmd@, "test"@).0,
                        script_invocation(orch, j.cmd@, "test"@).1,
                    )
                },
            },
    {
        match self {
            AnyBackend::Bazel(b) => b.test(repo_root, targets, env),
            AnyBackend::Go(b) => b.test(repo_root, targets, env),
            AnyBackend::Js(b) => b.test(repo_root, targets, env),
        }
    }

    fn lint(&self, repo_root: &str, targets: &Vec<Target>, env: &Env) -> (r: RunPlan)
        ensures
            targets@.len() > 0 ==> match self {
                AnyBackend::Bazel(_) => {
                    &&& (env.buildifier ==> {
                        &&& r matches RunPlan::Run { steps, fallback }
                        &&& steps@.len() == 1
                        &&& is_cmd(
                            steps@[0],
                            bazel_prog(env.bazelisk),
                            seq!["run"@, "//:buildifier"@, "--"@] + labels_of(targets@),
                        )
                        &&& fallback matches Some(fb) && is_cmd(
                            fb,
                            "buildifier"@,
                            seq!["-lint=warn"@, "-r"@] + dirs_of(targets@),
                        )
                    })
                    &&& (!env.buildifier ==> (r matches RunPlan::SkipTool { tool } && tool@
                        == "buildifier"@))
                },
                AnyBackend::Go(_) => plan_is_single_run(
                    r,
                    "golangci-lint"@,
                    seq!["run"@] + labels_of(targets@),
                ),
                AnyBackend::Js(j) => {
                    let orch = orchestrator_at(env.fs.present_set(), repo_root@);
                    plan_is_single_run(
                        r,
                        script_invocation(orch, j.cmd@, "lint"@).0,
                        script_invocation(orch, j.cmd@, "lint"@).1,
                    )
                },
            },
    {
        match self {
            AnyBackend::Bazel(b) => b.lint(repo_root, targets, env),
            AnyBackend::Go(b) => b.lint(repo_root, targets, env),
            AnyBackend::Js(b) => b.lint(repo_root, targets, env),
        }
    }

    fn fmt(&self, repo_root: &str, changed_files: &Vec<String>, env: &Env) -> (r: RunPlan)
        ensures
            match self {
                AnyBackend::Bazel(_) => {
                    let files = bazel_fmt_files(env.fs.present_set(), repo_root@, str_views(
                        changed_files@,
                    ));
                    if files.len() == 0 {
                        r == RunPlan::NoOp
                    } else if !env.buildifier {
                        r matches RunPlan::SkipTool { tool } && tool@ == "buildifier"@
                    } else {
                        plan_is_single_run(r, "buildifier"@, seq!["-mode=fix"@] + files)
                    }
                },
                AnyBackend::Go(_) => {
                    let files = go_fmt_files(env.fs.present_set(), repo_root@, str_views(
                        changed_files@,
                    ));
                    if files.len() == 0 {
                        r == RunPlan::NoOp
                    } else {
                        plan_is_single_run(r, "gofmt"@, seq!["-w"@] + files)
                    }
                },
                AnyBackend::Js(j) => {
                    let orch = orchestrator_at(env.fs.present_set(), repo_root@);
                    if orch is Nx {
                        plan_is_single_run(r, "nx"@, seq!["format:write"@])
                    } else {
                        plan_is_single_run(
                            r,
                            script_invocation(orch, j.cmd@, "format"@).0,
                            script_invocation(orch, j.cmd@, "format"@).1,
                        )
                    }
                },
            },
    {
        match self {
            AnyBackend::Bazel(b) => b.fmt(repo_root, changed_files, env),
            AnyBackend::Go(b) => b.fmt(repo_root, changed_files, env),
            AnyBackend::Js(b) => b.fmt(repo_root, changed_files, env),
        }
    }
}

/// Returns all registered backends, in detection order.
pub fn all_backends() -> (r: Vec<AnyBackend>)
    ensures
        r@.len() == 4,
        r@[0] is Bazel,
        r@[1] is Go,
        (r@[2] matches AnyBackend::Js(j) && j.name@ == "pnpm"@),
        (r@[3] matches AnyBackend::Js(j) && j.name@ == "yarn"@),
{
    let mut r: Vec<AnyBackend> = Vec::new();
    r.push(AnyBackend::Bazel(BazelBackend));
    r.push(AnyBackend::Go(GoBackend));
    r.push(AnyBackend::Js(JsBackend::pnpm()));
    r.push(AnyBackend::Js(JsBackend::yarn()));
    r
}

/// Law: resolving the repository root itself gives each backend's
/// "everything" label — never a malformed or empty one.
pub proof fn lemma_resolve_root_everything(root: Seq<char>)
    ensures
        crate::bazel::bazel_label_of(crate::pathutil::rel_of(root, root)) == "//...:all"@,
        crate::go::go_label_of(crate::pathutil::rel_of(root, root)) == "./..."@,
        crate::js::js_label_of(crate::pathutil::rel_of(root, root)) == "."@,
        crate::bazel::bazel_label_of(crate::pathutil::rel_of(root, root)).len() > 0,
        crate::go::go_label_of(crate::pathutil::rel_of(root, root)).len() > 0,
        crate::js::js_label_of(crate::pathutil::rel_of(root, root)).len() > 0,
{
    reveal_strlit("//...:all");
    reveal_strlit("./...");
    reveal_strlit(".");
    assert(crate::pathutil::rel_of(root, root).len() == 0);
}

/// The index of the first backend whose detection predicate matches the
/// repository root; None when the repository is unsupported.
pub fn detect_backend(backends: &Vec<AnyBackend>, fs: &FsView, repo_root: &str) -> (r: Option<
    usize,
>)
    ensures
        match r {
            Some(i) => i < backends@.len() && backend_detects(
                &backends@[i as int],
                fs.present_set(),
                repo_root@,
            ) && forall|j: int|
                0 <= j < i ==> !backend_detects(&backends@[j], fs.present_set(), repo_root@),
            None => forall|j: int|
                0 <= j < backends@.len() ==> !backend_detects(
                    &backends@[j],
                    fs.present_set(),
                    repo_root@,
                ),
        },
{
    let n = backends.len();
    let mut i: usize = 0;
    while i < n
        invariant
            n == backends@.len(),
            i <= n,
            forall|j: int| 0 <= j < i ==> !backend_detects(&backends@[j], fs.present_set(), repo_root@),
        decreases n - i,
    {
        if backends[i].detect(fs, repo_root) {
            return Some(i);
        }
        i += 1;
    }
    None
}

} // verus!
