//! The workspace-task backend. Detection is by the package manager's
//! lockfile. Target resolution is intentionally degenerate — the whole
//! repository is always the one target — because fine-grained selection is
//! delegated: when a task orchestrator's marker file is present at the root,
//! tasks run through the orchestrator's own "affected since a base ref"
//! mechanism instead of this system's changed-file mapping.

use vstd::prelude::*;

use crate::backend::{
    is_cmd, plan_is_single_run, Affected, Backend, Env, Invocation, RunPlan, Target,
};
use crate::fsview::FsView;
use crate::pathutil::{is_under, join_rel, norm_dir, rel_of};
use crate::strutil::{str_views, strictly_sorted};

verus! {

/// The optional higher-level task runner found at the repository root.
#[derive(Debug, PartialEq, Eq, Structural, Clone, Copy)]
pub enum Orchestrator {
    /// A dependency-aware task runner.
    Nx,
    /// A remote-cache-aware monorepo runner.
    Turbo,
    /// No orchestrator: the package manager runs its scripts directly.
    Plain,
}

/// Which orchestrator the marker files at the root identify.
pub open spec fn orchestrator_at(fs: Set<Seq<char>>, root: Seq<char>) -> Orchestrator {
    if fs.contains(join_rel(root, "nx.json"@)) {
        Orchestrator::Nx
    } else if fs.contains(join_rel(root, "turbo.json"@)) {
        Orchestrator::Turbo
    } else {
        Orchestrator::Plain
    }
}

impl Orchestrator {
    /// Probe the repository root for an orchestrator's marker file.
    pub fn detect(fs: &FsView, repo_root: &str) -> (r: Self)
        ensures
            r == orchestrator_at(fs.present_set(), repo_root@),
    {
        let nx = crate::pathutil::path_join(repo_root, "nx.json");
        let turbo = crate::pathutil::path_join(repo_root, "turbo.json");
        if fs.has(nx.as_str()) {
            Orchestrator::Nx
        } else if fs.has(turbo.as_str()) {
            Orchestrator::Turbo
        } else {
            Orchestrator::Plain
        }
    }

    /// The orchestrator's name, if one is present.
    pub fn name(&self) -> (r: Option<&str>)
        ensures
            match self {
                Orchestrator::Nx => r matches Some(n) && n@ == "nx"@,
                Orchestrator::Turbo => r matches Some(n) && n@ == "turbo"@,
                Orchestrator::Plain => r is None,
            },
    {
        match self {
            Orchestrator::Nx => Some("nx"),
            Orchestrator::Turbo => Some("turbo"),
            Orchestrator::Plain => None,
        }
    }
}

/// A backend instance for one package manager, identified by its lockfiles.
pub struct JsBackend {
    /// Backend name (e.g. "pnpm", "yarn").
    pub name: String,
    /// Lock files that identify this backend.
    pub lock_files: Vec<String>,
    /// Command used to install and run scripts.
    pub cmd: String,
}

/// One of the backend's lockfiles exists in `dir`.
pub open spec fn js_detects(
    lock_files: Seq<Seq<char>>,
    fs: Set<Seq<char>>,
    dir: Seq<char>,
) -> bool {
    exists|i: int| 0 <= i < lock_files.len() && fs.contains(join_rel(dir, #[trigger] lock_files[i]))
}

/// The label of the directory `rel` below the root.
pub open spec fn js_label_of(rel: Seq<char>) -> Seq<char> {
    if rel.len() == 0 {
        "."@
    } else {
        "./"@ + rel
    }
}

/// What the invocation of the task `target` is, per orchestrator: the
/// dependency-aware runner and the monorepo runner are handed the task with
/// their own affected-since-a-base-ref selection; without one, the package
/// manager runs the named script at the root.
pub open spec fn script_invocation(
    orch: Orchestrator,
    cmd: Seq<char>,
    target: Seq<char>,
) -> (Seq<char>, Seq<Seq<char>>) {
    match orch {
        Orchestrator::Nx => ("nx"@, seq!["affected"@, "--target="@ + target]),
        Orchestrator::Turbo => ("turbo"@, seq!["run"@, target, "--filter=...[origin/main]"@]),
        Orchestrator::Plain => (cmd, seq![target]),
    }
}

impl JsBackend {
    /// The backend for the pnpm package manager.
    pub fn pnpm() -> (b: JsBackend)
        ensures
            b.name@ == "pnpm"@,
            b.cmd@ == "pnpm"@,
            str_views(b.lock_files@) == seq!["pnpm-workspace.yaml"@, "pnpm-lock.yaml"@],
    {
        let b = JsBackend {
            name: "pnpm".to_owned(),
            lock_files: vec!["pnpm-workspace.yaml".to_owned(), "pnpm-lock.yaml".to_owned()],
            cmd: "pnpm".to_owned(),
        };
        proof {
            assert(str_views(b.lock_files@) =~= seq!["pnpm-workspace.yaml"@, "pnpm-lock.yaml"@]);
        }
        b
    }

    /// The backend for the yarn package manager.
    pub fn yarn() -> (b: JsBackend)
        ensures
            b.name@ == "yarn"@,
            b.cmd@ == "yarn"@,
            str_views(b.lock_files@) == seq!["yarn.lock"@],
    {
        let b = JsBackend {
            name: "yarn".to_owned(),
            lock_files: vec!["yarn.lock".to_owned()],
            cmd: "yarn".to_owned(),
        };
        proof {
            assert(str_views(b.lock_files@) =~= seq!["yarn.lock"@]);
        }
        b
    }

    /// The invocation that runs the task `target`, delegated to the
    /// orchestrator's own affected-since-a-base-ref mechanism when one is
    /// present, and run as the package manager's named script otherwise.
    pub fn run_script(&self, orch: &Orchestrator, target: &str) -> (r: Invocation)
        ensures
            is_cmd(
                r,
                script_invocation(*orch, self.cmd@, target@).0,
                script_invocation(*orch, self.cmd@, target@).1,
            ),
    {
        match orch {
            Orchestrator::Nx => {
                let mut t = "--target=".to_owned();
                t.append(target);
                let args = vec!["affected".to_owned(), t];
                let r = Invocation { program: "nx".to_owned(), args };
                proof {
                    assert(str_views(r.args@) =~= seq!["affected"@, "--target="@ + target@]);
                }
                r
            },
            Orchestrator::Turbo => {
                let args = vec![
                    "run".to_owned(),
                    target.to_owned(),
                    "--filter=...[origin/main]".to_owned(),
                ];
                let r = Invocation { program: "turbo".to_owned(), args };
                proof {
                    assert(str_views(r.args@) =~= seq![
                        "run"@,
                        target@,
                        "--filter=...[origin/main]"@,
                    ]);
                }
                r
            },
            Orchestrator::Plain => {
                let args = vec![target.to_owned()];
                let r = Invocation { program: self.cmd.clone(), args };
                proof {
                    assert(str_views(r.args@) =~= seq![target@]);
                }
                r
            },
        }
    }
}

impl Backend for JsBackend {
    fn name(&self) -> (r: &str)
        ensures
            r@ == self.name@,
    {
        self.name.as_str()
    }

    fn detect(&self, fs: &FsView, dir: &str) -> (r: bool)
        ensures
            r == js_detects(str_views(self.lock_files@), fs.present_set(), dir@),
    {
        let n = self.lock_files.len();
        let mut i: usize = 0;
        while i < n
            invariant
                n == self.lock_files@.len(),
                i <= n,
                forall|j: int|
                    0 <= j < i ==> !fs.present_set().contains(
                        join_rel(dir@, str_views(self.lock_files@)[j]),
                    ),
            decreases n - i,
        {
            let lf: &String = &self.lock_files[i];
            assert(str_views(self.lock_files@)[i as int] == lf@);
            let p = crate::pathutil::path_join(dir, lf.as_str());
            if fs.has(p.as_str()) {
                return true;
            }
            i += 1;
        }
        proof {
            if js_detects(str_views(self.lock_files@), fs.present_set(), dir@) {
                let w = choose|w: int|
                    0 <= w < str_views(self.lock_files@).len() && fs.present_set().contains(
                        join_rel(dir@, str_views(self.lock_files@)[w]),
                    );
            }
        }
        false
    }

    /// Intentionally degenerate: the whole repository is always the one
    /// target, whatever changed, since fine-grained selection is deferred to
    /// the orchestrator delegation inside build, test and lint.
    fn affected_targets(&self, repo_root: &str, changed_files: &Vec<String>, env: &Env) -> (r:
        Affected)
        ensures
            r.degraded == false,
            r.targets@.len() == 1,
            r.targets@[0].label@ == "."@,
            r.targets@[0].dir@ == repo_root@,
    {
        let mut targets: Vec<Target> = Vec::new();
        targets.push(Target { label: ".".to_owned(), dir: repo_root.to_owned() });
        Affected { targets, degraded: false }
    }

    fn resolve_target(&self, repo_root: &str, dir: String) -> (t: Target)
        ensures
            t.label@ == js_label_of(rel_of(repo_root@, dir@)),
    {
        let rel = crate::pathutil::rel_to_root(repo_root, dir.as_str());
        let label = if rel.unicode_len() == 0 {
            proof {
                reveal_strlit(".");
            }
            ".".to_owned()
        } else {
            let mut s = "./".to_owned();
            s.append(rel.as_str());
            proof {
                reveal_strlit("./");
                assert(s@ == js_label_of(rel_of(repo_root@, dir@)));
            }
            s
        };
        Target { label, dir }
    }

    /// Dependency installation is assumed idempotent and runs before every
    /// build; the build task itself is then delegated.
    fn build(&self, repo_root: &str, targets: &Vec<Target>, env: &Env) -> (r: RunPlan)
        ensures
            targets@.len() > 0 ==> {
                let orch = orchestrator_at(env.fs.present_set(), repo_root@);
                &&& r matches RunPlan::Run { steps, fallback }
                &&& fallback is None
                &&& steps@.len() == 2
                &&& is_cmd(steps@[0], self.cmd@, seq!["install"@])
                &&& is_cmd(
                    steps@[1],
                    script_invocation(orch, self.cmd@, "build"@).0,
                    script_invocation(orch, self.cmd@, "build"@).1,
                )
            },
    {
        if targets.len() == 0 {
            return RunPlan::NoOp;
        }
        let orch = Orchestrator::detect(&env.fs, repo_root);
        let install = Invocation { program: self.cmd.clone(), args: vec!["install".to_owned()] };
        proof {
            assert(str_views(install.args@) =~= seq!["install"@]);
        }
        let script = self.run_script(&orch, "build");
        RunPlan::Run { steps: vec![install, script], fallback: None }
    }

    fn test(&self, repo_root: &str, targets: &Vec<Target>, env: &Env) -> (r: RunPlan)
        ensures
            targets@.len() > 0 ==> {
                let orch = orchestrator_at(env.fs.present_set(), repo_root@);
                plan_is_single_run(
                    r,
                    script_invocation(orch, self.cmd@, "test"@).0,
                    script_invocation(orch, self.cmd@, "test"@).1,
                )
            },
    {
        if targets.len() == 0 {
            return RunPlan::NoOp;
        }
        let orch = Orchestrator::detect(&env.fs, repo_root);
        let script = self.run_script(&orch, "test");
        RunPlan::Run { steps: vec![script], fallback: None }
    }

    fn lint(&self, repo_root: &str, targets: &Vec<Target>, env: &Env) -> (r: RunPlan)
        ensures
            targets@.len() > 0 ==> {
                let orch = orchestrator_at(env.fs.present_set(), repo_root@);
                plan_is_single_run(
                    r,
                    script_invocation(orch, self.cmd@, "lint"@).0,
                    script_invocation(orch, self.cmd@, "lint"@).1,
                )
            },
    {
        if targets.len() == 0 {
            return RunPlan::NoOp;
        }
        let orch = Orchestrator::detect(&env.fs, repo_root);
        let script = self.run_script(&orch, "lint");
        RunPlan::Run { steps: vec![script], fallback: None }
    }

    /// Formatting runs workspace-wide: through the dependency-aware runner's
    /// own formatting command when that orchestrator is present, otherwise as
    /// the package manager's "format" script.
    fn fmt(&self, repo_root: &str, changed_files: &Vec<String>, env: &Env) -> (r: RunPlan)
        ensures
            ({
                let orch = orchestrator_at(env.fs.present_set(), repo_root@);
                if orch is Nx {
                    plan_is_single_run(r, "nx"@, seq!["format:write"@])
                } else {
                    plan_is_single_run(
                        r,
                        script_invocation(orch, self.cmd@, "format"@).0,
                        script_invocation(orch, self.cmd@, "format"@).1,
                    )
                }
            }),
    {
        let orch = Orchestrator::detect(&env.fs, repo_root);
        match orch {
            Orchestrator::Nx => {
                let inv = Invocation {
                    program: "nx".to_owned(),
                    args: vec!["format:write".to_owned()],
                };
                proof {
                    assert(str_views(inv.args@) =~= seq!["format:write"@]);
                }
                RunPlan::Run { steps: vec![inv], fallback: None }
            },
            _ => {
                let script = self.run_script(&orch, "format");
                RunPlan::Run { steps: vec![script], fallback: None }
            },
        }
    }
}

} // verus!
