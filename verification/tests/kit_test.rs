use kit::backend::{Backend, Env, RunPlan, Target};
use kit::driver::{resolve_dir_targets, resolve_file_args, ArgError};
use kit::fsview::FsView;
use kit::js::{JsBackend, Orchestrator};
use kit::registry::{all_backends, detect_backend};
use kit::vcs::changed_from_outputs;

fn fs_with(present: Vec<&str>) -> FsView {
    FsView {
        present: present.iter().map(|p| p.to_string()).collect(),
        files: Vec::new(),
    }
}

fn env_with(fs: FsView) -> Env {
    Env { fs, query_output: None, bazelisk: false, buildifier: false }
}

#[test]
fn detect_backend_first_match_wins() {
    let backends = all_backends();
    let root = "/repo";
    let bazel = fs_with(vec!["/repo/WORKSPACE", "/repo/go.mod"]);
    assert_eq!(detect_backend(&backends, &bazel, root), Some(0));
    let go = fs_with(vec!["/repo/go.work"]);
    assert_eq!(detect_backend(&backends, &go, root), Some(1));
    let pnpm = fs_with(vec!["/repo/pnpm-lock.yaml"]);
    assert_eq!(detect_backend(&backends, &pnpm, root), Some(2));
    let yarn = fs_with(vec!["/repo/yarn.lock"]);
    assert_eq!(detect_backend(&backends, &yarn, root), Some(3));
    let nothing = fs_with(vec!["/repo/Makefile"]);
    assert_eq!(detect_backend(&backends, &nothing, root), None);
}

#[test]
fn backend_names() {
    let backends = all_backends();
    let names: Vec<&str> = backends.iter().map(|b| b.name()).collect();
    assert_eq!(names, vec!["bazel", "go", "pnpm", "yarn"]);
}

#[test]
fn js_detects_by_lockfile() {
    let root = "/repo";
    let pnpm = JsBackend::pnpm();
    assert!(pnpm.detect(&fs_with(vec!["/repo/pnpm-workspace.yaml"]), root));
    assert!(pnpm.detect(&fs_with(vec!["/repo/pnpm-lock.yaml"]), root));
    assert!(!pnpm.detect(&fs_with(vec!["/repo/yarn.lock"]), root));
    let yarn = JsBackend::yarn();
    assert!(yarn.detect(&fs_with(vec!["/repo/yarn.lock"]), root));
}

#[test]
fn js_affected_is_whole_repository() {
    let root = "/repo";
    let env = env_with(fs_with(vec![]));
    let changed = vec!["src/a.ts".to_string()];
    let r = JsBackend::pnpm().affected_targets(root, &changed, &env);
    assert!(!r.degraded);
    assert_eq!(r.targets.len(), 1);
    assert_eq!(r.targets[0].label, ".");
    assert_eq!(r.targets[0].dir, root);
}

#[test]
fn js_delegates_to_orchestrator_affected() {
    let root = "/repo";
    let env = env_with(fs_with(vec!["/repo/nx.json"]));
    let targets = vec![Target { label: ".".to_string(), dir: root.to_string() }];
    match JsBackend::pnpm().test(root, &targets, &env) {
        RunPlan::Run { steps, .. } => {
            assert_eq!(steps.len(), 1);
            assert_eq!(steps[0].program, "nx");
            assert_eq!(steps[0].args, vec!["affected".to_string(), "--target=test".to_string()]);
        }
        other => panic!("unexpected plan {other:?}"),
    }
    let turbo_env = env_with(fs_with(vec!["/repo/turbo.json"]));
    match JsBackend::pnpm().lint(root, &targets, &turbo_env) {
        RunPlan::Run { steps, .. } => {
            assert_eq!(steps[0].program, "turbo");
            assert_eq!(
                steps[0].args,
                vec![
                    "run".to_string(),
                    "lint".to_string(),
                    "--filter=...[origin/main]".to_string()
                ]
            );
        }
        other => panic!("unexpected plan {other:?}"),
    }
}

#[test]
fn js_build_installs_then_runs_script() {
    let root = "/repo";
    let env = env_with(fs_with(vec![]));
    let targets = vec![Target { label: ".".to_string(), dir: root.to_string() }];
    match JsBackend::pnpm().build(root, &targets, &env) {
        RunPlan::Run { steps, fallback } => {
            assert!(fallback.is_none());
            assert_eq!(steps.len(), 2);
            assert_eq!(steps[0].program, "pnpm");
            assert_eq!(steps[0].args, vec!["install".to_string()]);
            assert_eq!(steps[1].program, "pnpm");
            assert_eq!(steps[1].args, vec!["build".to_string()]);
        }
        other => panic!("unexpected plan {other:?}"),
    }
    let none: Vec<Target> = vec![];
    assert!(matches!(JsBackend::pnpm().build(root, &none, &env), RunPlan::NoOp));
    assert!(matches!(JsBackend::yarn().test(root, &none, &env), RunPlan::NoOp));
    assert!(matches!(JsBackend::yarn().lint(root, &none, &env), RunPlan::NoOp));
}

#[test]
fn js_fmt_by_orchestrator() {
    let root = "/repo";
    let changed: Vec<String> = vec![];
    match JsBackend::pnpm().fmt(root, &changed, &env_with(fs_with(vec!["/repo/nx.json"]))) {
        RunPlan::Run { steps, .. } => {
            assert_eq!(steps[0].program, "nx");
            assert_eq!(steps[0].args, vec!["format:write".to_string()]);
        }
        other => panic!("unexpected plan {other:?}"),
    }
    match JsBackend::yarn().fmt(root, &changed, &env_with(fs_with(vec![]))) {
        RunPlan::Run { steps, .. } => {
            assert_eq!(steps[0].program, "yarn");
            assert_eq!(steps[0].args, vec!["format".to_string()]);
        }
        other => panic!("unexpected plan {other:?}"),
    }
}

#[test]
fn js_resolve_target_labels() {
    let root = "/repo";
    let b = JsBackend::pnpm();
    let at_root = b.resolve_target(root, root.to_string());
    assert_eq!(at_root.label, ".");
    assert_eq!(at_root.dir, root);
    let below = b.resolve_target(root, "/repo/web/app".to_string());
    assert_eq!(below.label, "./web/app");
    assert_eq!(below.dir, "/repo/web/app");
}

#[test]
fn run_script_per_orchestrator() {
    let b = JsBackend::pnpm();
    let nx = b.run_script(&Orchestrator::Nx, "build");
    assert_eq!(nx.program, "nx");
    assert_eq!(nx.args, vec!["affected".to_string(), "--target=build".to_string()]);
    let turbo = b.run_script(&Orchestrator::Turbo, "build");
    assert_eq!(turbo.program, "turbo");
    assert_eq!(
        turbo.args,
        vec![
            "run".to_string(),
            "build".to_string(),
            "--filter=...[origin/main]".to_string()
        ]
    );
    let plain = b.run_script(&Orchestrator::Plain, "build");
    assert_eq!(plain.program, "pnpm");
    assert_eq!(plain.args, vec!["build".to_string()]);
}

#[test]
fn orchestrator_detection_and_names() {
    let root = "/repo";
    let nx = Orchestrator::detect(&fs_with(vec!["/repo/nx.json"]), root);
    assert_eq!(nx.name(), Some("nx"));
    let turbo = Orchestrator::detect(&fs_with(vec!["/repo/turbo.json"]), root);
    assert_eq!(turbo.name(), Some("turbo"));
    let plain = Orchestrator::detect(&fs_with(vec![]), root);
    assert_eq!(plain.name(), None);
}

#[test]
fn changed_paths_are_sorted_and_deduplicated() {
    let outputs = vec![
        "b.txt\0a.txt\0".to_string(),
        "a.txt\0c/d.txt".to_string(),
        "".to_string(),
    ];
    let changed = changed_from_outputs(&outputs);
    assert_eq!(
        changed,
        vec!["a.txt".to_string(), "b.txt".to_string(), "c/d.txt".to_string()]
    );
}

#[test]
fn resolve_dir_targets_inside_root() {
    let backends = all_backends();
    let backend = &backends[1];
    let root = "/repo";
    let cwd = "/repo/pkg";
    let fs = fs_with(vec![]);
    let dirs = vec!["foo".to_string(), "/repo/bar".to_string()];
    let targets = resolve_dir_targets(backend, root, cwd, &dirs, &fs).unwrap();
    assert_eq!(targets.len(), 2);
    assert_eq!(targets[0].label, "./pkg/foo/...");
    assert_eq!(targets[0].dir, "/repo/pkg/foo");
    assert_eq!(targets[1].label, "./bar/...");
    assert_eq!(targets[1].dir, "/repo/bar");
}

#[test]
fn resolve_dir_targets_file_argument_means_its_directory() {
    let backends = all_backends();
    let backend = &backends[1];
    let root = "/repo";
    let cwd = "/repo";
    let fs = FsView {
        present: vec!["/repo/pkg/main.go".to_string()],
        files: vec!["/repo/pkg/main.go".to_string()],
    };
    let dirs = vec!["pkg/main.go".to_string()];
    let targets = resolve_dir_targets(backend, root, cwd, &dirs, &fs).unwrap();
    assert_eq!(targets.len(), 1);
    assert_eq!(targets[0].dir, "/repo/pkg");
    assert_eq!(targets[0].label, "./pkg/...");
}

#[test]
fn resolve_dir_targets_rejects_paths_outside_root() {
    let backends = all_backends();
    let backend = &backends[0];
    let root = "/repo";
    let cwd = "/elsewhere";
    let fs = fs_with(vec![]);
    let dirs = vec!["pkg".to_string()];
    match resolve_dir_targets(backend, root, cwd, &dirs, &fs) {
        Err(ArgError::OutsideRoot { path }) => assert_eq!(path, "/elsewhere/pkg"),
        other => panic!("expected an outside-root error, got {other:?}"),
    }
}

#[test]
fn resolve_file_args_gives_relative_paths() {
    let root = "/repo";
    let cwd = "/repo/pkg";
    let dirs = vec!["a.go".to_string(), "/repo/b.go".to_string()];
    let files = resolve_file_args(root, cwd, &dirs).unwrap();
    assert_eq!(files, vec!["pkg/a.go".to_string(), "b.go".to_string()]);
    let outside = vec!["/other/x".to_string()];
    assert!(matches!(
        resolve_file_args(root, cwd, &outside),
        Err(ArgError::OutsideRoot { .. })
    ));
}

#[test]
fn resolve_target_keeps_directory() {
    let root = "/repo";
    for b in all_backends() {
        let t = b.resolve_target(root, "/repo/some/dir".to_string());
        assert_eq!(t.dir, "/repo/some/dir");
        assert!(!t.label.is_empty());
        let r = b.resolve_target(root, root.to_string());
        assert_eq!(r.dir, root);
        assert!(!r.label.is_empty());
    }
}

#[test]
fn unsupported_repository_detects_nothing() {
    let backends = all_backends();
    let fs = fs_with(vec!["/repo/pom.xml"]);
    assert_eq!(detect_backend(&backends, &fs, "/repo"), None);
    for b in &backends {
        assert!(!b.detect(&fs, "/repo"));
    }
}
