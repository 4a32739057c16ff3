use kit::backend::{Backend, Env, RunPlan, Target};
use kit::fsview::FsView;
use kit::go::GoBackend;

fn backend() -> GoBackend {
    GoBackend
}

fn fs_with(present: Vec<&str>) -> FsView {
    FsView {
        present: present.iter().map(|p| p.to_string()).collect(),
        files: Vec::new(),
    }
}

fn env_with(fs: FsView) -> Env {
    Env { fs, query_output: None, bazelisk: false, buildifier: false }
}

#[test]
fn detect_go_mod() {
    let root = "/repo";
    let fs = fs_with(vec!["/repo/go.mod"]);
    assert!(backend().detect(&fs, root));
}

#[test]
fn affected_targets_go_files() {
    let root = "/repo";
    let env = env_with(fs_with(vec!["/repo/pkg/foo", "/repo/pkg/bar"]));
    let changed = vec!["pkg/foo/main.go".to_string(), "pkg/bar/util.go".to_string()];
    let targets = backend().affected_targets(root, &changed, &env).targets;
    let labels: Vec<&str> = targets.iter().map(|t| t.label.as_str()).collect();
    assert_eq!(labels, vec!["./pkg/bar/...", "./pkg/foo/..."]);
}

#[test]
fn affected_targets_ignores_non_go_files() {
    let root = "/repo";
    let env = env_with(fs_with(vec!["/repo/pkg"]));
    let changed = vec!["pkg/readme.md".to_string(), "pkg/data.json".to_string()];
    let targets = backend().affected_targets(root, &changed, &env).targets;
    assert!(targets.is_empty());
}

#[test]
fn affected_targets_go_mod_and_go_sum() {
    let root = "/repo";
    let env = env_with(fs_with(vec![]));
    let changed = vec!["go.mod".to_string(), "go.sum".to_string()];
    let targets = backend().affected_targets(root, &changed, &env).targets;
    assert_eq!(targets.len(), 1);
    assert_eq!(targets[0].label, "./...");
}

#[test]
fn affected_targets_nested_go_mod() {
    let root = "/repo";
    let env = env_with(fs_with(vec!["/repo/sub"]));
    let changed = vec!["sub/go.mod".to_string()];
    let targets = backend().affected_targets(root, &changed, &env).targets;
    assert_eq!(targets.len(), 1);
    assert_eq!(targets[0].label, "./sub/...");
}

#[test]
fn go_test_resolve_target_subdir() {
    let root = "/repo";
    let dir = format!("{root}/pkg/foo");
    let target = backend().resolve_target(root, dir.clone());
    assert_eq!(target.label, "./pkg/foo/...");
    assert_eq!(target.dir, dir);
}

#[test]
fn deleted_source_file_yields_no_phantom_target() {
    let root = "/repo";
    let env = env_with(fs_with(vec![]));
    let changed = vec!["gone/x.go".to_string()];
    let targets = backend().affected_targets(root, &changed, &env).targets;
    assert!(targets.is_empty());
}

#[test]
fn two_changed_files_two_packages_alphabetical() {
    let root = "/repo";
    let env = env_with(fs_with(vec!["/repo/pkg/foo", "/repo/pkg/bar"]));
    let changed = vec!["pkg/foo/a.go".to_string(), "pkg/bar/b.go".to_string()];
    let targets = backend().affected_targets(root, &changed, &env).targets;
    assert_eq!(targets.len(), 2);
    let labels: Vec<&str> = targets.iter().map(|t| t.label.as_str()).collect();
    assert_eq!(labels, vec!["./pkg/bar/...", "./pkg/foo/..."]);
}

#[test]
fn go_affected_empty_changed_set() {
    let root = "/repo";
    let env = env_with(fs_with(vec![]));
    let changed: Vec<String> = vec![];
    let r = backend().affected_targets(root, &changed, &env);
    assert!(!r.degraded);
    assert!(r.targets.is_empty());
}

#[test]
fn go_build_test_lint_plans() {
    let root = "/repo";
    let env = env_with(fs_with(vec![]));
    let targets = vec![Target { label: "./a/...".to_string(), dir: "/repo/a".to_string() }];
    match backend().build(root, &targets, &env) {
        RunPlan::Run { steps, .. } => {
            assert_eq!(steps[0].program, "go");
            assert_eq!(steps[0].args, vec!["build".to_string(), "./a/...".to_string()]);
        }
        other => panic!("unexpected plan {other:?}"),
    }
    match backend().lint(root, &targets, &env) {
        RunPlan::Run { steps, .. } => {
            assert_eq!(steps[0].program, "golangci-lint");
            assert_eq!(steps[0].args, vec!["run".to_string(), "./a/...".to_string()]);
        }
        other => panic!("unexpected plan {other:?}"),
    }
    let none: Vec<Target> = vec![];
    assert!(matches!(backend().build(root, &none, &env), RunPlan::NoOp));
    assert!(matches!(backend().test(root, &none, &env), RunPlan::NoOp));
    assert!(matches!(backend().lint(root, &none, &env), RunPlan::NoOp));
}

#[test]
fn go_fmt_rewrites_existing_sources_in_place() {
    let root = "/repo";
    let env = env_with(fs_with(vec!["/repo/a/x.go"]));
    let changed = vec!["a/x.go".to_string(), "a/gone.go".to_string(), "a/readme.md".to_string()];
    match backend().fmt(root, &changed, &env) {
        RunPlan::Run { steps, .. } => {
            assert_eq!(steps[0].program, "gofmt");
            assert_eq!(steps[0].args, vec!["-w".to_string(), "/repo/a/x.go".to_string()]);
        }
        other => panic!("unexpected plan {other:?}"),
    }
    let none = vec!["a/readme.md".to_string()];
    assert!(matches!(backend().fmt(root, &none, &env), RunPlan::NoOp));
}

#[test]
fn go_resolve_target_root_is_everything() {
    let root = "/repo";
    let target = backend().resolve_target(root, root.to_string());
    assert_eq!(target.label, "./...");
    assert_eq!(target.dir, root);
}
