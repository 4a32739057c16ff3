use kit::backend::{Backend, Env, RunPlan, Target};
use kit::bazel::{label_to_dir, BazelBackend};
use kit::fsview::FsView;

fn backend() -> BazelBackend {
    BazelBackend
}

fn fs_with(present: Vec<&str>) -> FsView {
    FsView {
        present: present.iter().map(|p| p.to_string()).collect(),
        files: Vec::new(),
    }
}

fn env_with(fs: FsView) -> Env {
    Env { fs, query_output: None, bazelisk: false, buildifier: false }
}

#[test]
fn detect_workspace() {
    let root = "/repo";
    let fs = fs_with(vec!["/repo/WORKSPACE"]);
    assert!(backend().detect(&fs, root));
}

#[test]
fn deduplicate_to_packages_collapses_targets() {
    let root = "/repo";
    let targets = vec![
        Target {
            label: "//pkg/foo:bar".to_string(),
            dir: format!("{root}/pkg/foo"),
        },
        Target {
            label: "//pkg/foo:baz".to_string(),
            dir: format!("{root}/pkg/foo"),
        },
    ];
    let deduped = BazelBackend::deduplicate_to_packages(root, &targets);
    assert_eq!(deduped.len(), 1);
    assert_eq!(deduped[0].label, "//pkg/foo:all");
    assert!(deduped[0].dir.starts_with('/'));
    assert_eq!(deduped[0].dir, format!("{root}/pkg/foo"));
}

#[test]
fn deduplicate_to_packages_distinct_packages() {
    let root = "/repo";
    let targets = vec![
        Target {
            label: "//pkg/foo:bar".to_string(),
            dir: format!("{root}/pkg/foo"),
        },
        Target {
            label: "//pkg/bar:baz".to_string(),
            dir: format!("{root}/pkg/bar"),
        },
    ];
    let deduped = BazelBackend::deduplicate_to_packages(root, &targets);
    assert_eq!(deduped.len(), 2);
    let labels: Vec<&str> = deduped.iter().map(|t| t.label.as_str()).collect();
    assert!(labels.contains(&"//pkg/bar:all"));
    assert!(labels.contains(&"//pkg/foo:all"));
}

#[test]
fn bazel_test_resolve_target_subdir() {
    let root = "/repo";
    let dir = format!("{root}/pkg");
    let target = backend().resolve_target(root, dir.clone());
    assert_eq!(target.label, "//pkg:all");
    assert_eq!(target.dir, dir);
}

#[test]
fn label_to_dir_strips_prefix() {
    let root = "/repo";
    assert_eq!(label_to_dir(root, "//pkg/foo:bar"), format!("{root}/pkg/foo"));
    assert_eq!(label_to_dir(root, "//:something"), root.to_string());
}

#[test]
fn fmt_filter_includes_build_files() {
    let included = [
        "BUILD",
        "BUILD.bazel",
        "WORKSPACE",
        "WORKSPACE.bazel",
        "MODULE.bazel",
        "defs.bzl",
    ];
    for name in &included {
        let root = "/repo";
        let full = format!("{root}/{name}");
        let mut env = env_with(fs_with(vec![full.as_str()]));
        env.buildifier = true;
        let changed = vec![name.to_string()];
        let plan = backend().fmt(root, &changed, &env);
        match plan {
            RunPlan::Run { steps, fallback } => {
                assert!(fallback.is_none());
                assert_eq!(steps.len(), 1);
                assert_eq!(steps[0].program, "buildifier");
                assert_eq!(steps[0].args, vec!["-mode=fix".to_string(), full]);
            }
            other => panic!("{name} should be included, got {other:?}"),
        }
    }
}

#[test]
fn fmt_filter_excludes_other_files() {
    let excluded = ["main.go", "lib.rs", "README.md", "Makefile"];
    for name in &excluded {
        let root = "/repo";
        let full = format!("{root}/{name}");
        let mut env = env_with(fs_with(vec![full.as_str()]));
        env.buildifier = true;
        let changed = vec![name.to_string()];
        let plan = backend().fmt(root, &changed, &env);
        assert!(
            matches!(plan, RunPlan::NoOp),
            "{name} should be excluded"
        );
    }
}

#[test]
fn rdeps_query_quotes_and_joins() {
    let changed = vec!["foo/bar.go".to_string(), "baz.txt".to_string()];
    let q = BazelBackend::rdeps_query(&changed);
    assert_eq!(q, "rdeps(//..., set(\"foo/bar.go\" \"baz.txt\"))");
}

#[test]
fn rdeps_query_normalizes_separators() {
    let changed = vec!["a\\b.txt".to_string()];
    let q = BazelBackend::rdeps_query(&changed);
    assert_eq!(q, "rdeps(//..., set(\"a/b.txt\"))");
}

#[test]
fn parse_query_output_one_target_per_line() {
    let out = "//a:x\n//b:y\n\n";
    let targets = BazelBackend::parse_query_output("/repo", out);
    assert_eq!(targets.len(), 2);
    assert_eq!(targets[0].label, "//a:x");
    assert_eq!(targets[0].dir, "/repo/a");
    assert_eq!(targets[1].label, "//b:y");
    assert_eq!(targets[1].dir, "/repo/b");
}

#[test]
fn affected_targets_query_path_one_package() {
    let root = "/repo";
    let mut env = env_with(fs_with(vec![]));
    env.query_output = Some("//pkg/foo:a\n//pkg/foo:b\n".to_string());
    let changed = vec!["pkg/foo/x.go".to_string()];
    let r = backend().affected_targets(root, &changed, &env);
    assert!(!r.degraded);
    assert_eq!(r.targets.len(), 1);
    assert_eq!(r.targets[0].label, "//pkg/foo:all");
    assert_eq!(r.targets[0].dir, "/repo/pkg/foo");
}

#[test]
fn affected_targets_fallback_nearest_markers() {
    let root = "/repo";
    let fs = fs_with(vec!["/repo/a/BUILD", "/repo/b/BUILD"]);
    let env = env_with(fs);
    let changed = vec!["a/BUILD".to_string(), "b/x.txt".to_string()];
    let r = backend().affected_targets(root, &changed, &env);
    assert!(r.degraded);
    let labels: Vec<&str> = r.targets.iter().map(|t| t.label.as_str()).collect();
    assert_eq!(labels, vec!["//a:all", "//b:all"]);
    let dirs: Vec<&str> = r.targets.iter().map(|t| t.dir.as_str()).collect();
    assert_eq!(dirs, vec!["/repo/a", "/repo/b"]);
}

#[test]
fn affected_targets_empty_changed_set() {
    let root = "/repo";
    let env = env_with(fs_with(vec![]));
    let changed: Vec<String> = vec![];
    let r = backend().affected_targets(root, &changed, &env);
    assert!(!r.degraded);
    assert!(r.targets.is_empty());
}

#[test]
fn dedup_is_idempotent_and_order_blind() {
    let root = "/repo";
    let t = |label: &str, dir: &str| Target { label: label.to_string(), dir: dir.to_string() };
    let once = BazelBackend::deduplicate_to_packages(
        root,
        &vec![t("//a:x", "/repo/a"), t("//b:y", "/repo/b"), t("//a:z", "/repo/a")],
    );
    let twice = BazelBackend::deduplicate_to_packages(root, &once);
    let reordered = BazelBackend::deduplicate_to_packages(
        root,
        &vec![t("//b:y", "/repo/b"), t("//a:z", "/repo/a"), t("//a:x", "/repo/a")],
    );
    let labels = |ts: &Vec<Target>| ts.iter().map(|t| t.label.clone()).collect::<Vec<_>>();
    assert_eq!(labels(&once), vec!["//a:all".to_string(), "//b:all".to_string()]);
    assert_eq!(labels(&once), labels(&twice));
    assert_eq!(labels(&once), labels(&reordered));
}

#[test]
fn build_and_test_pass_labels() {
    let root = "/repo";
    let env = env_with(fs_with(vec![]));
    let targets = vec![Target { label: "//a:all".to_string(), dir: "/repo/a".to_string() }];
    match backend().build(root, &targets, &env) {
        RunPlan::Run { steps, fallback } => {
            assert!(fallback.is_none());
            assert_eq!(steps[0].program, "bazel");
            assert_eq!(steps[0].args, vec!["build".to_string(), "//a:all".to_string()]);
        }
        other => panic!("unexpected plan {other:?}"),
    }
    let mut env2 = env_with(fs_with(vec![]));
    env2.bazelisk = true;
    match backend().test(root, &targets, &env2) {
        RunPlan::Run { steps, .. } => {
            assert_eq!(steps[0].program, "bazelisk");
            assert_eq!(steps[0].args, vec!["test".to_string(), "//a:all".to_string()]);
        }
        other => panic!("unexpected plan {other:?}"),
    }
}

#[test]
fn lint_prefers_engine_with_direct_fallback() {
    let root = "/repo";
    let targets = vec![Target { label: "//a:all".to_string(), dir: "/repo/a".to_string() }];
    let mut env = env_with(fs_with(vec![]));
    env.buildifier = true;
    match backend().lint(root, &targets, &env) {
        RunPlan::Run { steps, fallback } => {
            assert_eq!(steps[0].program, "bazel");
            assert_eq!(
                steps[0].args,
                vec![
                    "run".to_string(),
                    "//:buildifier".to_string(),
                    "--".to_string(),
                    "//a:all".to_string()
                ]
            );
            let fb = fallback.expect("a direct fallback invocation");
            assert_eq!(fb.program, "buildifier");
            assert_eq!(
                fb.args,
                vec!["-lint=warn".to_string(), "-r".to_string(), "/repo/a".to_string()]
            );
        }
        other => panic!("unexpected plan {other:?}"),
    }
    let env2 = env_with(fs_with(vec![]));
    match backend().lint(root, &targets, &env2) {
        RunPlan::SkipTool { tool } => assert_eq!(tool, "buildifier"),
        other => panic!("unexpected plan {other:?}"),
    }
}

#[test]
fn empty_targets_are_noops() {
    let root = "/repo";
    let env = env_with(fs_with(vec![]));
    let none: Vec<Target> = vec![];
    assert!(matches!(backend().build(root, &none, &env), RunPlan::NoOp));
    assert!(matches!(backend().test(root, &none, &env), RunPlan::NoOp));
    assert!(matches!(backend().lint(root, &none, &env), RunPlan::NoOp));
}

#[test]
fn resolve_target_root_is_everything() {
    let root = "/repo";
    let target = backend().resolve_target(root, root.to_string());
    assert_eq!(target.label, "//...:all");
    assert_eq!(target.dir, root);
}
