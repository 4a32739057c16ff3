//! A build-system-agnostic front end: given a repository in an unknown state
//! of change, decide which build system governs it, map the changed files to
//! the minimal set of build/test/lint targets, and plan the invocations of the
//! underlying tool. All decisions here are pure: the state of the filesystem,
//! the availability of tools and the output of the one build-graph query are
//! handed in as plain values, and the plans are handed back as plain values.

pub mod backend;
pub mod bazel;
pub mod driver;
pub mod fsview;
pub mod go;
pub mod js;
pub mod pathutil;
pub mod registry;
pub mod strutil;
pub mod vcs;

pub use backend::{Affected, Backend, Env, Invocation, RunPlan, Target};
pub use driver::{resolve_dir_targets, resolve_file_args, ArgError};
pub use fsview::FsView;
pub use bazel::BazelBackend;
pub use go::GoBackend;
pub use js::JsBackend;
pub use registry::{all_backends, detect_backend, AnyBackend};
