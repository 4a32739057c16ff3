//! The pure core of the entry point: turning explicit directory and file
//! arguments into targets and repo-relative paths. A path argument outside
//! the repository root is an environment error, reported for the first
//! offender and with no partial work.

use vstd::prelude::*;

use crate::backend::{Backend, Target};
use crate::fsview::FsView;
use crate::pathutil::{
    check_under, is_under, join_rel, lemma_join_clean, lemma_parent_under, no_dup_sep, norm_dir,
    parent_dir, parent_of, path_join, rel_of, rel_to_root,
};
use crate::registry::{backend_label_of, AnyBackend};
use crate::strutil::str_eq;

verus! {

/// An explicit path argument the orchestration cannot accept.
#[derive(Debug)]
pub enum ArgError {
    /// The resolved path does not lie below the repository root.
    OutsideRoot { path: String },
}

/// A usable path argument: nonempty, without a trailing separator and
/// without empty components.
pub open spec fn clean_arg(d: Seq<char>) -> bool {
    d.len() > 0 && d[d.len() - 1] != '/' && no_dup_sep(d)
}

/// The absolute path an argument names: itself when absolute, otherwise
/// resolved against the working directory.
pub open spec fn arg_full(cwd: Seq<char>, d: Seq<char>) -> Seq<char> {
    if d[0] == '/' {
        d
    } else {
        join_rel(cwd, d)
    }
}

/// The directory an argument names: the file's parent when it names an
/// existing regular file, otherwise the path itself.
pub open spec fn arg_dir(
    root: Seq<char>,
    cwd: Seq<char>,
    d: Seq<char>,
    files: Set<Seq<char>>,
) -> Seq<char> {
    let full = arg_full(cwd, d);
    if files.contains(full) && full != root {
        parent_of(full)
    } else {
        full
    }
}

/// The target `t` is what the backend resolves for the argument `d`: it
/// keeps the argument's directory (or the parent, for a file) and carries
/// that directory's label.
pub open spec fn dir_target_ok(
    b: &AnyBackend,
    root: Seq<char>,
    cwd: Seq<char>,
    d: Seq<char>,
    files: Set<Seq<char>>,
    t: Target,
) -> bool {
    &&& is_under(root, arg_full(cwd, d))
    &&& t.dir@ == arg_dir(root, cwd, d, files)
    &&& t.label@ == backend_label_of(b, root, arg_dir(root, cwd, d, files))
    &&& t.label@.len() > 0
}

/// The argument at `i` is the first one whose absolute path escapes the
/// repository root, and `path` is that absolute path.
pub open spec fn first_outside(
    root: Seq<char>,
    cwd: Seq<char>,
    dirs: Seq<String>,
    path: Seq<char>,
) -> bool {
    exists|i: int|
        0 <= i < dirs.len() && path == arg_full(cwd, (#[trigger] dirs[i])@) && !is_under(
            root,
            arg_full(cwd, dirs[i]@),
        ) && forall|j: int| 0 <= j < i ==> is_under(root, arg_full(cwd, (#[trigger] dirs[j])@))
}

/// Every argument is clean.
pub open spec fn all_clean_args(dirs: Seq<String>) -> bool {
    forall|i: int| 0 <= i < dirs.len() ==> clean_arg((#[trigger] dirs[i])@)
}

/// Resolve explicit directory arguments to targets: each argument, taken
/// against the working directory, must lie below the repository root; one
/// naming a regular file stands for its parent directory.
pub fn resolve_dir_targets(
    backend: &AnyBackend,
    repo_root: &str,
    cwd: &str,
    dirs: &Vec<String>,
    fs: &FsView,
) -> (r: Result<Vec<Target>, ArgError>)
    requires
        norm_dir(repo_root@),
        no_dup_sep(repo_root@),
        norm_dir(cwd@),
        no_dup_sep(cwd@),
        all_clean_args(dirs@),
        !fs.file_set().contains(repo_root@),
    ensures
        match r {
            Ok(ts) => ts@.len() == dirs@.len() && forall|i: int|
                0 <= i < dirs@.len() ==> dir_target_ok(
                    backend,
                    repo_root@,
                    cwd@,
                    (#[trigger] dirs@[i])@,
                    fs.file_set(),
                    ts@[i],
                ),
            Err(e) => e matches ArgError::OutsideRoot { path } && first_outside(
                repo_root@,
                cwd@,
                dirs@,
                path@,
            ),
        },
{
    let mut targets: Vec<Target> = Vec::new();
    let n = dirs.len();
    let mut i: usize = 0;
    while i < n
        invariant
            n == dirs@.len(),
            i <= n,
            norm_dir(repo_root@),
            no_dup_sep(repo_root@),
            norm_dir(cwd@),
            no_dup_sep(cwd@),
            all_clean_args(dirs@),
            !fs.file_set().contains(repo_root@),
            targets@.len() == i,
            forall|j: int|
                0 <= j < i ==> dir_target_ok(
                    backend,
                    repo_root@,
                    cwd@,
                    (#[trigger] dirs@[j])@,
                    fs.file_set(),
                    targets@[j],
                ),
        decreases n - i,
    {
        let d: &String = &dirs[i];
        assert(dirs@[i as int]@ == d@);
        let full: String = if d.as_str().unicode_len() > 0 && d.as_str().get_char(0) == '/' {
            d.clone()
        } else {
            path_join(cwd, d.as_str())
        };
        assert(full@ == arg_full(cwd@, d@));
        if !check_under(repo_root, full.as_str()) {
            proof {
                assert(!is_under(repo_root@, arg_full(cwd@, dirs@[i as int]@)));
                assert(first_outside(repo_root@, cwd@, dirs@, full@));
            }
            return Err(ArgError::OutsideRoot { path: full });
        }
        proof {
            if d@[0] == '/' {
            } else {
                lemma_join_clean(cwd@, d@);
            }
            assert(norm_dir(full@) && no_dup_sep(full@));
        }
        let dir: String = if fs.is_file(full.as_str()) && !str_eq(full.as_str(), repo_root) {
            proof {
                lemma_parent_under(repo_root@, full@);
            }
            let p = parent_dir(full.as_str());
            assert(p@ == arg_dir(repo_root@, cwd@, d@, fs.file_set()));
            p
        } else {
            assert(full@ == arg_dir(repo_root@, cwd@, d@, fs.file_set()));
            full
        };
        assert(dir@ == arg_dir(repo_root@, cwd@, dirs@[i as int]@, fs.file_set()));
        let t = backend.resolve_target(repo_root, dir);
        targets.push(t);
        proof {
            assert forall|j: int| 0 <= j < i + 1 implies dir_target_ok(
                backend,
                repo_root@,
                cwd@,
                (#[trigger] dirs@[j])@,
                fs.file_set(),
                targets@[j],
            ) by {
                if j == i {
                    assert(targets@[j] == t);
                    assert(t.dir@ == arg_dir(repo_root@, cwd@, dirs@[j]@, fs.file_set()));
                    assert(t.label@ == backend_label_of(backend, repo_root@, t.dir@));
                    assert(dir_target_ok(
                        backend,
                        repo_root@,
                        cwd@,
                        dirs@[j]@,
                        fs.file_set(),
                        targets@[j],
                    ));
                }
            }
        }
        i += 1;
    }
    Ok(targets)
}

/// Resolve explicit file or directory arguments, for formatting, to paths
/// relative to the repository root; each must lie below the root.
pub fn resolve_file_args(repo_root: &str, cwd: &str, dirs: &Vec<String>) -> (r: Result<
    Vec<String>,
    ArgError,
>)
    requires
        norm_dir(repo_root@),
        norm_dir(cwd@),
        all_clean_args(dirs@),
    ensures
        match r {
            Ok(fls) => fls@.len() == dirs@.len() && forall|i: int|
                0 <= i < dirs@.len() ==> {
                    &&& is_under(repo_root@, arg_full(cwd@, (#[trigger] dirs@[i])@))
                    &&& fls@[i]@ == rel_of(repo_root@, arg_full(cwd@, dirs@[i]@))
                },
            Err(e) => e matches ArgError::OutsideRoot { path } && first_outside(
                repo_root@,
                cwd@,
                dirs@,
                path@,
            ),
        },
{
    let mut files: Vec<String> = Vec::new();
    let n = dirs.len();
    let mut i: usize = 0;
    while i < n
        invariant
            n == dirs@.len(),
            i <= n,
            norm_dir(repo_root@),
            norm_dir(cwd@),
            all_clean_args(dirs@),
            files@.len() == i,
            forall|j: int|
                0 <= j < i ==> {
                    &&& is_under(repo_root@, arg_full(cwd@, (#[trigger] dirs@[j])@))
                    &&& files@[j]@ == rel_of(repo_root@, arg_full(cwd@, dirs@[j]@))
                },
        decreases n - i,
    {
        let d: &String = &dirs[i];
        assert(dirs@[i as int]@ == d@);
        let full: String = if d.as_str().unicode_len() > 0 && d.as_str().get_char(0) == '/' {
            d.clone()
        } else {
            path_join(cwd, d.as_str())
        };
        assert(full@ == arg_full(cwd@, d@));
        if !check_under(repo_root, full.as_str()) {
            proof {
                assert(!is_under(repo_root@, arg_full(cwd@, dirs@[i as int]@)));
                assert(first_outside(repo_root@, cwd@, dirs@, full@));
            }
            return Err(ArgError::OutsideRoot { path: full });
        }
        let rel = rel_to_root(repo_root, full.as_str());
        files.push(rel);
        i += 1;
    }
    Ok(files)
}

} // verus!
