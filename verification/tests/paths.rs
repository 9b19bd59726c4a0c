use std::path::{Component, Path};

use diff_core::paths::{
    canonical_contained_target, is_strict_descendant, join_path, parse_host_path, path_components,
    path_is_relevant, path_starts_with, validate_repo_relative_path, PathComponent,
};
use diff_core::types::BackendError;

fn same_as_std(s: &str) -> bool {
    let ours = path_components(s);
    let std: Vec<Component> = Path::new(s).components().collect();
    ours.len() == std.len()
        && ours.iter().zip(std.iter()).all(|(a, b)| match (a, b) {
            (PathComponent::RootDir, Component::RootDir) => true,
            (PathComponent::CurDir, Component::CurDir) => true,
            (PathComponent::ParentDir, Component::ParentDir) => true,
            (PathComponent::Normal(x), Component::Normal(y)) => Path::new(x) == Path::new(y),
            _ => false,
        })
}

#[test]
fn components_agree_with_std_on_unix_paths() {
    for s in [
        "", ".", "..", "/", "//", "a", "a/b", "a//b", "./a", "a/./b", "a/.", "a/..", "/a/b/", "/.", "./.",
        ".//a", "../x", "a/b/../c", "...", ".git/index.lock",
    ] {
        assert!(same_as_std(s), "{s:?}");
    }
}

#[test]
fn relative_paths_are_validated() {
    assert!(validate_repo_relative_path("src/main.rs").is_ok());
    assert!(validate_repo_relative_path("./src").is_ok());
    match validate_repo_relative_path("../etc/passwd") {
        Err(BackendError::InvalidPath(p)) => assert_eq!(p, "../etc/passwd"),
        other => panic!("unexpected {other:?}"),
    }
    assert!(validate_repo_relative_path("/etc/passwd").is_err());
    assert!(validate_repo_relative_path("a/../b").is_err());
}

#[test]
fn watcher_relevance() {
    assert!(path_is_relevant("/repo/src/main.rs"));
    assert!(path_is_relevant("/repo/.git/index"));
    assert!(path_is_relevant("/repo/.git/refs/heads/main"));
    assert!(path_is_relevant("/repo/.git/HEAD"));
    assert!(!path_is_relevant("/repo/.git/index.lock"));
    assert!(!path_is_relevant("/repo/.git/refs/heads/main.lock"));
    assert!(!path_is_relevant("/repo/.git/objects/ab/cdef"));
    assert!(!path_is_relevant("/repo/.git"));
    assert!(!path_is_relevant("/repo/.git/COMMIT_EDITMSG"));
    assert!(!path_is_relevant("/repo/.git/logs/HEAD"));
}

#[test]
fn host_path_arguments() {
    assert_eq!(parse_host_path("box:/srv/repo"), Some(("box".to_string(), "/srv/repo".to_string())));
    assert_eq!(parse_host_path("box:a:b"), Some(("box".to_string(), "a:b".to_string())));
    assert_eq!(parse_host_path("/abs/path"), None);
    assert_eq!(parse_host_path("C:/Users/x"), None);
    assert_eq!(parse_host_path("d:\\work"), None);
    assert_eq!(parse_host_path("C:relative"), Some(("C".to_string(), "relative".to_string())));
    assert_eq!(parse_host_path("cc:/srv"), Some(("cc".to_string(), "/srv".to_string())));
    assert_eq!(parse_host_path("a/b:c"), None);
    assert_eq!(parse_host_path("a\\b:c"), None);
    assert_eq!(parse_host_path(":path"), None);
    assert_eq!(parse_host_path("host:"), None);
}

#[test]
fn join_matches_pathbuf() {
    for (base, name) in [("/home/u", ".diff"), ("/home/u/", ".diff"), ("", "x"), ("rel", "y")] {
        assert_eq!(join_path(base, name), Path::new(base).join(name).to_string_lossy());
    }
}

#[test]
fn containment() {
    assert!(path_starts_with("/work/repo/a.txt", "/work/repo"));
    assert!(path_starts_with("/work/repo", "/work/repo/"));
    assert!(!path_starts_with("/work/repository", "/work/repo"));
    assert_eq!(canonical_contained_target("/w", "/w/x".to_string()).unwrap(), "/w/x");
    match canonical_contained_target("/w", "/etc/passwd".to_string()) {
        Err(BackendError::InvalidPath(m)) => assert_eq!(m, "path traversal detected"),
        other => panic!("unexpected {other:?}"),
    }
}

#[test]
fn strict_descendants() {
    let dir = vec!["src".to_string()];
    assert!(is_strict_descendant("src/a.rs", &dir));
    assert!(!is_strict_descendant("src", &dir));
    assert!(!is_strict_descendant("srcx/a.rs", &dir));
    assert!(is_strict_descendant("anything", &Vec::new()));
}

#[test]
fn validated_paths_stay_inside_the_workdir() {
    for rel in ["a.txt", "src/./lib.rs", "./x/y", "", "dir/"] {
        assert!(validate_repo_relative_path(rel).is_ok(), "{rel}");
        for base in ["/repo", "/repo/", "/", "work", "work/sub/"] {
            let j = join_path(base, rel);
            assert!(path_starts_with(&j, base), "{base} + {rel}");
            assert!(Path::new(&j).starts_with(base));
        }
    }
    for rel in ["../x", "a/../../b", "/etc/passwd"] {
        assert!(validate_repo_relative_path(rel).is_err(), "{rel}");
    }
}
