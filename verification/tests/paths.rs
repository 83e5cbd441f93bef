use hawk::paths::{file_name, join, same_directory};
use std::path::Path;

const PATHS: [&str; 24] = [
    "", ".", "..", "/", "//", "./", "/.", "/..", "a", "/a", "a/", "/a/", "a/b", "a//b", "a/./b",
    "./a", "a/.", "a/..", "/a/b/", "/a/b/.", "...", "/a/...", ".a", "/é/b",
];

#[test]
fn paths_are_the_same_as_std_has_them() {
    for a in PATHS {
        for b in PATHS {
            assert_eq!(same_directory(a, b), Path::new(a) == Path::new(b), "{} {}", a, b);
        }
    }
}

#[test]
fn file_names_are_those_of_std() {
    for path in PATHS {
        let want = Path::new(path).file_name().and_then(|s| s.to_str()).map(|s| s.to_string());
        assert_eq!(file_name(path), want, "{}", path);
    }
}

#[test]
fn joining_is_that_of_std() {
    for path in PATHS {
        for name in ["hawk", ".config", ".zshrc"] {
            let want = Path::new(path).join(name).display().to_string();
            assert_eq!(join(path, name), want);
        }
    }
}

#[test]
fn joining_gives_these_paths() {
    assert_eq!(join("/home/me", ".config"), "/home/me/.config");
    assert_eq!(join("/home/me/", ".config"), "/home/me/.config");
    assert_eq!(join("", ".config"), ".config");
    assert_eq!(join("/", "hawk"), "/hawk");
}

#[test]
fn slashes_at_the_end_do_not_matter() {
    assert!(same_directory("/tmp", "/tmp/"));
    assert!(same_directory("/tmp//x", "/tmp/x/."));
    assert!(!same_directory("/tmp", "tmp"));
    assert!(!same_directory("/tmp", "/tmp/.."));
    assert_eq!(file_name(&join("/bin/", "zsh")), Some("zsh".to_string()));
}
