use tmtidy::paths::{config_home, join_path, path_eq, path_starts_with, resolve, state_home};

fn home() -> String {
    dirs::home_dir().unwrap_or_default().to_str().unwrap().to_string()
}

#[test]
fn absolute_env_value_is_used_verbatim() {
    let got = resolve(Some("/custom/xdg"), &home(), ".config");
    assert_eq!(got, "/custom/xdg");
}

#[test]
fn relative_env_value_is_ignored_per_spec() {
    let got = resolve(Some("relative/path"), &home(), ".config");
    assert_eq!(
        std::path::PathBuf::from(got),
        dirs::home_dir().unwrap_or_default().join(".config")
    );
}

#[test]
fn empty_env_value_falls_back() {
    let got = resolve(Some(""), &home(), ".local/state");
    assert_eq!(
        std::path::PathBuf::from(got),
        dirs::home_dir().unwrap_or_default().join(".local/state")
    );
}

#[test]
fn unset_env_value_falls_back() {
    let got = resolve(None, &home(), ".local/state");
    assert_eq!(
        std::path::PathBuf::from(got),
        dirs::home_dir().unwrap_or_default().join(".local/state")
    );
}

#[test]
fn config_and_state_homes() {
    assert_eq!(config_home(None, "/Users/x"), "/Users/x/.config");
    assert_eq!(config_home(Some("/xdg/c"), "/Users/x"), "/xdg/c");
    assert_eq!(state_home(Some("rel"), "/Users/x"), "/Users/x/.local/state");
    assert_eq!(state_home(None, ""), ".local/state");
}

#[test]
fn join_follows_path_join() {
    assert_eq!(join_path("/a", "b"), "/a/b");
    assert_eq!(join_path("/a/", "b"), "/a/b");
    assert_eq!(join_path("", "b"), "b");
    assert_eq!(join_path("/a", "/b"), "/b");
    assert_eq!(join_path("/a", ""), "/a/");
}

#[test]
fn starts_with_compares_whole_components() {
    assert!(path_starts_with("/a/b/c", "/a/b"));
    assert!(path_starts_with("/a/b/c", "/a/b/"));
    assert!(path_starts_with("/a//b/./c", "/a/b"));
    assert!(!path_starts_with("/a/bc", "/a/b"));
    assert!(!path_starts_with("a/b", "/a"));
    assert!(path_starts_with("./a/b", "./a"));
    assert!(!path_starts_with("a/b", "./a"));
    assert!(path_starts_with("/a", ""));
}

#[test]
fn path_equality_ignores_redundant_separators() {
    assert!(path_eq("/a/b/", "/a//b"));
    assert!(path_eq("a/./b", "a/b"));
    assert!(!path_eq("./a", "a"));
    assert!(!path_eq("/a", "a"));
}
