use tmtidy::walker::walk_admits;

fn strings(v: &[&str]) -> Vec<String> {
    v.iter().map(|s| s.to_string()).collect()
}

#[test]
fn walk_prunes_target_names_below_root_only() {
    let prune = strings(&["node_modules"]);
    let ignore = strings(&["/base/skip"]);
    assert!(walk_admits("/base/proj", 1, Some("proj"), &prune, &ignore));
    assert!(!walk_admits("/base/proj/node_modules", 2, Some("node_modules"), &prune, &ignore));
    // The root itself is never pruned by name.
    assert!(walk_admits("/x/node_modules", 0, Some("node_modules"), &prune, &ignore));
    // A name that is not valid Unicode is never pruned.
    assert!(walk_admits("/base/odd", 1, None, &prune, &ignore));
}

#[test]
fn walk_skips_ignored_paths() {
    let prune = strings(&["node_modules"]);
    let ignore = strings(&["/base/skip"]);
    assert!(!walk_admits("/base/skip", 1, Some("skip"), &prune, &ignore));
    assert!(!walk_admits("/base//skip/", 1, Some("skip"), &prune, &ignore));
    assert!(walk_admits("/base/skip/inner", 2, Some("inner"), &prune, &ignore));
}
