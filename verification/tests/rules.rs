use tmtidy::config::Rule;
use tmtidy::rules::match_dir;

fn rule(name: &str, markers: &[&str], targets: &[&str]) -> Rule {
    Rule {
        name: name.into(),
        markers: markers.iter().map(|s| s.to_string()).collect(),
        targets: targets.iter().map(|s| s.to_string()).collect(),
    }
}

fn strings(v: &[&str]) -> Vec<String> {
    v.iter().map(|s| s.to_string()).collect()
}

#[test]
fn matches_when_marker_present_and_target_dir_exists() {
    let dir = "/tmp/d";
    let files = strings(&["/tmp/d/Cargo.toml"]);
    let dirs = strings(&["/tmp/d/target"]);
    let rules = vec![rule("rust", &["Cargo.toml"], &["target"])];
    let m = match_dir(dir, &rules, &files, &dirs);
    assert_eq!(m.len(), 1);
    assert_eq!(m[0].path, "/tmp/d/target");
    assert_eq!(m[0].rule, "rust");
}

#[test]
fn no_match_without_marker() {
    // target but no Cargo.toml
    let dirs = strings(&["/tmp/d/target"]);
    let rules = vec![rule("rust", &["Cargo.toml"], &["target"])];
    assert!(match_dir("/tmp/d", &rules, &vec![], &dirs).is_empty());
}

#[test]
fn no_match_when_target_missing_or_is_file() {
    // a FILE named target
    let files = strings(&["/tmp/d/Cargo.toml", "/tmp/d/target"]);
    let rules = vec![rule("rust", &["Cargo.toml"], &["target"])];
    assert!(match_dir("/tmp/d", &rules, &files, &vec![]).is_empty());
}

#[test]
fn matches_every_present_target_of_every_firing_rule() {
    let files = strings(&["/p/package.json", "/p/setup.py"]);
    let dirs = strings(&["/p/node_modules", "/p/dist", "/p/.venv", "/p/target"]);
    let rules = vec![
        rule("rust", &["Cargo.toml"], &["target"]),
        rule("node", &["package.json"], &["node_modules", ".next", "dist"]),
        rule("python", &["pyproject.toml", "setup.py"], &[".venv", "__pycache__", "build"]),
    ];
    let m = match_dir("/p", &rules, &files, &dirs);
    let got: Vec<(&str, &str)> = m.iter().map(|x| (x.path.as_str(), x.rule.as_str())).collect();
    assert_eq!(
        got,
        vec![("/p/node_modules", "node"), ("/p/dist", "node"), ("/p/.venv", "python")]
    );
}
