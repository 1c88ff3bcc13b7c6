use tmtidy::config::{
    default_config_path, default_depth, default_max_age_days, default_min_size_mb, Config,
    DecayConfig, Root, Rule,
};
use tmtidy::defaults::default_rules;

fn rule(name: &str, markers: &[&str], targets: &[&str]) -> Rule {
    Rule {
        name: name.to_string(),
        markers: markers.iter().map(|s| s.to_string()).collect(),
        targets: targets.iter().map(|s| s.to_string()).collect(),
    }
}

#[test]
fn user_rules_are_merged_with_defaults_and_override_by_name() {
    // user redefines "node", adds "custom"; keeps default "rust"
    let mut parsed = Config::empty();
    parsed.rules = vec![
        rule("node", &["package.json"], &["node_modules"]),
        rule("custom", &["Foo"], &["bar"]),
    ];
    let cfg = Config::from_parsed(parsed, Some("/home/u"));
    let names: Vec<&str> = cfg.rules.iter().map(|r| r.name.as_str()).collect();
    assert!(names.contains(&"rust")); // default preserved
    assert!(names.contains(&"custom")); // user rule added
    let node = cfg.rules.iter().find(|r| r.name == "node").unwrap();
    assert_eq!(node.targets, vec!["node_modules"]); // user override wins, single entry
}

#[test]
fn expands_tilde_in_paths() {
    let home = dirs::home_dir().unwrap();
    let mut parsed = Config::empty();
    parsed.roots = vec![Root { path: "~/proj".to_string(), max_depth: 8 }];
    parsed.ignore = vec!["~/skip".to_string()];
    let home_str = home.to_str().unwrap().to_string();
    let cfg = Config::from_parsed(parsed, Some(&home_str));
    assert_eq!(std::path::PathBuf::from(&cfg.roots[0].path), home.join("proj"));
    assert_eq!(std::path::PathBuf::from(&cfg.ignore[0]), home.join("skip"));
}

#[test]
fn tilde_expansion_leaves_other_paths_alone() {
    let mut parsed = Config::empty();
    parsed.roots = vec![
        Root { path: "~".to_string(), max_depth: 3 },
        Root { path: "~other/x".to_string(), max_depth: 8 },
        Root { path: "/abs/~/x".to_string(), max_depth: 8 },
        Root { path: "~\\proj".to_string(), max_depth: 8 },
    ];
    parsed.decay.exclude_paths = vec!["~/keep".to_string()];
    parsed.decay.json_output = Some("~/decay.json".to_string());
    let cfg = Config::from_parsed(parsed, Some("/home/u"));
    assert_eq!(cfg.roots[0].path, "/home/u");
    assert_eq!(cfg.roots[0].max_depth, 3);
    assert_eq!(cfg.roots[1].path, "~other/x");
    assert_eq!(cfg.roots[2].path, "/abs/~/x");
    // Outside Windows, `~\` is no home prefix.
    assert_eq!(cfg.roots[3].path, "~\\proj");
    assert_eq!(cfg.decay.exclude_paths, vec!["/home/u/keep"]);
    assert_eq!(cfg.decay.json_output.as_deref(), Some("/home/u/decay.json"));
}

#[test]
fn tilde_kept_when_home_unknown() {
    let mut parsed = Config::empty();
    parsed.roots = vec![Root { path: "~/proj".to_string(), max_depth: 8 }];
    let cfg = Config::from_parsed(parsed, None);
    assert_eq!(cfg.roots[0].path, "~/proj");
}

#[test]
fn decay_defaults_apply() {
    let d = DecayConfig::default();
    assert_eq!(d.max_age_days, 30);
    assert_eq!(d.min_size_mb, 100);
    assert!(!d.auto_clean);
    assert!(d.exclude_rules.is_empty());
    assert!(d.exclude_paths.is_empty());
    assert!(d.json_output.is_none());
    assert_eq!(default_depth(), 8);
    assert_eq!(default_max_age_days(), 30);
    assert_eq!(default_min_size_mb(), 100);
}

#[test]
fn baked_rules_cover_documented_ecosystems() {
    let rules = default_rules();
    let names: Vec<&str> = rules.iter().map(|r| r.name.as_str()).collect();
    assert_eq!(
        names,
        vec!["rust", "node", "python", "go", "swiftpm", "gradle", "maven", "terraform", "terragrunt"]
    );
    assert!(rules[3].targets.is_empty()); // go: global build cache
    assert_eq!(rules[1].targets, vec!["node_modules", ".next", "dist"]);
    assert_eq!(rules[8].markers, vec!["terragrunt.hcl", "root.hcl"]);
}

#[test]
fn merge_without_allowlist_adds_every_default() {
    let mut cfg = Config::empty();
    cfg.merge_default_rules();
    assert_eq!(cfg.rules.len(), 9);
}

#[test]
fn defaults_allowlist_selects_baked_rules() {
    let mut cfg = Config::empty();
    cfg.defaults = Some(vec!["rust".to_string(), "node".to_string()]);
    cfg.rules = vec![rule("unity", &["Assembly-CSharp.csproj"], &["Library", "Temp"])];
    cfg.merge_default_rules();
    let names: Vec<&str> = cfg.rules.iter().map(|r| r.name.as_str()).collect();
    assert_eq!(names, vec!["unity", "rust", "node"]);

    let mut none = Config::empty();
    none.defaults = Some(vec![]);
    none.merge_default_rules();
    assert!(none.rules.is_empty());
}

#[test]
fn target_names_is_union_without_repeats() {
    let mut cfg = Config::empty();
    cfg.merge_default_rules();
    let mut names = cfg.target_names();
    names.sort();
    assert_eq!(
        names,
        vec![
            ".build", ".gradle", ".next", ".terraform", ".terragrunt-cache", ".venv",
            "__pycache__", "build", "dist", "node_modules", "target"
        ]
    );
}

#[test]
fn ensure_roots_requires_a_root() {
    let mut cfg = Config::empty();
    assert!(cfg.ensure_roots().is_err());
    let msg = match cfg.ensure_roots() {
        Err(e) => e.message(),
        Ok(()) => String::new(),
    };
    assert!(msg.starts_with("no roots configured"));
    cfg.roots.push(Root { path: "/code".to_string(), max_depth: 8 });
    assert!(cfg.ensure_roots().is_ok());
}

#[test]
fn default_config_path_under_home() {
    assert_eq!(default_config_path("/Users/x/.config"), "/Users/x/.config/tmtidy/config.yaml");
    assert_eq!(default_config_path("/xdg/config"), "/xdg/config/tmtidy/config.yaml");
}
