use tmtidy::decay::dir_size_of;
use tmtidy::config::{Config, DecayConfig, Root, Rule};
use tmtidy::decay::{
    age_days_between, find_candidates_with, total_candidate_bytes, Candidate, DirProbe,
};
use tmtidy::stats::{DecayStats, ScanStats};

fn base_cfg(root: &str) -> Config {
    let mut cfg = Config::empty();
    cfg.roots = vec![Root { path: root.to_string(), max_depth: 8 }];
    cfg.rules = vec![Rule {
        name: "rust".into(),
        markers: vec!["Cargo.toml".into()],
        targets: vec!["target".into()],
    }];
    cfg.decay = DecayConfig { max_age_days: 30, min_size_mb: 0, ..Default::default() };
    cfg
}

/// A project dir `<root>/<name>` holding `Cargo.toml` and a `target` dir.
fn make_project(root: &str, name: &str) -> (DirProbe, String) {
    let proj = format!("{}/{}", root, name);
    let target = format!("{}/target", proj);
    let probe = DirProbe {
        dir: proj.clone(),
        files: vec![format!("{}/Cargo.toml", proj)],
        dirs: vec![target.clone()],
    };
    (probe, target)
}

#[test]
fn selects_old_excluded_target_only() {
    let cfg = base_cfg("/r");
    let (probe, target) = make_project("/r", "old");
    let probes = vec![probe];
    let t = target.clone();
    let cands = find_candidates_with(&cfg, &probes, |p: &String| *p == t, |_: &String| 100, |_: &String| 2048);
    assert_eq!(cands.len(), 1);
    assert_eq!(cands[0].path, target);
    assert!(cands[0].age_days >= 99);
}

#[test]
fn rejects_recent_dir() {
    let cfg = base_cfg("/r");
    let (probe, target) = make_project("/r", "fresh");
    let probes = vec![probe];
    let cands = find_candidates_with(&cfg, &probes, |p: &String| *p == target, |_: &String| 2, |_: &String| 2048);
    assert!(cands.is_empty());
}

#[test]
fn respects_min_size_and_exclude_rules() {
    let mut cfg = base_cfg("/r");
    cfg.decay.min_size_mb = 1; // 1 MB floor; artifact is 2 KB
    let (probe, target) = make_project("/r", "small");
    let probes = vec![probe];
    let t = target.clone();
    assert!(find_candidates_with(&cfg, &probes, |p: &String| *p == t, |_: &String| 100, |_: &String| 2048).is_empty());

    cfg.decay.min_size_mb = 0;
    cfg.decay.exclude_rules = vec!["rust".into()];
    assert!(find_candidates_with(&cfg, &probes, |p: &String| *p == target, |_: &String| 100, |_: &String| 2048).is_empty());
}

#[test]
fn non_target_named_dir_is_never_a_candidate_even_if_old_and_excluded() {
    let cfg = base_cfg("/r"); // rule "rust": Cargo.toml -> target
    let not_a_target = "/r/proj/notatarget".to_string();
    let probes = vec![DirProbe {
        dir: "/r/proj".to_string(),
        files: vec!["/r/proj/Cargo.toml".to_string()],
        dirs: vec![not_a_target.clone()],
    }];
    let cands = find_candidates_with(&cfg, &probes, |p: &String| *p == not_a_target, |_: &String| 100, |_: &String| 2048);
    assert!(cands.is_empty());
}

#[test]
fn decay_skips_ignored_and_excluded_paths() {
    let mut cfg = base_cfg("/r");
    let (a, _) = make_project("/r", "a");
    let (b, _) = make_project("/r", "b");
    let (c, c_target) = make_project("/r", "c");
    cfg.ignore = vec!["/r/a".to_string()];
    cfg.decay.exclude_paths = vec!["/r/b/".to_string()];
    let probes = vec![a, b, c];
    let cands = find_candidates_with(&cfg, &probes, |_: &String| true, |_: &String| 31, |_: &String| 1);
    assert_eq!(cands.len(), 1);
    assert_eq!(cands[0].path, c_target);
    assert_eq!(cands[0].rule, "rust");
    assert_eq!(cands[0].age_days, 31);
    assert_eq!(cands[0].size_bytes, 1);
    assert!(!cands[0].trashed);
}

#[test]
fn decay_requires_exclusion_and_size_floor_in_bytes() {
    let mut cfg = base_cfg("/r");
    cfg.decay.min_size_mb = 100;
    let (a, a_target) = make_project("/r", "a");
    let (b, b_target) = make_project("/r", "b");
    let probes = vec![a, b];
    let bt = b_target.clone();
    // a is not excluded; b is exactly at the 100 MiB floor.
    let cands = find_candidates_with(
        &cfg,
        &probes,
        |p: &String| *p != a_target,
        |_: &String| 30,
        |_: &String| 100 * 1024 * 1024,
    );
    assert_eq!(cands.len(), 1);
    assert_eq!(cands[0].path, bt);
}

#[test]
fn decay_lists_each_path_once() {
    let cfg = base_cfg("/r");
    let (a, a_target) = make_project("/r", "a");
    let dup = DirProbe {
        dir: "/r/a/".to_string(),
        files: vec!["/r/a/Cargo.toml".to_string()],
        dirs: vec!["/r/a/target".to_string()],
    };
    let probes = vec![a, dup];
    let cands = find_candidates_with(&cfg, &probes, |_: &String| true, |_: &String| 40, |_: &String| 5);
    assert_eq!(cands.len(), 1);
    assert_eq!(cands[0].path, a_target);
}

#[test]
fn age_in_whole_days() {
    assert_eq!(age_days_between(86400 * 10, 0, 0, 0), 10);
    assert_eq!(age_days_between(86400 * 10, 0, 1, 0), 9);
    assert_eq!(age_days_between(86400, 5, 0, 6), 0);
    assert_eq!(age_days_between(86400, 6, 0, 6), 1);
    assert_eq!(age_days_between(5, 0, 10, 0), 0); // mtime in the future
    assert_eq!(age_days_between(10, 1, 10, 2), 0);
}

fn cand(size: u64) -> Candidate {
    Candidate { path: "/p".into(), rule: "r".into(), size_bytes: size, age_days: 40, trashed: false }
}

#[test]
fn total_bytes_sums_or_reports_overflow() {
    assert_eq!(total_candidate_bytes(&vec![cand(1), cand(2), cand(3)]), Some(6));
    assert_eq!(total_candidate_bytes(&vec![]), Some(0));
    assert_eq!(total_candidate_bytes(&vec![cand(u64::MAX), cand(1)]), None);
}

#[test]
fn decay_stats_record_trash() {
    let mut stats = DecayStats::with_candidates(2);
    let mut c = cand(2048);
    stats.record_trashed(&mut c);
    assert!(c.trashed);
    assert_eq!(stats.candidates, 2);
    assert_eq!(stats.trashed, 1);
    assert_eq!(stats.reclaimed_bytes, 2048);
    let d = DecayStats::default();
    assert_eq!((d.candidates, d.trashed, d.reclaimed_bytes), (0, 0, 0));
}

#[test]
fn scan_stats_count_each_outcome() {
    let mut s = ScanStats::default();
    assert_eq!(s.excluded_new, 0);
    assert_eq!(s.skipped_existing, 0);
    assert_eq!(s.errors, 0);
    s.count_new();
    s.count_new();
    s.count_existing();
    s.count_error();
    assert_eq!((s.excluded_new, s.skipped_existing, s.errors), (2, 1, 1));
}

#[test]
fn decay_keeps_match_order() {
    let cfg = base_cfg("/r");
    let (a, a_target) = make_project("/r", "a");
    let (b, b_target) = make_project("/r", "b");
    let probes = vec![b, a];
    let cands = find_candidates_with(&cfg, &probes, |_: &String| true, |_: &String| 30, |_: &String| 0);
    let paths: Vec<&str> = cands.iter().map(|c| c.path.as_str()).collect();
    assert_eq!(paths, vec![b_target.as_str(), a_target.as_str()]);
}

#[test]
fn dir_size_sums_file_sizes() {
    assert_eq!(dir_size_of(&vec![2048, 10, 0]), Some(2058));
    assert_eq!(dir_size_of(&vec![]), Some(0));
    assert_eq!(dir_size_of(&vec![u64::MAX, 1]), None);
}
