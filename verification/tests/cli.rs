use tmtidy::cli::denied_listing;
use tmtidy::cli::{scan_step, should_clean, should_write_config, ScanStep};
use tmtidy::stats::ScanStats;

#[test]
fn dry_run_forces_false_regardless_of_clean() {
    assert!(!should_clean(true, true, false));
}

#[test]
fn dry_run_forces_false_regardless_of_auto_clean() {
    assert!(!should_clean(true, false, true));
}

#[test]
fn clean_flag_true_and_not_dry_run_cleans() {
    assert!(should_clean(false, true, false));
}

#[test]
fn auto_clean_true_and_not_dry_run_cleans() {
    assert!(should_clean(false, false, true));
}

#[test]
fn all_false_does_not_clean() {
    assert!(!should_clean(false, false, false));
}

#[test]
fn dry_run_with_both_clean_sources_still_does_not_clean() {
    assert!(!should_clean(true, true, true));
}

#[test]
fn scan_skips_already_excluded_even_when_not_dry_run() {
    assert!(matches!(scan_step(true, false), ScanStep::AlreadyExcluded));
    assert!(matches!(scan_step(true, true), ScanStep::AlreadyExcluded));
}

#[test]
fn scan_dry_run_only_counts() {
    assert!(matches!(scan_step(false, true), ScanStep::WouldExclude));
}

#[test]
fn scan_excludes_new_dir_for_real() {
    assert!(matches!(scan_step(false, false), ScanStep::Exclude));
}

#[test]
fn init_writes_missing_config_and_respects_force() {
    assert!(should_write_config(false, false));
    assert!(!should_write_config(true, false));
    assert!(should_write_config(true, true));
}

#[test]
fn scan_stats_record_each_step() {
    let mut s = ScanStats::default();
    s.record(&ScanStep::AlreadyExcluded, false);
    s.record(&ScanStep::WouldExclude, false);
    s.record(&ScanStep::Exclude, true);
    s.record(&ScanStep::Exclude, false);
    assert_eq!((s.excluded_new, s.skipped_existing, s.errors), (2, 1, 1));
}

#[test]
fn denied_warning_lists_first_five() {
    assert_eq!(denied_listing(0), (0, 0));
    assert_eq!(denied_listing(3), (3, 0));
    assert_eq!(denied_listing(5), (5, 0));
    assert_eq!(denied_listing(12), (5, 7));
}

#[test]
fn scan_stats_default_is_zero_and_serializes() {
    let s = ScanStats::default();
    assert_eq!(s.excluded_new, 0);
    assert_eq!(s.skipped_existing, 0);
    assert_eq!(s.errors, 0);
}
