//! The decisions the commands make around their I/O.

use vstd::prelude::*;

verus! {

/// The cleaning decision of `decay`.
pub open spec fn cleans(dry_run: bool, clean: bool, auto_clean: bool) -> bool {
    !dry_run && (clean || auto_clean)
}

/// Whether `decay` trashes: `--dry-run` always wins; otherwise it cleans
/// when `--clean` is given or `auto_clean` is set.
pub fn should_clean(dry_run: bool, clean: bool, auto_clean: bool) -> (b: bool)
    ensures
        b == cleans(dry_run, clean, auto_clean),
{
    !dry_run && (clean || auto_clean)
}

/// Flag precedence: `--dry-run` never trashes, even with `auto_clean`;
/// `--clean` trashes even without `auto_clean`; without either flag,
/// `auto_clean` decides.
pub proof fn lemma_flag_precedence(clean: bool, auto_clean: bool)
    ensures
        !cleans(true, clean, auto_clean),
        cleans(false, true, auto_clean),
        cleans(false, false, auto_clean) == auto_clean,
{
}

/// What `scan` does with one matched build dir.
pub enum ScanStep {
    /// It already carries the exclusion: counted, left alone.
    AlreadyExcluded,
    /// A dry run: counted as one that would be excluded, nothing written.
    WouldExclude,
    /// Exclude it now.
    Exclude,
}

/// The step `scan` takes for a dir: one already excluded is skipped; on a
/// dry run the rest are only counted; otherwise they are excluded.
pub fn scan_step(already_excluded: bool, dry_run: bool) -> (s: ScanStep)
    ensures
        already_excluded ==> s is AlreadyExcluded,
        !already_excluded && dry_run ==> s is WouldExclude,
        !already_excluded && !dry_run ==> s is Exclude,
{
    if already_excluded {
        ScanStep::AlreadyExcluded
    } else if dry_run {
        ScanStep::WouldExclude
    } else {
        ScanStep::Exclude
    }
}

/// Whether `init` writes the starter config: when none exists, or when
/// `--force` is given.
pub fn should_write_config(present: bool, force: bool) -> (b: bool)
    ensures
        b == (!present || force),
{
    !present || force
}

/// How many denied paths a warning lists by name.
pub const DENIED_SHOWN: usize = 5;

/// How a warning about `count` denied paths is laid out: the first
/// `shown` are listed by name (at most five), and `more` are summed up as
/// "and N more".
pub fn denied_listing(count: usize) -> (r: (usize, usize))
    ensures
        r.0 == (if count < 5 { count } else { 5 }),
        r.1 == count - r.0,
{
    if count < DENIED_SHOWN {
        (count, 0)
    } else {
        (DENIED_SHOWN, count - DENIED_SHOWN)
    }
}

} // verus!
