//! Run counters for `scan` and `decay`.

use vstd::prelude::*;
use crate::cli::ScanStep;
use crate::decay::Candidate;

verus! {

/// What one `scan` did.
pub struct ScanStats {
    pub excluded_new: u64,
    pub skipped_existing: u64,
    pub errors: u64,
}

impl Default for ScanStats {
    fn default() -> (s: ScanStats)
        ensures
            s.excluded_new == 0,
            s.skipped_existing == 0,
            s.errors == 0,
    {
        ScanStats { excluded_new: 0, skipped_existing: 0, errors: 0 }
    }
}

impl ScanStats {
    /// Counts a dir that is (or, on a dry run, would be) newly excluded.
    pub fn count_new(&mut self)
        requires
            old(self).excluded_new < u64::MAX,
        ensures
            final(self).excluded_new == old(self).excluded_new + 1,
            final(self).skipped_existing == old(self).skipped_existing,
            final(self).errors == old(self).errors,
    {
        self.excluded_new = self.excluded_new + 1;
    }

    /// Counts a dir that already carried the exclusion.
    pub fn count_existing(&mut self)
        requires
            old(self).skipped_existing < u64::MAX,
        ensures
            final(self).skipped_existing == old(self).skipped_existing + 1,
            final(self).excluded_new == old(self).excluded_new,
            final(self).errors == old(self).errors,
    {
        self.skipped_existing = self.skipped_existing + 1;
    }

    /// Counts the outcome of one scan step: an excluded dir as existing, a
    /// dry-run dir as new, and a real exclusion as new when `excluded_ok`
    /// (the exclusion was written) and as an error otherwise.
    pub fn record(&mut self, step: &ScanStep, excluded_ok: bool)
        requires
            old(self).excluded_new < u64::MAX,
            old(self).skipped_existing < u64::MAX,
            old(self).errors < u64::MAX,
        ensures
            final(self).excluded_new == old(self).excluded_new + (if step is WouldExclude || (
            step is Exclude && excluded_ok) {
                1int
            } else {
                0
            }),
            final(self).skipped_existing == old(self).skipped_existing + (if step is AlreadyExcluded {
                1int
            } else {
                0
            }),
            final(self).errors == old(self).errors + (if step is Exclude && !excluded_ok {
                1int
            } else {
                0
            }),
    {
        match step {
            ScanStep::AlreadyExcluded => self.count_existing(),
            ScanStep::WouldExclude => self.count_new(),
            ScanStep::Exclude => {
                if excluded_ok {
                    self.count_new();
                } else {
                    self.count_error();
                }
            },
        }
    }

    /// Counts a dir whose exclusion failed.
    pub fn count_error(&mut self)
        requires
            old(self).errors < u64::MAX,
        ensures
            final(self).errors == old(self).errors + 1,
            final(self).excluded_new == old(self).excluded_new,
            final(self).skipped_existing == old(self).skipped_existing,
    {
        self.errors = self.errors + 1;
    }
}

/// What one `decay` did.
pub struct DecayStats {
    pub candidates: u64,
    pub trashed: u64,
    pub reclaimed_bytes: u64,
}

impl Default for DecayStats {
    fn default() -> (s: DecayStats)
        ensures
            s.candidates == 0,
            s.trashed == 0,
            s.reclaimed_bytes == 0,
    {
        DecayStats { candidates: 0, trashed: 0, reclaimed_bytes: 0 }
    }
}

impl DecayStats {
    /// Stats for a run with `candidates` candidates and nothing trashed yet.
    pub fn with_candidates(candidates: u64) -> (s: DecayStats)
        ensures
            s.candidates == candidates,
            s.trashed == 0,
            s.reclaimed_bytes == 0,
    {
        DecayStats { candidates, trashed: 0, reclaimed_bytes: 0 }
    }

    /// Records that `c` went to the Trash: it is marked trashed, and its size
    /// is added to the reclaimed bytes.
    pub fn record_trashed(&mut self, c: &mut Candidate)
        requires
            old(self).trashed < u64::MAX,
            old(self).reclaimed_bytes + old(c).size_bytes <= u64::MAX,
        ensures
            final(self).trashed == old(self).trashed + 1,
            final(self).reclaimed_bytes == old(self).reclaimed_bytes + old(c).size_bytes,
            final(self).candidates == old(self).candidates,
            final(c).trashed,
            final(c).path == old(c).path,
            final(c).rule == old(c).rule,
            final(c).size_bytes == old(c).size_bytes,
            final(c).age_days == old(c).age_days,
    {
        c.trashed = true;
        self.trashed = self.trashed + 1;
        self.reclaimed_bytes = self.reclaimed_bytes + c.size_bytes;
    }
}

} // verus!
