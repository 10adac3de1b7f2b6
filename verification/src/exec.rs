//! Bounded directory-size scans (the running record that a walk keeps, and
//! the total over several paths) and the per-entry decision of age-based
//! pruning. The walks themselves read the filesystem and belong to the
//! caller.
use vstd::prelude::*;

verus! {

/// What a bounded scan saw: bytes of non-directory entries, entries
/// counted, and whether the budget (or an error) cut it short.
#[derive(Debug, Clone, Copy)]
pub struct DirScan {
    pub bytes: u64,
    pub entries: u64,
    pub truncated: bool,
}

impl Default for DirScan {
    fn default() -> (r: DirScan)
        ensures
            r.bytes == 0,
            r.entries == 0,
            !r.truncated,
    {
        DirScan { bytes: 0, entries: 0, truncated: false }
    }
}

/// `a + b`, or `u64::MAX` where that overflows.
pub open spec fn sat(a: u64, b: u64) -> u64 {
    if a + b > u64::MAX {
        u64::MAX
    } else {
        (a + b) as u64
    }
}

/// Whether the walk may look at one more entry. When `max_entries` have
/// been counted the scan is marked truncated and the walk stops.
pub fn budget_left(scan: &mut DirScan, max_entries: u64) -> (r: bool)
    ensures
        r == (old(scan).entries < max_entries),
        final(scan).bytes == old(scan).bytes,
        final(scan).entries == old(scan).entries,
        final(scan).truncated == (old(scan).truncated || !r),
{
    if scan.entries >= max_entries {
        scan.truncated = true;
        false
    } else {
        true
    }
}

/// Counts one entry the walk met: its length is added (saturating) unless
/// it is a directory, which the walk descends into instead.
pub fn count_entry(scan: &mut DirScan, is_dir: bool, len: u64)
    requires
        old(scan).entries < u64::MAX,
    ensures
        final(scan).entries == old(scan).entries + 1,
        final(scan).bytes == if is_dir {
            old(scan).bytes
        } else {
            sat(old(scan).bytes, len)
        },
        final(scan).truncated == old(scan).truncated,
{
    scan.entries = scan.entries + 1;
    if !is_dir {
        scan.bytes = scan.bytes.saturating_add(len);
    }
}

/// `total` with one more path's scan added: bytes and entries saturate, a
/// truncated scan keeps the total truncated, and a path that could not be
/// scanned (`None`) marks it truncated.
pub open spec fn with_scan(total: DirScan, scan: Option<DirScan>) -> DirScan {
    match scan {
        Some(s) => DirScan {
            bytes: sat(total.bytes, s.bytes),
            entries: sat(total.entries, s.entries),
            truncated: total.truncated || s.truncated,
        },
        None => DirScan { truncated: true, ..total },
    }
}

/// The total over the scans of several paths, in order.
pub open spec fn scans_total(scans: Seq<Option<DirScan>>) -> DirScan
    decreases scans.len(),
{
    if scans.len() == 0 {
        DirScan { bytes: 0, entries: 0, truncated: false }
    } else {
        with_scan(scans_total(scans.drop_last()), scans.last())
    }
}

/// The total over the bounded scans of several paths (`None` where a path
/// could not be scanned).
pub fn total_paths_size_bounded(scans: &Vec<Option<DirScan>>) -> (total: DirScan)
    ensures
        total == scans_total(scans@),
{
    let mut total = DirScan { bytes: 0, entries: 0, truncated: false };
    let mut i: usize = 0;
    assert(scans@.take(0) =~= Seq::<Option<DirScan>>::empty());
    while i < scans.len()
        invariant
            i <= scans@.len(),
            total == scans_total(scans@.take(i as int)),
        decreases scans.len() - i,
    {
        assert(scans@.take(i + 1).drop_last() =~= scans@.take(i as int));
        match scans[i] {
            Some(s) => {
                total = DirScan {
                    bytes: total.bytes.saturating_add(s.bytes),
                    entries: total.entries.saturating_add(s.entries),
                    truncated: total.truncated || s.truncated,
                };
            },
            None => {
                total.truncated = true;
            },
        }
        i = i + 1;
    }
    assert(scans@.take(scans@.len() as int) =~= scans@);
    total
}

/// A total over several paths is truncated exactly when one of the paths
/// could not be scanned or its scan was cut short.
pub proof fn lemma_total_truncated(scans: Seq<Option<DirScan>>)
    ensures
        scans_total(scans).truncated <==> exists|i: int|
            0 <= i < scans.len() && (#[trigger] scans[i] is None || scans[i]->0.truncated),
    decreases scans.len(),
{
    if scans.len() > 0 {
        let prev = scans.drop_last();
        lemma_total_truncated(prev);
        if exists|i: int| 0 <= i < prev.len() && (#[trigger] prev[i] is None || prev[i]->0.truncated) {
            let i = choose|i: int| 0 <= i < prev.len() && (#[trigger] prev[i] is None || prev[i]->0.truncated);
            assert(scans[i] == prev[i]);
        }
        if exists|i: int| 0 <= i < scans.len() && (#[trigger] scans[i] is None || scans[i]->0.truncated) {
            let i = choose|i: int| 0 <= i < scans.len() && (#[trigger] scans[i] is None || scans[i]->0.truncated);
            if i < prev.len() {
                assert(prev[i] == scans[i]);
            }
        }
    }
}

/// What age-based pruning does with one directory entry.
#[derive(Debug, Clone, Copy, PartialEq, Eq, Structural)]
pub enum StaleAction {
    /// Left alone: a symlink or special file (never followed), or
    /// modified recently enough.
    Keep,
    /// A stale directory: pruned inside first (when `descend`), then
    /// removed whole.
    RemoveDir { descend: bool },
    /// A stale file: removed.
    RemoveFile,
}

/// The action on an entry of the kind given (seen without following
/// symlinks), modified at `modified` (nanoseconds from the epoch; the
/// epoch where unknown), at `depth` below the pruned directory.
pub open spec fn stale_action_of(
    is_symlink: bool,
    is_dir: bool,
    is_file: bool,
    modified: Option<i128>,
    cutoff: i128,
    depth: u32,
    max_depth: u32,
) -> StaleAction {
    let m = match modified {
        Some(m) => m,
        None => 0,
    };
    if is_symlink || (!is_dir && !is_file) || m >= cutoff {
        StaleAction::Keep
    } else if is_dir {
        StaleAction::RemoveDir { descend: depth < max_depth }
    } else {
        StaleAction::RemoveFile
    }
}

/// The action age-based pruning takes on one entry.
pub fn stale_action(
    is_symlink: bool,
    is_dir: bool,
    is_file: bool,
    modified: Option<i128>,
    cutoff: i128,
    depth: u32,
    max_depth: u32,
) -> (a: StaleAction)
    ensures
        a == stale_action_of(is_symlink, is_dir, is_file, modified, cutoff, depth, max_depth),
        is_symlink || (!is_dir && !is_file) ==> a == StaleAction::Keep,
{
    let m: i128 = match modified {
        Some(m) => m,
        None => 0,
    };
    if is_symlink || (!is_dir && !is_file) || m >= cutoff {
        StaleAction::Keep
    } else if is_dir {
        StaleAction::RemoveDir { descend: depth < max_depth }
    } else {
        StaleAction::RemoveFile
    }
}

} // verus!
