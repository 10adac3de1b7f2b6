//! Canix rebuild logs: which files are stale logs, how old the oldest is,
//! and how the purge reports them.
use vstd::prelude::*;
use crate::targets::tmp_stale::{whole_days, age_days};
use crate::text::{copy_str, push_str, has_suffix, decimal, decimal_string, chars_of, ends_with};

verus! {

broadcast use vstd::string::group_string_axioms;

/// The log directory unless the settings say otherwise.
pub const DEFAULT_PATH: &'static str = "/data/nvme0/can/Projects/canix/logs";

/// Logs older than this many days are purged unless the settings say
/// otherwise.
pub const DEFAULT_MAX_AGE_DAYS: u32 = 14;

/// A file name with the extension `txt` (`Path::extension`: the text after
/// the last dot, where that dot does not start the name).
pub open spec fn txt_name(name: Seq<char>) -> bool {
    has_suffix(name, ".txt"@) && name.len() > 4
}

/// A stale log: a `.txt` file modified before `cutoff`, or whose
/// modification time cannot be read (nanoseconds from the epoch).
pub open spec fn stale_log(name: Seq<char>, modified: Option<i128>, cutoff: i128) -> bool {
    txt_name(name) && match modified {
        Some(m) => m < cutoff,
        None => true,
    }
}

/// Whether the file `name` is a stale log.
pub fn is_stale_log(name: &str, modified: Option<i128>, cutoff: i128) -> (r: bool)
    ensures
        r == stale_log(name@, modified, cutoff),
{
    proof {
        reveal_strlit(".txt");
    }
    if !ends_with(name, ".txt") || chars_of(name).len() <= 4 {
        return false;
    }
    match modified {
        Some(m) => m < cutoff,
        None => true,
    }
}

/// The largest age in whole days at `now` of files modified at `times`.
pub open spec fn oldest_age_of(now: i128, times: Seq<i128>) -> Option<u32>
    decreases times.len(),
{
    if times.len() == 0 {
        None
    } else {
        let d = whole_days(now, times.last());
        match oldest_age_of(now, times.drop_last()) {
            Some(a) => Some(if a > d {
                a
            } else {
                d
            }),
            None => Some(d),
        }
    }
}

/// The age of the oldest of the files modified at `times`.
pub fn oldest_age(now: i128, times: &Vec<i128>) -> (r: Option<u32>)
    ensures
        r == oldest_age_of(now, times@),
{
    let mut r: Option<u32> = None;
    let mut i: usize = 0;
    assert(times@.take(0) =~= Seq::<i128>::empty());
    while i < times.len()
        invariant
            i <= times@.len(),
            r == oldest_age_of(now, times@.take(i as int)),
        decreases times.len() - i,
    {
        assert(times@.take(i + 1).drop_last() =~= times@.take(i as int));
        assert(times@.take(i + 1).last() == times@[i as int]);
        let d = age_days(now, times[i]);
        r = match r {
            Some(a) => Some(if a > d {
                a
            } else {
                d
            }),
            None => Some(d),
        };
        i = i + 1;
    }
    assert(times@.take(times@.len() as int) =~= times@);
    r
}

/// The note on `count` stale logs older than `days` days.
pub open spec fn log_notes_text(count: nat, days: nat) -> Seq<char> {
    decimal(count) + " rebuild log files older than "@ + decimal(days) + " days"@
}

/// The note of an inspection.
pub fn log_notes(count: u64, days: u32) -> (r: String)
    ensures
        r@ == log_notes_text(count as nat, days as nat),
{
    let mut r = decimal_string(count);
    push_str(&mut r, " rebuild log files older than ");
    push_str(&mut r, decimal_string(days as u64).as_str());
    push_str(&mut r, " days");
    r
}

/// The note of a dry run.
pub fn dry_run_note(count: u64, days: u32) -> (r: String)
    ensures
        r@ == "dry-run: would remove "@ + log_notes_text(count as nat, days as nat),
{
    let mut r = copy_str("dry-run: would remove ");
    push_str(&mut r, log_notes(count, days).as_str());
    r
}

/// Empty directories are pruned deepest first, at depths 2, 1 and 0 below
/// the log directory; a directory goes in the pass for its own depth,
/// never the log directory itself.
pub fn prune_here(depth: usize, pass_depth: usize) -> (r: bool)
    ensures
        r == (depth == pass_depth && depth > 0),
{
    depth == pass_depth && depth > 0
}

} // verus!
