//! Stale top-level `/tmp` directories: which names qualify, when a directory
//! is stale, and how the candidates are reported.
use vstd::prelude::*;
use crate::framework::{ApplyReport, Inspection, dry_run_report};
use crate::reclaim::{total, lemma_total_prefix};
use crate::targets::opencode_scratch::{Candidate, candidate_sizes, oldest_candidate};
use crate::text::{copy_str, push_str, has_prefix, decimal, decimal_string, size_text, human_size, starts_with, same_chars};

verus! {

broadcast use vstd::string::group_string_axioms;

/// The directory whose top-level entries are considered.
pub const TMP_DIR: &'static str = "/tmp";

/// A directory is stale once it has not been modified for this many days.
pub const DEFAULT_MAX_AGE_DAYS: u64 = 1;

/// Nanoseconds in a day.
pub const DAY_NANOS: i128 = 86400000000000;

/// A pattern on entry names.
#[derive(Debug)]
pub enum NameMatch {
    /// Names that start with the text.
    Prefix(String),
    /// The name that equals the text.
    Exact(String),
}

/// `name` fits the pattern `p`.
pub open spec fn name_match(p: NameMatch, name: Seq<char>) -> bool {
    match p {
        NameMatch::Prefix(s) => has_prefix(name, s@),
        NameMatch::Exact(s) => name == s@,
    }
}

impl NameMatch {
    /// Whether `name` fits the pattern.
    pub fn matches(&self, name: &str) -> (r: bool)
        ensures
            r == name_match(*self, name@),
    {
        match self {
            NameMatch::Prefix(s) => starts_with(name, s.as_str()),
            NameMatch::Exact(s) => same_chars(name, s.as_str()),
        }
    }
}

/// `name` fits one of `ps`.
pub open spec fn any_match(ps: Seq<NameMatch>, name: Seq<char>) -> bool {
    exists|k: int| 0 <= k < ps.len() && name_match(#[trigger] ps[k], name)
}

/// Whether `name` fits one of the patterns.
pub fn matches_any(patterns: &Vec<NameMatch>, name: &str) -> (r: bool)
    ensures
        r == any_match(patterns@, name@),
{
    let mut i: usize = 0;
    while i < patterns.len()
        invariant
            i <= patterns@.len(),
            forall|k: int| 0 <= k < i ==> !name_match(#[trigger] patterns@[k], name@),
        decreases patterns.len() - i,
    {
        if patterns[i].matches(name) {
            return true;
        }
        i = i + 1;
    }
    false
}

/// The names `purge-nix-shell-dirs` removes: `nix-shell.*`.
pub fn nix_shell_patterns() -> (ps: Vec<NameMatch>)
    ensures
        forall|name: Seq<char>| any_match(ps@, name) <==> has_prefix(name, "nix-shell."@),
{
    let mut ps: Vec<NameMatch> = Vec::new();
    ps.push(NameMatch::Prefix(copy_str("nix-shell.")));
    assert forall|name: Seq<char>| any_match(ps@, name) <==> has_prefix(name, "nix-shell."@) by {
        if has_prefix(name, "nix-shell."@) {
            assert(name_match(ps@[0], name));
        }
    }
    ps
}

/// The names `purge-canix-preflight-temp` removes: `canix-preflight-*` and
/// `canix-cargo-check`.
pub fn canix_preflight_patterns() -> (ps: Vec<NameMatch>)
    ensures
        forall|name: Seq<char>| any_match(ps@, name) <==> (has_prefix(name, "canix-preflight-"@) || name
            == "canix-cargo-check"@),
{
    let mut ps: Vec<NameMatch> = Vec::new();
    ps.push(NameMatch::Prefix(copy_str("canix-preflight-")));
    ps.push(NameMatch::Exact(copy_str("canix-cargo-check")));
    assert forall|name: Seq<char>| any_match(ps@, name) <==> (has_prefix(name, "canix-preflight-"@) || name
        == "canix-cargo-check"@) by {
        if has_prefix(name, "canix-preflight-"@) {
            assert(name_match(ps@[0], name));
        }
        if name == "canix-cargo-check"@ {
            assert(name_match(ps@[1], name));
        }
    }
    ps
}

/// An entry (seen without following symlinks) is a stale directory: a
/// directory last modified before `cutoff`, an unknown modification time
/// counting as the epoch. Times are nanoseconds from the epoch.
pub open spec fn stale_dir(is_dir: bool, modified: Option<i128>, cutoff: i128) -> bool {
    is_dir && (match modified {
        Some(m) => m,
        None => 0,
    }) < cutoff
}

/// Whether the top-level entry `name` is a candidate: its name fits a
/// pattern and it is a stale directory.
pub fn qualifies(patterns: &Vec<NameMatch>, name: &str, is_dir: bool, modified: Option<i128>, cutoff: i128) -> (r:
    bool)
    ensures
        r == (any_match(patterns@, name@) && stale_dir(is_dir, modified, cutoff)),
{
    if !matches_any(patterns, name) || !is_dir {
        return false;
    }
    let m: i128 = match modified {
        Some(m) => m,
        None => 0,
    };
    m < cutoff
}

/// The cutoff for an age of `days` days at time `now`.
pub open spec fn cutoff_of(now: i128, days: u64) -> int {
    now - days * 86400000000000
}

/// The cutoff before which a modification makes an entry stale.
pub fn stale_cutoff(now: i128, days: u64) -> (c: i128)
    requires
        cutoff_of(now, days) >= i128::MIN,
    ensures
        c == cutoff_of(now, days),
{
    assert((days as int) * 86400000000000 <= 0xffffffffffffffffint * 86400000000000);
    now - (days as i128) * DAY_NANOS
}

/// Whole days from `then` to `now`, none when `then` lies ahead, and at
/// most `u32::MAX`.
pub open spec fn whole_days(now: i128, then: i128) -> u32 {
    if now <= then {
        0
    } else if (now - then) / 86400000000000 > u32::MAX {
        u32::MAX
    } else {
        ((now - then) / 86400000000000) as u32
    }
}

/// Whole days of age of something modified at `then`.
pub fn age_days(now: i128, then: i128) -> (d: u32)
    ensures
        d == whole_days(now, then),
{
    if now <= then {
        return 0;
    }
    let span: u128 = if then >= 0 || now < 0 {
        (now - then) as u128
    } else {
        (now as u128) + ((-(then + 1)) as u128) + 1
    };
    assert(span == now - then);
    let days: u128 = span / 86400000000000u128;
    if days > 4294967295u128 {
        u32::MAX
    } else {
        days as u32
    }
}

/// The note of an inspection of `count` stale directories of `bytes`.
pub open spec fn stale_notes(label: Seq<char>, count: nat, bytes: nat) -> Seq<char> {
    label + ": "@ + decimal(count) + " directories older than "@ + decimal(DEFAULT_MAX_AGE_DAYS as nat)
        + " day, "@ + size_text(bytes)
}

/// The inspection of the stale directories `candidates`: their total size,
/// largest age and count, under `/tmp`.
pub fn inspection(framework: &str, variant: &str, candidates: &Vec<Candidate>, label: &str) -> (r: Inspection)
    requires
        total(candidate_sizes(candidates@)) <= u64::MAX,
    ensures
        r.framework@ == framework@,
        r.variant@ == variant@,
        r.path@ == TMP_DIR@,
        r.size_bytes == Some(total(candidate_sizes(candidates@)) as u64),
        r.age_oldest_days == oldest_candidate(candidates@),
        r.would_remove == candidates@.len(),
        r.notes@ == stale_notes(label@, candidates@.len() as nat, total(candidate_sizes(candidates@))),
{
    let ghost cv = candidates@;
    let ghost sz = candidate_sizes(cv);
    let mut bytes: u64 = 0;
    let mut oldest: Option<u32> = None;
    let mut i: usize = 0;
    assert(sz.take(0) =~= Seq::<nat>::empty());
    assert(cv.take(0) =~= Seq::<Candidate>::empty());
    while i < candidates.len()
        invariant
            i <= cv.len(),
            cv == candidates@,
            sz == candidate_sizes(cv),
            total(sz) <= u64::MAX,
            bytes as nat == total(sz.take(i as int)),
            oldest == oldest_candidate(cv.take(i as int)),
        decreases candidates.len() - i,
    {
        proof {
            assert(sz.take(i + 1).drop_last() =~= sz.take(i as int));
            assert(cv.take(i + 1).drop_last() =~= cv.take(i as int));
            lemma_total_prefix(sz, i + 1);
        }
        let c = &candidates[i];
        bytes = bytes + c.bytes;
        oldest = match oldest {
            Some(a) => Some(if a > c.age_days {
                a
            } else {
                c.age_days
            }),
            None => Some(c.age_days),
        };
        i = i + 1;
    }
    assert(sz.take(cv.len() as int) =~= sz);
    assert(cv.take(cv.len() as int) =~= cv);
    let mut notes = copy_str(label);
    push_str(&mut notes, ": ");
    push_str(&mut notes, decimal_string(candidates.len() as u64).as_str());
    push_str(&mut notes, " directories older than ");
    push_str(&mut notes, decimal_string(DEFAULT_MAX_AGE_DAYS).as_str());
    push_str(&mut notes, " day, ");
    push_str(&mut notes, human_size(bytes).as_str());
    assert(notes@ =~= stale_notes(label@, cv.len() as nat, total(sz)));
    Inspection {
        framework: copy_str(framework),
        variant: copy_str(variant),
        path: copy_str(TMP_DIR),
        size_bytes: Some(bytes),
        age_oldest_days: oldest,
        would_remove: candidates.len() as u64,
        notes,
    }
}

/// What a dry run of the removal reports: the candidates pending, and a
/// note with their count and total size.
pub fn dry_run(framework: &str, variant: &str, candidates: &Vec<Candidate>) -> (r: ApplyReport)
    requires
        total(candidate_sizes(candidates@)) <= u64::MAX,
    ensures
        r.framework@ == framework@,
        r.variant@ == variant@,
        r.removed == 0,
        r.freed_bytes == 0,
        r.skipped == candidates@.len(),
        r.errors@.len() == 1,
        r.errors@[0]@ == "dry-run: would remove "@ + decimal(candidates@.len() as nat)
            + " stale /tmp directories ("@ + size_text(total(candidate_sizes(candidates@))) + ")"@,
{
    let ghost sz = candidate_sizes(candidates@);
    let mut bytes: u64 = 0;
    let mut i: usize = 0;
    assert(sz.take(0) =~= Seq::<nat>::empty());
    while i < candidates.len()
        invariant
            i <= candidates@.len(),
            sz == candidate_sizes(candidates@),
            total(sz) <= u64::MAX,
            bytes as nat == total(sz.take(i as int)),
        decreases candidates.len() - i,
    {
        proof {
            assert(sz.take(i + 1).drop_last() =~= sz.take(i as int));
            lemma_total_prefix(sz, i + 1);
        }
        bytes = bytes + candidates[i].bytes;
        i = i + 1;
    }
    assert(sz.take(candidates@.len() as int) =~= sz);
    let mut note = copy_str("dry-run: would remove ");
    push_str(&mut note, decimal_string(candidates.len() as u64).as_str());
    push_str(&mut note, " stale /tmp directories (");
    push_str(&mut note, human_size(bytes).as_str());
    push_str(&mut note, ")");
    let ghost expect = "dry-run: would remove "@ + decimal(candidates@.len() as nat) + " stale /tmp directories ("@
        + size_text(total(sz)) + ")"@;
    assert(note@ =~= expect);
    dry_run_report(framework, variant, candidates.len() as u64, note)
}

} // verus!
