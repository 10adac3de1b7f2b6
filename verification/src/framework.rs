//! The records every cleanup target produces: its safety tier, what an
//! inspection found, and what an apply did.
use vstd::prelude::*;

use crate::text::copy_str;

verus! {

/// How much care a variant's apply needs.
#[derive(Debug, Clone, Copy, PartialEq, Eq, Structural)]
pub enum Tier {
    Safe,
    Confirm,
    Risky,
    ReportOnly,
}

/// The tier's name in reports (`report-only` with a hyphen).
pub open spec fn tier_text(t: Tier) -> Seq<char> {
    match t {
        Tier::Safe => "safe"@,
        Tier::Confirm => "confirm"@,
        Tier::Risky => "risky"@,
        Tier::ReportOnly => "report-only"@,
    }
}

/// The tier's name in reports.
pub fn tier_label(t: Tier) -> (r: &'static str)
    ensures
        r@ == tier_text(t),
{
    match t {
        Tier::Safe => "safe",
        Tier::Confirm => "confirm",
        Tier::Risky => "risky",
        Tier::ReportOnly => "report-only",
    }
}

/// Ordering rank of a tier: safer first.
pub open spec fn tier_rank(t: Tier) -> nat {
    match t {
        Tier::Safe => 0,
        Tier::Confirm => 1,
        Tier::Risky => 2,
        Tier::ReportOnly => 3,
    }
}

/// Ordering rank of a tier: safer first.
pub fn tier_priority(t: Tier) -> (r: u8)
    ensures
        r as nat == tier_rank(t),
{
    match t {
        Tier::Safe => 0,
        Tier::Confirm => 1,
        Tier::Risky => 2,
        Tier::ReportOnly => 3,
    }
}

/// What an inspection of one variant found.
#[derive(Debug)]
pub struct Inspection {
    pub framework: String,
    pub variant: String,
    pub path: String,
    pub size_bytes: Option<u64>,
    pub age_oldest_days: Option<u32>,
    pub would_remove: u64,
    pub notes: String,
}

/// What an apply (or its dry run) of one variant did.
#[derive(Debug)]
pub struct ApplyReport {
    pub framework: String,
    pub variant: String,
    pub removed: u64,
    pub freed_bytes: u64,
    pub skipped: u64,
    pub errors: Vec<String>,
}

/// How an apply is being run.
#[derive(Debug, Clone, Copy)]
pub struct ApplyCtx {
    pub dry_run: bool,
    pub force: bool,
}

/// A report that changed nothing and has nothing to say.
pub fn empty_report(framework: &str, variant: &str) -> (r: ApplyReport)
    ensures
        r.framework@ == framework@,
        r.variant@ == variant@,
        r.removed == 0,
        r.freed_bytes == 0,
        r.skipped == 0,
        r.errors@.len() == 0,
{
    ApplyReport {
        framework: copy_str(framework),
        variant: copy_str(variant),
        removed: 0,
        freed_bytes: 0,
        skipped: 0,
        errors: Vec::new(),
    }
}

/// A dry-run report: nothing removed, `skipped` items pending, one note.
pub fn dry_run_report(framework: &str, variant: &str, skipped: u64, note: String) -> (r:
    ApplyReport)
    ensures
        r.framework@ == framework@,
        r.variant@ == variant@,
        r.removed == 0,
        r.freed_bytes == 0,
        r.skipped == skipped,
        r.errors@.len() == 1,
        r.errors@[0]@ == note@,
{
    let mut errors: Vec<String> = Vec::new();
    errors.push(note);
    ApplyReport {
        framework: copy_str(framework),
        variant: copy_str(variant),
        removed: 0,
        freed_bytes: 0,
        skipped,
        errors,
    }
}

/// A report of a completed apply.
pub fn done_report(
    framework: &str,
    variant: &str,
    removed: u64,
    freed_bytes: u64,
    errors: Vec<String>,
) -> (r: ApplyReport)
    ensures
        r.framework@ == framework@,
        r.variant@ == variant@,
        r.removed == removed,
        r.freed_bytes == freed_bytes,
        r.skipped == 0,
        r.errors@ == errors@,
{
    ApplyReport {
        framework: copy_str(framework),
        variant: copy_str(variant),
        removed,
        freed_bytes,
        skipped: 0,
        errors,
    }
}

} // verus!
