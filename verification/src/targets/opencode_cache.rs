//! The opencode session caches under each user's data directory (tool
//! output, state snapshots and chat logs): what their inspections and
//! dry runs say. All three are report-only unless enabled.
use vstd::prelude::*;
use crate::text::{copy_str, push_str, decimal, decimal_string, human_size, size_text};

verus! {

broadcast use vstd::string::group_string_axioms;

/// The note of an opencode cache inspection: what it is and across how
/// many users' data directories.
pub fn disabled_notes(what: &str, users: u64) -> (r: String)
    ensures
        r@ == what@ + " across "@ + decimal(users as nat) + " users — disabled by default"@,
{
    let mut r = copy_str(what);
    push_str(&mut r, " across ");
    push_str(&mut r, decimal_string(users).as_str());
    push_str(&mut r, " users — disabled by default");
    r
}

/// `dry-run: report-only — would delete {what} ({size})`.
pub open spec fn report_only_text(what: Seq<char>, bytes: nat) -> Seq<char> {
    "dry-run: report-only — would delete "@ + what + " ("@ + size_text(bytes) + ")"@
}

fn report_only_note(what: String, bytes: u64) -> (r: String)
    ensures
        r@ == report_only_text(what@, bytes as nat),
{
    let mut r = copy_str("dry-run: report-only — would delete ");
    push_str(&mut r, what.as_str());
    push_str(&mut r, " (");
    push_str(&mut r, human_size(bytes).as_str());
    push_str(&mut r, ")");
    r
}

/// The dry-run note of the tool-output variant.
pub fn tool_output_dry_run_note(count: u64, bytes: u64) -> (r: String)
    ensures
        r@ == report_only_text(decimal(count as nat) + " tool output dirs"@, bytes as nat),
{
    let mut what = decimal_string(count);
    push_str(&mut what, " tool output dirs");
    report_only_note(what, bytes)
}

/// The dry-run note of the snapshot variant.
pub fn snapshot_dry_run_note(count: u64, bytes: u64) -> (r: String)
    ensures
        r@ == report_only_text(decimal(count as nat) + " snapshot files"@, bytes as nat),
{
    let mut what = decimal_string(count);
    push_str(&mut what, " snapshot files");
    report_only_note(what, bytes)
}

/// The dry-run note of the chat-log variant.
pub fn logs_dry_run_note(bytes: u64) -> (r: String)
    ensures
        r@ == report_only_text("opencode logs"@, bytes as nat),
{
    report_only_note(copy_str("opencode logs"), bytes)
}

} // verus!
