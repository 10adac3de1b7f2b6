//! Failed systemd units: their names from `systemctl --failed` output.
use vstd::prelude::*;
use crate::text::{copy_str, push_str, decimal, decimal_string, joined, join};
use crate::tokens::{views, pieces, first_words, first_word_of_lines};

verus! {

/// The failed units that `systemctl --failed --no-legend --plain` lists:
/// the first word of each line that has one.
pub fn list_failed_units(output: &str) -> (units: Vec<String>)
    ensures
        views(units@) == first_words(pieces(output@, '\n')),
{
    first_word_of_lines(output)
}

/// The note on the failed `units`: the list (for a restart, the units it
/// would restart), or that there are none.
pub open spec fn failed_notes_text(units: Seq<Seq<char>>, restart: bool) -> Seq<char> {
    if units.len() == 0 {
        "no failed units"@
    } else {
        (if restart {
            "would restart: "@
        } else {
            "failed units: "@
        }) + joined(units, ", "@)
    }
}

/// The note of an inspection of the failed units.
pub fn failed_notes(units: &Vec<String>, restart: bool) -> (r: String)
    ensures
        r@ == failed_notes_text(views(units@), restart),
{
    if units.len() == 0 {
        return copy_str("no failed units");
    }
    let mut r = if restart {
        copy_str("would restart: ")
    } else {
        copy_str("failed units: ")
    };
    let j = join(units, ", ");
    assert(units@.map_values(|p: String| p@) =~= views(units@));
    push_str(&mut r, j.as_str());
    r
}

/// The dry-run note of a reset: how many units, and which.
pub fn reset_dry_run_note(units: &Vec<String>) -> (r: String)
    ensures
        r@ == "dry-run: would reset "@ + decimal(units@.len() as nat) + " failed units: "@ + joined(
            views(units@),
            ", "@,
        ),
{
    let mut r = copy_str("dry-run: would reset ");
    push_str(&mut r, decimal_string(units.len() as u64).as_str());
    push_str(&mut r, " failed units: ");
    let j = join(units, ", ");
    assert(units@.map_values(|p: String| p@) =~= views(units@));
    push_str(&mut r, j.as_str());
    r
}

/// The dry-run note of a restart of `count` units.
pub fn restart_dry_run_note(count: u64) -> (r: String)
    ensures
        r@ == "dry-run: would restart "@ + decimal(count as nat) + " failed units"@,
{
    let mut r = copy_str("dry-run: would restart ");
    push_str(&mut r, decimal_string(count).as_str());
    push_str(&mut r, " failed units");
    r
}

} // verus!
