//! Build memory probe logs: which files are episode logs, how many a
//! monthly rotation keeps, and which it removes.
use vstd::prelude::*;
use crate::sort::{SortKey, stable_sort, stably_sorted};
use crate::text::{copy_str, push_str, has_suffix, decimal, decimal_string, scaled_text, scaled_size, ends_with};
use crate::tokens::views;

verus! {

broadcast use vstd::string::group_string_axioms;

/// Where the probe writes its episode logs.
pub const LOG_DIR: &'static str = "/var/log/build-memory";

/// How many of the newest episode files a rotation keeps.
pub const KEEP_NEWEST: usize = 3;

/// The episode logs (`*.jsonl`) of a directory listing, in order.
pub open spec fn jsonl_names(listing: Seq<Seq<char>>) -> Seq<Seq<char>>
    decreases listing.len(),
{
    if listing.len() == 0 {
        Seq::empty()
    } else if has_suffix(listing.last(), ".jsonl"@) {
        jsonl_names(listing.drop_last()).push(listing.last())
    } else {
        jsonl_names(listing.drop_last())
    }
}

/// The episode logs of a listing of the log directory.
pub fn jsonl_files(listing: &Vec<String>) -> (r: Vec<String>)
    ensures
        views(r@) == jsonl_names(views(listing@)),
{
    let ghost lv = views(listing@);
    let mut r: Vec<String> = Vec::new();
    let mut i: usize = 0;
    assert(lv.take(0) =~= Seq::<Seq<char>>::empty());
    while i < listing.len()
        invariant
            i <= listing@.len(),
            lv == views(listing@),
            views(r@) == jsonl_names(lv.take(i as int)),
        decreases listing.len() - i,
    {
        assert(lv.take(i + 1).drop_last() =~= lv.take(i as int));
        assert(lv.take(i + 1).last() == listing@[i as int]@);
        if ends_with(listing[i].as_str(), ".jsonl") {
            let ghost before = views(r@);
            r.push(copy_str(listing[i].as_str()));
            assert(views(r@) =~= before.push(listing@[i as int]@));
        }
        i = i + 1;
    }
    assert(lv.take(listing@.len() as int) =~= lv);
    r
}

/// How many files a rotation reports it would remove: all but the newest
/// three, and at least one.
pub fn rotate_would_remove(count: u64) -> (r: u64)
    ensures
        r == if count > 3 && count - 3 > 1 {
            (count - 3) as u64
        } else {
            1u64
        },
{
    let rest = count.saturating_sub(3);
    if rest > 1 {
        rest
    } else {
        1
    }
}

/// The note of a rotation inspection: the file count and their total size
/// in MiB with one decimal.
pub open spec fn rotate_notes_text(count: nat, total: nat) -> Seq<char> {
    decimal(count) + " episode files ("@ + scaled_text(total, 2) + " total)"@
}

/// The note of a rotation inspection.
pub fn rotate_notes(count: u64, total: u64) -> (r: String)
    ensures
        r@ == rotate_notes_text(count as nat, total as nat),
{
    let mut r = decimal_string(count);
    push_str(&mut r, " episode files (");
    push_str(&mut r, scaled_size(total, 2).as_str());
    push_str(&mut r, " total)");
    r
}

/// An episode log and its modification time (nanoseconds from the epoch),
/// where it could be read.
#[derive(Debug)]
pub struct LogFile {
    pub path: String,
    pub modified: Option<i128>,
}

/// `a` was modified after `b`; a known time is later than an unknown one.
pub open spec fn newer(a: Option<i128>, b: Option<i128>) -> bool {
    match (a, b) {
        (Some(x), Some(y)) => x > y,
        (Some(_), None) => true,
        (None, _) => false,
    }
}

/// Episode logs order newest first.
impl SortKey for LogFile {
    open spec fn key_lt(self, other: Self) -> bool {
        newer(self.modified, other.modified)
    }

    proof fn lemma_irreflexive(a: Self) {
    }

    proof fn lemma_transitive(a: Self, b: Self, c: Self) {
    }

    proof fn lemma_ties_transitive(a: Self, b: Self, c: Self) {
    }

    fn less(&self, other: &Self) -> (r: bool) {
        match (self.modified, other.modified) {
            (Some(x), Some(y)) => x > y,
            (Some(_), None) => true,
            (None, _) => false,
        }
    }
}

/// The files a rotation removes: all but the three newest (files of the
/// same age, or of unknown age, keep their listed order).
pub fn rotation_victims(files: Vec<LogFile>) -> (r: Vec<LogFile>)
    ensures
        exists|sorted: Seq<LogFile>, p: Seq<int>| #[trigger] stably_sorted(files@, sorted, p) && r@ == (if sorted.len()
            <= 3 {
            Seq::<LogFile>::empty()
        } else {
            sorted.skip(3)
        }),
{
    let ghost fv = files@;
    let sorted = stable_sort(files);
    let ghost sv = sorted@;
    assert(sv.len() == sorted.len());
    let ghost p = choose|p: Seq<int>| stably_sorted(fv, sv, p);
    let mut r: Vec<LogFile> = Vec::new();
    let mut rest = sorted;
    let mut k: usize = 0;
    while rest.len() > 0
        invariant
            k + rest@.len() == sv.len(),
            sv.len() <= usize::MAX,
            rest@ == sv.skip(k as int),
            r@ == (if k <= 3 {
                Seq::<LogFile>::empty()
            } else {
                sv.subrange(3, k as int)
            }),
        decreases rest.len(),
    {
        let f = rest.remove(0);
        assert(sv.skip(k as int)[0] == sv[k as int]);
        if k >= KEEP_NEWEST {
            let ghost before = r@;
            r.push(f);
            assert(r@ =~= sv.subrange(3, k + 1));
        }
        k = k + 1;
        assert(rest@ =~= sv.skip(k as int));
    }
    if k > 3 {
        assert(sv.subrange(3, k as int) =~= sv.skip(3));
    }
    assert(stably_sorted(fv, sv, p));
    r
}

} // verus!
