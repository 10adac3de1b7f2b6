//! Metadata-only analysis of agent scratch space: what each observed entry
//! adds to its top-level record, the issue log, and how the report ranks,
//! filters and bounds what it shows.
//!
//! The walk opens directories and reads metadata; it hands each result to
//! these functions, which decide what the walk does next.
use vstd::prelude::*;
use crate::text::{copy_str, push_str, same_chars, seq_lt, str_lt, lemma_seq_lt_irreflexive, lemma_seq_lt_transitive, lemma_seq_lt_total};
use crate::tokens::{views, opt_view, copy_opt};
use crate::sort::{SortKey, stable_sort, stably_sorted, is_permutation, stable_before};
use crate::reclaim::{total, lemma_total_prefix};

verus! {

broadcast use vstd::string::group_string_axioms;

/// How entries are ranked.
#[derive(Debug, Clone, Copy, PartialEq, Eq, Structural)]
pub enum SortMode {
    /// Largest logical size first.
    Size,
    /// Least recent activity first.
    Oldest,
}

impl SortMode {
    /// The mode's name (`size` or `oldest`).
    pub fn label(&self) -> (r: &'static str)
        ensures
            r@ == (match self {
                SortMode::Size => "size"@,
                SortMode::Oldest => "oldest"@,
            }),
    {
        match self {
            SortMode::Size => "size",
            SortMode::Oldest => "oldest",
        }
    }
}

/// The options of `analyze opencode`.
#[derive(Debug, Clone)]
pub struct Options {
    pub path: String,
    pub json: bool,
    pub older_than_days: Option<u32>,
    pub limit: u32,
    pub max_entries: u32,
    pub max_depth: u32,
    pub inventory: bool,
    pub sort: SortMode,
    pub max_issues: u32,
}

/// The `analyze` subcommands.
#[derive(Debug, Clone)]
pub enum Agent {
    /// Inspect OpenCode scratch metadata.
    Opencode(Options),
}

/// What the scan found under one top-level entry. `name` is the entry's
/// file name under the scanned root, `path` the root joined with it.
#[derive(Debug)]
pub struct Entry {
    pub path: String,
    pub name: String,
    pub entry_kind: String,
    pub logical_bytes: u64,
    pub observed_entries: u64,
    pub nested_skipped: u64,
    pub direct_age_days: Option<u64>,
    pub oldest_age_days: Option<u64>,
    pub newest_age_days: Option<u64>,
    pub complete: bool,
    pub skipped_reason: Option<String>,
}

impl Entry {
    /// A record for a top-level entry that nothing has been observed of.
    pub fn stub(path: String, name: String) -> (r: Entry)
        ensures
            r.path == path,
            r.name == name,
            r.entry_kind@ == "unknown"@,
            r.logical_bytes == 0,
            r.observed_entries == 0,
            r.nested_skipped == 0,
            r.direct_age_days is None,
            r.oldest_age_days is None,
            r.newest_age_days is None,
            r.complete,
            r.skipped_reason is None,
    {
        Entry {
            path,
            name,
            entry_kind: copy_str("unknown"),
            logical_bytes: 0,
            observed_entries: 0,
            nested_skipped: 0,
            direct_age_days: None,
            oldest_age_days: None,
            newest_age_days: None,
            complete: true,
            skipped_reason: None,
        }
    }
}

/// The metadata of one observed filesystem entry, as the walk read it.
#[derive(Debug, Clone, Copy)]
pub struct Meta {
    pub is_file: bool,
    pub is_dir: bool,
    pub is_symlink: bool,
    pub dev: u64,
    /// Whole days since modification, where the time was readable.
    pub age_days: Option<u64>,
    pub len: u64,
}

/// The kind an entry's metadata shows.
pub open spec fn kind_text(m: Meta) -> Seq<char> {
    if m.is_file {
        "file"@
    } else if m.is_dir {
        "directory"@
    } else if m.is_symlink {
        "symlink"@
    } else {
        "other"@
    }
}

/// The kind of an entry.
pub fn kind_of(m: &Meta) -> (r: &'static str)
    ensures
        r@ == kind_text(*m),
{
    if m.is_file {
        "file"
    } else if m.is_dir {
        "directory"
    } else if m.is_symlink {
        "symlink"
    } else {
        "other"
    }
}

// ---------------------------------------------------------------------------
// The issue log
// ---------------------------------------------------------------------------

/// Notes on what the scan skipped or could not do, and how many there were
/// of each reason (ascending by reason, each reason once).
#[derive(Debug)]
pub struct IssueLog {
    pub issues: Vec<String>,
    pub counts: Vec<(String, usize)>,
}

/// The reasons of a count table.
pub open spec fn reasons(counts: Seq<(String, usize)>) -> Seq<Seq<char>> {
    counts.map_values(|c: (String, usize)| c.0@)
}

/// The count recorded for `key`, 0 when there is none.
pub open spec fn count_of(counts: Seq<(String, usize)>, key: Seq<char>) -> nat
    decreases counts.len(),
{
    if counts.len() == 0 {
        0
    } else if counts.last().0@ == key {
        counts.last().1 as nat
    } else {
        count_of(counts.drop_last(), key)
    }
}

/// The sum of the counts of a count table.
pub open spec fn counts_total(counts: Seq<(String, usize)>) -> nat
    decreases counts.len(),
{
    if counts.len() == 0 {
        0
    } else {
        counts_total(counts.drop_last()) + counts.last().1 as nat
    }
}

/// A count table is well formed: reasons ascending (so each once), every
/// count positive and at most the number of notes, and the counts adding
/// up to the number of notes.
pub open spec fn log_wf(log: IssueLog) -> bool {
    &&& counts_total(log.counts@) == log.issues@.len()
    &&& forall|a: int, b: int| 0 <= a < b < log.counts@.len() ==> seq_lt(
        #[trigger] reasons(log.counts@)[a],
        #[trigger] reasons(log.counts@)[b],
    )
    &&& forall|k: int| 0 <= k < log.counts@.len() ==> 0 < (#[trigger] log.counts@[k]).1 <= log.issues@.len()
}

/// The count recorded at a position of a well-ordered table.
pub proof fn lemma_count_of_at(counts: Seq<(String, usize)>, k: int)
    requires
        0 <= k < counts.len(),
        forall|a: int, b: int| 0 <= a < b < counts.len() ==> seq_lt(#[trigger] reasons(counts)[a], #[trigger] reasons(counts)[b]),
    ensures
        count_of(counts, counts[k].0@) == counts[k].1,
    decreases counts.len(),
{
    if k < counts.len() - 1 {
        assert(reasons(counts)[k] == counts[k].0@);
        assert(reasons(counts)[counts.len() - 1] == counts.last().0@);
        lemma_seq_lt_irreflexive(counts[k].0@);
        assert(reasons(counts.drop_last()) =~= reasons(counts).drop_last());
        lemma_count_of_at(counts.drop_last(), k);
    }
}

proof fn lemma_count_of_absent(counts: Seq<(String, usize)>, key: Seq<char>)
    requires
        !reasons(counts).contains(key),
    ensures
        count_of(counts, key) == 0,
    decreases counts.len(),
{
    if counts.len() > 0 {
        assert(reasons(counts)[counts.len() - 1] == counts.last().0@);
        assert(reasons(counts.drop_last()) =~= reasons(counts).drop_last());
        lemma_count_of_absent(counts.drop_last(), key);
    }
}

impl IssueLog {
    /// An empty log.
    pub fn new() -> (r: IssueLog)
        ensures
            log_wf(r),
            r.issues@.len() == 0,
            r.counts@.len() == 0,
    {
        IssueLog { issues: Vec::new(), counts: Vec::new() }
    }

    /// Records a note under `key`: the note is appended and the key's count
    /// goes up by one; other counts stay.
    pub fn record(&mut self, key: &str, message: String)
        requires
            log_wf(*old(self)),
            old(self).issues@.len() < usize::MAX,
        ensures
            log_wf(*final(self)),
            final(self).issues@ == old(self).issues@.push(message),
            count_of(final(self).counts@, key@) == count_of(old(self).counts@, key@) + 1,
            forall|k: Seq<char>| k != key@ ==> count_of(final(self).counts@, k) == count_of(old(self).counts@, k),
            forall|k: Seq<char>| reasons(final(self).counts@).contains(k) <==> (reasons(old(self).counts@).contains(k)
                || k == key@),
    {
        let ghost old_c = self.counts@;
        let ghost n = self.issues@.len();
        self.issues.push(message);
        let mut j: usize = 0;
        while j < self.counts.len() && str_lt(self.counts[j].0.as_str(), key)
            invariant
                j <= self.counts@.len(),
                self.counts@ == old_c,
                forall|a: int| 0 <= a < j ==> seq_lt(#[trigger] reasons(old_c)[a], key@),
            decreases self.counts.len() - j,
        {
            assert(reasons(old_c)[j as int] == old_c[j as int].0@);
            j = j + 1;
        }
        if j < self.counts.len() && same_chars(self.counts[j].0.as_str(), key) {
            let c = self.counts[j].1;
            let name = copy_str(key);
            self.counts.set(j, (name, c + 1));
            proof {
                let nc = self.counts@;
                assert(reasons(old_c)[j as int] == key@);
                assert(reasons(nc) =~= reasons(old_c));
                assert forall|k: Seq<char>| k != key@ implies count_of(nc, k) == count_of(old_c, k) by {
                    lemma_count_of_update(old_c, nc, j as int, k);
                }
                lemma_count_of_at(old_c, j as int);
                lemma_count_of_at(nc, j as int);
                lemma_total_update(old_c, nc, j as int);
            }
            return;
        }
        proof {
            if j < old_c.len() {
                lemma_seq_lt_total(reasons(old_c)[j as int], key@);
            }
            assert(!reasons(old_c).contains(key@)) by {
                if reasons(old_c).contains(key@) {
                    let k = choose|k: int| 0 <= k < reasons(old_c).len() && reasons(old_c)[k] == key@;
                    if k < j {
                        lemma_seq_lt_irreflexive(key@);
                    } else if k > j {
                        lemma_seq_lt_transitive(key@, reasons(old_c)[j as int], reasons(old_c)[k]);
                        lemma_seq_lt_irreflexive(key@);
                    }
                }
            }
            lemma_count_of_absent(old_c, key@);
        }
        self.counts.insert(j, (copy_str(key), 1));
        proof {
            let nc = self.counts@;
            let rv = reasons(old_c);
            assert(reasons(nc) =~= rv.insert(j as int, key@));
            assert forall|a: int, b: int| 0 <= a < b < nc.len() implies seq_lt(
                #[trigger] reasons(nc)[a],
                #[trigger] reasons(nc)[b],
            ) by {
                if b == j {
                } else if a == j {
                    if b > j + 1 {
                        lemma_seq_lt_transitive(key@, rv[j as int], rv[b - 1]);
                    }
                } else if a < j && b > j {
                    if b - 1 > j {
                        lemma_seq_lt_transitive(key@, rv[j as int], rv[b - 1]);
                    }
                    lemma_seq_lt_transitive(rv[a], key@, rv[b - 1]);
                }
            }
            lemma_count_of_at(nc, j as int);
            lemma_total_insert(old_c, nc, j as int);
            assert forall|k: Seq<char>| k != key@ implies count_of(nc, k) == count_of(old_c, k) by {
                lemma_count_of_insert(old_c, nc, j as int, k);
            }
            assert forall|k: Seq<char>| reasons(nc).contains(k) <==> (rv.contains(k) || k == key@) by {
                if reasons(nc).contains(k) {
                    let x = choose|x: int| 0 <= x < reasons(nc).len() && reasons(nc)[x] == k;
                    if x < j {
                        assert(rv[x] == k);
                    } else if x > j {
                        assert(rv[x - 1] == k);
                    }
                }
                if rv.contains(k) {
                    let x = choose|x: int| 0 <= x < rv.len() && rv[x] == k;
                    if x < j {
                        assert(reasons(nc)[x] == k);
                    } else {
                        assert(reasons(nc)[x + 1] == k);
                    }
                }
                if k == key@ {
                    assert(reasons(nc)[j as int] == k);
                }
            }
        }
    }
}

/// Every note of an issue log is counted under exactly one reason: the
/// per-reason counts add up to the number of notes recorded.
pub proof fn lemma_counts_add_up(log: IssueLog)
    requires
        log_wf(log),
    ensures
        counts_total(log.counts@) == log.issues@.len(),
{
}

proof fn lemma_total_update(old_c: Seq<(String, usize)>, nc: Seq<(String, usize)>, j: int)
    requires
        0 <= j < old_c.len(),
        nc.len() == old_c.len(),
        forall|i: int| 0 <= i < old_c.len() && i != j ==> nc[i] == old_c[i],
        nc[j].1 == old_c[j].1 + 1,
    ensures
        counts_total(nc) == counts_total(old_c) + 1,
    decreases old_c.len(),
{
    if j < old_c.len() - 1 {
        lemma_total_update(old_c.drop_last(), nc.drop_last(), j);
    } else {
        assert(nc.drop_last() =~= old_c.drop_last());
    }
}

proof fn lemma_total_insert(old_c: Seq<(String, usize)>, nc: Seq<(String, usize)>, j: int)
    requires
        0 <= j <= old_c.len(),
        nc.len() == old_c.len() + 1,
        forall|i: int| 0 <= i < j ==> nc[i] == old_c[i],
        forall|i: int| j < i < nc.len() ==> nc[i] == old_c[i - 1],
    ensures
        counts_total(nc) == counts_total(old_c) + nc[j].1,
    decreases nc.len(),
{
    if j < old_c.len() {
        lemma_total_insert(old_c.drop_last(), nc.drop_last(), j);
    } else {
        assert(nc.drop_last() =~= old_c);
    }
}

proof fn lemma_count_of_update(old_c: Seq<(String, usize)>, nc: Seq<(String, usize)>, j: int, k: Seq<char>)
    requires
        0 <= j < old_c.len(),
        nc.len() == old_c.len(),
        forall|i: int| 0 <= i < old_c.len() && i != j ==> nc[i] == old_c[i],
        nc[j].0@ == old_c[j].0@,
        k != old_c[j].0@,
    ensures
        count_of(nc, k) == count_of(old_c, k),
    decreases old_c.len(),
{
    if j < old_c.len() - 1 {
        lemma_count_of_update(old_c.drop_last(), nc.drop_last(), j, k);
    } else {
        assert(nc.drop_last() =~= old_c.drop_last());
    }
}

proof fn lemma_count_of_insert(old_c: Seq<(String, usize)>, nc: Seq<(String, usize)>, j: int, k: Seq<char>)
    requires
        0 <= j <= old_c.len(),
        nc.len() == old_c.len() + 1,
        forall|i: int| 0 <= i < j ==> nc[i] == old_c[i],
        forall|i: int| j < i < nc.len() ==> nc[i] == old_c[i - 1],
        k != nc[j].0@,
    ensures
        count_of(nc, k) == count_of(old_c, k),
    decreases nc.len(),
{
    if j < old_c.len() {
        lemma_count_of_insert(old_c.drop_last(), nc.drop_last(), j, k);
    } else {
        assert(nc.drop_last() =~= old_c);
    }
}

// ---------------------------------------------------------------------------
// One observed entry
// ---------------------------------------------------------------------------

/// `item` with `age` folded into its oldest and newest ages.
pub open spec fn aged(item: Entry, age: u64) -> (Option<u64>, Option<u64>) {
    (
        Some(
            match item.oldest_age_days {
                Some(o) => if o > age {
                    o
                } else {
                    age
                },
                None => age,
            },
        ),
        Some(
            match item.newest_age_days {
                Some(n) => if n < age {
                    n
                } else {
                    age
                },
                None => age,
            },
        ),
    )
}

/// Widens the age range of `item` to include `age`.
pub fn fold_age(item: &mut Entry, age: u64)
    ensures
        (final(item).oldest_age_days, final(item).newest_age_days) == aged(*old(item), age),
        same_entry_but_ages(*old(item), *final(item)),
        final(item).direct_age_days == old(item).direct_age_days,
{
    item.oldest_age_days = Some(
        match item.oldest_age_days {
            Some(o) => if o > age {
                o
            } else {
                age
            },
            None => age,
        },
    );
    item.newest_age_days = Some(
        match item.newest_age_days {
            Some(n) => if n < age {
                n
            } else {
                age
            },
            None => age,
        },
    );
}

/// `a` and `b` agree on everything but their ages.
pub open spec fn same_entry_but_ages(a: Entry, b: Entry) -> bool {
    &&& a.path == b.path
    &&& a.name == b.name
    &&& a.entry_kind == b.entry_kind
    &&& a.logical_bytes == b.logical_bytes
    &&& a.observed_entries == b.observed_entries
    &&& a.nested_skipped == b.nested_skipped
    &&& a.complete == b.complete
    &&& a.skipped_reason == b.skipped_reason
}

/// A note as the walk writes it: the (debug-quoted) path, then the detail.
pub open spec fn note(display: Seq<char>, detail: Seq<char>) -> Seq<char> {
    display + ": "@ + detail
}

fn note_text(display: &str, detail: &str) -> (r: String)
    ensures
        r@ == note(display@, detail@),
{
    let mut r = copy_str(display);
    push_str(&mut r, ": ");
    push_str(&mut r, detail);
    r
}

/// A hard failure for the subtree of `item`: it becomes incomplete and the
/// failure is logged under `key`.
pub fn fail(item: &mut Entry, log: &mut IssueLog, display: &str, key: &str, detail: &str)
    requires
        log_wf(*old(log)),
        old(log).issues@.len() < usize::MAX,
    ensures
        !final(item).complete,
        final(item).path == old(item).path && final(item).name == old(item).name,
        final(item).entry_kind == old(item).entry_kind,
        final(item).logical_bytes == old(item).logical_bytes,
        final(item).observed_entries == old(item).observed_entries,
        final(item).nested_skipped == old(item).nested_skipped,
        final(item).direct_age_days == old(item).direct_age_days,
        final(item).oldest_age_days == old(item).oldest_age_days,
        final(item).newest_age_days == old(item).newest_age_days,
        final(item).skipped_reason == old(item).skipped_reason,
        logged(*old(log), *final(log), key@, note(display@, detail@)),
{
    item.complete = false;
    let m = note_text(display, detail);
    log.record(key, m);
    assert(log.issues@.drop_last() =~= old(log).issues@);
}

/// `after` is `before` with `message` recorded under `key`.
pub open spec fn logged(before: IssueLog, after: IssueLog, key: Seq<char>, message: Seq<char>) -> bool {
    &&& log_wf(after)
    &&& after.issues@.len() == before.issues@.len() + 1
    &&& after.issues@.drop_last() == before.issues@
    &&& after.issues@.last()@ == message
    &&& count_of(after.counts@, key) == count_of(before.counts@, key) + 1
    &&& forall|k: Seq<char>| k != key ==> count_of(after.counts@, k) == count_of(before.counts@, k)
}

/// An intentional skip: the top-level entry itself records the reason;
/// a skip below it only counts as a nested skip. Either way the skip is
/// logged under `key`, and the entry stays complete.
pub fn skip(item: &mut Entry, log: &mut IssueLog, display: &str, key: &str, reason: &str, top_level: bool)
    requires
        log_wf(*old(log)),
        old(log).issues@.len() < usize::MAX,
        !top_level ==> old(item).nested_skipped < u64::MAX,
    ensures
        top_level ==> opt_view(final(item).skipped_reason) == Some(reason@) && final(item).nested_skipped
            == old(item).nested_skipped,
        !top_level ==> final(item).skipped_reason == old(item).skipped_reason && final(item).nested_skipped
            == old(item).nested_skipped + 1,
        final(item).complete == old(item).complete,
        final(item).path == old(item).path && final(item).name == old(item).name,
        final(item).entry_kind == old(item).entry_kind,
        final(item).logical_bytes == old(item).logical_bytes,
        final(item).observed_entries == old(item).observed_entries,
        final(item).direct_age_days == old(item).direct_age_days,
        final(item).oldest_age_days == old(item).oldest_age_days,
        final(item).newest_age_days == old(item).newest_age_days,
        logged(*old(log), *final(log), key@, note(display@, reason@)),
{
    if top_level {
        item.skipped_reason = Some(copy_str(reason));
    } else {
        item.nested_skipped = item.nested_skipped + 1;
    }
    let m = note_text(display, reason);
    log.record(key, m);
    assert(log.issues@.drop_last() =~= old(log).issues@);
}

/// `a` and `b` hold the same notes and counts.
pub open spec fn log_same(a: IssueLog, b: IssueLog) -> bool {
    a.issues@ == b.issues@ && a.counts@ == b.counts@
}

/// What observing an entry (at `depth` below the root) does to the walk:
/// the record counts one more observation; an unreadable entry is a hard
/// failure; another device or anything but a file or directory is an
/// intentional skip (of the top-level entry itself at depth 1); otherwise
/// its age widens the range (the first age is the entry's own), a file adds
/// its length, and a directory is descended into unless it lies deeper
/// than `max_depth`, which is a failure. Returns whether to descend.
pub fn visit_step(
    item: &mut Entry,
    log: &mut IssueLog,
    display: &str,
    depth: u32,
    max_depth: u32,
    device: u64,
    meta: Result<Meta, String>,
) -> (descend: bool)
    requires
        log_wf(*old(log)),
        old(log).issues@.len() < usize::MAX,
        old(item).observed_entries < u64::MAX,
        old(item).nested_skipped < u64::MAX,
    ensures
        log_wf(*final(log)),
        final(item).observed_entries == old(item).observed_entries + 1,
        final(item).path == old(item).path && final(item).name == old(item).name,
        match meta {
            Err(e) => {
                &&& !descend
                &&& !final(item).complete
                &&& final(item).entry_kind == old(item).entry_kind
                &&& final(item).logical_bytes == old(item).logical_bytes
                &&& final(item).skipped_reason == old(item).skipped_reason
                &&& final(item).nested_skipped == old(item).nested_skipped
                &&& final(item).direct_age_days == old(item).direct_age_days
                &&& final(item).oldest_age_days == old(item).oldest_age_days
                &&& final(item).newest_age_days == old(item).newest_age_days
                &&& logged(*old(log), *final(log), "metadata error"@, note(display@, e@))
            },
            Ok(m) => {
                &&& final(item).entry_kind@ == (if old(item).entry_kind@ == "unknown"@ {
                    kind_text(m)
                } else {
                    old(item).entry_kind@
                })
                &&& if m.dev != device || (!m.is_file && !m.is_dir) {
                    let (key, reason) = if m.dev != device {
                        ("filesystem boundary"@, "skipped filesystem boundary (other device)"@)
                    } else {
                        ("skipped entry"@, "skipped symlink or special file (not followed)"@)
                    };
                    &&& !descend
                    &&& final(item).complete == old(item).complete
                    &&& final(item).logical_bytes == old(item).logical_bytes
                    &&& final(item).direct_age_days == old(item).direct_age_days
                    &&& final(item).oldest_age_days == old(item).oldest_age_days
                    &&& final(item).newest_age_days == old(item).newest_age_days
                    &&& depth == 1 ==> opt_view(final(item).skipped_reason) == Some(reason)
                        && final(item).nested_skipped == old(item).nested_skipped
                    &&& depth != 1 ==> final(item).skipped_reason == old(item).skipped_reason
                        && final(item).nested_skipped == old(item).nested_skipped + 1
                    &&& logged(*old(log), *final(log), key, note(display@, reason))
                } else {
                    &&& final(item).skipped_reason == old(item).skipped_reason
                    &&& final(item).nested_skipped == old(item).nested_skipped
                    &&& match m.age_days {
                        Some(a) => {
                            &&& final(item).direct_age_days == (if old(item).direct_age_days is None {
                                Some(a)
                            } else {
                                old(item).direct_age_days
                            })
                            &&& (final(item).oldest_age_days, final(item).newest_age_days) == aged(*old(item), a)
                        },
                        None => {
                            &&& final(item).direct_age_days == old(item).direct_age_days
                            &&& final(item).oldest_age_days == old(item).oldest_age_days
                            &&& final(item).newest_age_days == old(item).newest_age_days
                        },
                    }
                    &&& if m.is_file {
                        &&& !descend
                        &&& final(item).complete == old(item).complete
                        &&& final(item).logical_bytes == crate::exec::sat(old(item).logical_bytes, m.len)
                        &&& log_same(*old(log), *final(log))
                    } else if depth > max_depth {
                        &&& !descend
                        &&& !final(item).complete
                        &&& final(item).logical_bytes == old(item).logical_bytes
                        &&& logged(*old(log), *final(log), "depth limit"@, note(display@, "directory depth limit reached"@))
                    } else {
                        &&& descend
                        &&& final(item).complete == old(item).complete
                        &&& final(item).logical_bytes == old(item).logical_bytes
                        &&& log_same(*old(log), *final(log))
                    }
                }
            },
        },
{
    item.observed_entries = item.observed_entries + 1;
    let m = match meta {
        Err(e) => {
            fail(item, log, display, "metadata error", e.as_str());
            return false;
        },
        Ok(m) => m,
    };
    if same_chars(item.entry_kind.as_str(), "unknown") {
        item.entry_kind = copy_str(kind_of(&m));
    }
    if m.dev != device {
        skip(item, log, display, "filesystem boundary", "skipped filesystem boundary (other device)", depth == 1);
        return false;
    }
    if !m.is_file && !m.is_dir {
        skip(item, log, display, "skipped entry", "skipped symlink or special file (not followed)", depth == 1);
        return false;
    }
    match m.age_days {
        Some(age) => {
            if item.direct_age_days.is_none() {
                item.direct_age_days = Some(age);
            }
            fold_age(item, age);
        },
        None => {},
    }
    if m.is_file {
        item.logical_bytes = item.logical_bytes.saturating_add(m.len);
        return false;
    }
    if depth > max_depth {
        fail(item, log, display, "depth limit", "directory depth limit reached");
        return false;
    }
    true
}

/// What listing a top-level entry without descending records: one
/// observation, its kind and own age; a file's length; failures and skips
/// as in `visit_step` (the skip is of the top-level entry itself).
pub fn inventory_step(item: &mut Entry, log: &mut IssueLog, display: &str, device: u64, meta: Result<Meta, String>)
    requires
        log_wf(*old(log)),
        old(log).issues@.len() < usize::MAX,
    ensures
        log_wf(*final(log)),
        final(item).observed_entries == 1,
        final(item).path == old(item).path && final(item).name == old(item).name,
        final(item).nested_skipped == old(item).nested_skipped,
        match meta {
            Err(e) => {
                &&& !final(item).complete
                &&& final(item).entry_kind == old(item).entry_kind
                &&& final(item).logical_bytes == old(item).logical_bytes
                &&& final(item).direct_age_days == old(item).direct_age_days
                &&& logged(*old(log), *final(log), "metadata error"@, note(display@, e@))
            },
            Ok(m) => {
                &&& final(item).entry_kind@ == kind_text(m)
                &&& final(item).complete == old(item).complete
                &&& if m.dev != device {
                    &&& final(item).direct_age_days == old(item).direct_age_days
                    &&& final(item).logical_bytes == old(item).logical_bytes
                    &&& opt_view(final(item).skipped_reason) == Some("skipped filesystem boundary (other device)"@)
                    &&& logged(
                        *old(log),
                        *final(log),
                        "filesystem boundary"@,
                        note(display@, "skipped filesystem boundary (other device)"@),
                    )
                } else {
                    &&& final(item).direct_age_days == m.age_days
                    &&& final(item).logical_bytes == (if m.is_file {
                        m.len
                    } else {
                        old(item).logical_bytes
                    })
                    &&& (m.is_file || m.is_dir) ==> {
                        &&& log_same(*old(log), *final(log))
                        &&& final(item).skipped_reason == old(item).skipped_reason
                        &&& match m.age_days {
                            Some(a) => (final(item).oldest_age_days, final(item).newest_age_days) == aged(*old(item), a),
                            None => final(item).oldest_age_days == old(item).oldest_age_days
                                && final(item).newest_age_days == old(item).newest_age_days,
                        }
                    }
                    &&& !(m.is_file || m.is_dir) ==> {
                        &&& opt_view(final(item).skipped_reason) == Some("skipped symlink or special file (not followed)"@)
                        &&& logged(
                            *old(log),
                            *final(log),
                            "skipped entry"@,
                            note(display@, "skipped symlink or special file (not followed)"@),
                        )
                    }
                }
            },
        },
{
    item.observed_entries = 1;
    let m = match meta {
        Err(e) => {
            fail(item, log, display, "metadata error", e.as_str());
            return;
        },
        Ok(m) => m,
    };
    item.entry_kind = copy_str(kind_of(&m));
    if m.dev != device {
        skip(item, log, display, "filesystem boundary", "skipped filesystem boundary (other device)", true);
        return;
    }
    item.direct_age_days = m.age_days;
    if m.is_file {
        item.logical_bytes = m.len;
        match m.age_days {
            Some(age) => fold_age(item, age),
            None => {},
        }
    } else if m.is_dir {
        match m.age_days {
            Some(age) => fold_age(item, age),
            None => {},
        }
    } else {
        skip(item, log, display, "skipped entry", "skipped symlink or special file (not followed)", true);
    }
}

/// Whether a directory's enumeration may take one more entry: with the
/// budget spent the subtree fails (`entry budget`) and enumeration stops;
/// otherwise one unit of budget is taken.
pub fn budget_step(item: &mut Entry, log: &mut IssueLog, display: &str, remaining: &mut u32) -> (go_on: bool)
    requires
        log_wf(*old(log)),
        old(log).issues@.len() < usize::MAX,
    ensures
        log_wf(*final(log)),
        go_on == (*old(remaining) > 0),
        go_on ==> *final(remaining) == *old(remaining) - 1 && log_same(*old(log), *final(log)) && *final(item)
            == *old(item),
        !go_on ==> *final(remaining) == 0 && !final(item).complete && logged(
            *old(log),
            *final(log),
            "entry budget"@,
            note(display@, "entry budget reached; enumeration may be incomplete"@),
        ),
{
    if *remaining == 0 {
        fail(item, log, display, "entry budget", "entry budget reached; enumeration may be incomplete");
        false
    } else {
        *remaining = *remaining - 1;
        true
    }
}

/// Whether the root's enumeration may take one more entry: with the budget
/// spent the scan is incomplete, the shortfall is logged, and enumeration
/// stops; otherwise one unit of budget is taken.
pub fn root_budget_step(log: &mut IssueLog, complete: &mut bool, remaining: &mut u32) -> (go_on: bool)
    requires
        log_wf(*old(log)),
        old(log).issues@.len() < usize::MAX,
    ensures
        log_wf(*final(log)),
        go_on == (*old(remaining) > 0),
        go_on ==> *final(remaining) == *old(remaining) - 1 && log_same(*old(log), *final(log)) && *final(complete)
            == *old(complete),
        !go_on ==> *final(remaining) == 0 && !*final(complete) && logged(
            *old(log),
            *final(log),
            "entry budget"@,
            "Entry budget reached; root enumeration may be incomplete"@,
        ),
{
    if *remaining == 0 {
        *complete = false;
        log.record("entry budget", copy_str("Entry budget reached; root enumeration may be incomplete"));
        assert(log.issues@.drop_last() =~= old(log).issues@);
        false
    } else {
        *remaining = *remaining - 1;
        true
    }
}

/// Whole days between a modification at `modified` and `now` (both in
/// nanoseconds since the epoch), none when the modification lies ahead.
/// The gap is one that a `Duration` holds: at most `u64::MAX` seconds.
pub open spec fn days_since(now: i128, modified: i128) -> int {
    if now <= modified {
        0
    } else {
        (now - modified) / 86400000000000
    }
}

/// The whole-day age of an observed entry.
pub fn meta_age_days(now: i128, modified: i128) -> (d: u64)
    requires
        now - modified <= 18446744073709551615000000000,
    ensures
        d == days_since(now, modified),
{
    if now <= modified {
        return 0;
    }
    let diff: i128 = now - modified;
    let d: i128 = diff / 86400000000000;
    assert(d <= u64::MAX) by (nonlinear_arith)
        requires
            d == diff / 86400000000000,
            0 < diff <= 18446744073709551615000000000,
    ;
    d as u64
}

/// A directory opened for descent must still be the one observed: `opened`
/// is the device and inode of the held handle (none when it could not be
/// read). On a mismatch the entry is incomplete and the change is noted.
pub fn opened_step(item: &mut Entry, log: &mut IssueLog, display: &str, opened: Option<(u64, u64)>, dev: u64, ino: u64) -> (same: bool)
    requires
        log_wf(*old(log)),
        old(log).issues@.len() < usize::MAX,
    ensures
        same == (opened == Some((dev, ino))),
        same ==> *final(item) == *old(item) && log_same(*old(log), *final(log)),
        !same ==> {
            &&& !final(item).complete
            &&& final(item).path == old(item).path && final(item).name == old(item).name
            &&& final(item).entry_kind == old(item).entry_kind
            &&& final(item).logical_bytes == old(item).logical_bytes
            &&& final(item).observed_entries == old(item).observed_entries
            &&& final(item).nested_skipped == old(item).nested_skipped
            &&& final(item).direct_age_days == old(item).direct_age_days
            &&& final(item).oldest_age_days == old(item).oldest_age_days
            &&& final(item).newest_age_days == old(item).newest_age_days
            &&& final(item).skipped_reason == old(item).skipped_reason
            &&& logged(
                *old(log),
                *final(log),
                "changed during scan"@,
                note(display@, "directory changed while opening"@),
            )
        },
{
    let same = match opened {
        Some((d, i)) => d == dev && i == ino,
        None => false,
    };
    if !same {
        fail(item, log, display, "changed during scan", "directory changed while opening");
    }
    same
}

/// A failed read of the root listing: the scan is incomplete and the
/// error is noted.
pub fn root_listing_error(log: &mut IssueLog, complete: &mut bool, detail: String)
    requires
        log_wf(*old(log)),
        old(log).issues@.len() < usize::MAX,
    ensures
        !*final(complete),
        logged(*old(log), *final(log), "enumeration error"@, detail@),
{
    *complete = false;
    let ghost d = detail@;
    log.record("enumeration error", detail);
    assert(log.issues@.drop_last() =~= old(log).issues@);
}

// ---------------------------------------------------------------------------
// The report
// ---------------------------------------------------------------------------

/// The scan-wide sums.
#[derive(Debug, Clone, Copy)]
pub struct ScanTotals {
    pub logical_bytes: u64,
    pub observed_entries: u64,
    pub complete: bool,
}

/// Adds a finished top-level entry to the scan-wide sums: bytes saturate,
/// observations add up, and one incomplete entry makes the scan incomplete.
pub fn absorb(totals: &mut ScanTotals, item: &Entry)
    requires
        old(totals).observed_entries + item.observed_entries <= u64::MAX,
    ensures
        final(totals).logical_bytes == crate::exec::sat(old(totals).logical_bytes, item.logical_bytes),
        final(totals).observed_entries == old(totals).observed_entries + item.observed_entries,
        final(totals).complete == (old(totals).complete && item.complete),
{
    totals.logical_bytes = totals.logical_bytes.saturating_add(item.logical_bytes);
    totals.observed_entries = totals.observed_entries + item.observed_entries;
    totals.complete = totals.complete && item.complete;
}

/// 1 where `b` holds, else 0.
pub open spec fn one_if(b: bool) -> nat {
    if b {
        1
    } else {
        0
    }
}

/// The number of complete, incomplete and skipped entries of `all`.
pub open spec fn class_counts(all: Seq<Entry>) -> (nat, nat, nat) {
    (
        total(all.map_values(|e: Entry| one_if(e.complete))),
        total(all.map_values(|e: Entry| one_if(!e.complete))),
        total(all.map_values(|e: Entry| one_if(e.skipped_reason is Some))),
    )
}

/// A top-level name that cannot be named as text: the scan is incomplete
/// and the name (as shown) is noted; nothing else is counted.
pub fn skip_unnamed(totals: &mut ScanTotals, log: &mut IssueLog, shown: &str)
    requires
        log_wf(*old(log)),
        old(log).issues@.len() < usize::MAX,
    ensures
        !final(totals).complete,
        final(totals).logical_bytes == old(totals).logical_bytes,
        final(totals).observed_entries == old(totals).observed_entries,
        logged(*old(log), *final(log), "non-UTF-8 path"@, "Skipped non-UTF-8 top-level path: "@ + shown@),
{
    totals.complete = false;
    let mut note = copy_str("Skipped non-UTF-8 top-level path: ");
    push_str(&mut note, shown);
    log.record("non-UTF-8 path", note);
    assert(log.issues@.drop_last() =~= old(log).issues@);
}

/// How many entries are complete, incomplete, and skipped.
pub fn classify(all: &Vec<Entry>) -> (r: (usize, usize, usize))
    ensures
        (r.0 as nat, r.1 as nat, r.2 as nat) == class_counts(all@),
        r.2 <= all@.len(),
{
    let ghost c = all@.map_values(|e: Entry| one_if(e.complete));
    let ghost ic = all@.map_values(|e: Entry| one_if(!e.complete));
    let ghost sk = all@.map_values(|e: Entry| one_if(e.skipped_reason is Some));
    let mut complete: usize = 0;
    let mut incomplete: usize = 0;
    let mut skipped: usize = 0;
    let mut i: usize = 0;
    assert(c.take(0) =~= Seq::<nat>::empty());
    assert(ic.take(0) =~= Seq::<nat>::empty());
    assert(sk.take(0) =~= Seq::<nat>::empty());
    while i < all.len()
        invariant
            i <= all@.len(),
            c == all@.map_values(|e: Entry| one_if(e.complete)),
            ic == all@.map_values(|e: Entry| one_if(!e.complete)),
            sk == all@.map_values(|e: Entry| one_if(e.skipped_reason is Some)),
            complete as nat == total(c.take(i as int)),
            incomplete as nat == total(ic.take(i as int)),
            skipped as nat == total(sk.take(i as int)),
            complete <= i && incomplete <= i && skipped <= i,
        decreases all.len() - i,
    {
        assert(c.take(i + 1).drop_last() =~= c.take(i as int));
        assert(ic.take(i + 1).drop_last() =~= ic.take(i as int));
        assert(sk.take(i + 1).drop_last() =~= sk.take(i as int));
        if all[i].complete {
            complete = complete + 1;
        } else {
            incomplete = incomplete + 1;
        }
        if all[i].skipped_reason.is_some() {
            skipped = skipped + 1;
        }
        i = i + 1;
    }
    assert(c.take(all@.len() as int) =~= c);
    assert(ic.take(all@.len() as int) =~= ic);
    assert(sk.take(all@.len() as int) =~= sk);
    (complete, incomplete, skipped)
}

/// An entry the report asks a human to look at, and why.
#[derive(Debug)]
pub struct ReviewItem {
    pub path: String,
    pub name: String,
    pub reason: String,
}

/// Review items sort by name: all entries of one scan share the root, so
/// their paths order as their names do.
impl SortKey for ReviewItem {
    open spec fn key_lt(self, other: Self) -> bool {
        seq_lt(self.name@, other.name@)
    }

    proof fn lemma_irreflexive(a: Self) {
        lemma_seq_lt_irreflexive(a.name@);
    }

    proof fn lemma_transitive(a: Self, b: Self, c: Self) {
        lemma_seq_lt_transitive(a.name@, b.name@, c.name@);
    }

    proof fn lemma_ties_transitive(a: Self, b: Self, c: Self) {
        lemma_seq_lt_total(a.name@, b.name@);
        lemma_seq_lt_total(b.name@, c.name@);
    }

    fn less(&self, other: &Self) -> (r: bool) {
        str_lt(self.name.as_str(), other.name.as_str())
    }
}

/// Why an entry needs review, if it does: an incomplete scan (with the
/// skip reason where there is one), a skipped entry, or an unknown age.
pub open spec fn review_reason(e: Entry) -> Option<Seq<char>> {
    if !e.complete {
        match e.skipped_reason {
            Some(r) => Some("incomplete scan; "@ + r@),
            None => Some("incomplete scan"@),
        }
    } else if e.skipped_reason is Some {
        Some("skipped ("@ + e.skipped_reason->0@ + "); contents and activity unknown"@)
    } else if e.newest_age_days is None {
        Some("unknown modification age"@)
    } else {
        None
    }
}

/// A review item as its path, name and reason.
pub open spec fn review_view(r: ReviewItem) -> (Seq<char>, Seq<char>, Seq<char>) {
    (r.path@, r.name@, r.reason@)
}

/// The review items of `all`, in order.
pub open spec fn review_rows(all: Seq<Entry>) -> Seq<(Seq<char>, Seq<char>, Seq<char>)>
    decreases all.len(),
{
    if all.len() == 0 {
        Seq::empty()
    } else {
        let prev = review_rows(all.drop_last());
        match review_reason(all.last()) {
            Some(reason) => prev.push((all.last().path@, all.last().name@, reason)),
            None => prev,
        }
    }
}

fn review_item(e: &Entry) -> (r: Option<ReviewItem>)
    ensures
        match review_reason(*e) {
            Some(reason) => r matches Some(item) && review_view(item) == (e.path@, e.name@, reason),
            None => r is None,
        },
{
    let reason = if !e.complete {
        match &e.skipped_reason {
            Some(r) => {
                let mut t = copy_str("incomplete scan; ");
                push_str(&mut t, r.as_str());
                t
            },
            None => copy_str("incomplete scan"),
        }
    } else if e.skipped_reason.is_some() {
        let mut t = copy_str("skipped (");
        match &e.skipped_reason {
            Some(r) => push_str(&mut t, r.as_str()),
            None => {},
        }
        push_str(&mut t, "); contents and activity unknown");
        t
    } else if e.newest_age_days.is_none() {
        copy_str("unknown modification age")
    } else {
        return None;
    };
    Some(ReviewItem { path: copy_str(e.path.as_str()), name: copy_str(e.name.as_str()), reason })
}

/// `out` is `rows` ordered by name, ties in their original order.
pub open spec fn by_name_with(
    rows: Seq<(Seq<char>, Seq<char>, Seq<char>)>,
    out: Seq<(Seq<char>, Seq<char>, Seq<char>)>,
    p: Seq<int>,
) -> bool {
    &&& is_permutation(p, rows.len())
    &&& out.len() == rows.len()
    &&& forall|i: int| 0 <= i < out.len() ==> #[trigger] out[i] == rows[p[i]]
    &&& forall|i: int, j: int|
        0 <= i < j < out.len() ==> seq_lt(rows[#[trigger] p[i]].1, rows[#[trigger] p[j]].1) || (rows[p[i]].1
            == rows[p[j]].1 && p[i] < p[j])
}

/// `shown` is the first `limit` of `rows` stably sorted by name.
pub open spec fn review_shown(rows: Seq<(Seq<char>, Seq<char>, Seq<char>)>, shown: Seq<(Seq<char>, Seq<char>, Seq<char>)>, limit: nat) -> bool {
    exists|full: Seq<(Seq<char>, Seq<char>, Seq<char>)>, p: Seq<int>|
        by_name_with(rows, full, p) && shown == full.take(if limit < full.len() {
            limit as int
        } else {
            full.len() as int
        })
}

/// The review queue: every entry that needs review, ordered by path, and
/// at most `limit` of them shown; with the full count.
pub fn review_queue(all: &Vec<Entry>, limit: u32) -> (r: (Vec<ReviewItem>, usize))
    ensures
        r.1 == review_rows(all@).len(),
        review_shown(review_rows(all@), r.0@.map_values(|x: ReviewItem| review_view(x)), limit as nat),
{
    let ghost rows = review_rows(all@);
    let mut items: Vec<ReviewItem> = Vec::new();
    let mut i: usize = 0;
    assert(all@.take(0) =~= Seq::<Entry>::empty());
    while i < all.len()
        invariant
            i <= all@.len(),
            items@.map_values(|x: ReviewItem| review_view(x)) == review_rows(all@.take(i as int)),
            items@.len() <= i,
        decreases all.len() - i,
    {
        assert(all@.take(i + 1).drop_last() =~= all@.take(i as int));
        assert(all@.take(i + 1).last() == all@[i as int]);
        let ghost before = items@;
        match review_item(&all[i]) {
            Some(item) => {
                items.push(item);
                assert(items@.map_values(|x: ReviewItem| review_view(x)) =~= before.map_values(
                    |x: ReviewItem| review_view(x),
                ).push(review_view(items@.last())));
            },
            None => {},
        }
        i = i + 1;
    }
    assert(all@.take(all@.len() as int) =~= all@);
    let count = items.len();
    let ghost iv = items@;
    let mut sorted = stable_sort(items);
    let ghost sv = sorted@;
    proof {
        let p = choose|p: Seq<int>| stably_sorted(iv, sv, p);
        let rv = iv.map_values(|x: ReviewItem| review_view(x));
        let full = sv.map_values(|x: ReviewItem| review_view(x));
        assert forall|a: int, b: int| 0 <= a < b < full.len() implies seq_lt(rv[#[trigger] p[a]].1, rv[#[trigger] p[b]].1)
            || (rv[p[a]].1 == rv[p[b]].1 && p[a] < p[b]) by {
            assert(stable_before(iv[p[a]], p[a], iv[p[b]], p[b]));
            lemma_seq_lt_total(iv[p[a]].name@, iv[p[b]].name@);
        }
        assert forall|k: int| 0 <= k < full.len() implies #[trigger] full[k] == rv[p[k]] by {
            assert(sv[k] == iv[p[k]]);
        }
        assert(by_name_with(rv, full, p));
    }
    let keep: usize = if (limit as usize) < sorted.len() {
        limit as usize
    } else {
        sorted.len()
    };
    sorted.truncate(keep);
    proof {
        let full = sv.map_values(|x: ReviewItem| review_view(x));
        assert(sorted@.map_values(|x: ReviewItem| review_view(x)) =~= full.take(keep as int));
    }
    (sorted, count)
}

/// An entry passes the age filter: with `--older-than-days`, only complete
/// entries whose newest activity is known and at least that old.
pub open spec fn passes_age(e: Entry, older_than: Option<u32>) -> bool {
    match older_than {
        None => true,
        Some(d) => e.complete && (e.newest_age_days matches Some(a) && a >= d),
    }
}

/// The entries of `all` that pass the age filter, in order.
pub open spec fn aged_out(all: Seq<Entry>, older_than: Option<u32>) -> Seq<Entry>
    decreases all.len(),
{
    if all.len() == 0 {
        Seq::empty()
    } else {
        let prev = aged_out(all.drop_last(), older_than);
        if passes_age(all.last(), older_than) {
            prev.push(all.last())
        } else {
            prev
        }
    }
}

/// An entry ranked by logical size, largest first, then by name.
pub struct BySize(pub Entry);

impl SortKey for BySize {
    open spec fn key_lt(self, other: Self) -> bool {
        self.0.logical_bytes > other.0.logical_bytes || (self.0.logical_bytes == other.0.logical_bytes && seq_lt(
            self.0.name@,
            other.0.name@,
        ))
    }

    proof fn lemma_irreflexive(a: Self) {
        lemma_seq_lt_irreflexive(a.0.name@);
    }

    proof fn lemma_transitive(a: Self, b: Self, c: Self) {
        if a.0.logical_bytes == b.0.logical_bytes && b.0.logical_bytes == c.0.logical_bytes {
            lemma_seq_lt_transitive(a.0.name@, b.0.name@, c.0.name@);
        }
    }

    proof fn lemma_ties_transitive(a: Self, b: Self, c: Self) {
        lemma_seq_lt_total(a.0.name@, b.0.name@);
        lemma_seq_lt_total(b.0.name@, c.0.name@);
    }

    fn less(&self, other: &Self) -> (r: bool) {
        self.0.logical_bytes > other.0.logical_bytes || (self.0.logical_bytes == other.0.logical_bytes && str_lt(
            self.0.name.as_str(),
            other.0.name.as_str(),
        ))
    }
}

/// Whether an entry's activity is known: complete, with a known newest age.
pub open spec fn age_known(e: Entry) -> bool {
    e.complete && e.newest_age_days is Some
}

/// `Option<u64>` order (`None` first), as `Option::cmp`.
pub open spec fn opt_lt(a: Option<u64>, b: Option<u64>) -> bool {
    match (a, b) {
        (None, Some(_)) => true,
        (Some(x), Some(y)) => x < y,
        _ => false,
    }
}

/// An entry ranked by least recent activity: entries with known activity
/// first, then the larger newest age, then by name.
pub struct ByAge(pub Entry);

impl SortKey for ByAge {
    open spec fn key_lt(self, other: Self) -> bool {
        let (a, b) = (self.0, other.0);
        ||| age_known(a) && !age_known(b)
        ||| age_known(a) == age_known(b) && opt_lt(b.newest_age_days, a.newest_age_days)
        ||| age_known(a) == age_known(b) && a.newest_age_days == b.newest_age_days && seq_lt(a.name@, b.name@)
    }

    proof fn lemma_irreflexive(a: Self) {
        lemma_seq_lt_irreflexive(a.0.name@);
    }

    proof fn lemma_transitive(a: Self, b: Self, c: Self) {
        if age_known(a.0) == age_known(b.0) && age_known(b.0) == age_known(c.0) && a.0.newest_age_days
            == b.0.newest_age_days && b.0.newest_age_days == c.0.newest_age_days {
            lemma_seq_lt_transitive(a.0.name@, b.0.name@, c.0.name@);
        }
    }

    proof fn lemma_ties_transitive(a: Self, b: Self, c: Self) {
        lemma_seq_lt_total(a.0.name@, b.0.name@);
        lemma_seq_lt_total(b.0.name@, c.0.name@);
    }

    fn less(&self, other: &Self) -> (r: bool) {
        let (a, b) = (&self.0, &other.0);
        let ka = a.complete && a.newest_age_days.is_some();
        let kb = b.complete && b.newest_age_days.is_some();
        if ka != kb {
            return ka;
        }
        let newer = match (b.newest_age_days, a.newest_age_days) {
            (None, Some(_)) => true,
            (Some(x), Some(y)) => x < y,
            _ => false,
        };
        if newer {
            return true;
        }
        let same = match (a.newest_age_days, b.newest_age_days) {
            (None, None) => true,
            (Some(x), Some(y)) => x == y,
            _ => false,
        };
        same && str_lt(a.name.as_str(), b.name.as_str())
    }
}

/// `full` is `kept` rearranged by `p` into `sort` order, stably.
pub open spec fn ranked_with(kept: Seq<Entry>, full: Seq<Entry>, p: Seq<int>, sort: SortMode) -> bool {
    &&& full.len() == kept.len()
    &&& match sort {
        SortMode::Size => stably_sorted(
            kept.map_values(|e: Entry| BySize(e)),
            full.map_values(|e: Entry| BySize(e)),
            p,
        ),
        SortMode::Oldest => stably_sorted(
            kept.map_values(|e: Entry| ByAge(e)),
            full.map_values(|e: Entry| ByAge(e)),
            p,
        ),
    }
}

/// `shown` is the first `limit` of `kept` stably sorted in `sort` order.
pub open spec fn ranked_shown(kept: Seq<Entry>, shown: Seq<Entry>, sort: SortMode, limit: nat) -> bool {
    exists|full: Seq<Entry>, p: Seq<int>|
        #[trigger] ranked_with(kept, full, p, sort) && shown == full.take(if limit < full.len() {
            limit as int
        } else {
            full.len() as int
        })
}

/// Ranking by age never puts an entry of unknown activity before one of
/// known activity: unknown entries sort last.
pub proof fn lemma_unknown_ranks_last(kept: Seq<Entry>, full: Seq<Entry>, p: Seq<int>, i: int, j: int)
    requires
        ranked_with(kept, full, p, SortMode::Oldest),
        0 <= i < j < full.len(),
        age_known(full[j]),
    ensures
        age_known(full[i]),
{
    let kw = kept.map_values(|e: Entry| ByAge(e));
    let fw = full.map_values(|e: Entry| ByAge(e));
    assert(stable_before(kw[p[i]], p[i], kw[p[j]], p[j]));
    assert(fw[i] == kw[p[i]]);
    assert(fw[j] == kw[p[j]]);
}

/// Ranking by size lists larger entries first.
pub proof fn lemma_size_ranks_descend(kept: Seq<Entry>, full: Seq<Entry>, p: Seq<int>, i: int, j: int)
    requires
        ranked_with(kept, full, p, SortMode::Size),
        0 <= i < j < full.len(),
    ensures
        full[i].logical_bytes >= full[j].logical_bytes,
{
    let kw = kept.map_values(|e: Entry| BySize(e));
    let fw = full.map_values(|e: Entry| BySize(e));
    assert(stable_before(kw[p[i]], p[i], kw[p[j]], p[j]));
    assert(fw[i] == kw[p[i]]);
    assert(fw[j] == kw[p[j]]);
}

/// The entries to show: those passing the age filter, ranked in `sort`
/// order, at most `limit` of them; with the number that passed.
pub fn matching_entries(all: Vec<Entry>, older_than: Option<u32>, sort: SortMode, limit: u32) -> (r: (Vec<Entry>, usize))
    ensures
        r.1 == aged_out(all@, older_than).len(),
        ranked_shown(aged_out(all@, older_than), r.0@, sort, limit as nat),
        forall|m: int|
            #![trigger r.0@[m]]
            0 <= m < r.0@.len() ==> (older_than matches Some(d) ==> r.0@[m].complete
                && (r.0@[m].newest_age_days matches Some(a) && a >= d)),
{
    let ghost av = all@;
    let count = all.len();
    let mut rest = all;
    let mut kept: Vec<Entry> = Vec::new();
    let mut n: usize = 0;
    assert(av.take(0) =~= Seq::<Entry>::empty());
    while rest.len() > 0
        invariant
            n <= av.len(),
            av.len() == count,
            rest@ == av.skip(n as int),
            kept@ == aged_out(av.take(n as int), older_than),
            forall|j: int|
                #![trigger kept@[j]]
                0 <= j < kept@.len() ==> (older_than matches Some(d) ==> kept@[j].complete
                    && (kept@[j].newest_age_days matches Some(a) && a >= d)),
        decreases rest.len(),
    {
        assert(rest@.len() == av.len() - n);
        let e = rest.remove(0);
        assert(av.skip(n as int)[0] == av[n as int]);
        assert(av.take(n + 1).drop_last() =~= av.take(n as int));
        assert(av.take(n + 1).last() == e);
        let pass = match older_than {
            None => true,
            Some(d) => e.complete && match e.newest_age_days {
                Some(a) => a >= d as u64,
                None => false,
            },
        };
        if pass {
            let ghost before = kept@;
            kept.push(e);
            assert(forall|j: int| 0 <= j < before.len() ==> kept@[j] == before[j]);
        }
        n = n + 1;
        assert(rest@ =~= av.skip(n as int));
    }
    assert(av.take(av.len() as int) =~= av);
    let ghost kv = kept@;
    let matched = kept.len();
    let mut full: Vec<Entry> = Vec::new();
    let ghost mut witness: Seq<int> = Seq::empty();
    match sort {
        SortMode::Size => {
            let mut wrapped: Vec<BySize> = Vec::new();
            let mut k = kept;
            while k.len() > 0
                invariant
                    wrapped@.len() + k@.len() == kv.len(),
                    k@ == kv.skip(wrapped@.len() as int),
                    wrapped@ == kv.take(wrapped@.len() as int).map_values(|e: Entry| BySize(e)),
                decreases k.len(),
            {
                let ghost w = wrapped@.len();
                let e = k.remove(0);
                assert(kv.skip(w as int)[0] == kv[w as int]);
                wrapped.push(BySize(e));
                assert(wrapped@ =~= kv.take(wrapped@.len() as int).map_values(|e: Entry| BySize(e)));
                assert(k@ =~= kv.skip(wrapped@.len() as int));
            }
            assert(kv.take(kv.len() as int) =~= kv);
            let ghost wv = wrapped@;
            let mut sorted = stable_sort(wrapped);
            let ghost sv = sorted@;
            while sorted.len() > 0
                invariant
                    full@.len() + sorted@.len() == sv.len(),
                    sorted@ == sv.skip(full@.len() as int),
                    full@.map_values(|e: Entry| BySize(e)) == sv.take(full@.len() as int),
                decreases sorted.len(),
            {
                let ghost f = full@.len();
                let b = sorted.remove(0);
                assert(sv.skip(f as int)[0] == sv[f as int]);
                full.push(b.0);
                assert(full@.map_values(|e: Entry| BySize(e)) =~= sv.take(full@.len() as int));
                assert(sorted@ =~= sv.skip(full@.len() as int));
            }
            assert(sv.take(sv.len() as int) =~= sv);
            proof {
                witness = choose|p: Seq<int>| stably_sorted(wv, sv, p);
                assert(ranked_with(kv, full@, witness, sort));
            }
        },
        SortMode::Oldest => {
            let mut wrapped: Vec<ByAge> = Vec::new();
            let mut k = kept;
            while k.len() > 0
                invariant
                    wrapped@.len() + k@.len() == kv.len(),
                    k@ == kv.skip(wrapped@.len() as int),
                    wrapped@ == kv.take(wrapped@.len() as int).map_values(|e: Entry| ByAge(e)),
                decreases k.len(),
            {
                let ghost w = wrapped@.len();
                let e = k.remove(0);
                assert(kv.skip(w as int)[0] == kv[w as int]);
                wrapped.push(ByAge(e));
                assert(wrapped@ =~= kv.take(wrapped@.len() as int).map_values(|e: Entry| ByAge(e)));
                assert(k@ =~= kv.skip(wrapped@.len() as int));
            }
            assert(kv.take(kv.len() as int) =~= kv);
            let ghost wv = wrapped@;
            let mut sorted = stable_sort(wrapped);
            let ghost sv = sorted@;
            while sorted.len() > 0
                invariant
                    full@.len() + sorted@.len() == sv.len(),
                    sorted@ == sv.skip(full@.len() as int),
                    full@.map_values(|e: Entry| ByAge(e)) == sv.take(full@.len() as int),
                decreases sorted.len(),
            {
                let ghost f = full@.len();
                let b = sorted.remove(0);
                assert(sv.skip(f as int)[0] == sv[f as int]);
                full.push(b.0);
                assert(full@.map_values(|e: Entry| ByAge(e)) =~= sv.take(full@.len() as int));
                assert(sorted@ =~= sv.skip(full@.len() as int));
            }
            assert(sv.take(sv.len() as int) =~= sv);
            proof {
                witness = choose|p: Seq<int>| stably_sorted(wv, sv, p);
                assert(ranked_with(kv, full@, witness, sort));
            }
        },
    }
    let ghost fv = full@;
    assert(ranked_with(kv, fv, witness, sort));
    proof {
        lemma_ranked_draws_from(kv, fv, witness, sort);
        assert forall|m: int| #![trigger fv[m]] 0 <= m < fv.len() implies (older_than matches Some(d)
            ==> fv[m].complete && (fv[m].newest_age_days matches Some(a) && a >= d)) by {
            assert(fv[m] == kv[witness[m]]);
        }
    }
    let keep: usize = if (limit as usize) < full.len() {
        limit as usize
    } else {
        full.len()
    };
    full.truncate(keep);
    assert(full@ =~= fv.take(keep as int));
    assert(forall|m: int| 0 <= m < full@.len() ==> full@[m] == fv[m]);
    (full, matched)
}

/// A ranking only reorders: each ranked entry is the kept entry that the
/// permutation names.
proof fn lemma_ranked_draws_from(kept: Seq<Entry>, full: Seq<Entry>, p: Seq<int>, sort: SortMode)
    requires
        ranked_with(kept, full, p, sort),
    ensures
        forall|m: int| 0 <= m < full.len() ==> 0 <= p[m] < kept.len() && #[trigger] full[m] == kept[p[m]],
{
    assert forall|m: int| 0 <= m < full.len() implies 0 <= p[m] < kept.len() && #[trigger] full[m] == kept[p[m]] by {
        match sort {
            SortMode::Size => {
                let w = kept.map_values(|e: Entry| BySize(e));
                let o = full.map_values(|e: Entry| BySize(e));
                assert(o[m] == w[p[m]]);
            },
            SortMode::Oldest => {
                let w = kept.map_values(|e: Entry| ByAge(e));
                let o = full.map_values(|e: Entry| ByAge(e));
                assert(o[m] == w[p[m]]);
            },
        }
    }
}

/// The age filter keeps only entries with no activity in the given number
/// of days: every entry it keeps is complete and its newest observed
/// modification is at least that old.
pub proof fn lemma_age_filter_sound(all: Seq<Entry>, older_than: Option<u32>)
    ensures
        forall|k: int|
            #![trigger aged_out(all, older_than)[k]]
            0 <= k < aged_out(all, older_than).len() ==> (older_than matches Some(d) ==> aged_out(all, older_than)[k].complete
                && (aged_out(all, older_than)[k].newest_age_days matches Some(a) && a >= d)),
    decreases all.len(),
{
    if all.len() > 0 {
        lemma_age_filter_sound(all.drop_last(), older_than);
        let prev = aged_out(all.drop_last(), older_than);
        let cur = aged_out(all, older_than);
        assert forall|k: int| #![trigger cur[k]] 0 <= k < cur.len() implies (older_than matches Some(d) ==> cur[k].complete
            && (cur[k].newest_age_days matches Some(a) && a >= d)) by {
            if k < prev.len() {
                assert(cur[k] == prev[k]);
            } else {
                assert(cur[k] == all.last());
            }
        }
    }
}

/// The notes kept in the report: the first `max_issues`; with the total
/// and how many were left out.
pub fn bound_issues(issues: Vec<String>, max_issues: u32) -> (r: (Vec<String>, usize, usize))
    ensures
        r.1 == issues@.len(),
        r.0@ == issues@.take(if (max_issues as int) < issues@.len() {
            max_issues as int
        } else {
            issues@.len() as int
        }),
        r.2 == r.1 - r.0@.len(),
{
    let total = issues.len();
    let mut kept = issues;
    let ghost iv = kept@;
    if kept.len() > max_issues as usize {
        kept.truncate(max_issues as usize);
    }
    assert(kept@ =~= iv.take(if (max_issues as int) < iv.len() {
        max_issues as int
    } else {
        iv.len() as int
    }));
    let omitted = total - kept.len();
    (kept, total, omitted)
}

} // verus!
