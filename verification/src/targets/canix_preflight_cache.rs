//! The canix cargo preflight cache: which project caches to remove, oldest
//! first, to bring the cache within its size cap.
use vstd::prelude::*;
use crate::reclaim::{total, lemma_total_prefix, lemma_total_permuted};
use crate::sort::{SortKey, stable_sort, stably_sorted, is_permutation};
use crate::text::{copy_str, push_str, joined, join, human_size, size_text, decimal, decimal_string};
use crate::tokens::views;

verus! {

broadcast use vstd::string::group_string_axioms;

/// The cache's size cap unless the settings say otherwise (4 GiB).
pub const DEFAULT_MAX_BYTES: u64 = 4294967296;

/// The settings of the size cap.
#[derive(Debug, Clone, Copy)]
pub struct Settings {
    pub max_bytes: u64,
}

impl Settings {
    /// The settings when none are given.
    pub fn defaults() -> (s: Settings)
        ensures
            s.max_bytes == DEFAULT_MAX_BYTES,
    {
        Settings { max_bytes: DEFAULT_MAX_BYTES }
    }
}

/// One project cache directory: its path and name, its scanned size, its
/// modification time (nanoseconds from the epoch, for ordering) and age in
/// whole days.
#[derive(Debug)]
pub struct CacheEntry {
    pub path: String,
    pub name: String,
    pub bytes: u64,
    pub modified: i128,
    pub age_days: u32,
}

/// What the size cap removes.
#[derive(Debug)]
pub struct CleanupPlan {
    pub total_bytes: u64,
    pub remove_bytes: u64,
    pub remove: Vec<CacheEntry>,
    pub oldest_age_days: Option<u32>,
    pub truncated: bool,
}

/// A cache entry ordered by modification time, oldest first.
pub struct ByModified(pub CacheEntry);

impl SortKey for ByModified {
    open spec fn key_lt(self, other: Self) -> bool {
        self.0.modified < other.0.modified
    }

    proof fn lemma_irreflexive(a: Self) {
    }

    proof fn lemma_transitive(a: Self, b: Self, c: Self) {
    }

    proof fn lemma_ties_transitive(a: Self, b: Self, c: Self) {
    }

    fn less(&self, other: &Self) -> (r: bool) {
        self.0.modified < other.0.modified
    }
}

/// The sizes of `es`.
pub open spec fn sizes(es: Seq<CacheEntry>) -> Seq<nat> {
    es.map_values(|e: CacheEntry| e.bytes as nat)
}

/// The number of entries of `sorted` (oldest first) removed from a cache of
/// `t` bytes with cap `max`: the fewest, counted from `k`, after which at
/// most `max` bytes remain.
pub open spec fn cut_at(sorted: Seq<CacheEntry>, t: int, max: int, k: int) -> int
    decreases sorted.len() - k,
{
    if k < 0 || k >= sorted.len() || t - total(sizes(sorted).take(k)) <= max {
        k
    } else {
        cut_at(sorted, t, max, k + 1)
    }
}

/// The largest age of `es`, if any.
pub open spec fn oldest_of(es: Seq<CacheEntry>) -> Option<u32>
    decreases es.len(),
{
    if es.len() == 0 {
        None
    } else {
        match oldest_of(es.drop_last()) {
            Some(a) => Some(if a > es.last().age_days {
                a
            } else {
                es.last().age_days
            }),
            None => Some(es.last().age_days),
        }
    }
}

/// `plan` removes, from `sorted` (the entries oldest first), the shortest
/// prefix that brings the cache within `max` bytes.
pub open spec fn removes_oldest(plan: CleanupPlan, sorted: Seq<CacheEntry>, max: u64) -> bool {
    let k = cut_at(sorted, plan.total_bytes as int, max as int, 0);
    &&& plan.remove@ == sorted.take(k)
    &&& plan.remove_bytes as nat == total(sizes(sorted).take(k))
    &&& plan.oldest_age_days == oldest_of(sorted.take(k))
}

proof fn lemma_cut_bounds(sorted: Seq<CacheEntry>, t: int, max: int, k: int)
    requires
        0 <= k <= sorted.len(),
        t == total(sizes(sorted)),
        max >= 0,
    ensures
        k <= cut_at(sorted, t, max, k) <= sorted.len(),
        t - total(sizes(sorted).take(cut_at(sorted, t, max, k))) <= max,
        forall|j: int| k <= j < cut_at(sorted, t, max, k) ==> t - total(#[trigger] sizes(sorted).take(j)) > max,
    decreases sorted.len() - k,
{
    if k >= sorted.len() {
        assert(sizes(sorted).take(k) =~= sizes(sorted));
    } else if t - total(sizes(sorted).take(k)) > max {
        lemma_cut_bounds(sorted, t, max, k + 1);
    }
}

/// The size-cap plan for the cache entries `entries`: nothing while the
/// cache is within `max_bytes`; otherwise the oldest entries (by
/// modification time, ties in listed order) until at most `max_bytes`
/// remain.
pub fn cleanup_plan(entries: Vec<CacheEntry>, max_bytes: u64) -> (plan: CleanupPlan)
    requires
        total(sizes(entries@)) <= u64::MAX,
    ensures
        plan.total_bytes as nat == total(sizes(entries@)),
        !plan.truncated,
        plan.total_bytes <= max_bytes ==> plan.remove@.len() == 0 && plan.remove_bytes == 0
            && plan.oldest_age_days is None,
        plan.total_bytes > max_bytes ==> exists|sorted: Seq<CacheEntry>, p: Seq<int>|
            #[trigger] sorted_ok(entries@, sorted, p) && removes_oldest(plan, sorted, max_bytes),
        plan.total_bytes > max_bytes ==> plan.total_bytes - plan.remove_bytes <= max_bytes,
        plan.remove@.len() > 0 ==> plan.total_bytes - (plan.remove_bytes - plan.remove@.last().bytes) > max_bytes,
{
    let ghost ev = entries@;
    let ghost sz = sizes(ev);
    let mut sum: u64 = 0;
    let mut i: usize = 0;
    assert(sz.take(0) =~= Seq::<nat>::empty());
    while i < entries.len()
        invariant
            i <= ev.len(),
            ev == entries@,
            sz == sizes(ev),
            total(sz) <= u64::MAX,
            sum as nat == total(sz.take(i as int)),
        decreases entries.len() - i,
    {
        proof {
            assert(sz.take(i + 1).drop_last() =~= sz.take(i as int));
            lemma_total_prefix(sz, i + 1);
        }
        sum = sum + entries[i].bytes;
        i = i + 1;
    }
    assert(sz.take(ev.len() as int) =~= sz);
    if sum <= max_bytes {
        return CleanupPlan {
            total_bytes: sum,
            remove_bytes: 0,
            remove: Vec::new(),
            oldest_age_days: None,
            truncated: false,
        };
    }
    // order oldest first
    let mut wrapped: Vec<ByModified> = Vec::new();
    let mut rest = entries;
    while rest.len() > 0
        invariant
            wrapped@.len() + rest@.len() == ev.len(),
            rest@ == ev.skip(wrapped@.len() as int),
            wrapped@ == ev.take(wrapped@.len() as int).map_values(|e: CacheEntry| ByModified(e)),
        decreases rest.len(),
    {
        let ghost w = wrapped@.len();
        let e = rest.remove(0);
        assert(ev.skip(w as int)[0] == ev[w as int]);
        wrapped.push(ByModified(e));
        assert(wrapped@ =~= ev.take(wrapped@.len() as int).map_values(|e: CacheEntry| ByModified(e)));
        assert(rest@ =~= ev.skip(wrapped@.len() as int));
    }
    assert(ev.take(ev.len() as int) =~= ev);
    let ghost wv = wrapped@;
    let mut sorted_w = stable_sort(wrapped);
    let ghost swv = sorted_w@;
    let ghost p = choose|p: Seq<int>| stably_sorted(wv, swv, p);
    let mut sorted: Vec<CacheEntry> = Vec::new();
    while sorted_w.len() > 0
        invariant
            sorted@.len() + sorted_w@.len() == swv.len(),
            sorted_w@ == swv.skip(sorted@.len() as int),
            sorted@.map_values(|e: CacheEntry| ByModified(e)) == swv.take(sorted@.len() as int),
        decreases sorted_w.len(),
    {
        let ghost f = sorted@.len();
        let b = sorted_w.remove(0);
        assert(swv.skip(f as int)[0] == swv[f as int]);
        sorted.push(b.0);
        assert(sorted@.map_values(|e: CacheEntry| ByModified(e)) =~= swv.take(sorted@.len() as int));
        assert(sorted_w@ =~= swv.skip(sorted@.len() as int));
    }
    assert(swv.take(swv.len() as int) =~= swv);
    let ghost sv = sorted@;
    // the sorted entries are the same multiset of sizes
    proof {
        lemma_sizes_permuted(ev, sv, p);
    }
    let mut remaining: u64 = sum;
    let mut removed_bytes: u64 = 0;
    let mut oldest: Option<u32> = None;
    let mut remove: Vec<CacheEntry> = Vec::new();
    let mut src = sorted;
    let ghost ssz = sizes(sv);
    assert(ssz.take(0) =~= Seq::<nat>::empty());
    assert(sv.take(0) =~= Seq::<CacheEntry>::empty());
    proof {
        lemma_cut_bounds(sv, sum as int, max_bytes as int, 0);
    }
    while src.len() > 0 && remaining > max_bytes
        invariant
            remove@.len() + src@.len() == sv.len(),
            src@ == sv.skip(remove@.len() as int),
            remove@ == sv.take(remove@.len() as int),
            ssz == sizes(sv),
            total(ssz) == sum,
            removed_bytes as nat == total(ssz.take(remove@.len() as int)),
            remaining as int == sum - total(ssz.take(remove@.len() as int)),
            oldest == oldest_of(sv.take(remove@.len() as int)),
            remove@.len() <= cut_at(sv, sum as int, max_bytes as int, 0),
            cut_at(sv, sum as int, max_bytes as int, 0) <= sv.len(),
            forall|j: int|
                0 <= j < cut_at(sv, sum as int, max_bytes as int, 0) ==> sum - total(#[trigger] ssz.take(j)) > max_bytes,
            sum - total(ssz.take(cut_at(sv, sum as int, max_bytes as int, 0))) <= max_bytes,
        decreases src.len(),
    {
        let ghost k: int = remove@.len() as int;
        let e = src.remove(0);
        assert(sv.skip(k)[0] == sv[k]);
        proof {
            assert(ssz.take(k + 1).drop_last() =~= ssz.take(k as int));
            assert(sv.take(k + 1).drop_last() =~= sv.take(k as int));
            lemma_total_prefix(ssz, k + 1);
            if k == cut_at(sv, sum as int, max_bytes as int, 0) {
                assert(false);
            }
        }
        remaining = remaining - e.bytes;
        removed_bytes = removed_bytes + e.bytes;
        oldest = match oldest {
            Some(a) => Some(if a > e.age_days {
                a
            } else {
                e.age_days
            }),
            None => Some(e.age_days),
        };
        remove.push(e);
        assert(remove@ =~= sv.take(remove@.len() as int));
        assert(src@ =~= sv.skip(remove@.len() as int));
    }
    proof {
        let k = remove@.len() as int;
        let c = cut_at(sv, sum as int, max_bytes as int, 0);
        if k < c {
            assert(sum - total(ssz.take(k)) > max_bytes);
            assert(src@.len() == 0);
            assert(k == sv.len());
        }
        assert(k == c);
        if k > 0 {
            assert(ssz.take(k).drop_last() =~= ssz.take(k - 1));
            assert(sum - total(ssz.take(k - 1)) > max_bytes);
            assert(ssz[k - 1] == remove@.last().bytes);
        }
        assert(sorted_ok(ev, sv, p));
    }
    CleanupPlan { total_bytes: sum, remove_bytes: removed_bytes, remove, oldest_age_days: oldest, truncated: false }
}

/// A stable sort by modification time keeps the total size.
proof fn lemma_sizes_permuted(ev: Seq<CacheEntry>, sv: Seq<CacheEntry>, p: Seq<int>)
    requires
        stably_sorted(ev.map_values(|e: CacheEntry| ByModified(e)), sv.map_values(|e: CacheEntry| ByModified(e)), p),
        sv.len() == ev.len(),
    ensures
        total(sizes(sv)) == total(sizes(ev)),
{
    assert forall|i: int| 0 <= i < sizes(sv).len() implies sizes(sv)[i] == sizes(ev)[p[i]] by {
        assert(sv.map_values(|e: CacheEntry| ByModified(e))[i] == ev.map_values(|e: CacheEntry| ByModified(e))[p[i]]);
    }
    lemma_total_permuted(sizes(ev), sizes(sv), p);
}

/// `sv` is `ev` stably sorted by modification time, by `p`.
pub open spec fn sorted_ok(ev: Seq<CacheEntry>, sv: Seq<CacheEntry>, p: Seq<int>) -> bool {
    stably_sorted(ev.map_values(|e: CacheEntry| ByModified(e)), sv.map_values(|e: CacheEntry| ByModified(e)), p)
        && sv.len() == ev.len()
}

/// The names of the entries a plan removes, at most eight, joined by `, `.
pub open spec fn removed_names(remove: Seq<CacheEntry>) -> Seq<char> {
    joined(remove.take(if remove.len() < 8 {
        remove.len() as int
    } else {
        8
    }).map_values(|e: CacheEntry| e.name@), ", "@)
}

/// The note a size-cap inspection shows.
pub open spec fn plan_notes(plan: CleanupPlan, max_bytes: u64) -> Seq<char> {
    let names = removed_names(plan.remove@);
    let suffix = if plan.truncated {
        " (scan truncated)"@
    } else {
        ""@
    };
    if names.len() == 0 {
        "canix preflight cache total "@ + size_text(plan.total_bytes as nat) + " within cap "@ + size_text(
            max_bytes as nat,
        ) + suffix
    } else {
        "canix preflight cache total "@ + size_text(plan.total_bytes as nat) + ", cap "@ + size_text(
            max_bytes as nat,
        ) + "; remove oldest: "@ + names + suffix
    }
}

impl CleanupPlan {
    /// The note for an inspection: the cache total and cap, and the first
    /// caches the plan removes, oldest first.
    pub fn notes(&self, max_bytes: u64) -> (r: String)
        ensures
            r@ == plan_notes(*self, max_bytes),
    {
        let n: usize = if self.remove.len() < 8 {
            self.remove.len()
        } else {
            8
        };
        let mut names: Vec<String> = Vec::new();
        let mut i: usize = 0;
        let ghost first = self.remove@.take(n as int).map_values(|e: CacheEntry| e.name@);
        while i < n
            invariant
                i <= n,
                n <= self.remove@.len(),
                first == self.remove@.take(n as int).map_values(|e: CacheEntry| e.name@),
                views(names@) == first.take(i as int),
            decreases n - i,
        {
            let ghost before = names@;
            names.push(copy_str(self.remove[i].name.as_str()));
            assert(views(names@) =~= views(before).push(self.remove@[i as int].name@));
            i = i + 1;
            assert(views(names@) =~= first.take(i as int));
        }
        assert(first.take(n as int) =~= first);
        let joined_names = join(&names, ", ");
        assert(names@.map_values(|p: String| p@) =~= views(names@));
        let names_empty = crate::text::chars_of(joined_names.as_str()).len() == 0;
        let mut r = copy_str("canix preflight cache total ");
        push_str(&mut r, human_size(self.total_bytes).as_str());
        if names_empty {
            push_str(&mut r, " within cap ");
            push_str(&mut r, human_size(max_bytes).as_str());
        } else {
            push_str(&mut r, ", cap ");
            push_str(&mut r, human_size(max_bytes).as_str());
            push_str(&mut r, "; remove oldest: ");
            push_str(&mut r, joined_names.as_str());
        }
        if self.truncated {
            push_str(&mut r, " (scan truncated)");
        }
        proof {
            reveal_strlit("");
        }
        assert(r@ =~= plan_notes(*self, max_bytes));
        r
    }
}

/// The dry-run note: how many project caches the plan removes and their
/// size.
pub fn dry_run_note(count: u64, bytes: u64) -> (r: String)
    ensures
        r@ == "dry-run: would remove "@ + decimal(count as nat) + " canix preflight project caches ("@
            + size_text(bytes as nat) + ")"@,
{
    let mut r = copy_str("dry-run: would remove ");
    push_str(&mut r, decimal_string(count).as_str());
    push_str(&mut r, " canix preflight project caches (");
    push_str(&mut r, human_size(bytes).as_str());
    push_str(&mut r, ")");
    r
}

} // verus!
