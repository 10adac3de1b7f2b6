//! Opencode agent scratch: which allowlisted entries under the scratch root
//! may be removed, and how the target reports them.
use vstd::prelude::*;
use crate::analyze::{IssueLog, log_wf, count_of, reasons};
use crate::framework::{ApplyReport, Inspection};
use crate::paths::{path_components, join_path, join, path_lt, path_less, components_of, same_path, paths_equal};
use crate::paths::{parts_lt, lemma_parts_lt_irreflexive, lemma_parts_lt_transitive, lemma_parts_lt_total};
use crate::reclaim::{total, lemma_total_prefix, sorted_set, insert_sorted, ascending, contains_text};
use crate::sort::{SortKey, stable_sort, stably_sorted, stable_before};
use crate::text::{copy_str, push_str, has_prefix, joined, decimal, decimal_string, size_text, human_size, same_chars, starts_with};
use crate::tokens::views;

verus! {

broadcast use vstd::string::group_string_axioms;

/// The scratch root unless the settings say otherwise.
pub const DEFAULT_ROOT: &'static str = "/data/scratch/tmp/opencode";

/// The entry budget of each candidate directory's size scan.
pub const SIZE_BUDGET_PER_PATH: u64 = 200000;

/// The allowlist: directories and files (relative to the root) that may be
/// removed, whether directories need a proof that they are regenerable,
/// and how long an entry must have been idle.
#[derive(Debug)]
pub struct Settings {
    pub root: String,
    pub dirs: Vec<String>,
    pub files: Vec<String>,
    pub require_proof: bool,
    pub min_idle_minutes: u32,
}

impl Settings {
    /// The settings when none are given: the default root, an empty
    /// allowlist, proofs required, one idle hour.
    pub fn defaults() -> (s: Settings)
        ensures
            s.root@ == DEFAULT_ROOT@,
            s.dirs@.len() == 0,
            s.files@.len() == 0,
            s.require_proof,
            s.min_idle_minutes == 60,
    {
        Settings {
            root: copy_str(DEFAULT_ROOT),
            dirs: Vec::new(),
            files: Vec::new(),
            require_proof: true,
            min_idle_minutes: 60,
        }
    }
}

/// An entry that may be removed.
#[derive(Debug)]
pub struct Candidate {
    pub path: String,
    pub bytes: u64,
    pub age_days: u32,
    pub truncated: bool,
}

/// An allowlisted entry that is kept, and why.
#[derive(Debug)]
pub struct Skipped {
    pub path: String,
    pub reason: String,
}

// ---------------------------------------------------------------------------
// Resolving allowlist entries
// ---------------------------------------------------------------------------

/// Why an allowlist entry is refused from its text alone: it must be a
/// non-empty relative path without `..`.
pub open spec fn lexical_reason(rel: Seq<char>) -> Option<Seq<char>> {
    if rel.len() == 0 || has_prefix(rel, "/"@) {
        Some("not a relative path"@)
    } else if path_components(rel).contains(".."@) {
        Some("escapes the scratch root"@)
    } else {
        None
    }
}

/// Why an allowlist entry is refused from its text alone, if it is.
pub fn lexical_refusal(rel: &str) -> (r: Option<&'static str>)
    ensures
        match r {
            Some(t) => lexical_reason(rel@) == Some(t@),
            None => lexical_reason(rel@) is None,
        },
{
    proof {
        reveal_strlit("/");
        reveal_strlit("");
    }
    if crate::text::chars_of(rel).len() == 0 || starts_with(rel, "/") {
        return Some("not a relative path");
    }
    let parts = components_of(rel);
    let ghost pv = parts.deep_view();
    let mut i: usize = 0;
    while i < parts.len()
        invariant
            i <= parts@.len(),
            pv == parts.deep_view(),
            pv == path_components(rel@),
            !(rel@.len() == 0 || has_prefix(rel@, "/"@)),
            forall|j: int| 0 <= j < i ==> pv[j] != ".."@,
        decreases parts.len() - i,
    {
        if same_chars(parts[i].as_str(), "..") {
            assert(pv[i as int] == ".."@);
            return Some("escapes the scratch root");
        }
        i = i + 1;
    }
    None
}

/// What the filesystem shows of a resolved allowlist entry (without
/// following a final symlink), and whether it holds a `.git`.
#[derive(Debug, Clone, Copy)]
pub struct EntryState {
    pub exists: bool,
    pub is_symlink: bool,
    pub is_dir: bool,
    pub is_file: bool,
    pub has_git: bool,
}

/// Why a resolved allowlist entry is refused: missing, a symlink, of the
/// wrong kind, or a git checkout.
pub open spec fn state_reason(s: EntryState, want_dir: bool) -> Option<Seq<char>> {
    if !s.exists {
        Some("missing"@)
    } else if s.is_symlink {
        Some("symlink (never followed)"@)
    } else if want_dir && !s.is_dir {
        Some("not a directory"@)
    } else if !want_dir && !s.is_file {
        Some("not a file"@)
    } else if s.has_git {
        Some("git checkout (worktree track only)"@)
    } else {
        None
    }
}

/// The entry `rel` resolved against `root`: refused from its text (and
/// reported as given), or from what the filesystem shows of `root/rel`
/// (`state`, reported under the joined path), else the joined path.
pub fn resolve_entry(root: &str, rel: &str, want_dir: bool, state: &EntryState) -> (r: Result<String, Skipped>)
    ensures
        match lexical_reason(rel@) {
            Some(reason) => r matches Err(s) && s.path@ == rel@ && s.reason@ == reason,
            None => match state_reason(*state, want_dir) {
                Some(reason) => r matches Err(s) && s.path@ == join_path(root@, rel@) && s.reason@ == reason,
                None => r matches Ok(p) && p@ == join_path(root@, rel@),
            },
        },
{
    match lexical_refusal(rel) {
        Some(reason) => {
            return Err(Skipped { path: copy_str(rel), reason: copy_str(reason) });
        },
        None => {},
    }
    let full = join(root, rel);
    let reason = if !state.exists {
        "missing"
    } else if state.is_symlink {
        "symlink (never followed)"
    } else if want_dir && !state.is_dir {
        "not a directory"
    } else if !want_dir && !state.is_file {
        "not a file"
    } else if state.has_git {
        "git checkout (worktree track only)"
    } else {
        return Ok(full);
    };
    Err(Skipped { path: full, reason: copy_str(reason) })
}

// ---------------------------------------------------------------------------
// Choosing candidates
// ---------------------------------------------------------------------------

/// What becomes of one resolved allowlist entry.
#[derive(Debug)]
pub enum Verdict {
    /// Already seen: dropped silently.
    Duplicate,
    /// Kept, with the reason.
    Skip(Skipped),
    /// A candidate for removal.
    Take,
}

/// Some path in `seen` names the same path as `path`, component by
/// component (as `PathBuf` compares them).
pub open spec fn seen_has(seen: Seq<Seq<char>>, path: Seq<char>) -> bool {
    exists|k: int| 0 <= k < seen.len() && same_path(#[trigger] seen[k], path)
}

/// Whether `seen` already holds a path that is component-equal to `path`.
fn seen_contains(seen: &Vec<String>, path: &str) -> (r: bool)
    ensures
        r == seen_has(views(seen@), path@),
{
    let ghost sv = views(seen@);
    let mut i: usize = 0;
    while i < seen.len()
        invariant
            i <= seen@.len(),
            sv == views(seen@),
            forall|k: int| 0 <= k < i ==> !same_path(#[trigger] sv[k], path@),
        decreases seen.len() - i,
    {
        if paths_equal(seen[i].as_str(), path) {
            assert(same_path(sv[i as int], path@));
            return true;
        }
        i = i + 1;
    }
    false
}

/// Decides on the resolved entry `path`, marking it seen: a path that
/// names an already seen one (compared by components) is dropped; an
/// allowlisted directory without a regenerability proof is kept when
/// proofs are required; an entry modified within the idle window is kept;
/// anything else is taken.
pub fn consider(
    seen: &mut Vec<String>,
    path: &str,
    is_dir_entry: bool,
    require_proof: bool,
    has_proof: bool,
    idle_minutes: u32,
    min_idle_minutes: u32,
) -> (v: Verdict)
    ensures
        seen_has(views(old(seen)@), path@) ==> v is Duplicate && views(final(seen)@) == views(old(seen)@),
        !seen_has(views(old(seen)@), path@) ==> views(final(seen)@) == views(old(seen)@).push(path@),
        !seen_has(views(old(seen)@), path@) ==> if is_dir_entry && require_proof && !has_proof {
            v matches Verdict::Skip(s) && s.path@ == path@ && s.reason@
                == "no CACHEDIR.TAG or debug/.fingerprint proof"@
        } else if idle_minutes < min_idle_minutes {
            v matches Verdict::Skip(s) && s.path@ == path@ && s.reason@
                == "modified within idle window (possibly building)"@
        } else {
            v is Take
        },
{
    if seen_contains(seen, path) {
        return Verdict::Duplicate;
    }
    let ghost before = views(seen@);
    seen.push(copy_str(path));
    assert(views(seen@) =~= before.push(path@));
    if is_dir_entry && require_proof && !has_proof {
        return Verdict::Skip(
            Skipped { path: copy_str(path), reason: copy_str("no CACHEDIR.TAG or debug/.fingerprint proof") },
        );
    }
    if idle_minutes < min_idle_minutes {
        return Verdict::Skip(
            Skipped { path: copy_str(path), reason: copy_str("modified within idle window (possibly building)") },
        );
    }
    Verdict::Take
}

/// Whole days of idleness.
pub fn idle_to_days(minutes: u32) -> (d: u32)
    ensures
        d == minutes / 1440,
{
    minutes / 1440
}

/// Candidates ordered by path.
impl SortKey for Candidate {
    open spec fn key_lt(self, other: Self) -> bool {
        path_lt(self.path@, other.path@)
    }

    proof fn lemma_irreflexive(a: Self) {
        lemma_parts_lt_irreflexive(path_components(a.path@));
    }

    proof fn lemma_transitive(a: Self, b: Self, c: Self) {
        lemma_parts_lt_transitive(path_components(a.path@), path_components(b.path@), path_components(c.path@));
    }

    proof fn lemma_ties_transitive(a: Self, b: Self, c: Self) {
        lemma_parts_lt_total(path_components(a.path@), path_components(b.path@));
        lemma_parts_lt_total(path_components(b.path@), path_components(c.path@));
    }

    fn less(&self, other: &Self) -> (r: bool) {
        path_less(self.path.as_str(), other.path.as_str())
    }
}

/// `cs` ascends strictly by path, so no two of its paths are
/// component-equal.
pub open spec fn strictly_by_path(cs: Seq<Candidate>) -> bool {
    forall|i: int, j: int| 0 <= i < j < cs.len() ==> path_lt(#[trigger] cs[i].path@, #[trigger] cs[j].path@)
}

proof fn lemma_path_lt_asymmetric(a: Seq<char>, b: Seq<char>)
    requires
        path_lt(a, b),
    ensures
        !path_lt(b, a),
{
    if path_lt(b, a) {
        lemma_parts_lt_transitive(path_components(a), path_components(b), path_components(a));
        lemma_parts_lt_irreflexive(path_components(a));
    }
}

proof fn lemma_extend_strictly(before: Seq<Candidate>, c: Candidate)
    requires
        strictly_by_path(before),
        before.len() > 0 ==> path_lt(before.last().path@, c.path@),
    ensures
        strictly_by_path(before.push(c)),
{
    let after = before.push(c);
    assert forall|x: int, y: int| 0 <= x < y < after.len() implies path_lt(
        #[trigger] after[x].path@,
        #[trigger] after[y].path@,
    ) by {
        assert(after[x] == before[x]);
        if y < before.len() {
            assert(after[y] == before[y]);
        } else if x < before.len() - 1 {
            lemma_parts_lt_transitive(
                path_components(before[x].path@),
                path_components(before.last().path@),
                path_components(c.path@),
            );
        }
    }
}

/// The candidates ordered by path, each path once: of component-equal
/// paths only one candidate stays (as in a set of paths), and every
/// candidate returned is one of those given.
/// Some candidate of `out` has a path component-equal to `path`.
pub open spec fn names_path(out: Seq<Candidate>, path: Seq<char>) -> bool {
    exists|m: int| 0 <= m < out.len() && same_path(#[trigger] out[m].path@, path)
}

/// `out` is `input` ordered by path with each path once: strictly
/// ascending, every entry of `out` one of `input`, and every path of
/// `input` component-equal to one in `out`.
pub open spec fn sorted_once(input: Seq<Candidate>, out: Seq<Candidate>) -> bool {
    &&& strictly_by_path(out)
    &&& forall|m: int| 0 <= m < out.len() ==> input.contains(#[trigger] out[m])
    &&& forall|k: int| 0 <= k < input.len() ==> names_path(out, (#[trigger] input[k]).path@)
}

pub fn sort_candidates(candidates: Vec<Candidate>) -> (r: Vec<Candidate>)
    ensures
        sorted_once(candidates@, r@),
{
    let ghost input = candidates@;
    let sorted = stable_sort(candidates);
    let ghost sv = sorted@;
    let ghost n = sv.len();
    let ghost p = choose|p: Seq<int>| stably_sorted(input, sv, p);
    proof {
        assert forall|a: int, b: int| 0 <= a < b < n implies !path_lt(
            #[trigger] sv[b].path@,
            #[trigger] sv[a].path@,
        ) by {
            assert(stable_before(input[p[a]], p[a], input[p[b]], p[b]));
            if path_lt(sv[a].path@, sv[b].path@) {
                lemma_path_lt_asymmetric(sv[a].path@, sv[b].path@);
            }
        }
    }
    let total = sorted.len();
    let mut rest = sorted;
    let mut out: Vec<Candidate> = Vec::new();
    let mut i: usize = 0;
    // where each kept candidate sits in `sv`, and which kept candidate
    // stands for each entry of `sv` seen so far
    let ghost mut from: Seq<int> = Seq::empty();
    let ghost mut rep: Seq<int> = Seq::empty();
    while rest.len() > 0
        invariant
            i + rest@.len() == n,
            n == sv.len(),
            n == total,
            rest@ == sv.subrange(i as int, n as int),
            forall|a: int, b: int| 0 <= a < b < n ==> !path_lt(#[trigger] sv[b].path@, #[trigger] sv[a].path@),
            strictly_by_path(out@),
            from.len() == out@.len(),
            forall|m: int| 0 <= m < out@.len() ==> 0 <= #[trigger] from[m] < i && out@[m] == sv[from[m]],
            rep.len() == i,
            forall|k: int|
                0 <= k < i ==> 0 <= #[trigger] rep[k] < out@.len() && same_path(out@[rep[k]].path@, sv[k].path@),
        decreases rest.len(),
    {
        assert(rest@[0] == sv[i as int]);
        let c = rest.remove(0);
        assert(rest@ =~= sv.subrange(i + 1, n as int));
        let keep = if out.len() == 0 {
            true
        } else {
            !paths_equal(out[out.len() - 1].path.as_str(), c.path.as_str())
        };
        let ghost before = out@;
        if keep {
            proof {
                if before.len() > 0 {
                    let last = before.last();
                    let k = from[before.len() - 1];
                    assert(before[before.len() - 1] == sv[k]);
                    assert(!path_lt(sv[i as int].path@, sv[k].path@));
                    lemma_parts_lt_total(path_components(last.path@), path_components(c.path@));
                }
                lemma_extend_strictly(before, c);
            }
            out.push(c);
            proof {
                from = from.push(i as int);
                rep = rep.push(before.len() as int);
                assert forall|m: int| 0 <= m < out@.len() implies 0 <= #[trigger] from[m] < i + 1 && out@[m]
                    == sv[from[m]] by {
                    if m < before.len() {
                        assert(out@[m] == before[m]);
                    }
                }
                assert forall|k: int| 0 <= k < i + 1 implies 0 <= #[trigger] rep[k] < out@.len() && same_path(
                    out@[rep[k]].path@,
                    sv[k].path@,
                ) by {
                    if k < i {
                        assert(out@[rep[k]] == before[rep[k]]);
                    }
                }
            }
        } else {
            proof {
                rep = rep.push(before.len() - 1);
            }
        }
        i = i + 1;
    }
    proof {
        assert forall|m: int| 0 <= m < out@.len() implies input.contains(#[trigger] out@[m]) by {
            let j = from[m];
            assert(sv[j] == input[p[j]]);
            assert(0 <= p[j] < input.len());
            assert(out@[m] == input[p[j]]);
        }
        assert forall|k: int| 0 <= k < input.len() implies names_path(out@, (#[trigger] input[k]).path@) by {
            assert(p.contains(k));
            let j = choose|j: int| 0 <= j < p.len() && p[j] == k;
            assert(sv[j] == input[p[j]]);
            let m = rep[j];
            assert(same_path(out@[m].path@, input[k].path@));
        }
    }
    out
}

// ---------------------------------------------------------------------------
// Reporting
// ---------------------------------------------------------------------------

/// The reasons of `skipped`, counted, ascending by reason.
pub open spec fn reason_count(skipped: Seq<Skipped>, reason: Seq<char>) -> nat
    decreases skipped.len(),
{
    if skipped.len() == 0 {
        0
    } else {
        reason_count(skipped.drop_last(), reason) + if skipped.last().reason@ == reason {
            1nat
        } else {
            0nat
        }
    }
}

/// `r` is a reason of `skipped`.
pub open spec fn has_reason(skipped: Seq<Skipped>, r: Seq<char>) -> bool {
    exists|k: int| 0 <= k < skipped.len() && (#[trigger] skipped[k]).reason@ == r
}

/// The summary of why entries were kept: `; skipped: ` and each reason
/// with its count (`2x missing`), reasons ascending; nothing when none was.
pub open spec fn skipped_note_text(skipped: Seq<Skipped>, note: Seq<char>) -> bool {
    if skipped.len() == 0 {
        note == Seq::<char>::empty()
    } else {
        exists|rs: Seq<Seq<char>>| {
            &&& #[trigger] ascending(rs)
            &&& forall|x: Seq<char>| rs.contains(x) <==> has_reason(skipped, x)
            &&& note == "; skipped: "@ + joined(
                rs.map_values(|x: Seq<char>| decimal(reason_count(skipped, x)) + "x "@ + x),
                ", "@,
            )
        }
    }
}

/// The summary of why allowlisted entries were kept.
pub fn skipped_note(skipped: &Vec<Skipped>) -> (r: String)
    ensures
        skipped_note_text(skipped@, r@),
{
    if skipped.len() == 0 {
        let r = String::new();
        assert(r@ =~= Seq::<char>::empty());
        return r;
    }
    let mut log = IssueLog::new();
    let ghost sv = skipped@;
    let mut i: usize = 0;
    assert(sv.take(0) =~= Seq::<Skipped>::empty());
    while i < skipped.len()
        invariant
            i <= sv.len(),
            sv == skipped@,
            log_wf(log),
            log.issues@.len() == i,
            forall|x: Seq<char>| count_of(log.counts@, x) == reason_count(sv.take(i as int), x),
            forall|x: Seq<char>| reasons(log.counts@).contains(x) <==> has_reason(sv.take(i as int), x),
        decreases skipped.len() - i,
    {
        let ghost before = log;
        log.record(skipped[i].reason.as_str(), copy_str(skipped[i].reason.as_str()));
        proof {
            let t = sv.take(i + 1);
            assert(t.drop_last() =~= sv.take(i as int));
            assert(t.last() == sv[i as int]);
            assert forall|x: Seq<char>| reasons(log.counts@).contains(x) <==> has_reason(t, x) by {
                if has_reason(t, x) {
                    let k = choose|k: int| 0 <= k < t.len() && (#[trigger] t[k]).reason@ == x;
                    if k < i {
                        assert(sv.take(i as int)[k] == t[k]);
                    }
                }
                if has_reason(sv.take(i as int), x) {
                    let k = choose|k: int| 0 <= k < i && (#[trigger] sv.take(i as int)[k]).reason@ == x;
                    assert(t[k] == sv.take(i as int)[k]);
                }
                if x == sv[i as int].reason@ {
                    assert(t[i as int].reason@ == x);
                }
            }
        }
        i = i + 1;
    }
    assert(sv.take(sv.len() as int) =~= sv);
    let ghost rs = reasons(log.counts@);
    let mut parts: Vec<String> = Vec::new();
    let mut k: usize = 0;
    while k < log.counts.len()
        invariant
            k <= log.counts@.len(),
            log_wf(log),
            rs == reasons(log.counts@),
            forall|x: Seq<char>| count_of(log.counts@, x) == reason_count(sv, x),
            views(parts@) == rs.take(k as int).map_values(|x: Seq<char>| decimal(reason_count(sv, x)) + "x "@ + x),
        decreases log.counts.len() - k,
    {
        let (ref reason, n) = log.counts[k];
        proof {
            crate::analyze::lemma_count_of_at(log.counts@, k as int);
            assert(rs[k as int] == reason@);
        }
        let mut part = decimal_string(n as u64);
        push_str(&mut part, "x ");
        push_str(&mut part, reason.as_str());
        let ghost before = parts@;
        parts.push(part);
        assert(views(parts@) =~= views(before).push(decimal(reason_count(sv, rs[k as int])) + "x "@ + rs[k as int]));
        k = k + 1;
        assert(views(parts@) =~= rs.take(k as int).map_values(|x: Seq<char>| decimal(reason_count(sv, x)) + "x "@ + x));
    }
    assert(rs.take(rs.len() as int) =~= rs);
    let j = crate::text::join(&parts, ", ");
    assert(parts@.map_values(|p: String| p@) =~= views(parts@));
    let mut r = copy_str("; skipped: ");
    push_str(&mut r, j.as_str());
    assert(ascending(rs));
    r
}

/// The sizes of `cs`.
pub open spec fn candidate_sizes(cs: Seq<Candidate>) -> Seq<nat> {
    cs.map_values(|c: Candidate| c.bytes as nat)
}

/// The largest age of `cs`, if any.
pub open spec fn oldest_candidate(cs: Seq<Candidate>) -> Option<u32>
    decreases cs.len(),
{
    if cs.len() == 0 {
        None
    } else {
        match oldest_candidate(cs.drop_last()) {
            Some(a) => Some(if a > cs.last().age_days {
                a
            } else {
                cs.last().age_days
            }),
            None => Some(cs.last().age_days),
        }
    }
}

/// Some candidate's size is a lower bound.
pub open spec fn any_truncated(cs: Seq<Candidate>) -> bool {
    exists|k: int| 0 <= k < cs.len() && (#[trigger] cs[k]).truncated
}

/// The inspection of the scratch allowlist: the root, the candidates'
/// total size and largest age, their count, and a note (with the size
/// caveat and the skip summary).
pub fn inspection(
    framework: &str,
    variant: &str,
    root: &str,
    candidates: &Vec<Candidate>,
    skipped: &Vec<Skipped>,
) -> (r: Inspection)
    requires
        total(candidate_sizes(candidates@)) <= u64::MAX,
    ensures
        r.framework@ == framework@,
        r.variant@ == variant@,
        r.path@ == root@,
        r.size_bytes == Some(total(candidate_sizes(candidates@)) as u64),
        r.age_oldest_days == oldest_candidate(candidates@),
        r.would_remove == candidates@.len(),
        exists|note: Seq<char>| #[trigger] skipped_note_text(skipped@, note) && r.notes@ == decimal(
            candidates@.len() as nat,
        ) + " allowlisted scratch entries ("@ + size_text(total(candidate_sizes(candidates@))) + ")"@ + (if any_truncated(
            candidates@,
        ) {
            ", sizes are lower bounds (scan budget)"@
        } else {
            ""@
        }) + note,
{
    let ghost cv = candidates@;
    let ghost sz = candidate_sizes(cv);
    let mut bytes: u64 = 0;
    let mut oldest: Option<u32> = None;
    let mut truncated = false;
    let mut i: usize = 0;
    assert(sz.take(0) =~= Seq::<nat>::empty());
    assert(cv.take(0) =~= Seq::<Candidate>::empty());
    while i < candidates.len()
        invariant
            i <= cv.len(),
            cv == candidates@,
            sz == candidate_sizes(cv),
            total(sz) <= u64::MAX,
            bytes as nat == total(sz.take(i as int)),
            oldest == oldest_candidate(cv.take(i as int)),
            truncated == any_truncated(cv.take(i as int)),
        decreases candidates.len() - i,
    {
        proof {
            assert(sz.take(i + 1).drop_last() =~= sz.take(i as int));
            assert(cv.take(i + 1).drop_last() =~= cv.take(i as int));
            lemma_total_prefix(sz, i + 1);
        }
        let c = &candidates[i];
        bytes = bytes + c.bytes;
        oldest = match oldest {
            Some(a) => Some(if a > c.age_days {
                a
            } else {
                c.age_days
            }),
            None => Some(c.age_days),
        };
        proof {
            let t = cv.take(i + 1);
            if c.truncated {
                assert(t[i as int].truncated);
            }
            if any_truncated(t) && !c.truncated {
                let k = choose|k: int| 0 <= k < t.len() && (#[trigger] t[k]).truncated;
                assert(cv.take(i as int)[k] == t[k]);
            }
            if any_truncated(cv.take(i as int)) {
                let k = choose|k: int| 0 <= k < i && (#[trigger] cv.take(i as int)[k]).truncated;
                assert(t[k] == cv.take(i as int)[k]);
            }
        }
        truncated = truncated || c.truncated;
        i = i + 1;
    }
    assert(sz.take(cv.len() as int) =~= sz);
    assert(cv.take(cv.len() as int) =~= cv);
    let note = skipped_note(skipped);
    let mut notes = decimal_string(candidates.len() as u64);
    push_str(&mut notes, " allowlisted scratch entries (");
    push_str(&mut notes, human_size(bytes).as_str());
    push_str(&mut notes, ")");
    if truncated {
        push_str(&mut notes, ", sizes are lower bounds (scan budget)");
    }
    push_str(&mut notes, note.as_str());
    proof {
        reveal_strlit("");
    }
    assert(notes@ =~= decimal(cv.len() as nat) + " allowlisted scratch entries ("@ + size_text(total(sz)) + ")"@ + (
    if truncated {
        ", sizes are lower bounds (scan budget)"@
    } else {
        ""@
    }) + note@);
    Inspection {
        framework: copy_str(framework),
        variant: copy_str(variant),
        path: copy_str(root),
        size_bytes: Some(bytes),
        age_oldest_days: oldest,
        would_remove: candidates.len() as u64,
        notes,
    }
}

/// The lines that list each kept entry and why.
pub open spec fn skip_lines(skipped: Seq<Skipped>) -> Seq<Seq<char>> {
    skipped.map_values(|s: Skipped| "skipped "@ + s.path@ + ": "@ + s.reason@)
}

/// The error lines that list each kept entry and why.
pub fn skipped_lines(skipped: &Vec<Skipped>) -> (r: Vec<String>)
    ensures
        views(r@) == skip_lines(skipped@),
{
    let mut r: Vec<String> = Vec::new();
    let mut i: usize = 0;
    while i < skipped.len()
        invariant
            i <= skipped@.len(),
            views(r@) == skip_lines(skipped@).take(i as int),
        decreases skipped.len() - i,
    {
        let mut line = copy_str("skipped ");
        push_str(&mut line, skipped[i].path.as_str());
        push_str(&mut line, ": ");
        push_str(&mut line, skipped[i].reason.as_str());
        let ghost before = r@;
        r.push(line);
        assert(views(r@) =~= views(before).push(skip_lines(skipped@)[i as int]));
        i = i + 1;
        assert(views(r@) =~= skip_lines(skipped@).take(i as int));
    }
    assert(skip_lines(skipped@).take(skipped@.len() as int) =~= skip_lines(skipped@));
    r
}

/// What a dry run reports: nothing removed, every candidate and kept entry
/// counted as skipped, a line saying what would be removed (with the skip
/// summary), then a line per kept entry.
pub fn dry_run_report(framework: &str, variant: &str, candidates: &Vec<Candidate>, skipped: &Vec<Skipped>) -> (r: ApplyReport)
    requires
        total(candidate_sizes(candidates@)) <= u64::MAX,
        candidates@.len() + skipped@.len() <= u64::MAX,
    ensures
        r.framework@ == framework@,
        r.variant@ == variant@,
        r.removed == 0,
        r.freed_bytes == 0,
        r.skipped == candidates@.len() + skipped@.len(),
        views(r.errors@).len() == 1 + skipped@.len(),
        views(r.errors@).skip(1) == skip_lines(skipped@),
        exists|note: Seq<char>| #[trigger] skipped_note_text(skipped@, note) && views(r.errors@)[0] == "dry-run: would remove "@
            + decimal(candidates@.len() as nat) + " allowlisted scratch entries ("@ + size_text(
            total(candidate_sizes(candidates@)),
        ) + ")"@ + note,
{
    let ghost sz = candidate_sizes(candidates@);
    let mut bytes: u64 = 0;
    let mut i: usize = 0;
    assert(sz.take(0) =~= Seq::<nat>::empty());
    while i < candidates.len()
        invariant
            i <= candidates@.len(),
            sz == candidate_sizes(candidates@),
            total(sz) <= u64::MAX,
            bytes as nat == total(sz.take(i as int)),
        decreases candidates.len() - i,
    {
        proof {
            assert(sz.take(i + 1).drop_last() =~= sz.take(i as int));
            lemma_total_prefix(sz, i + 1);
        }
        bytes = bytes + candidates[i].bytes;
        i = i + 1;
    }
    assert(sz.take(candidates@.len() as int) =~= sz);
    let note = skipped_note(skipped);
    let mut first = copy_str("dry-run: would remove ");
    push_str(&mut first, decimal_string(candidates.len() as u64).as_str());
    push_str(&mut first, " allowlisted scratch entries (");
    push_str(&mut first, human_size(bytes).as_str());
    push_str(&mut first, ")");
    push_str(&mut first, note.as_str());
    let lines = skipped_lines(skipped);
    let mut errors: Vec<String> = Vec::new();
    errors.push(first);
    let mut k: usize = 0;
    while k < lines.len()
        invariant
            k <= lines@.len(),
            errors@.len() == 1 + k,
            views(errors@).skip(1) == views(lines@).take(k as int),
            views(errors@)[0] == first@,
        decreases lines.len() - k,
    {
        let ghost before = errors@;
        errors.push(copy_str(lines[k].as_str()));
        assert(views(errors@) =~= views(before).push(lines@[k as int]@));
        k = k + 1;
        assert(views(errors@).skip(1) =~= views(lines@).take(k as int));
    }
    assert(views(lines@).take(lines@.len() as int) =~= views(lines@));
    assert(views(errors@)[0] =~= "dry-run: would remove "@ + decimal(candidates@.len() as nat)
        + " allowlisted scratch entries ("@ + size_text(total(sz)) + ")"@ + note@);
    ApplyReport {
        framework: copy_str(framework),
        variant: copy_str(variant),
        removed: 0,
        freed_bytes: 0,
        skipped: candidates.len() as u64 + skipped.len() as u64,
        errors,
    }
}

} // verus!
