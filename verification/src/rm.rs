//! Guarded scratch removal: plan first, quarantine on apply, restore or
//! separately-approved purge afterwards.
//!
//! Nothing here deletes on the first pass: applying a plan moves guarded
//! targets into a same-filesystem quarantine; only a purge removes bytes,
//! and only for entries whose recorded identity still matches. Each phase
//! verifies every entry before the first mutation, and entries already in
//! the phase's end state are skipped, so interrupted batches resume.
//!
//! The caller performs the filesystem work (guards, `symlink_metadata`,
//! renames, journal writes); this module decides from what it observed.
use vstd::prelude::*;

use crate::guard::{EntryMeta, GuardError, GuardedPath, PROTECT_MARKER};
use crate::paths::{file_name, join, join_path, path_components, path_starts_with, paths_equal, same_path};
use crate::text::{copy_str, decimal, push_char, push_decimal, push_str};

verus! {

/// Default scratch root when no root is given.
pub const DEFAULT_SCRATCH_ROOT: &'static str = "/data/scratch/tmp/opencode";

/// Quarantine directory name inside the allowed root (same device, so
/// retirement is always a rename, never copy-and-delete).
pub const QUARANTINE_DIR_NAME: &'static str = ".doty-quarantine";

/// One recorded removal target and its progress.
#[derive(Clone, Debug)]
pub struct PlannedTarget {
    pub path: String,
    pub dev: u64,
    pub ino: u64,
    pub is_dir: bool,
    pub quarantined_as: Option<String>,
    pub restored: bool,
    pub purged: bool,
}

/// A recorded removal plan (the journal).
#[derive(Clone, Debug)]
pub struct RmPlan {
    pub id: String,
    pub created_at: String,
    pub root: String,
    pub quarantine_dir: String,
    pub targets: Vec<PlannedTarget>,
}

/// What a new plan shows before anything moves.
#[derive(Clone, Debug)]
pub struct RmPreview {
    pub id: String,
    pub root: String,
    pub targets: Vec<String>,
}

/// Why a removal step was refused.
#[derive(Clone, Debug)]
pub enum RmError {
    NoTargets,
    RootItself(String),
    QuarantineDirectory(String),
    Duplicate(String),
    Overlapping(String, String),
    InvalidPlanId(String),
    CannotQuarantine(String),
    ResumeMissing { path: String, plan: String },
    ResumeIdentityChanged { dest: String, plan: String },
    NotPending { path: String, plan: String },
    NeverApplied { path: String, plan: String },
    QuarantinedMissing(String),
    QuarantinedIdentityChanged(String),
    BecameSymlink(String),
    RestoreDestinationExists(String),
    NotQuarantined { path: String, plan: String },
    PurgeSymlink(String),
    TreeMountBoundary(String),
    TreeProtected(String),
    Guard(GuardError),
    Io(String),
}

/// The text of a refusal.
pub open spec fn rm_message(e: RmError) -> Seq<char> {
    match e {
        RmError::NoTargets => "no removal targets given"@,
        RmError::RootItself(p) => "refusing to remove the allowed root itself: "@ + p@,
        RmError::QuarantineDirectory(p) => "refusing to remove the quarantine directory: "@ + p@,
        RmError::Duplicate(p) => "duplicate removal target: "@ + p@,
        RmError::Overlapping(a, b) => "overlapping removal targets: "@ + a@ + " and "@ + b@,
        RmError::InvalidPlanId(id) => "invalid plan id: "@ + id@,
        RmError::CannotQuarantine(p) => "cannot quarantine "@ + p@,
        RmError::ResumeMissing { path, plan } => "quarantined entry missing for "@ + path@
            + " (plan "@ + plan@ + " cannot resume)"@,
        RmError::ResumeIdentityChanged { dest, plan } => "quarantined entry identity changed: "@
            + dest@ + " (plan "@ + plan@ + " cannot resume)"@,
        RmError::NotPending { path, plan } => "plan "@ + plan@ + " entry "@ + path@
            + " is neither quarantined nor pending; restore or purge it instead"@,
        RmError::NeverApplied { path, plan } => "plan "@ + plan@ + " entry "@ + path@
            + " was never applied; nothing to restore"@,
        RmError::QuarantinedMissing(p) => "quarantined entry missing: "@ + p@,
        RmError::QuarantinedIdentityChanged(p) => "quarantined entry identity changed: "@ + p@,
        RmError::BecameSymlink(p) => "quarantined entry became a symlink: "@ + p@,
        RmError::RestoreDestinationExists(p) => "restore destination exists (refusing overwrite): "@
            + p@,
        RmError::NotQuarantined { path, plan } => "plan "@ + plan@ + " entry "@ + path@
            + " is not quarantined; purge needs an applied plan"@,
        RmError::PurgeSymlink(p) => "refusing symlink at purge time: "@ + p@,
        RmError::TreeMountBoundary(p) => "refusing mount boundary inside "@ + p@,
        RmError::TreeProtected(p) => "refusing protected content inside "@ + p@,
        RmError::Guard(g) => crate::guard::guard_message(g),
        RmError::Io(m) => m@,
    }
}

fn text2(a: &str, b: &str) -> (r: String)
    ensures
        r@ == a@ + b@,
{
    let mut r = String::new();
    push_str(&mut r, a);
    push_str(&mut r, b);
    assert(r@ =~= a@ + b@);
    r
}

fn text4(a: &str, b: &str, c: &str, d: &str) -> (r: String)
    ensures
        r@ == a@ + b@ + c@ + d@,
{
    let mut r = String::new();
    push_str(&mut r, a);
    push_str(&mut r, b);
    push_str(&mut r, c);
    push_str(&mut r, d);
    assert(r@ =~= a@ + b@ + c@ + d@);
    r
}

fn text5(a: &str, b: &str, c: &str, d: &str, e: &str) -> (r: String)
    ensures
        r@ == a@ + b@ + c@ + d@ + e@,
{
    let mut r = String::new();
    push_str(&mut r, a);
    push_str(&mut r, b);
    push_str(&mut r, c);
    push_str(&mut r, d);
    push_str(&mut r, e);
    assert(r@ =~= a@ + b@ + c@ + d@ + e@);
    r
}

impl RmError {
    /// The refusal as text.
    pub fn message(&self) -> (r: String)
        ensures
            r@ == rm_message(*self),
    {
        match self {
            RmError::NoTargets => copy_str("no removal targets given"),
            RmError::RootItself(p) => text2(
                "refusing to remove the allowed root itself: ",
                p.as_str(),
            ),
            RmError::QuarantineDirectory(p) => text2(
                "refusing to remove the quarantine directory: ",
                p.as_str(),
            ),
            RmError::Duplicate(p) => text2("duplicate removal target: ", p.as_str()),
            RmError::Overlapping(a, b) => text4(
                "overlapping removal targets: ",
                a.as_str(),
                " and ",
                b.as_str(),
            ),
            RmError::InvalidPlanId(id) => text2("invalid plan id: ", id.as_str()),
            RmError::CannotQuarantine(p) => text2("cannot quarantine ", p.as_str()),
            RmError::ResumeMissing { path, plan } => text5(
                "quarantined entry missing for ",
                path.as_str(),
                " (plan ",
                plan.as_str(),
                " cannot resume)",
            ),
            RmError::ResumeIdentityChanged { dest, plan } => text5(
                "quarantined entry identity changed: ",
                dest.as_str(),
                " (plan ",
                plan.as_str(),
                " cannot resume)",
            ),
            RmError::NotPending { path, plan } => text5(
                "plan ",
                plan.as_str(),
                " entry ",
                path.as_str(),
                " is neither quarantined nor pending; restore or purge it instead",
            ),
            RmError::NeverApplied { path, plan } => text5(
                "plan ",
                plan.as_str(),
                " entry ",
                path.as_str(),
                " was never applied; nothing to restore",
            ),
            RmError::QuarantinedMissing(p) => text2("quarantined entry missing: ", p.as_str()),
            RmError::QuarantinedIdentityChanged(p) => text2(
                "quarantined entry identity changed: ",
                p.as_str(),
            ),
            RmError::BecameSymlink(p) => text2("quarantined entry became a symlink: ", p.as_str()),
            RmError::RestoreDestinationExists(p) => text2(
                "restore destination exists (refusing overwrite): ",
                p.as_str(),
            ),
            RmError::NotQuarantined { path, plan } => text5(
                "plan ",
                plan.as_str(),
                " entry ",
                path.as_str(),
                " is not quarantined; purge needs an applied plan",
            ),
            RmError::PurgeSymlink(p) => text2("refusing symlink at purge time: ", p.as_str()),
            RmError::TreeMountBoundary(p) => text2("refusing mount boundary inside ", p.as_str()),
            RmError::TreeProtected(p) => text2("refusing protected content inside ", p.as_str()),
            RmError::Guard(g) => g.message(),
            RmError::Io(m) => copy_str(m.as_str()),
        }
    }
}

// ---------------------------------------------------------------------------
// Planning
// ---------------------------------------------------------------------------

/// `root.join(QUARANTINE_DIR_NAME)`.
pub fn quarantine_dir_of(root: &str) -> (q: String)
    ensures
        q@ == join_path(root@, QUARANTINE_DIR_NAME@),
{
    join(root, QUARANTINE_DIR_NAME)
}

/// Refuse an empty target list before anything else is looked at.
pub fn check_nonempty(count: usize) -> (r: Result<(), RmError>)
    ensures
        r is Ok <==> count > 0,
        r matches Err(e) ==> e is NoTargets,
{
    if count == 0 {
        Err(RmError::NoTargets)
    } else {
        Ok(())
    }
}

/// The planned record of a guarded target: never the root itself, never the
/// quarantine directory or anything inside it.
pub fn check_target(root: &str, quarantine_dir: &str, guarded: GuardedPath) -> (r: Result<
    PlannedTarget,
    RmError,
>)
    ensures
        match r {
            Ok(t) => {
                &&& !same_path(guarded.path@, root@)
                &&& !path_starts_with(guarded.path@, quarantine_dir@)
                &&& t.path@ == guarded.path@
                &&& t.dev == guarded.dev
                &&& t.ino == guarded.ino
                &&& t.is_dir == guarded.is_dir
                &&& t.quarantined_as is None
                &&& !t.restored
                &&& !t.purged
            },
            Err(RmError::RootItself(p)) => same_path(guarded.path@, root@) && p@ == guarded.path@,
            Err(RmError::QuarantineDirectory(p)) => !same_path(guarded.path@, root@)
                && path_starts_with(guarded.path@, quarantine_dir@) && p@ == guarded.path@,
            Err(_) => false,
        },
{
    if paths_equal(guarded.path.as_str(), root) {
        return Err(RmError::RootItself(guarded.path));
    }
    if paths_equal(guarded.path.as_str(), quarantine_dir) || crate::paths::starts_with_path(
        guarded.path.as_str(),
        quarantine_dir,
    ) {
        proof {
            if same_path(guarded.path@, quarantine_dir@) {
                assert(crate::paths::path_components(quarantine_dir@).subrange(
                    0,
                    crate::paths::path_components(quarantine_dir@).len() as int,
                ) =~= crate::paths::path_components(quarantine_dir@));
            }
        }
        return Err(RmError::QuarantineDirectory(guarded.path));
    }
    Ok(
        PlannedTarget {
            path: guarded.path,
            dev: guarded.dev,
            ino: guarded.ino,
            is_dir: guarded.is_dir,
            quarantined_as: None,
            restored: false,
            purged: false,
        },
    )
}

/// Two targets conflict when they name the same path or one lies inside
/// the other.
pub open spec fn conflict(a: Seq<char>, b: Seq<char>) -> bool {
    same_path(a, b) || path_starts_with(a, b) || path_starts_with(b, a)
}

/// No two distinct entries of `ts` conflict.
pub open spec fn disjoint_targets(ts: Seq<PlannedTarget>) -> bool {
    forall|i: int, j: int|
        0 <= i < j < ts.len() ==> !conflict(#[trigger] ts[i].path@, #[trigger] ts[j].path@)
}

/// `(i, j)` is the first conflicting pair in row-major order.
pub open spec fn first_conflict(ts: Seq<PlannedTarget>, i: int, j: int) -> bool {
    &&& 0 <= i < j < ts.len()
    &&& conflict(ts[i].path@, ts[j].path@)
    &&& forall|a: int, b: int|
        0 <= a < b < ts.len() && (a < i || (a == i && b < j)) ==> !conflict(
            #[trigger] ts[a].path@,
            #[trigger] ts[b].path@,
        )
}

/// Two targets conflict exactly when one lies under the other (a path
/// lies under itself), whichever of the two is named first.
pub proof fn lemma_conflict_is_nesting(a: Seq<char>, b: Seq<char>)
    ensures
        conflict(a, b) <==> (path_starts_with(a, b) || path_starts_with(b, a)),
        conflict(a, b) == conflict(b, a),
{
    if same_path(a, b) {
        let pa = path_components(a);
        assert(pa.subrange(0, pa.len() as int) =~= pa);
    }
}

/// Refuse duplicate and overlapping targets: they would quarantine or
/// restore over each other.
pub fn check_overlaps(planned: &Vec<PlannedTarget>) -> (r: Result<(), RmError>)
    ensures
        r is Ok ==> forall|i: int, j: int|
            0 <= i < planned@.len() && 0 <= j < planned@.len() && i != j ==> !path_starts_with(
                #[trigger] planned@[i].path@,
                #[trigger] planned@[j].path@,
            ),
        r is Err ==> exists|i: int, j: int|
            0 <= i < planned@.len() && 0 <= j < planned@.len() && i != j && path_starts_with(
                planned@[i].path@,
                planned@[j].path@,
            ),
        r is Ok <==> disjoint_targets(planned@),
        match r {
            Err(RmError::Duplicate(p)) => exists|i: int, j: int|
                first_conflict(planned@, i, j) && same_path(planned@[i].path@, planned@[j].path@)
                    && p@ == planned@[i].path@,
            Err(RmError::Overlapping(a, b)) => exists|i: int, j: int|
                first_conflict(planned@, i, j) && !same_path(planned@[i].path@, planned@[j].path@)
                    && a@ == planned@[i].path@ && b@ == planned@[j].path@,
            Err(_) => false,
            Ok(()) => true,
        },
{
    let n = planned.len();
    let mut i: usize = 0;
    while i < n
        invariant
            n == planned@.len(),
            i <= n,
            forall|a: int, b: int|
                0 <= a < b < n && a < i ==> !conflict(
                    #[trigger] planned@[a].path@,
                    #[trigger] planned@[b].path@,
                ),
        decreases n - i,
    {
        let mut j: usize = i + 1;
        while j < n
            invariant
                n == planned@.len(),
                i < n,
                i + 1 <= j <= n,
                forall|a: int, b: int|
                    0 <= a < b < n && (a < i || (a == i && b < j)) ==> !conflict(
                        #[trigger] planned@[a].path@,
                        #[trigger] planned@[b].path@,
                    ),
            decreases n - j,
        {
            let a = planned[i].path.as_str();
            let b = planned[j].path.as_str();
            if paths_equal(a, b) {
                assert(first_conflict(planned@, i as int, j as int));
                proof {
                    let pa = path_components(planned@[i as int].path@);
                    assert(pa.subrange(0, pa.len() as int) =~= pa);
                    assert(path_starts_with(planned@[i as int].path@, planned@[j as int].path@));
                }
                return Err(RmError::Duplicate(copy_str(a)));
            }
            if crate::paths::starts_with_path(a, b) || crate::paths::starts_with_path(b, a) {
                assert(first_conflict(planned@, i as int, j as int));
                proof {
                    if !path_starts_with(planned@[i as int].path@, planned@[j as int].path@) {
                        assert(path_starts_with(planned@[j as int].path@, planned@[i as int].path@));
                    }
                }
                return Err(RmError::Overlapping(copy_str(a), copy_str(b)));
            }
            j = j + 1;
        }
        i = i + 1;
    }
    proof {
        assert forall|x: int, y: int|
            0 <= x < planned@.len() && 0 <= y < planned@.len() && x != y implies !path_starts_with(
                #[trigger] planned@[x].path@,
                #[trigger] planned@[y].path@,
            ) by {
            if x < y {
                assert(!conflict(planned@[x].path@, planned@[y].path@));
            } else {
                assert(!conflict(planned@[y].path@, planned@[x].path@));
            }
        }
    }
    Ok(())
}

/// Record a plan over already-checked targets: the entries must be
/// non-empty and pairwise disjoint. `id` and `created_at` are fresh values
/// the caller drew (time and process dependent).
pub fn plan_removal(
    root: String,
    quarantine_dir: String,
    planned: Vec<PlannedTarget>,
    id: String,
    created_at: String,
) -> (r: Result<(RmPlan, RmPreview), RmError>)
    ensures
        match r {
            Ok((plan, preview)) => {
                &&& planned@.len() > 0
                &&& disjoint_targets(planned@)
                &&& forall|i: int, j: int|
                    0 <= i < planned@.len() && 0 <= j < planned@.len() && i != j ==> !path_starts_with(
                        #[trigger] planned@[i].path@,
                        #[trigger] planned@[j].path@,
                    )
                &&& plan.id@ == id@
                &&& plan.created_at@ == created_at@
                &&& plan.root@ == root@
                &&& plan.quarantine_dir@ == quarantine_dir@
                &&& plan.targets@ == planned@
                &&& preview.id@ == id@
                &&& preview.root@ == root@
                &&& preview.targets@.len() == planned@.len()
                &&& forall|k: int|
                    0 <= k < planned@.len() ==> #[trigger] preview.targets@[k]@ == planned@[k].path@
            },
            Err(RmError::NoTargets) => planned@.len() == 0,
            Err(RmError::Duplicate(p)) => planned@.len() > 0 && exists|i: int, j: int|
                first_conflict(planned@, i, j) && same_path(planned@[i].path@, planned@[j].path@)
                    && p@ == planned@[i].path@,
            Err(RmError::Overlapping(a, b)) => planned@.len() > 0 && exists|i: int, j: int|
                first_conflict(planned@, i, j) && !same_path(planned@[i].path@, planned@[j].path@)
                    && a@ == planned@[i].path@ && b@ == planned@[j].path@,
            Err(_) => false,
        },
        r is Err && planned@.len() > 0 ==> !disjoint_targets(planned@),
{
    if planned.len() == 0 {
        return Err(RmError::NoTargets);
    }
    match check_overlaps(&planned) {
        Err(e) => return Err(e),
        Ok(()) => {},
    }
    let mut paths: Vec<String> = Vec::new();
    let mut k: usize = 0;
    while k < planned.len()
        invariant
            k <= planned@.len(),
            paths@.len() == k,
            forall|m: int| 0 <= m < k ==> #[trigger] paths@[m]@ == planned@[m].path@,
        decreases planned.len() - k,
    {
        paths.push(copy_str(planned[k].path.as_str()));
        k = k + 1;
    }
    let preview = RmPreview { id: copy_str(id.as_str()), root: copy_str(root.as_str()), targets: paths };
    let plan = RmPlan { id, created_at, root, quarantine_dir, targets: planned };
    Ok((plan, preview))
}

/// Plan ids name journal files: no separators, no NUL, no hidden names.
pub open spec fn valid_plan_id(id: Seq<char>) -> bool {
    !id.contains('/') && !id.contains('\0') && !(id.len() > 0 && id[0] == '.')
}

/// Refuse plan ids that could escape the plan directory.
pub fn check_plan_id(id: &str) -> (r: Result<(), RmError>)
    ensures
        r is Ok <==> valid_plan_id(id@),
        r matches Err(e) ==> e matches RmError::InvalidPlanId(s) && s@ == id@,
{
    let cs = crate::text::chars_of(id);
    if crate::text::contains_char(id, '/') || crate::text::contains_char(id, '\0') || (cs.len()
        > 0 && cs[0] == '.') {
        return Err(RmError::InvalidPlanId(copy_str(id)));
    }
    Ok(())
}

/// The journal file of plan `id` inside `plans_dir`.
pub fn plan_path(plans_dir: &str, id: &str) -> (p: String)
    ensures
        p@ == join_path(plans_dir@, id@ + ".json"@),
{
    let mut name = copy_str(id);
    push_str(&mut name, ".json");
    join(plans_dir, name.as_str())
}

/// The journal to read to review plan `id` (which is then shown as it
/// was recorded, nothing moved): refused when the id could escape the plan
/// directory.
pub fn describe_plan(plans_dir: &str, id: &str) -> (r: Result<String, RmError>)
    ensures
        r is Ok <==> valid_plan_id(id@),
        r matches Ok(p) ==> p@ == join_path(plans_dir@, id@ + ".json"@),
        r matches Err(e) ==> e matches RmError::InvalidPlanId(s) && s@ == id@,
{
    check_plan_id(id)?;
    Ok(plan_path(plans_dir, id))
}

/// The journal to read to preview a purge of plan `id` (what would be
/// deleted, nothing deleted): refused when the id could escape the plan
/// directory.
pub fn purge_preview(plans_dir: &str, id: &str) -> (r: Result<String, RmError>)
    ensures
        r is Ok <==> valid_plan_id(id@),
        r matches Ok(p) ==> p@ == join_path(plans_dir@, id@ + ".json"@),
        r matches Err(e) ==> e matches RmError::InvalidPlanId(s) && s@ == id@,
{
    check_plan_id(id)?;
    Ok(plan_path(plans_dir, id))
}

/// The quarantine entry name of target `index`: unique per entry, even for
/// duplicate basenames, and stable across resumed attempts.
pub open spec fn quarantine_name(id: Seq<char>, index: nat, name: Seq<char>) -> Seq<char> {
    id + seq!['-'] + decimal(index) + seq!['-'] + name
}

/// Deterministic per-entry destination inside the plan's quarantine.
pub fn quarantine_destination(plan: &RmPlan, index: usize, source: &str) -> (r: Result<
    String,
    RmError,
>)
    ensures
        match r {
            Ok(d) => file_name(source@) matches Some(n) && d@ == join_path(
                plan.quarantine_dir@,
                quarantine_name(plan.id@, index as nat, n),
            ),
            Err(RmError::CannotQuarantine(p)) => file_name(source@) is None && p@ == source@,
            Err(_) => false,
        },
{
    match crate::paths::file_name_of(source) {
        None => Err(RmError::CannotQuarantine(copy_str(source))),
        Some(n) => {
            let mut name = copy_str(plan.id.as_str());
            push_char(&mut name, '-');
            push_decimal(&mut name, index as u64);
            push_char(&mut name, '-');
            push_str(&mut name, n.as_str());
            assert(name@ =~= quarantine_name(plan.id@, index as nat, n@));
            Ok(join(plan.quarantine_dir.as_str(), name.as_str()))
        },
    }
}

// ---------------------------------------------------------------------------
// Apply: quarantine pending entries
// ---------------------------------------------------------------------------

/// `a` and `b` are the same refusal about the same texts.
pub open spec fn same_rm_error(a: RmError, b: RmError) -> bool {
    match (a, b) {
        (RmError::NoTargets, RmError::NoTargets) => true,
        (RmError::RootItself(x), RmError::RootItself(y)) => x@ == y@,
        (RmError::QuarantineDirectory(x), RmError::QuarantineDirectory(y)) => x@ == y@,
        (RmError::Duplicate(x), RmError::Duplicate(y)) => x@ == y@,
        (RmError::Overlapping(x, u), RmError::Overlapping(y, v)) => x@ == y@ && u@ == v@,
        (RmError::InvalidPlanId(x), RmError::InvalidPlanId(y)) => x@ == y@,
        (RmError::CannotQuarantine(x), RmError::CannotQuarantine(y)) => x@ == y@,
        (
            RmError::ResumeMissing { path: x, plan: u },
            RmError::ResumeMissing { path: y, plan: v },
        ) => x@ == y@ && u@ == v@,
        (
            RmError::ResumeIdentityChanged { dest: x, plan: u },
            RmError::ResumeIdentityChanged { dest: y, plan: v },
        ) => x@ == y@ && u@ == v@,
        (RmError::NotPending { path: x, plan: u }, RmError::NotPending { path: y, plan: v }) => x@
            == y@ && u@ == v@,
        (RmError::NeverApplied { path: x, plan: u }, RmError::NeverApplied { path: y, plan: v }) => x@
            == y@ && u@ == v@,
        (RmError::QuarantinedMissing(x), RmError::QuarantinedMissing(y)) => x@ == y@,
        (RmError::QuarantinedIdentityChanged(x), RmError::QuarantinedIdentityChanged(y)) => x@
            == y@,
        (RmError::BecameSymlink(x), RmError::BecameSymlink(y)) => x@ == y@,
        (RmError::RestoreDestinationExists(x), RmError::RestoreDestinationExists(y)) => x@ == y@,
        (
            RmError::NotQuarantined { path: x, plan: u },
            RmError::NotQuarantined { path: y, plan: v },
        ) => x@ == y@ && u@ == v@,
        (RmError::PurgeSymlink(x), RmError::PurgeSymlink(y)) => x@ == y@,
        (RmError::TreeMountBoundary(x), RmError::TreeMountBoundary(y)) => x@ == y@,
        (RmError::TreeProtected(x), RmError::TreeProtected(y)) => x@ == y@,
        (RmError::Guard(x), RmError::Guard(y)) => crate::guard::same_guard_error(x, y),
        (RmError::Io(x), RmError::Io(y)) => x@ == y@,
        _ => false,
    }
}

impl RmError {
    /// A copy of this refusal.
    pub fn duplicate(&self) -> (r: RmError)
        ensures
            same_rm_error(r, *self),
    {
        match self {
            RmError::NoTargets => RmError::NoTargets,
            RmError::RootItself(p) => RmError::RootItself(copy_str(p.as_str())),
            RmError::QuarantineDirectory(p) => RmError::QuarantineDirectory(copy_str(p.as_str())),
            RmError::Duplicate(p) => RmError::Duplicate(copy_str(p.as_str())),
            RmError::Overlapping(a, b) => RmError::Overlapping(
                copy_str(a.as_str()),
                copy_str(b.as_str()),
            ),
            RmError::InvalidPlanId(p) => RmError::InvalidPlanId(copy_str(p.as_str())),
            RmError::CannotQuarantine(p) => RmError::CannotQuarantine(copy_str(p.as_str())),
            RmError::ResumeMissing { path, plan } => RmError::ResumeMissing {
                path: copy_str(path.as_str()),
                plan: copy_str(plan.as_str()),
            },
            RmError::ResumeIdentityChanged { dest, plan } => RmError::ResumeIdentityChanged {
                dest: copy_str(dest.as_str()),
                plan: copy_str(plan.as_str()),
            },
            RmError::NotPending { path, plan } => RmError::NotPending {
                path: copy_str(path.as_str()),
                plan: copy_str(plan.as_str()),
            },
            RmError::NeverApplied { path, plan } => RmError::NeverApplied {
                path: copy_str(path.as_str()),
                plan: copy_str(plan.as_str()),
            },
            RmError::QuarantinedMissing(p) => RmError::QuarantinedMissing(copy_str(p.as_str())),
            RmError::QuarantinedIdentityChanged(p) => RmError::QuarantinedIdentityChanged(
                copy_str(p.as_str()),
            ),
            RmError::BecameSymlink(p) => RmError::BecameSymlink(copy_str(p.as_str())),
            RmError::RestoreDestinationExists(p) => RmError::RestoreDestinationExists(
                copy_str(p.as_str()),
            ),
            RmError::NotQuarantined { path, plan } => RmError::NotQuarantined {
                path: copy_str(path.as_str()),
                plan: copy_str(plan.as_str()),
            },
            RmError::PurgeSymlink(p) => RmError::PurgeSymlink(copy_str(p.as_str())),
            RmError::TreeMountBoundary(p) => RmError::TreeMountBoundary(copy_str(p.as_str())),
            RmError::TreeProtected(p) => RmError::TreeProtected(copy_str(p.as_str())),
            RmError::Guard(g) => RmError::Guard(g.duplicate()),
            RmError::Io(p) => RmError::Io(copy_str(p.as_str())),
        }
    }
}

/// What was observed about one entry before applying: for an entry already
/// quarantined, `symlink_metadata` of its quarantine destination (`None`
/// when it is missing); for a pending entry, a fresh guard of its path.
#[derive(Debug)]
pub enum ApplyProbe {
    Stat(Option<EntryMeta>),
    Fresh(Result<GuardedPath, GuardError>),
}

/// The entry is left alone by this apply (already quarantined and intact).
pub open spec fn apply_skips(t: PlannedTarget, p: ApplyProbe) -> bool {
    &&& t.quarantined_as is Some
    &&& p matches ApplyProbe::Stat(Some(m))
    &&& m.dev == t.dev
    &&& m.ino == t.ino
}

/// The entry will be quarantined by this apply.
pub open spec fn apply_takes(t: PlannedTarget, p: ApplyProbe) -> bool {
    &&& t.quarantined_as is None
    &&& !t.restored
    &&& !t.purged
    &&& p matches ApplyProbe::Fresh(Ok(g))
    &&& g.dev == t.dev
    &&& g.ino == t.ino
    &&& g.is_dir == t.is_dir
}

/// The error with which this apply refuses the entry, if `e` is it.
pub open spec fn apply_refusal(t: PlannedTarget, p: ApplyProbe, plan: Seq<char>, e: RmError) -> bool {
    if t.quarantined_as is Some {
        if p matches ApplyProbe::Stat(Some(m)) {
            e matches RmError::ResumeIdentityChanged { dest, plan: pl } && dest@
                == t.quarantined_as->0@ && pl@ == plan
        } else {
            e matches RmError::ResumeMissing { path, plan: pl } && path@ == t.path@ && pl@ == plan
        }
    } else if t.restored || t.purged {
        e matches RmError::NotPending { path, plan: pl } && path@ == t.path@ && pl@ == plan
    } else {
        match p {
            ApplyProbe::Fresh(Ok(g)) => e matches RmError::Guard(GuardError::IdentityChanged(s))
                && s@ == t.path@,
            ApplyProbe::Fresh(Err(ge)) => e matches RmError::Guard(g2)
                && crate::guard::same_guard_error(g2, ge),
            ApplyProbe::Stat(_) => e matches RmError::Guard(GuardError::Io(_)),
        }
    }
}

/// Indices below `n` that the apply takes, in order.
pub open spec fn taken_upto(ts: Seq<PlannedTarget>, ps: Seq<ApplyProbe>, n: nat) -> Seq<usize>
    decreases n,
{
    if n == 0 {
        Seq::empty()
    } else {
        let rest = taken_upto(ts, ps, (n - 1) as nat);
        if apply_takes(ts[n - 1], ps[n - 1]) {
            rest.push((n - 1) as usize)
        } else {
            rest
        }
    }
}

/// Verify every entry of `plan` against the probes, in order, before
/// anything moves. Returns the indices of pending entries to quarantine;
/// intact quarantined entries are skipped so interrupted batches resume.
pub fn apply_preflight(plan: &RmPlan, probes: &Vec<ApplyProbe>) -> (r: Result<Vec<usize>, RmError>)
    requires
        probes@.len() == plan.targets@.len(),
    ensures
        match r {
            Ok(v) => {
                &&& forall|i: int|
                    0 <= i < plan.targets@.len() ==> apply_skips(
                        #[trigger] plan.targets@[i],
                        probes@[i],
                    ) || apply_takes(plan.targets@[i], probes@[i])
                &&& v@ == taken_upto(plan.targets@, probes@, plan.targets@.len() as nat)
            },
            Err(e) => exists|f: int|
                0 <= f < plan.targets@.len() && (forall|i: int|
                    0 <= i < f ==> apply_skips(#[trigger] plan.targets@[i], probes@[i])
                        || apply_takes(plan.targets@[i], probes@[i])) && !apply_skips(
                    plan.targets@[f],
                    probes@[f],
                ) && !apply_takes(plan.targets@[f], probes@[f]) && apply_refusal(
                    plan.targets@[f],
                    probes@[f],
                    plan.id@,
                    e,
                ),
        },
{
    let n = plan.targets.len();
    let mut pending: Vec<usize> = Vec::new();
    let mut i: usize = 0;
    while i < n
        invariant
            n == plan.targets@.len(),
            probes@.len() == n,
            i <= n,
            forall|k: int|
                0 <= k < i ==> apply_skips(#[trigger] plan.targets@[k], probes@[k]) || apply_takes(
                    plan.targets@[k],
                    probes@[k],
                ),
            pending@ == taken_upto(plan.targets@, probes@, i as nat),
        decreases n - i,
    {
        let t = &plan.targets[i];
        match &t.quarantined_as {
            Some(dest) => {
                match &probes[i] {
                    ApplyProbe::Stat(Some(m)) => {
                        if m.dev != t.dev || m.ino != t.ino {
                            let e = RmError::ResumeIdentityChanged {
                                dest: copy_str(dest.as_str()),
                                plan: copy_str(plan.id.as_str()),
                            };
                            assert(apply_refusal(plan.targets@[i as int], probes@[i as int], plan.id@, e));
                            return Err(e);
                        }
                    },
                    _ => {
                        let e = RmError::ResumeMissing {
                            path: copy_str(t.path.as_str()),
                            plan: copy_str(plan.id.as_str()),
                        };
                        assert(apply_refusal(plan.targets@[i as int], probes@[i as int], plan.id@, e));
                        return Err(e);
                    },
                }
            },
            None => {
                if t.restored || t.purged {
                    let e = RmError::NotPending {
                        path: copy_str(t.path.as_str()),
                        plan: copy_str(plan.id.as_str()),
                    };
                    assert(apply_refusal(plan.targets@[i as int], probes@[i as int], plan.id@, e));
                    return Err(e);
                }
                match &probes[i] {
                    ApplyProbe::Fresh(Ok(g)) => {
                        if g.dev != t.dev || g.ino != t.ino || g.is_dir != t.is_dir {
                            let e = RmError::Guard(
                                GuardError::IdentityChanged(copy_str(t.path.as_str())),
                            );
                            assert(apply_refusal(
                                plan.targets@[i as int],
                                probes@[i as int],
                                plan.id@,
                                e,
                            ));
                            return Err(e);
                        }
                        pending.push(i);
                    },
                    ApplyProbe::Fresh(Err(ge)) => {
                        let e = RmError::Guard(ge.duplicate());
                        assert(apply_refusal(plan.targets@[i as int], probes@[i as int], plan.id@, e));
                        return Err(e);
                    },
                    ApplyProbe::Stat(_) => {
                        let e = RmError::Guard(
                            GuardError::Io(copy_str("no fresh guard was taken for a pending entry")),
                        );
                        assert(apply_refusal(plan.targets@[i as int], probes@[i as int], plan.id@, e));
                        return Err(e);
                    },
                }
            },
        }
        i = i + 1;
    }
    Ok(pending)
}

/// Target `t` after it was moved to `dest`.
pub open spec fn quarantined(t: PlannedTarget, dest: String) -> PlannedTarget {
    PlannedTarget { quarantined_as: Some(dest), ..t }
}

/// Target `t` after it was moved back to its path.
pub open spec fn restored(t: PlannedTarget) -> PlannedTarget {
    PlannedTarget { quarantined_as: None, restored: true, ..t }
}

/// Target `t` after its quarantined bytes were removed.
pub open spec fn purged(t: PlannedTarget) -> PlannedTarget {
    PlannedTarget { quarantined_as: None, purged: true, ..t }
}

/// Journal that entry `index` now lives at `dest`.
pub fn mark_quarantined(plan: &mut RmPlan, index: usize, dest: String)
    requires
        index < old(plan).targets@.len(),
    ensures
        final(plan).targets@ == old(plan).targets@.update(
            index as int,
            quarantined(old(plan).targets@[index as int], dest),
        ),
        final(plan).id == old(plan).id,
        final(plan).created_at == old(plan).created_at,
        final(plan).root == old(plan).root,
        final(plan).quarantine_dir == old(plan).quarantine_dir,
{
    plan.targets[index].quarantined_as = Some(dest);
}

// ---------------------------------------------------------------------------
// Restore: move quarantined entries back
// ---------------------------------------------------------------------------

/// What was observed about one entry before restoring: `symlink_metadata`
/// of its quarantine destination (`None` when missing) and whether
/// anything occupies its original path.
#[derive(Clone, Copy, Debug)]
pub struct RestoreProbe {
    pub dest: Option<EntryMeta>,
    pub original_exists: bool,
}

/// The entry is already restored and left alone.
pub open spec fn restore_skips(t: PlannedTarget) -> bool {
    t.quarantined_as is None && t.restored
}

/// The entry will be moved back.
pub open spec fn restore_takes(t: PlannedTarget, p: RestoreProbe) -> bool {
    &&& t.quarantined_as is Some
    &&& p.dest matches Some(m)
    &&& m.dev == t.dev
    &&& m.ino == t.ino
    &&& !m.is_symlink
    &&& !p.original_exists
}

/// The error with which this restore refuses the entry, if `e` is it.
pub open spec fn restore_refusal(t: PlannedTarget, p: RestoreProbe, plan: Seq<char>, e: RmError) -> bool {
    match t.quarantined_as {
        None => e matches RmError::NeverApplied { path, plan: pl } && path@ == t.path@ && pl@
            == plan,
        Some(dest) => match p.dest {
            None => e matches RmError::QuarantinedMissing(s) && s@ == dest@,
            Some(m) => if m.dev != t.dev || m.ino != t.ino {
                e matches RmError::QuarantinedIdentityChanged(s) && s@ == dest@
            } else if m.is_symlink {
                e matches RmError::BecameSymlink(s) && s@ == dest@
            } else {
                e matches RmError::RestoreDestinationExists(s) && s@ == t.path@
            },
        },
    }
}

/// Indices below `n` that the restore takes, in order.
pub open spec fn restored_upto(ts: Seq<PlannedTarget>, ps: Seq<RestoreProbe>, n: nat) -> Seq<usize>
    decreases n,
{
    if n == 0 {
        Seq::empty()
    } else {
        let rest = restored_upto(ts, ps, (n - 1) as nat);
        if restore_takes(ts[n - 1], ps[n - 1]) {
            rest.push((n - 1) as usize)
        } else {
            rest
        }
    }
}

/// Verify every entry before moving the first back; returns the indices to
/// restore. Already-restored entries are skipped; an occupied original
/// path is never overwritten.
pub fn restore_preflight(plan: &RmPlan, probes: &Vec<RestoreProbe>) -> (r: Result<
    Vec<usize>,
    RmError,
>)
    requires
        probes@.len() == plan.targets@.len(),
    ensures
        match r {
            Ok(v) => {
                &&& forall|i: int|
                    0 <= i < plan.targets@.len() ==> restore_skips(#[trigger] plan.targets@[i])
                        || restore_takes(plan.targets@[i], probes@[i])
                &&& v@ == restored_upto(plan.targets@, probes@, plan.targets@.len() as nat)
            },
            Err(e) => exists|f: int|
                0 <= f < plan.targets@.len() && (forall|i: int|
                    0 <= i < f ==> restore_skips(#[trigger] plan.targets@[i]) || restore_takes(
                        plan.targets@[i],
                        probes@[i],
                    )) && !restore_skips(plan.targets@[f]) && !restore_takes(
                    plan.targets@[f],
                    probes@[f],
                ) && restore_refusal(plan.targets@[f], probes@[f], plan.id@, e),
        },
{
    let n = plan.targets.len();
    let mut pending: Vec<usize> = Vec::new();
    let mut i: usize = 0;
    while i < n
        invariant
            n == plan.targets@.len(),
            probes@.len() == n,
            i <= n,
            forall|k: int|
                0 <= k < i ==> restore_skips(#[trigger] plan.targets@[k]) || restore_takes(
                    plan.targets@[k],
                    probes@[k],
                ),
            pending@ == restored_upto(plan.targets@, probes@, i as nat),
        decreases n - i,
    {
        let t = &plan.targets[i];
        let p = probes[i];
        match &t.quarantined_as {
            None => {
                if !t.restored {
                    let e = RmError::NeverApplied {
                        path: copy_str(t.path.as_str()),
                        plan: copy_str(plan.id.as_str()),
                    };
                    assert(restore_refusal(plan.targets@[i as int], probes@[i as int], plan.id@, e));
                    return Err(e);
                }
            },
            Some(dest) => {
                match p.dest {
                    None => {
                        let e = RmError::QuarantinedMissing(copy_str(dest.as_str()));
                        assert(restore_refusal(plan.targets@[i as int], probes@[i as int], plan.id@, e));
                        return Err(e);
                    },
                    Some(m) => {
                        if m.dev != t.dev || m.ino != t.ino {
                            let e = RmError::QuarantinedIdentityChanged(copy_str(dest.as_str()));
                            assert(restore_refusal(
                                plan.targets@[i as int],
                                probes@[i as int],
                                plan.id@,
                                e,
                            ));
                            return Err(e);
                        }
                        if m.is_symlink {
                            let e = RmError::BecameSymlink(copy_str(dest.as_str()));
                            assert(restore_refusal(
                                plan.targets@[i as int],
                                probes@[i as int],
                                plan.id@,
                                e,
                            ));
                            return Err(e);
                        }
                        if p.original_exists {
                            let e = RmError::RestoreDestinationExists(copy_str(t.path.as_str()));
                            assert(restore_refusal(
                                plan.targets@[i as int],
                                probes@[i as int],
                                plan.id@,
                                e,
                            ));
                            return Err(e);
                        }
                        pending.push(i);
                    },
                }
            },
        }
        i = i + 1;
    }
    Ok(pending)
}

/// Journal that entry `index` is back at its path.
pub fn mark_restored(plan: &mut RmPlan, index: usize)
    requires
        index < old(plan).targets@.len(),
    ensures
        final(plan).targets@ == old(plan).targets@.update(
            index as int,
            restored(old(plan).targets@[index as int]),
        ),
        final(plan).id == old(plan).id,
        final(plan).created_at == old(plan).created_at,
        final(plan).root == old(plan).root,
        final(plan).quarantine_dir == old(plan).quarantine_dir,
{
    plan.targets[index].quarantined_as = None;
    plan.targets[index].restored = true;
}

// ---------------------------------------------------------------------------
// Purge: remove quarantined bytes
// ---------------------------------------------------------------------------

/// What was observed about one entry before purging: `symlink_metadata` of
/// its quarantine destination (`None` when missing), and for a directory
/// the verdict of the nested-protection walk over it.
#[derive(Debug)]
pub struct PurgeProbe {
    pub dest: Option<EntryMeta>,
    pub tree: Result<(), RmError>,
}

/// The entry is already purged and left alone.
pub open spec fn purge_skips(t: PlannedTarget) -> bool {
    t.purged
}

/// The entry's quarantined bytes will be removed.
pub open spec fn purge_takes(t: PlannedTarget, p: PurgeProbe) -> bool {
    &&& !t.purged
    &&& t.quarantined_as is Some
    &&& p.dest matches Some(m)
    &&& m.dev == t.dev
    &&& m.ino == t.ino
    &&& !m.is_symlink
    &&& (m.is_dir ==> p.tree is Ok)
}

/// The error with which this purge refuses the entry, if `e` is it.
pub open spec fn purge_refusal(t: PlannedTarget, p: PurgeProbe, plan: Seq<char>, e: RmError) -> bool {
    match t.quarantined_as {
        None => e matches RmError::NotQuarantined { path, plan: pl } && path@ == t.path@ && pl@
            == plan,
        Some(dest) => match p.dest {
            None => e matches RmError::QuarantinedMissing(s) && s@ == dest@,
            Some(m) => if m.dev != t.dev || m.ino != t.ino {
                e matches RmError::QuarantinedIdentityChanged(s) && s@ == dest@
            } else if m.is_symlink {
                e matches RmError::PurgeSymlink(s) && s@ == dest@
            } else {
                p.tree matches Err(te) && same_rm_error(e, te)
            },
        },
    }
}

/// Indices below `n` that the purge takes, in order.
pub open spec fn purged_upto(ts: Seq<PlannedTarget>, ps: Seq<PurgeProbe>, n: nat) -> Seq<usize>
    decreases n,
{
    if n == 0 {
        Seq::empty()
    } else {
        let rest = purged_upto(ts, ps, (n - 1) as nat);
        if purge_takes(ts[n - 1], ps[n - 1]) {
            rest.push((n - 1) as usize)
        } else {
            rest
        }
    }
}

/// Verify every entry before deleting the first; returns the indices to
/// purge. Already-purged entries are skipped; an entry that was never
/// quarantined refuses the whole purge.
pub fn purge_preflight(plan: &RmPlan, probes: &Vec<PurgeProbe>) -> (r: Result<Vec<usize>, RmError>)
    requires
        probes@.len() == plan.targets@.len(),
    ensures
        match r {
            Ok(v) => {
                &&& forall|i: int|
                    0 <= i < plan.targets@.len() ==> purge_skips(#[trigger] plan.targets@[i])
                        || purge_takes(plan.targets@[i], probes@[i])
                &&& v@ == purged_upto(plan.targets@, probes@, plan.targets@.len() as nat)
            },
            Err(e) => exists|f: int|
                0 <= f < plan.targets@.len() && (forall|i: int|
                    0 <= i < f ==> purge_skips(#[trigger] plan.targets@[i]) || purge_takes(
                        plan.targets@[i],
                        probes@[i],
                    )) && !purge_skips(plan.targets@[f]) && !purge_takes(
                    plan.targets@[f],
                    probes@[f],
                ) && purge_refusal(plan.targets@[f], probes@[f], plan.id@, e),
        },
{
    let n = plan.targets.len();
    let mut pending: Vec<usize> = Vec::new();
    let mut i: usize = 0;
    while i < n
        invariant
            n == plan.targets@.len(),
            probes@.len() == n,
            i <= n,
            forall|k: int|
                0 <= k < i ==> purge_skips(#[trigger] plan.targets@[k]) || purge_takes(
                    plan.targets@[k],
                    probes@[k],
                ),
            pending@ == purged_upto(plan.targets@, probes@, i as nat),
        decreases n - i,
    {
        let t = &plan.targets[i];
        let p = &probes[i];
        if !t.purged {
            match &t.quarantined_as {
                None => {
                    let e = RmError::NotQuarantined {
                        path: copy_str(t.path.as_str()),
                        plan: copy_str(plan.id.as_str()),
                    };
                    assert(purge_refusal(plan.targets@[i as int], probes@[i as int], plan.id@, e));
                    return Err(e);
                },
                Some(dest) => {
                    match p.dest {
                        None => {
                            let e = RmError::QuarantinedMissing(copy_str(dest.as_str()));
                            assert(purge_refusal(
                                plan.targets@[i as int],
                                probes@[i as int],
                                plan.id@,
                                e,
                            ));
                            return Err(e);
                        },
                        Some(m) => {
                            if m.dev != t.dev || m.ino != t.ino {
                                let e = RmError::QuarantinedIdentityChanged(copy_str(dest.as_str()));
                                assert(purge_refusal(
                                    plan.targets@[i as int],
                                    probes@[i as int],
                                    plan.id@,
                                    e,
                                ));
                                return Err(e);
                            }
                            if m.is_symlink {
                                let e = RmError::PurgeSymlink(copy_str(dest.as_str()));
                                assert(purge_refusal(
                                    plan.targets@[i as int],
                                    probes@[i as int],
                                    plan.id@,
                                    e,
                                ));
                                return Err(e);
                            }
                            if m.is_dir {
                                match &p.tree {
                                    Err(e) => {
                                        let e = e.duplicate();
                                        assert(purge_refusal(
                                            plan.targets@[i as int],
                                            probes@[i as int],
                                            plan.id@,
                                            e,
                                        ));
                                        return Err(e);
                                    },
                                    Ok(()) => {},
                                }
                            }
                            pending.push(i);
                        },
                    }
                },
            }
        }
        i = i + 1;
    }
    Ok(pending)
}

/// Re-check an entry right before deleting it: the preflight and this
/// check bracket the batch, but entries are removed one by one.
pub fn purge_recheck(t: &PlannedTarget, dest: &str, now: Option<EntryMeta>) -> (r: Result<
    (),
    RmError,
>)
    ensures
        match r {
            Ok(()) => now matches Some(m) && m.dev == t.dev && m.ino == t.ino && !m.is_symlink,
            Err(RmError::QuarantinedMissing(s)) => now is None && s@ == dest@,
            Err(RmError::QuarantinedIdentityChanged(s)) => now matches Some(m) && (m.dev != t.dev
                || m.ino != t.ino) && s@ == dest@,
            Err(RmError::PurgeSymlink(s)) => now matches Some(m) && m.dev == t.dev && m.ino == t.ino
                && m.is_symlink && s@ == dest@,
            Err(_) => false,
        },
{
    match now {
        None => Err(RmError::QuarantinedMissing(copy_str(dest))),
        Some(m) => {
            if m.dev != t.dev || m.ino != t.ino {
                Err(RmError::QuarantinedIdentityChanged(copy_str(dest)))
            } else if m.is_symlink {
                Err(RmError::PurgeSymlink(copy_str(dest)))
            } else {
                Ok(())
            }
        },
    }
}

/// Journal that entry `index` was purged.
pub fn mark_purged(plan: &mut RmPlan, index: usize)
    requires
        index < old(plan).targets@.len(),
    ensures
        final(plan).targets@ == old(plan).targets@.update(
            index as int,
            purged(old(plan).targets@[index as int]),
        ),
        final(plan).id == old(plan).id,
        final(plan).created_at == old(plan).created_at,
        final(plan).root == old(plan).root,
        final(plan).quarantine_dir == old(plan).quarantine_dir,
{
    plan.targets[index].quarantined_as = None;
    plan.targets[index].purged = true;
}

/// One node of the nested-protection walk over a directory tree: nothing
/// below may live on another device, and no nested entry may be a
/// repository or an operator hold. `name` is the node's file name (absent
/// for the tree's own root path).
pub fn check_tree_node(
    node: &str,
    is_tree_root: bool,
    name: Option<&str>,
    meta: &EntryMeta,
    expected_dev: u64,
) -> (r: Result<(), RmError>)
    ensures
        match r {
            Ok(()) => {
                &&& meta.dev == expected_dev
                &&& !is_tree_root ==> (name matches Some(n) && n@ != ".git"@ && n@
                    != PROTECT_MARKER@)
            },
            Err(RmError::TreeMountBoundary(p)) => meta.dev != expected_dev && p@ == node@,
            Err(RmError::TreeProtected(p)) => {
                &&& meta.dev == expected_dev
                &&& !is_tree_root
                &&& name matches Some(n) && (n@ == ".git"@ || n@ == PROTECT_MARKER@)
                &&& p@ == node@
            },
            Err(RmError::Io(m)) => meta.dev == expected_dev && !is_tree_root && name is None && m@
                == "cannot name "@ + node@,
            Err(_) => false,
        },
{
    if meta.dev != expected_dev {
        return Err(RmError::TreeMountBoundary(copy_str(node)));
    }
    if !is_tree_root {
        match name {
            None => {
                return Err(RmError::Io(text2("cannot name ", node)));
            },
            Some(n) => {
                if crate::text::same_chars(n, ".git") || crate::text::same_chars(n, PROTECT_MARKER) {
                    return Err(RmError::TreeProtected(copy_str(node)));
                }
            },
        }
    }
    Ok(())
}

// ---------------------------------------------------------------------------
// Laws
// ---------------------------------------------------------------------------

/// Every entry of `ts` after an apply that quarantined each taken entry
/// `i` at `dests[i]`.
pub open spec fn after_apply(ts: Seq<PlannedTarget>, ps: Seq<ApplyProbe>, dests: Seq<String>) -> Seq<
    PlannedTarget,
> {
    Seq::new(
        ts.len(),
        |i: int| if apply_takes(ts[i], ps[i]) { quarantined(ts[i], dests[i]) } else { ts[i] },
    )
}

/// Apply is idempotent: once an apply went through (every entry skipped or
/// taken), every entry is quarantined, and applying again with intact
/// quarantined entries takes nothing.
pub proof fn lemma_apply_idempotent(
    ts: Seq<PlannedTarget>,
    ps: Seq<ApplyProbe>,
    dests: Seq<String>,
    again: Seq<ApplyProbe>,
)
    requires
        ps.len() == ts.len(),
        dests.len() == ts.len(),
        again.len() == ts.len(),
        forall|i: int| 0 <= i < ts.len() ==> apply_skips(#[trigger] ts[i], ps[i]) || apply_takes(ts[i], ps[i]),
        forall|i: int|
            0 <= i < ts.len() ==> ((#[trigger] again[i]) matches ApplyProbe::Stat(Some(m)) && m.dev
                == ts[i].dev && m.ino == ts[i].ino),
    ensures
        forall|i: int| 0 <= i < ts.len() ==> (#[trigger] after_apply(ts, ps, dests)[i]).quarantined_as is Some,
        forall|i: int|
            0 <= i < ts.len() ==> apply_skips(#[trigger] after_apply(ts, ps, dests)[i], again[i]),
        taken_upto(after_apply(ts, ps, dests), again, ts.len()) == Seq::<usize>::empty(),
{
    let next = after_apply(ts, ps, dests);
    assert forall|i: int| 0 <= i < ts.len() implies apply_skips(#[trigger] next[i], again[i]) by {}
    lemma_nothing_taken(next, again, ts.len());
}

proof fn lemma_nothing_taken(ts: Seq<PlannedTarget>, ps: Seq<ApplyProbe>, n: nat)
    requires
        n <= ts.len(),
        n <= ps.len(),
        forall|i: int| 0 <= i < n ==> apply_skips(#[trigger] ts[i], ps[i]),
    ensures
        taken_upto(ts, ps, n) == Seq::<usize>::empty(),
    decreases n,
{
    if n > 0 {
        lemma_nothing_taken(ts, ps, (n - 1) as nat);
        assert(apply_skips(ts[n - 1], ps[n - 1]));
    }
}

/// Purge needs an applied plan: when the first entry was never quarantined
/// nor purged (as in every freshly recorded plan), a purge cannot go
/// through, and its refusal is that the entry is not quarantined.
pub proof fn lemma_purge_needs_quarantine(
    ts: Seq<PlannedTarget>,
    ps: Seq<PurgeProbe>,
    plan_id: Seq<char>,
    e: RmError,
)
    requires
        ts.len() > 0,
        ps.len() == ts.len(),
        ts[0].quarantined_as is None,
        !ts[0].purged,
    ensures
        !(forall|i: int| 0 <= i < ts.len() ==> purge_skips(#[trigger] ts[i]) || purge_takes(ts[i], ps[i])),
        forall|f: int|
            0 <= f < ts.len() && (forall|i: int|
                0 <= i < f ==> purge_skips(#[trigger] ts[i]) || purge_takes(ts[i], ps[i]))
                && !purge_skips(ts[f]) && !purge_takes(ts[f], ps[f]) ==> f == 0,
        purge_refusal(ts[0], ps[0], plan_id, e) ==> (e matches RmError::NotQuarantined { path, plan }
            && path@ == ts[0].path@ && plan@ == plan_id),
{
    assert(!purge_skips(ts[0]) && !purge_takes(ts[0], ps[0]));
}

/// Restore undoes apply: an entry taken by an apply and moved to `dest`
/// is taken by a restore that finds it intact with its original path
/// free, and afterwards it is the original entry, marked restored.
pub proof fn lemma_restore_undoes_apply(
    t: PlannedTarget,
    ap: ApplyProbe,
    dest: String,
    rp: RestoreProbe,
)
    requires
        apply_takes(t, ap),
        rp.dest matches Some(m) && m.dev == t.dev && m.ino == t.ino && !m.is_symlink,
        !rp.original_exists,
    ensures
        restore_takes(quarantined(t, dest), rp),
        restored(quarantined(t, dest)) == (PlannedTarget { restored: true, ..t }),
{
}

/// Quarantine names of distinct entries differ, even for equal basenames.
pub proof fn lemma_quarantine_names_distinct(
    id: Seq<char>,
    i: nat,
    j: nat,
    a: Seq<char>,
    b: Seq<char>,
)
    requires
        i != j,
    ensures
        quarantine_name(id, i, a) != quarantine_name(id, j, b),
{
    let x = quarantine_name(id, i, a);
    let y = quarantine_name(id, j, b);
    let di = decimal(i);
    let dj = decimal(j);
    crate::text::lemma_decimal_digits(i);
    crate::text::lemma_decimal_digits(j);
    let start: int = id.len() as int + 1;
    if x == y {
        if di.len() < dj.len() {
            assert(x[start + di.len() as int] == '-');
            assert(y[start + di.len() as int] == dj[di.len() as int]);
        } else if dj.len() < di.len() {
            assert(y[start + dj.len() as int] == '-');
            assert(x[start + dj.len() as int] == di[dj.len() as int]);
        } else {
            assert(di =~= x.subrange(start, start + di.len() as int));
            assert(dj =~= y.subrange(start, start + dj.len() as int));
            crate::text::lemma_decimal_injective(i, j);
        }
    }
}

/// Quarantine destinations of distinct entries of one plan differ.
pub proof fn lemma_destinations_distinct(
    dir: Seq<char>,
    id: Seq<char>,
    i: nat,
    j: nat,
    a: Seq<char>,
    b: Seq<char>,
)
    requires
        i != j,
    ensures
        join_path(dir, quarantine_name(id, i, a)) != join_path(dir, quarantine_name(id, j, b)),
{
    let x = quarantine_name(id, i, a);
    let y = quarantine_name(id, j, b);
    lemma_quarantine_names_distinct(id, i, j, a, b);
    assert(x.len() > 0 && y.len() > 0 && x[0] == y[0]) by {
        if id.len() > 0 {
            assert(x[0] == id[0] && y[0] == id[0]);
        } else {
            assert(x[0] == '-' && y[0] == '-');
        }
    }
    if join_path(dir, x) == join_path(dir, y) {
        if x[0] == '/' {
        } else if dir.len() > 0 && dir.last() != '/' {
            assert(x =~= join_path(dir, x).subrange(dir.len() as int + 1, join_path(dir, x).len() as int));
            assert(y =~= join_path(dir, y).subrange(dir.len() as int + 1, join_path(dir, y).len() as int));
        } else {
            assert(x =~= join_path(dir, x).subrange(dir.len() as int, join_path(dir, x).len() as int));
            assert(y =~= join_path(dir, y).subrange(dir.len() as int, join_path(dir, y).len() as int));
        }
    }
}

} // verus!
