//! The decisions behind the `list`, `status`, `run` and `doctor` commands:
//! which configured variants to act on, which ones `run` holds back, the
//! table rows, and how the host's configuration differs from the catalog.
use vstd::prelude::*;
use crate::config::ConfiguredTarget;
use crate::framework::{Tier, tier_text, tier_label, Inspection, ApplyReport};
use crate::registry::{VariantEntry, FrameworkEntry, find_variant, catalog_tier, catalog, all_frameworks, framework_view};
use crate::text::{copy_str, push_str, same_chars, seq_lt, str_lt, padded, push_padded, joined, join, decimal_string, decimal, human_size, size_text};
use crate::text::{lemma_seq_lt_irreflexive, lemma_seq_lt_transitive, lemma_seq_lt_total};
use crate::tokens::views;

verus! {

broadcast use vstd::string::group_string_axioms;

/// The view of an optional string argument.
pub open spec fn arg_view(o: Option<&str>) -> Option<Seq<char>> {
    match o {
        Some(s) => Some(s@),
        None => None,
    }
}

// ---------------------------------------------------------------------------
// Choosing configured variants
// ---------------------------------------------------------------------------

/// A configured variant chosen to run, with its settings.
#[derive(Debug)]
pub struct SelectedVariant {
    pub variant: VariantEntry,
    pub settings: serde_json::Value,
}

/// Why no variants could be chosen.
#[derive(Debug)]
pub enum SelectError {
    /// `--target` and `--variant` match no configured target.
    VariantNotConfigured { target: String, variant: String, config_path: String },
    /// `--target` matches no configured target.
    TargetNotConfigured { target: String, config_path: String },
    /// `--variant` was given without `--target`.
    VariantNeedsTarget { variant: String },
    /// A configured target names a variant the catalog lacks.
    NotFound { target: String, variant: String },
}

/// The text of a selection error.
pub open spec fn select_message(e: SelectError) -> Seq<char> {
    match e {
        SelectError::VariantNotConfigured { target, variant, config_path } => "target "@ + target@
            + " variant "@ + variant@ + " is not configured in "@ + config_path@,
        SelectError::TargetNotConfigured { target, config_path } => "target "@ + target@
            + " is not configured in "@ + config_path@,
        SelectError::VariantNeedsTarget { variant } => "variant "@ + variant@
            + " requires --target so configured host policy is unambiguous"@,
        SelectError::NotFound { target, variant } => "target "@ + target@ + " variant "@ + variant@
            + " not found"@,
    }
}

impl SelectError {
    /// The error as text.
    pub fn message(&self) -> (r: String)
        ensures
            r@ == select_message(*self),
    {
        let mut r = String::new();
        match self {
            SelectError::VariantNotConfigured { target, variant, config_path } => {
                push_str(&mut r, "target ");
                push_str(&mut r, target.as_str());
                push_str(&mut r, " variant ");
                push_str(&mut r, variant.as_str());
                push_str(&mut r, " is not configured in ");
                push_str(&mut r, config_path.as_str());
            },
            SelectError::TargetNotConfigured { target, config_path } => {
                push_str(&mut r, "target ");
                push_str(&mut r, target.as_str());
                push_str(&mut r, " is not configured in ");
                push_str(&mut r, config_path.as_str());
            },
            SelectError::VariantNeedsTarget { variant } => {
                push_str(&mut r, "variant ");
                push_str(&mut r, variant.as_str());
                push_str(&mut r, " requires --target so configured host policy is unambiguous");
            },
            SelectError::NotFound { target, variant } => {
                push_str(&mut r, "target ");
                push_str(&mut r, target.as_str());
                push_str(&mut r, " variant ");
                push_str(&mut r, variant.as_str());
                push_str(&mut r, " not found");
            },
        }
        assert(r@ =~= select_message(*self));
        r
    }
}

/// A configured target matches the requested framework and variant, each
/// where one was given.
pub open spec fn wanted(t: ConfiguredTarget, target: Option<Seq<char>>, variant: Option<Seq<char>>) -> bool {
    (target is None || t.name@ == target->0) && (variant is None || t.variant@ == variant->0)
}

/// The configured targets of `ts` that match, in order.
pub open spec fn kept(ts: Seq<ConfiguredTarget>, target: Option<Seq<char>>, variant: Option<Seq<char>>) -> Seq<ConfiguredTarget>
    decreases ts.len(),
{
    if ts.len() == 0 {
        Seq::empty()
    } else {
        let prev = kept(ts.drop_last(), target, variant);
        if wanted(ts.last(), target, variant) {
            prev.push(ts.last())
        } else {
            prev
        }
    }
}

fn matches_arg(value: &String, arg: Option<&str>) -> (r: bool)
    ensures
        r == (arg is None || value@ == arg->0@),
{
    match arg {
        None => true,
        Some(a) => same_chars(value.as_str(), a),
    }
}

/// The configured targets that match `target` and `variant` (each where
/// given), in order.
pub fn configured_for(target: Option<&str>, variant: Option<&str>, configured: Vec<ConfiguredTarget>) -> (r: Vec<ConfiguredTarget>)
    ensures
        r@ == kept(configured@, arg_view(target), arg_view(variant)),
{
    let ghost ts = configured@;
    let count = configured.len();
    let mut rest = configured;
    let mut r: Vec<ConfiguredTarget> = Vec::new();
    let mut n: usize = 0;
    assert(ts.take(0) =~= Seq::<ConfiguredTarget>::empty());
    while rest.len() > 0
        invariant
            n <= ts.len(),
            ts.len() == count,
            rest@ == ts.skip(n as int),
            r@ == kept(ts.take(n as int), arg_view(target), arg_view(variant)),
        decreases rest.len(),
    {
        assert(rest@.len() == ts.len() - n);
        let t = rest.remove(0);
        assert(ts.skip(n as int)[0] == ts[n as int]);
        assert(ts.take(n + 1int).drop_last() =~= ts.take(n as int));
        assert(ts.take(n + 1int).last() == t);
        let keep = matches_arg(&t.name, target) && matches_arg(&t.variant, variant);
        if keep {
            r.push(t);
        }
        n = n + 1;
        assert(rest@ =~= ts.skip(n as int));
    }
    assert(ts.take(ts.len() as int) =~= ts);
    r
}

/// Every configured target of `ts` names a variant of the catalog.
pub open spec fn all_known(ts: Seq<ConfiguredTarget>) -> bool {
    forall|i: int| 0 <= i < ts.len() ==> catalog_tier((#[trigger] ts[i]).name@, ts[i].variant@) is Some
}

/// The position of the first configured target the catalog lacks.
pub open spec fn first_unknown(ts: Seq<ConfiguredTarget>, i: int) -> bool {
    &&& 0 <= i < ts.len()
    &&& catalog_tier(ts[i].name@, ts[i].variant@) is None
    &&& all_known(ts.take(i))
}

/// `e` reports configured target `t` as missing from the catalog.
pub open spec fn not_found_for(e: SelectError, t: ConfiguredTarget) -> bool {
    match e {
        SelectError::NotFound { target, variant } => target@ == t.name@ && variant@ == t.variant@,
        _ => false,
    }
}

/// `s` is the catalog variant for configured target `t`, with its settings.
pub open spec fn selected_for(s: SelectedVariant, t: ConfiguredTarget) -> bool {
    &&& s.variant.framework@ == t.name@
    &&& s.variant.name@ == t.variant@
    &&& Some(s.variant.tier) == catalog_tier(t.name@, t.variant@)
    &&& s.settings == t.settings
}

/// The catalog variant of each configured target, in order, with its
/// settings; the first target the catalog lacks is `NotFound`.
pub fn configured_to_variants(configured: Vec<ConfiguredTarget>) -> (r: Result<Vec<SelectedVariant>, SelectError>)
    ensures
        r is Ok <==> all_known(configured@),
        r matches Ok(v) ==> v@.len() == configured@.len() && forall|i: int|
            0 <= i < v@.len() ==> selected_for(#[trigger] v@[i], configured@[i]),
        r matches Err(e) ==> exists|i: int| first_unknown(configured@, i) && not_found_for(e, configured@[i]),
{
    let ghost ts = configured@;
    let count = configured.len();
    let mut rest = configured;
    let mut r: Vec<SelectedVariant> = Vec::new();
    assert(ts.take(0) =~= Seq::<ConfiguredTarget>::empty());
    while rest.len() > 0
        invariant
            r@.len() <= ts.len(),
            ts == configured@,
            ts.len() == count,
            rest@ == ts.skip(r@.len() as int),
            all_known(ts.take(r@.len() as int)),
            forall|i: int| 0 <= i < r@.len() ==> selected_for(#[trigger] r@[i], ts[i]),
        decreases rest.len(),
    {
        let ghost n = r@.len();
        assert(rest@.len() == ts.len() - n);
        let t = rest.remove(0);
        assert(ts.skip(n as int)[0] == ts[n as int]);
        match find_variant(t.name.as_str(), t.variant.as_str()) {
            Some(v) => {
                r.push(SelectedVariant { variant: v, settings: t.settings });
                assert(rest@ =~= ts.skip(r@.len() as int));
                assert forall|i: int| 0 <= i < ts.take(n + 1int).len() implies catalog_tier(
                    (#[trigger] ts.take(n + 1int)[i]).name@,
                    ts.take(n + 1int)[i].variant@,
                ) is Some by {
                    if i < n {
                        assert(ts.take(n + 1int)[i] == ts.take(n as int)[i]);
                    }
                }
            },
            None => {
                assert(t == ts[n as int]);
                assert(first_unknown(ts, n as int));
                assert(catalog_tier(ts[n as int].name@, ts[n as int].variant@) is None);
                assert(!all_known(ts));
                let e = SelectError::NotFound { target: t.name, variant: t.variant };
                assert(not_found_for(e, ts[n as int]));
                return Err(e);
            },
        }
    }
    assert(ts.take(ts.len() as int) =~= ts);
    Ok(r)
}

/// The variants `status` and `run` act on: with `--target` (and maybe
/// `--variant`), the matching configured targets, an error when there are
/// none; `--variant` alone is an error; with neither, every configured
/// target. `configured` is the host's configuration (unread, and may be
/// empty, when only `--variant` was given).
pub fn select_variants(
    target: Option<&str>,
    variant: Option<&str>,
    config_path: &str,
    configured: Vec<ConfiguredTarget>,
) -> (r: Result<Vec<SelectedVariant>, SelectError>)
    ensures
        ({
            let picked = kept(configured@, arg_view(target), arg_view(variant));
            match (target, variant) {
                (Some(t), Some(v)) => if picked.len() == 0 {
                    r matches Err(SelectError::VariantNotConfigured { target: et, variant: ev, config_path: ec })
                        && et@ == t@ && ev@ == v@ && ec@ == config_path@
                } else {
                    selection(picked, r)
                },
                (Some(t), None) => if picked.len() == 0 {
                    r matches Err(SelectError::TargetNotConfigured { target: et, config_path: ec }) && et@ == t@
                        && ec@ == config_path@
                } else {
                    selection(picked, r)
                },
                (None, Some(v)) => r matches Err(SelectError::VariantNeedsTarget { variant: ev }) && ev@ == v@,
                (None, None) => selection(configured@, r),
            }
        }),
{
    match (target, variant) {
        (Some(t), Some(v)) => {
            let picked = configured_for(Some(t), Some(v), configured);
            if picked.len() == 0 {
                return Err(
                    SelectError::VariantNotConfigured {
                        target: copy_str(t),
                        variant: copy_str(v),
                        config_path: copy_str(config_path),
                    },
                );
            }
            configured_to_variants(picked)
        },
        (Some(t), None) => {
            let picked = configured_for(Some(t), None, configured);
            if picked.len() == 0 {
                return Err(
                    SelectError::TargetNotConfigured { target: copy_str(t), config_path: copy_str(config_path) },
                );
            }
            configured_to_variants(picked)
        },
        (None, Some(v)) => Err(SelectError::VariantNeedsTarget { variant: copy_str(v) }),
        (None, None) => configured_to_variants(configured),
    }
}

/// `r` is what `configured_to_variants` gives for `ts`.
pub open spec fn selection(ts: Seq<ConfiguredTarget>, r: Result<Vec<SelectedVariant>, SelectError>) -> bool {
    &&& r is Ok <==> all_known(ts)
    &&& r matches Ok(v) ==> v@.len() == ts.len() && forall|i: int|
        0 <= i < v@.len() ==> selected_for(#[trigger] v@[i], ts[i])
    &&& r matches Err(e) ==> exists|i: int| first_unknown(ts, i) && not_found_for(e, ts[i])
}

// ---------------------------------------------------------------------------
// run
// ---------------------------------------------------------------------------

/// What `run` reports for a variant it holds back: confirm, risky and
/// report-only variants are not applied without `--force`; a dry run holds
/// nothing back.
pub open spec fn held_back(t: Tier, apply: bool, force: bool) -> Option<Seq<char>> {
    if force || !apply {
        None
    } else {
        match t {
            Tier::Confirm => Some("skipped: confirm, requires --force"@),
            Tier::Risky => Some("skipped: risky, requires --force"@),
            Tier::ReportOnly => Some("skipped: report-only"@),
            Tier::Safe => None,
        }
    }
}

/// The report `run` gives in place of applying a held-back variant: one
/// skipped item and the reason as its error; `None` where the variant is
/// applied.
pub fn run_gate(framework: &str, variant: &str, tier: Tier, apply: bool, force: bool) -> (r: Option<ApplyReport>)
    ensures
        r is None <==> held_back(tier, apply, force) is None,
        r matches Some(rep) ==> {
            &&& rep.framework@ == framework@
            &&& rep.variant@ == variant@
            &&& rep.removed == 0
            &&& rep.freed_bytes == 0
            &&& rep.skipped == 1
            &&& views(rep.errors@) == seq![held_back(tier, apply, force)->0]
        },
{
    if force || !apply {
        return None;
    }
    let reason = match tier {
        Tier::Confirm => copy_str("skipped: confirm, requires --force"),
        Tier::Risky => copy_str("skipped: risky, requires --force"),
        Tier::ReportOnly => copy_str("skipped: report-only"),
        Tier::Safe => {
            return None;
        },
    };
    let mut errors: Vec<String> = Vec::new();
    errors.push(reason);
    assert(views(errors@) =~= seq![held_back(tier, apply, force)->0]);
    Some(
        ApplyReport {
            framework: copy_str(framework),
            variant: copy_str(variant),
            removed: 0,
            freed_bytes: 0,
            skipped: 1,
            errors,
        },
    )
}

/// Why `run` holds a variant of tier `tier` back: report-only variants
/// never run, the others need `--force`.
pub open spec fn skip_reason_text(tier: Tier) -> Seq<char> {
    match tier {
        Tier::ReportOnly => "report-only target"@,
        _ => tier_text(tier) + " — use --force to bypass"@,
    }
}

/// The warning `run` prints when it holds a variant back.
pub fn skip_message(framework: &str, variant: &str, tier: Tier) -> (r: String)
    ensures
        r@ == "Skipping "@ + framework@ + "/"@ + variant@ + ": "@ + skip_reason_text(tier),
{
    let mut r = copy_str("Skipping ");
    push_str(&mut r, framework);
    push_str(&mut r, "/");
    push_str(&mut r, variant);
    push_str(&mut r, ": ");
    match tier {
        Tier::ReportOnly => push_str(&mut r, "report-only target"),
        _ => {
            push_str(&mut r, tier_label(tier));
            push_str(&mut r, " — use --force to bypass");
        },
    }
    r
}

/// The line `run` prints for a finished variant: whether it was applied or
/// a dry run, and what it removed, freed and skipped.
pub open spec fn run_line_text(r: ApplyReport, apply: bool) -> Seq<char> {
    "["@ + (if apply {
        "APPLIED"@
    } else {
        "DRY-RUN"@
    }) + "] "@ + r.framework@ + "/"@ + r.variant@ + ": removed "@ + decimal(r.removed as nat) + " items, freed "@
        + size_text(r.freed_bytes as nat) + ", skipped "@ + decimal(r.skipped as nat)
}

/// The line printed for a finished variant.
pub fn run_line(r: &ApplyReport, apply: bool) -> (line: String)
    ensures
        line@ == run_line_text(*r, apply),
{
    let mut line = copy_str("[");
    if apply {
        push_str(&mut line, "APPLIED");
    } else {
        push_str(&mut line, "DRY-RUN");
    }
    push_str(&mut line, "] ");
    push_str(&mut line, r.framework.as_str());
    push_str(&mut line, "/");
    push_str(&mut line, r.variant.as_str());
    push_str(&mut line, ": removed ");
    push_str(&mut line, decimal_string(r.removed).as_str());
    push_str(&mut line, " items, freed ");
    push_str(&mut line, human_size(r.freed_bytes).as_str());
    push_str(&mut line, ", skipped ");
    push_str(&mut line, decimal_string(r.skipped).as_str());
    assert(line@ =~= run_line_text(*r, apply));
    line
}

// ---------------------------------------------------------------------------
// status
// ---------------------------------------------------------------------------

/// The short tier label in the status table (`rpt` for report-only, `?`
/// when the variant is not among the selected ones).
pub open spec fn short_tier(t: Option<Tier>) -> Seq<char> {
    match t {
        Some(Tier::Safe) => "safe"@,
        Some(Tier::Confirm) => "confirm"@,
        Some(Tier::Risky) => "risky"@,
        Some(Tier::ReportOnly) => "rpt"@,
        None => "?"@,
    }
}

/// The tier of the first selected variant `framework`/`variant`.
pub fn tier_of(selected: &Vec<SelectedVariant>, framework: &str, variant: &str) -> (r: Option<Tier>)
    ensures
        match r {
            Some(t) => exists|i: int| {
                &&& 0 <= i < selected@.len()
                &&& (#[trigger] selected@[i]).variant.framework@ == framework@
                &&& selected@[i].variant.name@ == variant@
                &&& selected@[i].variant.tier == t
                &&& forall|j: int| 0 <= j < i ==> !((#[trigger] selected@[j]).variant.framework@ == framework@
                    && selected@[j].variant.name@ == variant@)
            },
            None => forall|j: int| 0 <= j < selected@.len() ==> !((#[trigger] selected@[j]).variant.framework@
                == framework@ && selected@[j].variant.name@ == variant@),
        },
{
    let mut i: usize = 0;
    while i < selected.len()
        invariant
            i <= selected@.len(),
            forall|j: int| 0 <= j < i ==> !((#[trigger] selected@[j]).variant.framework@ == framework@
                && selected@[j].variant.name@ == variant@),
        decreases selected.len() - i,
    {
        let v = &selected[i].variant;
        if same_chars(v.framework.as_str(), framework) && same_chars(v.name.as_str(), variant) {
            return Some(v.tier);
        }
        i = i + 1;
    }
    None
}

/// One row of the status table: name, short tier, path, size (or `-`),
/// items to remove (or `-`) in padded columns, then the notes.
pub open spec fn status_row_text(i: Inspection, tier: Option<Tier>) -> Seq<char> {
    let size = match i.size_bytes {
        Some(b) => size_text(b as nat),
        None => "-"@,
    };
    let remove = if i.would_remove > 0 {
        decimal(i.would_remove as nat)
    } else {
        "-"@
    };
    padded(i.framework@ + "/"@ + i.variant@, 28) + " "@ + padded(short_tier(tier), 6) + " "@ + padded(i.path@, 12)
        + " "@ + padded(size, 10) + " "@ + padded(remove, 8) + " "@ + i.notes@
}

/// The status table row for an inspection.
pub fn status_row(inspection: &Inspection, tier: Option<Tier>) -> (r: String)
    ensures
        r@ == status_row_text(*inspection, tier),
{
    let mut key = copy_str(inspection.framework.as_str());
    push_str(&mut key, "/");
    push_str(&mut key, inspection.variant.as_str());
    let label = match tier {
        Some(Tier::Safe) => "safe",
        Some(Tier::Confirm) => "confirm",
        Some(Tier::Risky) => "risky",
        Some(Tier::ReportOnly) => "rpt",
        None => "?",
    };
    let size = match inspection.size_bytes {
        Some(b) => human_size(b),
        None => copy_str("-"),
    };
    let remove = if inspection.would_remove > 0 {
        decimal_string(inspection.would_remove)
    } else {
        copy_str("-")
    };
    let mut r = String::new();
    push_padded(&mut r, key.as_str(), 28);
    push_str(&mut r, " ");
    push_padded(&mut r, label, 6);
    push_str(&mut r, " ");
    push_padded(&mut r, inspection.path.as_str(), 12);
    push_str(&mut r, " ");
    push_padded(&mut r, size.as_str(), 10);
    push_str(&mut r, " ");
    push_padded(&mut r, remove.as_str(), 8);
    push_str(&mut r, " ");
    push_str(&mut r, inspection.notes.as_str());
    assert(r@ =~= status_row_text(*inspection, tier));
    r
}

// ---------------------------------------------------------------------------
// list
// ---------------------------------------------------------------------------

/// A variant as `name[tier]`.
pub open spec fn variant_label(name: Seq<char>, t: Tier) -> Seq<char> {
    name + "["@ + tier_text(t) + "]"@
}

/// The labels of a framework's variants.
pub open spec fn variant_labels(f: FrameworkEntry) -> Seq<Seq<char>> {
    f.variants@.map_values(|v: VariantEntry| variant_label(v.name@, v.tier))
}

/// One row of the list table: framework, its variants with their tiers,
/// and its summary.
pub open spec fn list_row_text(f: FrameworkEntry) -> Seq<char> {
    padded(f.name@, 28) + " "@ + padded(joined(variant_labels(f), ", "@), 24) + " "@ + f.summary@
}

/// The list table row for a framework.
pub fn list_row(f: &FrameworkEntry) -> (r: String)
    ensures
        r@ == list_row_text(*f),
{
    let mut labels: Vec<String> = Vec::new();
    let mut i: usize = 0;
    while i < f.variants.len()
        invariant
            i <= f.variants@.len(),
            views(labels@) == variant_labels(*f).take(i as int),
        decreases f.variants.len() - i,
    {
        let v = &f.variants[i];
        let mut l = copy_str(v.name.as_str());
        push_str(&mut l, "[");
        push_str(&mut l, tier_label(v.tier));
        push_str(&mut l, "]");
        let ghost before = labels@;
        labels.push(l);
        assert(views(labels@) =~= views(before).push(variant_label(v.name@, v.tier)));
        i = i + 1;
        assert(views(labels@) =~= variant_labels(*f).take(i as int));
    }
    assert(variant_labels(*f).take(f.variants@.len() as int) =~= variant_labels(*f));
    let joined_labels = join(&labels, ", ");
    assert(labels@.map_values(|p: String| p@) =~= views(labels@));
    let mut r = String::new();
    push_padded(&mut r, f.name.as_str(), 28);
    push_str(&mut r, " ");
    push_padded(&mut r, joined_labels.as_str(), 24);
    push_str(&mut r, " ");
    push_str(&mut r, f.summary.as_str());
    assert(r@ =~= list_row_text(*f));
    r
}

// ---------------------------------------------------------------------------
// doctor
// ---------------------------------------------------------------------------

/// Variant `v` of framework `f` appears among the first `i` catalog
/// frameworks, or among the first `k` variants of framework `i`.
pub open spec fn listed_before(i: int, k: int, f: Seq<char>, v: Seq<char>) -> bool {
    exists|a: int, b: int|
        0 <= a <= i && a < catalog().len() && 0 <= b < catalog()[a].2.len() && (a < i || b < k) && #[trigger] catalog()[a].2[b].0 == v
            && catalog()[a].0 == f
}

proof fn lemma_listed_step(a: int, b: int, f: Seq<char>, v: Seq<char>)
    requires
        0 <= a < catalog().len(),
        0 <= b < catalog()[a].2.len(),
    ensures
        listed_before(a, b + 1, f, v) <==> (listed_before(a, b, f, v) || (f == catalog()[a].0 && v
            == catalog()[a].2[b].0)),
{
    if listed_before(a, b + 1, f, v) {
        let (p, q) = choose|p: int, q: int|
            0 <= p <= a && p < catalog().len() && 0 <= q < catalog()[p].2.len() && (p < a || q < b + 1)
                && #[trigger] catalog()[p].2[q].0 == v && catalog()[p].0 == f;
        if !(p == a && q == b) {
            assert(catalog()[p].2[q].0 == v);
        }
    }
    if listed_before(a, b, f, v) {
        let (p, q) = choose|p: int, q: int|
            0 <= p <= a && p < catalog().len() && 0 <= q < catalog()[p].2.len() && (p < a || q < b)
                && #[trigger] catalog()[p].2[q].0 == v && catalog()[p].0 == f;
        assert(catalog()[p].2[q].0 == v);
    }
    if f == catalog()[a].0 && v == catalog()[a].2[b].0 {
        assert(catalog()[a].2[b].0 == v);
    }
}

proof fn lemma_listed_next(a: int, f: Seq<char>, v: Seq<char>)
    requires
        0 <= a < catalog().len(),
    ensures
        listed_before(a, catalog()[a].2.len() as int, f, v) <==> listed_before(a + 1, 0, f, v),
{
    if listed_before(a + 1, 0, f, v) {
        let (p, q) = choose|p: int, q: int|
            0 <= p <= a + 1 && p < catalog().len() && 0 <= q < catalog()[p].2.len() && (p < a + 1 || q < 0)
                && #[trigger] catalog()[p].2[q].0 == v && catalog()[p].0 == f;
        assert(catalog()[p].2[q].0 == v);
    }
    if listed_before(a, catalog()[a].2.len() as int, f, v) {
        let (p, q) = choose|p: int, q: int|
            0 <= p <= a && p < catalog().len() && 0 <= q < catalog()[p].2.len() && (p < a || q < catalog()[a].2.len())
                && #[trigger] catalog()[p].2[q].0 == v && catalog()[p].0 == f;
        assert(catalog()[p].2[q].0 == v);
    }
}

/// A configured pair is an extra candidate among the first frameworks.
pub open spec fn extra_upto(cv: Seq<(Seq<char>, Seq<char>)>, a: int, b: int, x: (Seq<char>, Seq<char>)) -> bool {
    listed_before(a, b, x.0, x.1) && !cv.contains(x)
}

/// The catalog lists variant `v` of framework `f`.
pub open spec fn in_catalog(f: Seq<char>, v: Seq<char>) -> bool {
    listed_before(catalog().len() as int, 0, f, v)
}

/// The catalog has a framework named `f`.
pub open spec fn framework_known(f: Seq<char>) -> bool {
    exists|a: int| 0 <= a < catalog().len() && #[trigger] catalog()[a].0 == f
}

/// How `doctor` reports a configured framework/variant the catalog lacks:
/// `f/v` when the framework exists, `f` when it does not.
pub open spec fn missing_entry(f: Seq<char>, v: Seq<char>) -> Option<Seq<char>> {
    if in_catalog(f, v) {
        None
    } else if framework_known(f) {
        Some(f + "/"@ + v)
    } else {
        Some(f)
    }
}

/// The missing entries of the configured pairs `cs`, in order.
pub open spec fn missing_list(cs: Seq<(Seq<char>, Seq<char>)>) -> Seq<Seq<char>>
    decreases cs.len(),
{
    if cs.len() == 0 {
        Seq::empty()
    } else {
        let prev = missing_list(cs.drop_last());
        match missing_entry(cs.last().0, cs.last().1) {
            Some(m) => prev.push(m),
            None => prev,
        }
    }
}

/// The views of configured (framework, variant) pairs.
pub open spec fn pair_views(cs: Seq<(String, String)>) -> Seq<(Seq<char>, Seq<char>)> {
    cs.map_values(|p: (String, String)| (p.0@, p.1@))
}

/// Pairs ordered by framework name, then variant name.
pub open spec fn pair_lt(a: (Seq<char>, Seq<char>), b: (Seq<char>, Seq<char>)) -> bool {
    seq_lt(a.0, b.0) || (a.0 == b.0 && seq_lt(a.1, b.1))
}

/// Each pair of `ps` is below the next.
pub open spec fn pairs_ascending(ps: Seq<(Seq<char>, Seq<char>)>) -> bool {
    forall|a: int, b: int| 0 <= a < b < ps.len() ==> pair_lt(#[trigger] ps[a], #[trigger] ps[b])
}

proof fn lemma_pair_lt_transitive(a: (Seq<char>, Seq<char>), b: (Seq<char>, Seq<char>), c: (Seq<char>, Seq<char>))
    requires
        pair_lt(a, b),
        pair_lt(b, c),
    ensures
        pair_lt(a, c),
{
    if seq_lt(a.0, b.0) && seq_lt(b.0, c.0) {
        lemma_seq_lt_transitive(a.0, b.0, c.0);
    } else if a.0 == b.0 && b.0 == c.0 {
        lemma_seq_lt_transitive(a.1, b.1, c.1);
    }
}

proof fn lemma_pair_lt_total(a: (Seq<char>, Seq<char>), b: (Seq<char>, Seq<char>))
    ensures
        a == b || pair_lt(a, b) || pair_lt(b, a),
{
    lemma_seq_lt_total(a.0, b.0);
    lemma_seq_lt_total(a.1, b.1);
}

fn pair_less(a: &(String, String), b: &(String, String)) -> (r: bool)
    ensures
        r == pair_lt((a.0@, a.1@), (b.0@, b.1@)),
{
    if same_chars(a.0.as_str(), b.0.as_str()) {
        proof {
            lemma_seq_lt_irreflexive(a.0@);
        }
        str_lt(a.1.as_str(), b.1.as_str())
    } else {
        str_lt(a.0.as_str(), b.0.as_str())
    }
}

/// Inserts `p` into the ascending `set` unless it is there already.
fn insert_pair(set: &mut Vec<(String, String)>, p: (String, String))
    requires
        pairs_ascending(pair_views(old(set)@)),
    ensures
        pairs_ascending(pair_views(final(set)@)),
        forall|x: (Seq<char>, Seq<char>)| pair_views(final(set)@).contains(x) <==> (pair_views(old(set)@).contains(x) || x
            == (p.0@, p.1@)),
{
    let ghost old_v = pair_views(set@);
    let ghost pv = (p.0@, p.1@);
    let mut j: usize = 0;
    while j < set.len() && pair_less(&set[j], &p)
        invariant
            j <= set@.len(),
            pair_views(set@) == old_v,
            pairs_ascending(old_v),
            pv == (p.0@, p.1@),
            forall|a: int| 0 <= a < j ==> pair_lt(#[trigger] old_v[a], pv),
        decreases set.len() - j,
    {
        j = j + 1;
    }
    if j < set.len() && same_chars(set[j].0.as_str(), p.0.as_str()) && same_chars(set[j].1.as_str(), p.1.as_str()) {
        assert(old_v[j as int] == pv);
        return;
    }
    proof {
        if j < set@.len() {
            lemma_pair_lt_total(old_v[j as int], pv);
        }
    }
    set.insert(j, p);
    let ghost nv = pair_views(set@);
    assert(nv =~= old_v.insert(j as int, pv));
    assert forall|a: int, b: int| 0 <= a < b < nv.len() implies pair_lt(#[trigger] nv[a], #[trigger] nv[b]) by {
        if b == j {
        } else if a == j {
            if b > j + 1 {
                lemma_pair_lt_transitive(pv, old_v[j as int], old_v[b - 1]);
            }
        } else if a < j && b > j {
            if b - 1 > j {
                lemma_pair_lt_transitive(pv, old_v[j as int], old_v[b - 1]);
            }
            lemma_pair_lt_transitive(old_v[a], pv, old_v[b - 1]);
        }
    }
    assert forall|x: (Seq<char>, Seq<char>)| nv.contains(x) <==> (old_v.contains(x) || x == pv) by {
        if nv.contains(x) {
            let k = choose|k: int| 0 <= k < nv.len() && nv[k] == x;
            if k < j {
                assert(old_v[k] == x);
            } else if k > j {
                assert(old_v[k - 1] == x);
            }
        }
        if old_v.contains(x) {
            let k = choose|k: int| 0 <= k < old_v.len() && old_v[k] == x;
            if k < j {
                assert(nv[k] == x);
            } else {
                assert(nv[k + 1] == x);
            }
        }
        if x == pv {
            assert(nv[j as int] == x);
        }
    }
}

/// Whether the configured pairs hold `f`/`v`.
fn configured_has(configured: &Vec<(String, String)>, f: &str, v: &str) -> (r: bool)
    ensures
        r == pair_views(configured@).contains((f@, v@)),
{
    let ghost cv = pair_views(configured@);
    let mut i: usize = 0;
    while i < configured.len()
        invariant
            i <= configured@.len(),
            cv == pair_views(configured@),
            forall|j: int| 0 <= j < i ==> cv[j] != (f@, v@),
        decreases configured.len() - i,
    {
        if same_chars(configured[i].0.as_str(), f) && same_chars(configured[i].1.as_str(), v) {
            assert(cv[i as int] == (f@, v@));
            return true;
        }
        i = i + 1;
    }
    false
}

/// How the host's configuration differs from the catalog: each configured
/// pair the catalog lacks, in order (`missing`); and every catalog pair
/// that is not configured, ordered by framework then variant, as
/// `framework/variant` (`extra`).
pub fn doctor_report(configured: &Vec<(String, String)>) -> (r: (Vec<String>, Vec<String>))
    ensures
        views(r.0@) == missing_list(pair_views(configured@)),
        exists|ps: Seq<(Seq<char>, Seq<char>)>| {
            &&& pairs_ascending(ps)
            &&& forall|x: (Seq<char>, Seq<char>)| #[trigger] ps.contains(x) <==> (in_catalog(x.0, x.1)
                && !pair_views(configured@).contains(x))
            &&& views(r.1@) == ps.map_values(|x: (Seq<char>, Seq<char>)| x.0 + "/"@ + x.1)
        },
{
    let all = all_frameworks();
    let ghost cat = catalog();
    let ghost cv = pair_views(configured@);
    assert(all@.len() == cat.len());
    assert forall|a: int| 0 <= a < all@.len() implies (#[trigger] all@[a]).name@ == cat[a].0 && all@[a].variants@.len()
        == cat[a].2.len() && forall|b: int| 0 <= b < all@[a].variants@.len() ==> (#[trigger] all@[a].variants@[b]).name@
        == cat[a].2[b].0 by {
        assert(all@.map_values(|f: FrameworkEntry| framework_view(f))[a] == cat[a]);
        assert forall|b: int| 0 <= b < all@[a].variants@.len() implies (#[trigger] all@[a].variants@[b]).name@
            == cat[a].2[b].0 by {
            assert(all@[a].variants@.map_values(|v: VariantEntry| crate::registry::variant_view(v))[b] == cat[a].2[b]);
        }
    }
    // missing
    let mut missing: Vec<String> = Vec::new();
    let mut c: usize = 0;
    assert(cv.take(0) =~= Seq::<(Seq<char>, Seq<char>)>::empty());
    while c < configured.len()
        invariant
            c <= configured@.len(),
            cv == pair_views(configured@),
            cat == catalog(),
            all@.len() == cat.len(),
            forall|a: int| 0 <= a < all@.len() ==> (#[trigger] all@[a]).name@ == cat[a].0 && all@[a].variants@.len()
                == cat[a].2.len() && forall|b: int| 0 <= b < all@[a].variants@.len() ==> (#[trigger] all@[a].variants@[b]).name@
                == cat[a].2[b].0,
            views(missing@) == missing_list(cv.take(c as int)),
        decreases configured.len() - c,
    {
        let f = configured[c].0.as_str();
        let v = configured[c].1.as_str();
        let mut known = false;
        let mut listed = false;
        let mut a: usize = 0;
        while a < all.len()
            invariant
                a <= all@.len(),
                cat == catalog(),
                all@.len() == cat.len(),
                forall|a: int| 0 <= a < all@.len() ==> (#[trigger] all@[a]).name@ == cat[a].0 && all@[a].variants@.len()
                    == cat[a].2.len() && forall|b: int| 0 <= b < all@[a].variants@.len() ==> (#[trigger] all@[a].variants@[b]).name@
                    == cat[a].2[b].0,
                known == exists|x: int| 0 <= x < a && #[trigger] cat[x].0 == f@,
                listed == listed_before(a as int, 0, f@, v@),
            decreases all.len() - a,
        {
            if same_chars(all[a].name.as_str(), f) {
                known = true;
                let mut b: usize = 0;
                while b < all[a].variants.len()
                    invariant
                        a < all@.len(),
                        b <= all@[a as int].variants@.len(),
                        cat == catalog(),
                        all@.len() == cat.len(),
                        all@[a as int].name@ == cat[a as int].0,
                        cat[a as int].0 == f@,
                        forall|b: int| 0 <= b < all@[a as int].variants@.len() ==> (#[trigger] all@[a as int].variants@[b]).name@
                            == cat[a as int].2[b].0,
                        all@[a as int].variants@.len() == cat[a as int].2.len(),
                        listed == listed_before(a as int, b as int, f@, v@),
                    decreases all@[a as int].variants@.len() - b,
                {
                    if same_chars(all[a].variants[b].name.as_str(), v) {
                        listed = true;
                    }
                    proof {
                        if listed_before(a as int, b + 1, f@, v@) && !listed_before(a as int, b as int, f@, v@) {
                            let (x, y) = choose|x: int, y: int|
                                0 <= x <= a && x < catalog().len() && 0 <= y < catalog()[x].2.len() && (x < a || y < b + 1)
                                    && #[trigger] catalog()[x].2[y].0 == v@ && catalog()[x].0 == f@;
                        }
                        if all@[a as int].variants@[b as int].name@ == v@ {
                            assert(cat[a as int].2[b as int].0 == v@);
                        }
                    }
                    b = b + 1;
                }
                proof {
                    assert forall|x: int, y: int|
                        0 <= x <= a + 1 && x < catalog().len() && 0 <= y < catalog()[x].2.len() && (x < a + 1 || y < 0)
                            && #[trigger] catalog()[x].2[y].0 == v@ && catalog()[x].0 == f@ implies listed_before(
                        a as int,
                        all@[a as int].variants@.len() as int,
                        f@,
                        v@,
                    ) by {
                    }
                    if listed_before(a as int, all@[a as int].variants@.len() as int, f@, v@) {
                        let (x, y) = choose|x: int, y: int|
                            0 <= x <= a && x < catalog().len() && 0 <= y < catalog()[x].2.len() && (x < a || y < all@[a as int].variants@.len())
                                && #[trigger] catalog()[x].2[y].0 == v@ && catalog()[x].0 == f@;
                        assert(catalog()[x].2[y].0 == v@);
                    }
                }
            } else {
                proof {
                    if listed_before(a + 1, 0, f@, v@) {
                        let (x, y) = choose|x: int, y: int|
                            0 <= x <= a + 1 && x < catalog().len() && 0 <= y < catalog()[x].2.len() && (x < a + 1 || y < 0)
                                && #[trigger] catalog()[x].2[y].0 == v@ && catalog()[x].0 == f@;
                        assert(catalog()[x].2[y].0 == v@);
                    }
                }
            }
            a = a + 1;
        }
        assert(cv.take(c + 1).drop_last() =~= cv.take(c as int));
        assert(cv.take(c + 1).last() == (f@, v@));
        let ghost before = missing@;
        if !listed {
            if known {
                let mut m = copy_str(f);
                push_str(&mut m, "/");
                push_str(&mut m, v);
                missing.push(m);
            } else {
                missing.push(copy_str(f));
            }
            assert(views(missing@) =~= views(before).push(missing_entry(f@, v@)->0));
        }
        c = c + 1;
    }
    assert(cv.take(configured@.len() as int) =~= cv);
    // extra
    let mut pairs: Vec<(String, String)> = Vec::new();
    let mut a: usize = 0;
    while a < all.len()
        invariant
            a <= all@.len(),
            cat == catalog(),
            cv == pair_views(configured@),
            all@.len() == cat.len(),
            forall|a: int| 0 <= a < all@.len() ==> (#[trigger] all@[a]).name@ == cat[a].0 && all@[a].variants@.len()
                == cat[a].2.len() && forall|b: int| 0 <= b < all@[a].variants@.len() ==> (#[trigger] all@[a].variants@[b]).name@
                == cat[a].2[b].0,
            pairs_ascending(pair_views(pairs@)),
            forall|x: (Seq<char>, Seq<char>)| #[trigger] pair_views(pairs@).contains(x) <==> extra_upto(cv, a as int, 0, x),
        decreases all.len() - a,
    {
        let mut b: usize = 0;
        while b < all[a].variants.len()
            invariant
                a < all@.len(),
                b <= all@[a as int].variants@.len(),
                cat == catalog(),
                cv == pair_views(configured@),
                all@.len() == cat.len(),
                all@[a as int].name@ == cat[a as int].0,
                forall|b: int| 0 <= b < all@[a as int].variants@.len() ==> (#[trigger] all@[a as int].variants@[b]).name@
                    == cat[a as int].2[b].0,
                all@[a as int].variants@.len() == cat[a as int].2.len(),
                pairs_ascending(pair_views(pairs@)),
                forall|x: (Seq<char>, Seq<char>)| #[trigger] pair_views(pairs@).contains(x) <==> extra_upto(cv, a as int, b as int, x),
            decreases all@[a as int].variants@.len() - b,
        {
            let f = all[a].name.as_str();
            let v = all[a].variants[b].name.as_str();
            let ghost before = pair_views(pairs@);
            let taken = configured_has(configured, f, v);
            if !taken {
                insert_pair(&mut pairs, (copy_str(f), copy_str(v)));
            }
            proof {
                assert(cat[a as int].2[b as int].0 == v@);
                assert forall|x: (Seq<char>, Seq<char>)| #[trigger] pair_views(pairs@).contains(x) <==> extra_upto(cv, a as int, b + 1, x) by {
                    lemma_listed_step(a as int, b as int, x.0, x.1);
                }
            }
            b = b + 1;
        }
        proof {
            assert forall|x: (Seq<char>, Seq<char>)| #[trigger] pair_views(pairs@).contains(x) <==> extra_upto(cv, a + 1, 0, x) by {
                lemma_listed_next(a as int, x.0, x.1);
            }
        }
        a = a + 1;
    }
    let ghost ps = pair_views(pairs@);
    assert(forall|x: (Seq<char>, Seq<char>)| #[trigger] ps.contains(x) <==> (in_catalog(x.0, x.1) && !cv.contains(x)));
    let mut extra: Vec<String> = Vec::new();
    let mut k: usize = 0;
    while k < pairs.len()
        invariant
            k <= pairs@.len(),
            ps == pair_views(pairs@),
            views(extra@) == ps.take(k as int).map_values(|x: (Seq<char>, Seq<char>)| x.0 + "/"@ + x.1),
        decreases pairs.len() - k,
    {
        let mut e = copy_str(pairs[k].0.as_str());
        push_str(&mut e, "/");
        push_str(&mut e, pairs[k].1.as_str());
        let ghost before = extra@;
        extra.push(e);
        assert(views(extra@) =~= views(before).push(ps[k as int].0 + "/"@ + ps[k as int].1));
        k = k + 1;
        assert(views(extra@) =~= ps.take(k as int).map_values(|x: (Seq<char>, Seq<char>)| x.0 + "/"@ + x.1));
    }
    assert(ps.take(pairs@.len() as int) =~= ps);
    (missing, extra)
}

} // verus!
