use doty::commands::{
    doctor_report, list_row, run_gate, run_line, select_variants, skip_message, status_row, tier_of, SelectError,
};
use doty::framework::ApplyReport;
use doty::config::{ConfiguredTarget, DEFAULT_CONFIG_PATH};
use doty::framework::{tier_label, tier_priority, Inspection, Tier};
use doty::registry::{all_frameworks, find_framework, find_variant};

fn configured(name: &str, variant: &str) -> ConfiguredTarget {
    ConfiguredTarget { name: name.to_string(), variant: variant.to_string(), settings: serde_json::Value::Null }
}

fn host() -> Vec<ConfiguredTarget> {
    vec![
        configured("failed-units", "reset-failed"),
        configured("llama-models", "prune-unpinned"),
        configured("failed-units", "restart-failed"),
    ]
}

#[test]
fn select_with_target_keeps_only_that_target() {
    let picked = select_variants(Some("failed-units"), None, DEFAULT_CONFIG_PATH, host()).unwrap();
    let names: Vec<(&str, &str)> =
        picked.iter().map(|s| (s.variant.framework.as_str(), s.variant.name.as_str())).collect();
    assert_eq!(names, vec![("failed-units", "reset-failed"), ("failed-units", "restart-failed")]);
    assert_eq!(picked[1].variant.tier, Tier::Confirm);
    assert!(picked[0].settings.is_null());
}

#[test]
fn select_with_target_and_variant() {
    let picked = select_variants(Some("llama-models"), Some("prune-unpinned"), DEFAULT_CONFIG_PATH, host()).unwrap();
    assert_eq!(picked.len(), 1);
    assert_eq!(picked[0].variant.tier, Tier::Risky);
    assert_eq!(tier_of(&picked, "llama-models", "prune-unpinned"), Some(Tier::Risky));
    assert_eq!(tier_of(&picked, "llama-models", "disk-report"), None);
}

#[test]
fn select_errors_name_what_is_missing() {
    let err = select_variants(Some("llama-models"), Some("disk-report"), "/etc/x.json", host()).unwrap_err();
    assert!(matches!(err, SelectError::VariantNotConfigured { .. }));
    assert_eq!(err.message(), "target llama-models variant disk-report is not configured in /etc/x.json");

    let err = select_variants(Some("uv-cache"), None, "/etc/x.json", host()).unwrap_err();
    assert_eq!(err.message(), "target uv-cache is not configured in /etc/x.json");

    let err = select_variants(None, Some("clean"), "/etc/x.json", Vec::new()).unwrap_err();
    assert_eq!(err.message(), "variant clean requires --target so configured host policy is unambiguous");
}

#[test]
fn select_everything_and_unknown_variant() {
    let all = select_variants(None, None, DEFAULT_CONFIG_PATH, host()).unwrap();
    assert_eq!(all.len(), 3);
    assert_eq!(all[1].variant.framework, "llama-models");

    let mut bad = host();
    bad.push(configured("failed-units", "explode"));
    let err = select_variants(None, None, DEFAULT_CONFIG_PATH, bad).unwrap_err();
    assert_eq!(err.message(), "target failed-units variant explode not found");
}

#[test]
fn run_gate_holds_back_by_tier() {
    assert!(run_gate("f", "v", Tier::Safe, true, false).is_none());
    assert!(run_gate("f", "v", Tier::Risky, false, false).is_none());
    assert!(run_gate("f", "v", Tier::Risky, true, true).is_none());
    let rep = run_gate("llama-models", "prune-unpinned", Tier::Risky, true, false).unwrap();
    assert_eq!(rep.framework, "llama-models");
    assert_eq!(rep.variant, "prune-unpinned");
    assert_eq!((rep.removed, rep.freed_bytes, rep.skipped), (0, 0, 1));
    assert_eq!(rep.errors, vec!["skipped: risky, requires --force".to_string()]);
    let rep = run_gate("f", "v", Tier::ReportOnly, true, false).unwrap();
    assert_eq!(rep.errors, vec!["skipped: report-only".to_string()]);
    let rep = run_gate("f", "v", Tier::Confirm, true, false).unwrap();
    assert_eq!(rep.errors, vec!["skipped: confirm, requires --force".to_string()]);
}

#[test]
fn status_row_pads_columns() {
    let inspection = Inspection {
        framework: "uv-cache".to_string(),
        variant: "clean".to_string(),
        path: "/root/.cache/uv".to_string(),
        size_bytes: Some(1536),
        age_oldest_days: None,
        would_remove: 3,
        notes: "ok".to_string(),
    };
    let expect = format!(
        "{:<28} {:<6} {:<12} {:<10} {:<8} {}",
        "uv-cache/clean", "safe", "/root/.cache/uv", "1.5 KiB", "3", "ok"
    );
    assert_eq!(status_row(&inspection, Some(Tier::Safe)), expect);
    let bare = Inspection { size_bytes: None, would_remove: 0, ..inspection };
    let expect = format!("{:<28} {:<6} {:<12} {:<10} {:<8} {}", "uv-cache/clean", "?", "/root/.cache/uv", "-", "-", "ok");
    assert_eq!(status_row(&bare, None), expect);
}

#[test]
fn list_row_names_variants_with_tiers() {
    let f = find_framework("llama-models").unwrap();
    let expect = format!(
        "{:<28} {:<24} {}",
        "llama-models", "prune-unpinned[risky], disk-report[report-only]", "Llama-swap GGUF model cache"
    );
    assert_eq!(list_row(&f), expect);
}

#[test]
fn catalog_lookups() {
    assert_eq!(all_frameworks().len(), 28);
    assert!(find_framework("no-such").is_none());
    let v = find_variant("podman-images", "prune-inactive-older").unwrap();
    assert_eq!(v.tier, Tier::Confirm);
    assert!(find_variant("podman-images", "nope").is_none());
    assert_eq!(tier_label(Tier::ReportOnly), "report-only");
    assert_eq!(tier_priority(Tier::Safe), 0);
    assert_eq!(tier_priority(Tier::ReportOnly), 3);
}

#[test]
fn doctor_reports_missing_and_unconfigured() {
    let mut configured = Vec::new();
    for f in all_frameworks() {
        for v in &f.variants {
            if f.name != "uv-cache" {
                configured.push((f.name.clone(), v.name.clone()));
            }
        }
    }
    configured.push(("uv-cache".to_string(), "explode".to_string()));
    configured.push(("gone".to_string(), "x".to_string()));
    let (missing, extra) = doctor_report(&configured);
    assert_eq!(missing, vec!["uv-cache/explode".to_string(), "gone".to_string()]);
    assert_eq!(extra, vec!["uv-cache/clean".to_string(), "uv-cache/prune-older".to_string()]);
}

#[test]
fn run_messages_read_as_written() {
    assert_eq!(skip_message("llama-models", "prune", Tier::Risky), "Skipping llama-models/prune: risky — use --force to bypass");
    assert_eq!(skip_message("a", "b", Tier::Confirm), "Skipping a/b: confirm — use --force to bypass");
    assert_eq!(skip_message("a", "b", Tier::ReportOnly), "Skipping a/b: report-only target");
    let r = ApplyReport {
        framework: "uv-cache".to_string(),
        variant: "clean".to_string(),
        removed: 3,
        freed_bytes: 1536,
        skipped: 1,
        errors: Vec::new(),
    };
    assert_eq!(run_line(&r, true), "[APPLIED] uv-cache/clean: removed 3 items, freed 1.5 KiB, skipped 1");
    assert_eq!(run_line(&r, false), "[DRY-RUN] uv-cache/clean: removed 3 items, freed 1.5 KiB, skipped 1");
}
