//! The host's declared cleanup targets (`targets.json`): which variants are
//! configured, each with its settings document.
use vstd::prelude::*;

verus! {

/// The JSON value type of `serde_json`, carried through unread.
#[verifier::external_type_specification]
#[verifier::external_body]
pub struct ExJsonValue(serde_json::Value);

/// Where the host's declared targets live by default.
pub const DEFAULT_CONFIG_PATH: &'static str = "/etc/doty/targets.json";

/// One configured target: framework name, variant name and its settings.
#[derive(Debug)]
pub struct ConfiguredTarget {
    pub name: String,
    pub variant: String,
    pub settings: serde_json::Value,
}

} // verus!
