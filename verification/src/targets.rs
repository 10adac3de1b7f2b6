//! The decisions of individual cleanup targets: what their settings mean,
//! what they would remove, and how they report it. Running commands and
//! touching the filesystem is left to the caller.
pub mod canix_preflight_cache;
pub mod cgroup_reset;
pub mod failed_units;
pub mod llama_models;
pub mod opencode_cache;
pub mod opencode_scratch;
pub mod podman_images;
pub mod report;
pub mod tmp_stale;
pub mod steampipe_state;
pub mod chessbender_state;
pub mod journald_vacuum;
pub mod pink_raven_workers;
pub mod build_memory_logs;
pub mod canix_rebuild_logs;
pub mod system_state;
pub mod user_state;
