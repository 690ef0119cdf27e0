//! Herdr Layout: three saved tab layouts for Herdr, planned and checked here.
//!
//! `config` reads the layout configuration, `plan` decides which Herdr operations bring the
//! workspace to a layout, `names` says when a pane runs a target or is idle, `response`
//! reads Herdr's replies, `herdr` builds the commands sent to Herdr and judges their results,
//! and `laws` states what holds of all of it together.
pub mod config;
pub mod herdr;
pub mod laws;
pub mod model;
pub mod names;
pub mod plan;
pub mod response;
pub mod search;
pub mod text;
pub mod text_map;

pub use config::{
    config_files, find_repo_override, parse_args, parse_slot, parse_yaml, read_config_text, select_layout,
    validate_config_root,
    LoadedConfig, Mode, OverrideProbe, Yaml, YamlKey,
};
pub use herdr::{should_retry_herdr_output, PluginContext};
pub use model::{Layout, LayoutTarget, Operation, PaneInfo, PaneProcess, PaneProcessInfo, Snapshot, TabInfo};
pub use names::{command_name, is_idle, is_target_running, normalize_name};
pub use plan::{plan_layout, plan_target};
pub use response::{parse_json, parse_plugin_context, Json};
pub use text_map::{LayoutMap, ProcessMap, TextMap};
