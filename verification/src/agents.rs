//! Configuration, catalogs and launches of the coding agents that HiRoute connects to.

pub mod catalog_plan_laws;
pub mod claude_capabilities;
pub mod claude_change_laws;
pub mod claude_config;
pub mod claude_effects;
pub mod claude_files;
pub mod claude_laws;
pub mod claude_main;
pub mod claude_observation;
pub mod claude_reading_laws;
pub mod claude_scan;
pub mod claude_settings;
pub mod codex_catalog;
pub mod codex_catalog_plan;
pub mod codex_catalog_source;
pub mod codex_config;
pub mod codex_edit_laws;
pub mod codex_laws;
pub mod codex_layer_laws;
pub mod codex_layers;
pub mod codex_page_laws;
pub mod codex_reading_laws;
pub mod codex_sampling_laws;
pub mod codex_sources;
pub mod collaboration_probe;
pub mod discovery;
pub mod discovery_laws;
pub mod effect_laws;
pub mod executable;
pub mod executable_laws;
pub mod filesystem;
pub mod launch_laws;
pub mod managed_launch;
pub mod native_claude_probe;
pub mod native_probe_http;
pub mod probe_laws;
pub mod scan_laws;
