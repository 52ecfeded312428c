pub mod actions;
pub mod assembly;
pub mod build_cache;
pub mod build_config_key;
pub mod build_output_kind;
pub mod bus_plugin;
pub mod bus_rpc;
pub mod cargo;
pub mod ccl;
pub mod command;
pub mod config_extra_keys;
pub mod config_file;
pub mod context;
pub mod digest;
pub mod documents;
pub mod equipment;
pub mod error;
pub mod executor;
pub mod expansion;
pub mod graph;
pub mod handling;
pub mod host;
pub mod inputs;
pub mod invocation;
pub mod labels;
pub mod load_balancer;
pub mod model;
pub mod outcomes;
pub mod packages;
pub mod path;
pub mod platform;
pub mod plugin_abi;
pub mod provision;
pub mod rainbow;
pub mod reach;
pub mod progress;
pub mod readiness;
pub mod rules;
pub mod rust_plugin;
pub mod serving;
pub mod setup;
pub mod stated;
pub mod table;
pub mod task;
pub mod text;
pub mod tool_diagnostics;
pub mod tools;
pub mod value;
pub mod wording;
pub mod workspace;
pub mod workspace_config;
