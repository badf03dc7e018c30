//! Parsing and rule logic for a PipeWire control service.
pub mod text;
pub mod util;
pub mod pwcli;
pub mod pwlink;
pub mod wpctl;
pub mod linker;
pub mod config;
pub mod param_rules;
pub mod settings;
pub mod speakereq;
pub mod api_types;
pub mod graph;
pub mod link_scheduler;
pub mod links;
pub mod volume;
pub mod link_manager_cli;
pub mod default_link_rules;
pub mod api_server;
pub mod riaa;
