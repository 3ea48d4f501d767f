//! A gateway for MCP servers: its rules, without the I/O around them.
pub mod artifact;
pub mod call;
pub mod calls;
pub mod catalog;
pub mod catalog_laws;
pub mod clock;
pub mod config;
pub mod config_files;
pub mod control;
pub mod digest;
pub mod encoding;
pub mod gateway;
pub mod guard;
pub mod ids;
pub mod json;
pub mod name_map;
pub mod names;
pub mod order;
pub mod policy;
pub mod progress;
pub mod recovery;
pub mod reload;
pub mod reply;
pub mod request;
pub mod request_registry;
pub mod resource;
pub mod span;
pub mod start;
pub mod step_laws;
pub mod supervisor;
pub mod telemetry;
pub mod text;
