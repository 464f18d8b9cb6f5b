//! What holds of the agent beyond single calls.

pub mod address;
pub mod commands;
pub mod conf;
pub mod config;
pub mod jobs;
pub mod networks;
pub mod peers;
pub mod registry;
pub mod reply;
pub mod requests;
pub mod rerun;
pub mod sections;
pub mod settings;
pub mod steps;
pub mod sync;
pub mod text;
pub mod tunnel;
pub mod words;
