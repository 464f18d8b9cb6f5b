//! vpnyellod: the logic of an agent that turns a Linux box into a WireGuard server
//! and keeps its peers in step with a registry.

pub mod text;
pub mod number;
pub mod reply;
pub mod address;
pub mod conf;
pub mod config;
pub mod world;
pub mod registry;
pub mod tunnel;
pub mod peers;
pub mod sync;
pub mod system;
pub mod daemon;
pub mod off;
pub mod status;
pub mod on;
pub mod agent;
pub mod laws;
