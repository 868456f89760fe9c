//! The logic of ipFlip, a manager of static IPv4 profiles for network interfaces.

pub mod adapters;
pub mod command;
pub mod control;
pub mod effects;
pub mod ipv4;
pub mod json;
pub mod laws;
pub mod netsh;
pub mod order;
pub mod profile;
pub mod settings;
pub mod state;
pub mod table;
pub mod text;
pub mod window;
