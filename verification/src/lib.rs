//! Configuration, path and portal-policy logic for agent-box: sandboxed
//! development workspaces for coding agents, and the host portal that
//! mediates what a container may ask of its host.

pub mod text;
pub mod pathname;
pub mod named_map;
pub mod cli;
pub mod config;
pub mod host;
pub mod path;
pub mod portal;
pub mod portal_client;
pub mod profiles;
pub mod repo;
pub mod wl_paste;
