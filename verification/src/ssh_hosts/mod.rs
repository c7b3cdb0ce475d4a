//! Linux hosts that are reached by `ssh`: found in configuration files, probed for engines, and
//! attached to workspaces.
pub mod attach;
pub mod attach_laws;
pub mod call_laws;
pub mod config;
pub mod config_laws;
pub mod includes;
pub mod laws;
pub mod probe;
pub mod probe_laws;
