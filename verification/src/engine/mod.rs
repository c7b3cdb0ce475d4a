//! Engines: the command-line tools that a session runs, here and on remote hosts.
pub mod call_laws;
pub mod command;
pub mod laws;
pub mod muse;
pub mod output_laws;
pub mod remote_run;
pub mod script;
pub mod transport_laws;
pub mod turn_laws;
pub mod wsl_transport;
