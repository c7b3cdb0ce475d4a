//! Engine sessions on remote hosts: how a local engine command becomes one that `ssh` runs on a
//! host, how its output is read, and how hosts are found, probed and attached.

pub mod engine;
pub mod history;
pub mod ids;
pub mod json;
pub mod laws;
pub mod number;
pub mod order;
pub mod paths;
pub mod shell;
pub mod split;
pub mod ssh_hosts;
pub mod table;
pub mod text;
