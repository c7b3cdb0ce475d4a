//! Past sessions, for the history sidebar.
pub mod laws;
pub mod muse;
pub mod session_laws;
