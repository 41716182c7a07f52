//! Language-server side of the bridge.

pub mod auto_install;
pub mod bridge;
pub mod in_progress_set;
