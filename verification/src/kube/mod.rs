//! What is decided about the cluster's kinds before and while they are
//! watched.
pub mod watcher;
