//! Helpers that read a kubeconfig.
pub mod config;
