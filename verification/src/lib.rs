//! SSH key manager core: host inventory, key-reference validation, rendering of
//! the managed block of an SSH client configuration, and its reconciliation
//! with an existing file.

pub mod cli;
pub mod diff;
pub mod errors;
pub mod generate;
pub mod inventory;
pub mod reconcile;
pub mod render;
pub mod resolver;
pub mod text;
