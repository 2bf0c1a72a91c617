//! The shape of the command line: one value of `Cli` per invocation.

use vstd::prelude::*;

verus! {

/// A parsed invocation.
#[derive(Debug)]
pub struct Cli {
    pub command: Commands,
}

/// The four command groups.
#[derive(Debug)]
#[allow(inconsistent_fields)]
pub enum Commands {
    Key { action: KeyAction },
    Host { action: HostAction },
    Config { action: ConfigAction },
    Agent { action: AgentAction },
}

/// Operations on managed key pairs.
#[derive(Debug)]
#[allow(inconsistent_fields)]
pub enum KeyAction {
    Generate { name: String, key_type: String, comment: Option<String>, passphrase: bool },
    List,
    Delete { name: String },
    Rotate { name: String },
}

/// Operations on the host inventory.
#[derive(Debug)]
#[allow(inconsistent_fields)]
pub enum HostAction {
    Add {
        name: Option<String>,
        hostname: Option<String>,
        user: Option<String>,
        key: Option<String>,
        port: Option<u16>,
        proxy_jump: Option<String>,
    },
    List { json: bool },
    Edit {
        name: String,
        hostname: Option<String>,
        user: Option<String>,
        key: Option<String>,
        port: Option<u16>,
        proxy_jump: Option<String>,
    },
    Remove { name: String, force: bool },
    Show { name: String },
}

/// Operations on the generated client configuration.
#[derive(Debug)]
pub enum ConfigAction {
    /// Render the inventory into the target file.
    Generate { dry_run: bool, output: Option<String>, no_backup: bool },
    /// Check that every referenced key exists.
    Validate,
    /// Show how the rendered block differs from the one in the target file.
    Diff,
    /// Show where the inventory file lives.
    Path,
}

/// Operations on the running key agent.
#[derive(Debug)]
#[allow(inconsistent_fields)]
pub enum AgentAction {
    Load { name: Option<String>, lifetime: Option<u64> },
    Remove { name: Option<String> },
    Clear,
    List,
    Status,
}

} // verus!
