//! The error taxonomy and its human-readable messages.

use vstd::prelude::*;
use vstd::string::*;

verus! {

/// `toml::de::Error`, carried as an opaque value.
#[verifier::external_type_specification]
#[verifier::external_body]
pub struct ExTomlDeError(toml::de::Error);

/// `toml::ser::Error`, carried as an opaque value.
#[verifier::external_type_specification]
#[verifier::external_body]
pub struct ExTomlSerError(toml::ser::Error);

/// `std::io::Error`, carried as an opaque value.
#[verifier::external_type_specification]
#[verifier::external_body]
pub struct ExIoError(std::io::Error);

/// The text that `toml::de::Error` displays: the parse message with its
/// location context.
pub uninterp spec fn de_error_message(err: toml::de::Error) -> String;

/// The text that `toml::ser::Error` displays.
pub uninterp spec fn ser_error_message(err: toml::ser::Error) -> String;

/// Calls `to_string` of `toml::de::Error`, that is its `Display` impl. The
/// contract only gives the text its name: it depends on the error value
/// alone, and nothing is claimed of what it says.
#[verifier::external_body]
fn de_error_text(err: &toml::de::Error) -> (r: String)
    ensures
        r == de_error_message(*err),
{
    err.to_string()
}

/// Calls `to_string` of `toml::ser::Error`, that is its `Display` impl. The
/// contract only gives the text its name: it depends on the error value
/// alone, and nothing is claimed of what it says.
#[verifier::external_body]
fn ser_error_text(err: &toml::ser::Error) -> (r: String)
    ensures
        r == ser_error_message(*err),
{
    err.to_string()
}

/// Calls `to_string` of `std::io::Error`. The text comes from the operating
/// system, so nothing is claimed of it.
#[verifier::external_body]
fn io_error_text(err: &std::io::Error) -> (r: String)
{
    err.to_string()
}

/// Everything that can go wrong in a command.
#[derive(Debug)]
pub enum RskmError {
    KeyExists(String),
    KeyNotFound(String),
    KeygenFailed,
    HostExists(String),
    HostNotFound(String),
    ConfigNotFound(String),
    ConfigParseError(String),
    ConfigWriteError(String),
    AgentNotRunning,
    AgentOperationFailed(String),
    Io(std::io::Error),
    HomeDirectoryNotFound,
    InvalidInput(String),
}

impl RskmError {
    /// The message of each variant. For `Io` this is only the lead-in, which
    /// the operating system's own description follows.
    pub open spec fn text(self) -> Seq<char> {
        match self {
            RskmError::KeyExists(name) => "Key '"@ + name@ + "' already exists"@,
            RskmError::KeyNotFound(name) => "Key '"@ + name@ + "' not found"@,
            RskmError::KeygenFailed => "ssh-keygen failed"@,
            RskmError::HostExists(name) => "Host '"@ + name@ + "' already exists"@,
            RskmError::HostNotFound(name) => "Host '"@ + name@ + "' not found"@,
            RskmError::ConfigNotFound(path) => "Config not found: "@ + path@,
            RskmError::ConfigParseError(msg) => "Config parse error: "@ + msg@,
            RskmError::ConfigWriteError(msg) => "Failed to write config: "@ + msg@,
            RskmError::AgentNotRunning => "ssh-agent is not running"@,
            RskmError::AgentOperationFailed(msg) => "ssh-agent error: "@ + msg@,
            RskmError::Io(_) => "IO error: "@,
            RskmError::HomeDirectoryNotFound => "Could not determine home directory"@,
            RskmError::InvalidInput(msg) => "Invalid input: "@ + msg@,
        }
    }

    /// The human-readable message shown to the operator.
    pub fn message(&self) -> (r: String)
        ensures
            !(*self is Io) ==> r@ == self.text(),
            *self is Io ==> self.text().is_prefix_of(r@),
    {
        match self {
            RskmError::KeyExists(name) => quoted("Key '", name, "' already exists"),
            RskmError::KeyNotFound(name) => quoted("Key '", name, "' not found"),
            RskmError::KeygenFailed => String::from_str("ssh-keygen failed"),
            RskmError::HostExists(name) => quoted("Host '", name, "' already exists"),
            RskmError::HostNotFound(name) => quoted("Host '", name, "' not found"),
            RskmError::ConfigNotFound(path) => prefixed("Config not found: ", path),
            RskmError::ConfigParseError(msg) => prefixed("Config parse error: ", msg),
            RskmError::ConfigWriteError(msg) => prefixed("Failed to write config: ", msg),
            RskmError::AgentNotRunning => String::from_str("ssh-agent is not running"),
            RskmError::AgentOperationFailed(msg) => prefixed("ssh-agent error: ", msg),
            RskmError::Io(err) => {
                let detail = io_error_text(err);
                let r = prefixed("IO error: ", &detail);
                assert(r@.subrange(0, "IO error: "@.len() as int) =~= "IO error: "@);
                r
            },
            RskmError::HomeDirectoryNotFound => String::from_str(
                "Could not determine home directory",
            ),
            RskmError::InvalidInput(msg) => prefixed("Invalid input: ", msg),
        }
    }

    /// Whether the error wraps a failure of the operating system.
    pub fn is_io(&self) -> (r: bool)
        ensures
            r == (*self is Io),
    {
        match self {
            RskmError::Io(_) => true,
            _ => false,
        }
    }
}

/// `before`, then `middle`, then `after`.
pub fn quoted(before: &str, middle: &String, after: &str) -> (r: String)
    ensures
        r@ == before@ + middle@ + after@,
{
    String::from_str(before).concat(middle.as_str()).concat(after)
}

/// `before`, then `rest`.
pub fn prefixed(before: &str, rest: &String) -> (r: String)
    ensures
        r@ == before@ + rest@,
{
    String::from_str(before).concat(rest.as_str())
}

impl From<std::io::Error> for RskmError {
    fn from(err: std::io::Error) -> (ret: RskmError) {
        RskmError::Io(err)
    }
}

impl vstd::std_specs::convert::FromSpecImpl<std::io::Error> for RskmError {
    open spec fn obeys_from_spec() -> bool {
        true
    }

    open spec fn from_spec(v: std::io::Error) -> Self {
        RskmError::Io(v)
    }
}

impl From<toml::de::Error> for RskmError {
    fn from(err: toml::de::Error) -> (ret: RskmError) {
        RskmError::ConfigParseError(de_error_text(&err))
    }
}

impl vstd::std_specs::convert::FromSpecImpl<toml::de::Error> for RskmError {
    open spec fn obeys_from_spec() -> bool {
        true
    }

    open spec fn from_spec(v: toml::de::Error) -> Self {
        RskmError::ConfigParseError(de_error_message(v))
    }
}

impl From<toml::ser::Error> for RskmError {
    fn from(err: toml::ser::Error) -> (ret: RskmError) {
        RskmError::ConfigWriteError(ser_error_text(&err))
    }
}

impl vstd::std_specs::convert::FromSpecImpl<toml::ser::Error> for RskmError {
    open spec fn obeys_from_spec() -> bool {
        true
    }

    open spec fn from_spec(v: toml::ser::Error) -> Self {
        RskmError::ConfigWriteError(ser_error_message(v))
    }
}

} // verus!
