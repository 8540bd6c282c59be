//! The library's error type and its messages.

use vstd::prelude::*;
use vstd::string::*;

verus! {

/// Everything that can go wrong in the core. Errors raised by the network,
/// file or JSON layers arrive here with their message text.
#[derive(Debug)]
pub enum CoreError {
    Io(String),
    Ssh(String),
    Sftp(String),
    Json(String),
    HostNotFound(String),
    SessionNotFound(String),
    TerminalNotFound(String),
    ForwardNotFound(String),
    JobNotFound(String),
    AuthFailed(String),
    Vault(String),
    MissingCredential,
    Other(String),
    /// The server presented a host key that nobody has pinned or approved.
    HostKeyUnknown { host: String, key_type: String, fingerprint: String },
    /// The server presented a key other than the pinned one.
    HostKeyMismatch { host: String, key_type: String, fingerprint: String, expected: String },
}

/// The text that `message` gives for `e`.
pub open spec fn error_message(e: CoreError) -> Seq<char> {
    match e {
        CoreError::Io(m) => "io error: "@ + m@,
        CoreError::Ssh(m) => "ssh error: "@ + m@,
        CoreError::Sftp(m) => "sftp error: "@ + m@,
        CoreError::Json(m) => "json error: "@ + m@,
        CoreError::HostNotFound(m) => "host not found: "@ + m@,
        CoreError::SessionNotFound(m) => "session not found: "@ + m@,
        CoreError::TerminalNotFound(m) => "terminal not found: "@ + m@,
        CoreError::ForwardNotFound(m) => "forward not found: "@ + m@,
        CoreError::JobNotFound(m) => "job not found: "@ + m@,
        CoreError::AuthFailed(m) => "authentication failed: "@ + m@,
        CoreError::Vault(m) => "credential vault error: "@ + m@,
        CoreError::MissingCredential => "no stored credential for host"@,
        CoreError::Other(m) => m@,
        CoreError::HostKeyUnknown { host, key_type, fingerprint } => "unknown host key for "@
            + host@ + ": "@ + key_type@ + " "@ + fingerprint@,
        CoreError::HostKeyMismatch { host, key_type, fingerprint, expected } => "host key for "@
            + host@ + " changed: "@ + key_type@ + " "@ + fingerprint@ + " (expected "@ + expected@
            + ")"@,
    }
}

/// `prefix` followed by `rest`.
pub fn prefixed(prefix: &str, rest: &str) -> (s: String)
    ensures
        s@ == prefix@ + rest@,
{
    let mut s = prefix.to_owned();
    s.append(rest);
    s
}

impl CoreError {
    /// A free-form error.
    pub fn other(msg: &str) -> (e: CoreError)
        ensures
            e matches CoreError::Other(m) && m@ == msg@,
    {
        CoreError::Other(msg.to_owned())
    }

    /// The human-readable message of this error.
    pub fn message(&self) -> (s: String)
        ensures
            s@ == error_message(*self),
    {
        match self {
            CoreError::Io(m) => prefixed("io error: ", m.as_str()),
            CoreError::Ssh(m) => prefixed("ssh error: ", m.as_str()),
            CoreError::Sftp(m) => prefixed("sftp error: ", m.as_str()),
            CoreError::Json(m) => prefixed("json error: ", m.as_str()),
            CoreError::HostNotFound(m) => prefixed("host not found: ", m.as_str()),
            CoreError::SessionNotFound(m) => prefixed("session not found: ", m.as_str()),
            CoreError::TerminalNotFound(m) => prefixed("terminal not found: ", m.as_str()),
            CoreError::ForwardNotFound(m) => prefixed("forward not found: ", m.as_str()),
            CoreError::JobNotFound(m) => prefixed("job not found: ", m.as_str()),
            CoreError::AuthFailed(m) => prefixed("authentication failed: ", m.as_str()),
            CoreError::Vault(m) => prefixed("credential vault error: ", m.as_str()),
            CoreError::MissingCredential => "no stored credential for host".to_owned(),
            CoreError::Other(m) => m.as_str().to_owned(),
            CoreError::HostKeyUnknown { host, key_type, fingerprint } => {
                let mut s = prefixed("unknown host key for ", host.as_str());
                s.append(": ");
                s.append(key_type.as_str());
                s.append(" ");
                s.append(fingerprint.as_str());
                s
            },
            CoreError::HostKeyMismatch { host, key_type, fingerprint, expected } => {
                let mut s = prefixed("host key for ", host.as_str());
                s.append(" changed: ");
                s.append(key_type.as_str());
                s.append(" ");
                s.append(fingerprint.as_str());
                s.append(" (expected ");
                s.append(expected.as_str());
                s.append(")");
                s
            },
        }
    }
}

/// The message that the UI shell shows for `e`.
pub fn err(e: CoreError) -> (s: String)
    ensures
        s@ == error_message(e),
{
    e.message()
}

} // verus!
