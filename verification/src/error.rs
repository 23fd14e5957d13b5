//! The library's error type. Failures that come from the outside world (the
//! database driver, the file system) carry their message as text.

use vstd::prelude::*;

verus! {

/// Every failure mode the core surfaces.
#[derive(Debug, Clone, PartialEq, Eq)]
pub enum CoreError {
    /// A configuration or request error, with the reason.
    Config(String),
    /// A stored row is malformed or a record is missing.
    Db(String),
    TelemetryUnavailable(String),
    Runtime { runtime: String, message: String },
    InvalidJobTransition { from: String, to: String },
    SchedulerBlocked(String),
    Sidecar(String),
    /// An I/O failure, as its message.
    Io(String),
    /// Anything else, as its message.
    Other(String),
}

impl CoreError {
    /// The message of a `Config` error, else `None`.
    pub open spec fn config_message(&self) -> Option<Seq<char>> {
        match self {
            CoreError::Config(m) => Some(m@),
            _ => None,
        }
    }

    /// The message of a `Db` error, else `None`.
    pub open spec fn db_message(&self) -> Option<Seq<char>> {
        match self {
            CoreError::Db(m) => Some(m@),
            _ => None,
        }
    }
}


/// What a [`CoreError`] reads as.
pub open spec fn error_text(e: CoreError) -> Seq<char> {
    match e {
        CoreError::Config(m) => "configuration error: "@ + m@,
        CoreError::Db(m) => "database error: "@ + m@,
        CoreError::TelemetryUnavailable(m) => "telemetry unavailable: "@ + m@,
        CoreError::Runtime { runtime, message } => "runtime error ["@ + runtime@ + "]: "@ + message@,
        CoreError::InvalidJobTransition { from, to } => "invalid job transition: "@ + from@ + " -> "@ + to@,
        CoreError::SchedulerBlocked(m) => "scheduler blocked: "@ + m@,
        CoreError::Sidecar(m) => "sidecar error: "@ + m@,
        CoreError::Io(m) => "i/o error: "@ + m@,
        CoreError::Other(m) => m@,
    }
}

fn prefixed(prefix: &str, m: &String) -> (r: String)
    ensures
        r@ == prefix@ + m@,
{
    let mut s = String::from_str(prefix);
    s.append(m.as_str());
    s
}

impl CoreError {
    /// The error as text, the way it is shown to people.
    pub fn to_text(&self) -> (r: String)
        ensures
            r@ == error_text(*self),
    {
        match self {
            CoreError::Config(m) => prefixed("configuration error: ", m),
            CoreError::Db(m) => prefixed("database error: ", m),
            CoreError::TelemetryUnavailable(m) => prefixed("telemetry unavailable: ", m),
            CoreError::Runtime { runtime, message } => {
                let mut s = prefixed("runtime error [", runtime);
                s.append("]: ");
                s.append(message.as_str());
                s
            },
            CoreError::InvalidJobTransition { from, to } => {
                let mut s = prefixed("invalid job transition: ", from);
                s.append(" -> ");
                s.append(to.as_str());
                s
            },
            CoreError::SchedulerBlocked(m) => prefixed("scheduler blocked: ", m),
            CoreError::Sidecar(m) => prefixed("sidecar error: ", m),
            CoreError::Io(m) => prefixed("i/o error: ", m),
            CoreError::Other(m) => m.clone(),
        }
    }
}

} // verus!
