//! Errors of the library.
use crate::text::{decimal_spec, push_str, string_of, u64_to_decimal};
use vstd::prelude::*;

verus! {

/// Errors that commands and the cluster layer report.
#[derive(Debug, Clone, PartialEq, Eq)]
pub enum AikvError {
    /// A malformed request.
    Protocol(String),
    /// An unknown command or subcommand.
    InvalidCommand(String),
    /// Wrong number of arguments for the named command.
    WrongArgCount(String),
    /// A malformed argument.
    InvalidArgument(String),
    /// The key does not exist.
    KeyNotFound,
    /// An operation against a value of the wrong kind.
    WrongType(String),
    /// A storage failure.
    Storage(String),
    /// A persistence failure.
    Persistence(String),
    /// A script failure.
    Script(String),
    /// An internal failure.
    Internal(String),
    /// An invalid value.
    Invalid(String),
    /// The slot is served by the node at the given address.
    Moved(u16, String),
    /// The slot is being migrated to the node at the given address.
    Ask(u16, String),
    /// The keys of a request hash to different slots.
    CrossSlot,
    /// Cluster support is not available.
    ClusterDisabled,
    /// Anything else.
    Unknown(String),
}

/// The text an error reads as.
pub open spec fn error_text(e: AikvError) -> Seq<char> {
    match e {
        AikvError::Protocol(s) => "Protocol error: "@ + s@,
        AikvError::InvalidCommand(s) => "Invalid command: "@ + s@,
        AikvError::WrongArgCount(s) => "Wrong number of arguments for '"@ + s@ + "' command"@,
        AikvError::InvalidArgument(s) => "Invalid argument: "@ + s@,
        AikvError::KeyNotFound => "Key not found"@,
        AikvError::WrongType(s) => "Wrong type: "@ + s@,
        AikvError::Storage(s) => "Storage error: "@ + s@,
        AikvError::Persistence(s) => "Persistence error: "@ + s@,
        AikvError::Script(s) => "Script error: "@ + s@,
        AikvError::Internal(s) => "Internal error: "@ + s@,
        AikvError::Invalid(s) => "Invalid: "@ + s@,
        AikvError::Moved(slot, addr) => "MOVED "@ + decimal_spec(slot as nat) + " "@ + addr@,
        AikvError::Ask(slot, addr) => "ASK "@ + decimal_spec(slot as nat) + " "@ + addr@,
        AikvError::CrossSlot => "CROSSSLOT Keys in request don't hash to the same slot"@,
        AikvError::ClusterDisabled => "Cluster support is not enabled"@,
        AikvError::Unknown(s) => "Unknown error: "@ + s@,
    }
}

/// `head` followed by `tail`.
fn joined(head: &str, tail: &str) -> (r: String)
    ensures
        r@ == head@ + tail@,
{
    let mut r = string_of(head);
    push_str(&mut r, tail);
    r
}

impl AikvError {
    /// The text the error reads as (see `error_text`).
    pub fn message(&self) -> (r: String)
        ensures
            r@ == error_text(*self),
    {
        match self {
            AikvError::Protocol(s) => joined("Protocol error: ", s.as_str()),
            AikvError::InvalidCommand(s) => joined("Invalid command: ", s.as_str()),
            AikvError::WrongArgCount(s) => {
                let mut r = joined("Wrong number of arguments for '", s.as_str());
                push_str(&mut r, "' command");
                r
            },
            AikvError::InvalidArgument(s) => joined("Invalid argument: ", s.as_str()),
            AikvError::KeyNotFound => string_of("Key not found"),
            AikvError::WrongType(s) => joined("Wrong type: ", s.as_str()),
            AikvError::Storage(s) => joined("Storage error: ", s.as_str()),
            AikvError::Persistence(s) => joined("Persistence error: ", s.as_str()),
            AikvError::Script(s) => joined("Script error: ", s.as_str()),
            AikvError::Internal(s) => joined("Internal error: ", s.as_str()),
            AikvError::Invalid(s) => joined("Invalid: ", s.as_str()),
            AikvError::Moved(slot, addr) => {
                let n = u64_to_decimal(*slot as u64);
                let mut r = joined("MOVED ", n.as_str());
                push_str(&mut r, " ");
                push_str(&mut r, addr.as_str());
                r
            },
            AikvError::Ask(slot, addr) => {
                let n = u64_to_decimal(*slot as u64);
                let mut r = joined("ASK ", n.as_str());
                push_str(&mut r, " ");
                push_str(&mut r, addr.as_str());
                r
            },
            AikvError::CrossSlot => string_of("CROSSSLOT Keys in request don't hash to the same slot"),
            AikvError::ClusterDisabled => string_of("Cluster support is not enabled"),
            AikvError::Unknown(s) => joined("Unknown error: ", s.as_str()),
        }
    }
}

} // verus!
