//! What can go wrong, and how it is told to the operator.
use vstd::prelude::*;
use vstd::string::*;

verus! {

/// A failed operation of the agent.
#[derive(Debug, PartialEq, Eq)]
pub enum AgentError {
    /// The TCP session could not be opened.
    Connect,
    /// The handshake went through, but the server did not confirm the
    /// credentials. `response` is what it sent instead, byte for byte.
    Auth { response: Vec<u8> },
    /// Reading from or writing to an open session failed.
    Transport { detail: String },
    /// A metric could not be sampled.
    Metric { detail: String },
}

impl AgentError {
    /// The text of [`AgentError::message`].
    pub open spec fn message_text(self) -> Seq<char> {
        match self {
            AgentError::Connect => "Failed to connect to server"@,
            AgentError::Auth { response } => "Authentication failed"@,
            AgentError::Transport { detail } => detail@,
            AgentError::Metric { detail } => detail@,
        }
    }

    /// The error in words, for the operator.
    pub fn message(&self) -> (text: String)
        ensures
            text@ == self.message_text(),
    {
        match self {
            AgentError::Connect => "Failed to connect to server".to_owned(),
            AgentError::Auth { response } => "Authentication failed".to_owned(),
            AgentError::Transport { detail } => detail.clone(),
            AgentError::Metric { detail } => detail.clone(),
        }
    }

    /// What the server answered, where the error is a refused handshake.
    pub fn raw_response(&self) -> (response: Option<&Vec<u8>>)
        ensures
            match self {
                AgentError::Auth { response: raw } => response == Some(raw),
                _ => response is None,
            },
    {
        match self {
            AgentError::Auth { response } => Some(response),
            _ => None,
        }
    }
}

} // verus!
