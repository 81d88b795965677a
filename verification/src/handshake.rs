//! The handshake that opens a session.
//!
//! The server speaks first, if it speaks at all. A greeting that holds the
//! words `Authentication required` is answered with one line, the user name,
//! a colon, the password and a newline, and then the server's next chunk must
//! hold `Authentication successful`. Any other greeting means that the
//! session is open as it is. Both markers are looked for as runs of bytes
//! anywhere in the chunk; nothing else of the chunk is read.
//!
//! The caller reads each chunk with a limit on its size and on the time it
//! waits. A server that sends nothing in that time has sent the empty chunk:
//! as a greeting it asks for nothing, and as a verdict it confirms nothing.
use crate::error::AgentError;
use crate::text::{contains, contains_bytes};
use vstd::prelude::*;
use vstd::string::*;
use vstd::utf8::encode_utf8;

verus! {

/// The words by which the server asks for credentials.
pub const AUTH_REQUIRED: &'static str = "Authentication required";

/// The words by which the server confirms them.
pub const AUTH_SUCCESSFUL: &'static str = "Authentication successful";

/// The most that is read of the server's greeting or verdict, in bytes.
pub const CHUNK_SIZE: usize = 1024;

/// Seconds for which the caller waits for the server's greeting or verdict.
pub const READ_TIMEOUT_SECS: u64 = 2;

/// The user name and password that the agent presents. They are set once and
/// presented again at every reconnect.
#[derive(Debug, PartialEq, Eq)]
pub struct Credentials {
    pub username: String,
    pub password: String,
}

impl Credentials {
    /// The line that presents the credentials: `<username>:<password>` and a
    /// newline, in UTF-8.
    pub open spec fn line_text(self) -> Seq<u8> {
        encode_utf8(self.username@) + seq![0x3au8] + encode_utf8(self.password@) + seq![0x0au8]
    }

    pub fn new(username: String, password: String) -> (credentials: Credentials)
        ensures
            credentials.username == username,
            credentials.password == password,
    {
        Credentials { username, password }
    }

    /// The line that presents the credentials.
    pub fn line(&self) -> (line: Vec<u8>)
        ensures
            line@ == self.line_text(),
    {
        let mut line: Vec<u8> = Vec::new();
        line.extend_from_slice(self.username.as_str().as_bytes());
        line.push(0x3a);
        line.extend_from_slice(self.password.as_str().as_bytes());
        line.push(0x0a);
        assert(line@ =~= self.line_text());
        line
    }
}

/// The greeting asks for credentials.
pub open spec fn asks_for_credentials(greeting: Seq<u8>) -> bool {
    contains(greeting, AUTH_REQUIRED.spec_bytes())
}

/// The response confirms the credentials.
pub open spec fn confirms(response: Seq<u8>) -> bool {
    contains(response, AUTH_SUCCESSFUL.spec_bytes())
}

/// What the agent writes in a handshake that the server opens with
/// `greeting`.
pub open spec fn handshake_writes(credentials: Credentials, greeting: Seq<u8>) -> Seq<u8> {
    if asks_for_credentials(greeting) {
        credentials.line_text()
    } else {
        Seq::empty()
    }
}

/// How a handshake ends in which the server opens with `greeting` and, if it
/// is sent credentials, answers with `response`: well, or with the response
/// that refused them.
pub open spec fn handshake_result(greeting: Seq<u8>, response: Seq<u8>) -> Result<(), Seq<u8>> {
    if !asks_for_credentials(greeting) || confirms(response) {
        Ok(())
    } else {
        Err(response)
    }
}

/// Reads the server's greeting. `None` means that the session is open and
/// nothing is to be written; `Some` holds the line to write before the
/// verdict is read.
pub fn on_greeting(credentials: &Credentials, greeting: &[u8]) -> (reply: Option<Vec<u8>>)
    ensures
        reply is Some <==> asks_for_credentials(greeting@),
        match reply {
            Some(line) => line@ == handshake_writes(*credentials, greeting@),
            None => handshake_writes(*credentials, greeting@) == Seq::<u8>::empty()
                && forall|response: Seq<u8>| handshake_result(greeting@, response) is Ok,
        },
{
    if contains_bytes(greeting, AUTH_REQUIRED.as_bytes()) {
        Some(credentials.line())
    } else {
        None
    }
}

/// Reads the server's verdict on the credentials it was sent. A verdict
/// without the confirming words fails the handshake, and the error keeps the
/// whole of it.
pub fn on_verdict(response: &[u8]) -> (verdict: Result<(), AgentError>)
    ensures
        verdict is Ok <==> confirms(response@),
        verdict matches Err(error) ==> (error matches AgentError::Auth { response: kept }
            && kept@ == response@),
{
    if contains_bytes(response, AUTH_SUCCESSFUL.as_bytes()) {
        Ok(())
    } else {
        let mut kept: Vec<u8> = Vec::new();
        kept.extend_from_slice(response);
        assert(kept@ =~= response@);
        Err(AgentError::Auth { response: kept })
    }
}

/// A server that never asks for credentials gets none: whatever else its
/// greeting holds, the handshake succeeds and not a byte is written.
pub proof fn lemma_unasked_handshake_writes_nothing(
    credentials: Credentials,
    greeting: Seq<u8>,
    response: Seq<u8>,
)
    requires
        !asks_for_credentials(greeting),
    ensures
        handshake_writes(credentials, greeting) == Seq::<u8>::empty(),
        handshake_result(greeting, response) is Ok,
{
}

/// Where the server asks for credentials and then answers without the
/// confirming words, the handshake fails after the one line was written, and
/// the failure holds the answer byte for byte.
pub proof fn lemma_refusal_keeps_the_response(
    credentials: Credentials,
    greeting: Seq<u8>,
    response: Seq<u8>,
)
    requires
        asks_for_credentials(greeting),
        !confirms(response),
    ensures
        handshake_writes(credentials, greeting) == credentials.line_text(),
        handshake_result(greeting, response) == Err::<(), Seq<u8>>(response),
{
}

} // verus!
