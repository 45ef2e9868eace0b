//! What the user interface asks for, and what it is told when that cannot be
//! done.

use vstd::prelude::*;
use vstd::string::*;

verus! {

/// Why a command could not be carried out.
#[derive(Debug, Clone, Copy, PartialEq, Eq, Structural)]
pub enum CommandError {
    /// Nobody can be waited for before hosting has started.
    NotHosting,
    /// There is nothing to watch before a session was joined.
    NotJoined,
    /// The session ended before any video arrived.
    NoVideo,
}

/// What the user is told of an error.
pub open spec fn error_text(error: CommandError) -> Seq<char> {
    match error {
        CommandError::NotHosting =>
            "no hosting session in progress — call start_hosting_session first"@,
        CommandError::NotJoined => "no active session — call join_signaling_session first"@,
        CommandError::NoVideo => "connection closed before a video track arrived"@,
    }
}

impl CommandError {
    /// Says in words what went wrong.
    pub fn describe(&self) -> (text: String)
        ensures
            text@ == error_text(*self),
    {
        match self {
            CommandError::NotHosting =>
                "no hosting session in progress — call start_hosting_session first".to_owned(),
            CommandError::NotJoined =>
                "no active session — call join_signaling_session first".to_owned(),
            CommandError::NoVideo => "connection closed before a video track arrived".to_owned(),
        }
    }
}

/// The user is told what to do first, or that the other side was too quick to
/// go.
pub proof fn law_the_user_is_told_what_is_missing()
    ensures
        error_text(CommandError::NotHosting)
            == "no hosting session in progress — call start_hosting_session first"@,
        error_text(CommandError::NotJoined)
            == "no active session — call join_signaling_session first"@,
        error_text(CommandError::NoVideo) == "connection closed before a video track arrived"@,
{
}

/// Takes the hosting session that was started, so that it can wait for a
/// peer. It can be taken once.
pub fn take_hosting<H>(hosting: &mut Option<H>) -> (r: Result<H, CommandError>)
    ensures
        *final(hosting) is None,
        match r {
            Ok(session) => *old(hosting) == Some(session),
            Err(e) => *old(hosting) is None && e == CommandError::NotHosting,
        },
{
    match hosting.take() {
        Some(session) => Ok(session),
        None => Err(CommandError::NotHosting),
    }
}

/// The session to watch: the one that was joined.
pub fn joined<S>(active: Option<S>) -> (r: Result<S, CommandError>)
    ensures
        match r {
            Ok(session) => active == Some(session),
            Err(e) => active is None && e == CommandError::NotJoined,
        },
{
    match active {
        Some(session) => Ok(session),
        None => Err(CommandError::NotJoined),
    }
}

/// The video track to watch: the first that arrived.
pub fn arrived<T>(track: Option<T>) -> (r: Result<T, CommandError>)
    ensures
        match r {
            Ok(t) => track == Some(t),
            Err(e) => track is None && e == CommandError::NoVideo,
        },
{
    match track {
        Some(t) => Ok(t),
        None => Err(CommandError::NoVideo),
    }
}

/// Greets somebody by name.
pub fn greet(name: &str) -> (greeting: String)
    ensures
        greeting@ == "Hello, "@ + name@ + "! You've been greeted from Rust!"@,
{
    "Hello, ".to_owned().concat(name).concat("! You've been greeted from Rust!")
}

} // verus!
