//! Terminal sessions. They are placeholders: opening one hands its id back,
//! and every other operation succeeds without effect.

use vstd::prelude::*;

verus! {

/// A terminal session.
pub struct TerminalSession {
    id: String,
}

impl TerminalSession {
    /// A session with this id.
    pub fn new(id: String) -> (r: TerminalSession)
        ensures
            r.id() == id@,
    {
        TerminalSession { id }
    }

    /// The session's id.
    pub closed spec fn id(&self) -> Seq<char> {
        self.id@
    }
}

/// Opens a terminal session; returns its id.
pub fn create_terminal_session(session_id: String, working_directory: Option<String>) -> (r: Result<
    String,
    String,
>)
    ensures
        r matches Ok(s) && s@ == session_id@,
{
    Ok(session_id)
}

/// Writes to a terminal session; always succeeds.
pub fn write_to_terminal(session_id: String, data: String) -> (r: Result<(), String>)
    ensures
        r is Ok,
{
    Ok(())
}

/// Closes a terminal session; always succeeds.
pub fn close_terminal_session(session_id: String) -> (r: Result<(), String>)
    ensures
        r is Ok,
{
    Ok(())
}

/// Resizes a terminal session; always succeeds.
pub fn resize_terminal(session_id: String, rows: u16, cols: u16) -> (r: Result<(), String>)
    ensures
        r is Ok,
{
    Ok(())
}

} // verus!
