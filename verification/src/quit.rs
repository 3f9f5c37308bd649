//! Ending a session with `QUIT`.
use vstd::prelude::*;
use crate::command::{crlf, quit_command};
use crate::error::NntpError;
use crate::session::{await_code, sends_then_awaits, Step};
use crate::text::starts_with;

verus! {

/// `quit`: sends `QUIT` and expects a 205 reply.
pub struct QuitSession {
    pub done: bool,
}

impl QuitSession {
    /// Starts the exchange.
    pub fn start() -> (r: (QuitSession, Step<()>))
        ensures
            !r.0.done,
            sends_then_awaits(r.1, "QUIT"@ + crlf(), seq!["205"@], 5, 3),
    {
        (QuitSession { done: false }, Step::Exchange { command: quit_command(), read: await_code("205", 5, 3) })
    }

    /// Takes the reply: the session ends cleanly exactly when it starts with 205.
    pub fn on_reply(&mut self, reply: &str) -> (r: Step<()>)
        requires
            !old(self).done,
        ensures
            final(self).done,
            "205"@.is_prefix_of(reply@) ==> r matches Step::Finished(Ok(())),
            !"205"@.is_prefix_of(reply@) ==> r matches Step::Finished(Err(NntpError::QuitFailed)),
    {
        self.done = true;
        if starts_with(reply, "205") {
            Step::Finished(Ok(()))
        } else {
            Step::Finished(Err(NntpError::QuitFailed))
        }
    }
}

} // verus!
