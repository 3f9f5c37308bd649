//! Article status with `STAT`: the message identifier of the article.
use vstd::prelude::*;
use crate::command::{crlf, stat_command};
use crate::error::NntpError;
use crate::session::{await_code, sends_then_awaits, Step};
use crate::text::{fields_spec, split_fields, starts_with};

verus! {

/// `stat`: sends `STAT <identifier>`, expects `223 <number> <message-id>` and returns
/// the message identifier, the third whitespace-separated field of the reply.
pub struct StatSession {
    pub done: bool,
}

impl StatSession {
    /// Starts the exchange.
    pub fn start(identifier: &str) -> (r: (StatSession, Step<String>))
        ensures
            !r.0.done,
            sends_then_awaits(r.1, "STAT "@ + identifier@ + crlf(), seq!["223"@], 5, 3),
    {
        (StatSession { done: false }, Step::Exchange { command: stat_command(identifier), read: await_code("223", 5, 3) })
    }

    /// Takes the reply.
    pub fn on_reply(&mut self, reply: &str) -> (r: Step<String>)
        requires
            !old(self).done,
        ensures
            final(self).done,
            !"223"@.is_prefix_of(reply@) ==> r matches Step::Finished(Err(NntpError::StatFailed)),
            "223"@.is_prefix_of(reply@) && fields_spec(reply@).len() < 3 ==> r matches Step::Finished(
                Err(NntpError::StatMalformed),
            ),
            "223"@.is_prefix_of(reply@) && fields_spec(reply@).len() >= 3 ==> (r matches Step::Finished(
                Ok(id),
            ) && id@ == fields_spec(reply@)[2]),
    {
        self.done = true;
        if !starts_with(reply, "223") {
            return Step::Finished(Err(NntpError::StatFailed));
        }
        let mut parts: Vec<String> = split_fields(reply);
        if parts.len() >= 3 {
            let id: String = parts.swap_remove(2);
            Step::Finished(Ok(id))
        } else {
            Step::Finished(Err(NntpError::StatMalformed))
        }
    }
}

} // verus!
