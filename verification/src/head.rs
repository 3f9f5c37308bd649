//! Retrieving the header of an article with `HEAD`.
use vstd::prelude::*;
use crate::command::{crlf, head_command};
use crate::error::NntpError;
use crate::session::{await_code, block_text, sends_then_awaits, take_string, terminator, BlockPhase, Step, TextBlock};
use crate::text::starts_with;

verus! {

/// `head`: sends `HEAD <identifier>`, expects a 221 reply, then returns the lines
/// that follow up to the terminating `.` line, each with its leading `.` undoubled,
/// concatenated.
pub struct HeadSession {
    pub phase: BlockPhase,
    pub block: TextBlock,
}

impl HeadSession {
    /// Starts the exchange.
    pub fn start(identifier: &str) -> (r: (HeadSession, Step<String>))
        ensures
            r.0.phase == BlockPhase::AwaitingReply,
            r.0.block.wf(),
            r.0.block.lines@ == Seq::<Seq<char>>::empty(),
            sends_then_awaits(r.1, "HEAD "@ + identifier@ + crlf(), seq!["221"@], 5, 3),
    {
        let s = HeadSession { phase: BlockPhase::AwaitingReply, block: TextBlock::new() };
        (s, Step::Exchange { command: head_command(identifier), read: await_code("221", 5, 3) })
    }

    /// Takes the status reply: the block follows a 221 reply, any other fails.
    pub fn on_reply(&mut self, reply: &str) -> (r: Step<String>)
        requires
            old(self).phase == BlockPhase::AwaitingReply,
        ensures
            final(self).block == old(self).block,
            "221"@.is_prefix_of(reply@) ==> final(self).phase == BlockPhase::Reading && r is NextLine,
            !"221"@.is_prefix_of(reply@) ==> final(self).phase == BlockPhase::Done && r matches Step::Finished(
                Err(NntpError::HeadFailed),
            ),
    {
        if starts_with(reply, "221") {
            self.phase = BlockPhase::Reading;
            Step::NextLine
        } else {
            self.phase = BlockPhase::Done;
            Step::Finished(Err(NntpError::HeadFailed))
        }
    }

    /// Takes a line of the block. At the terminating line the result is the text the
    /// lines received before it carry: each with its leading `.` undoubled, concatenated.
    pub fn on_line(&mut self, line: &str) -> (r: Step<String>)
        requires
            old(self).phase == BlockPhase::Reading,
            old(self).block.wf(),
        ensures
            final(self).block.wf(),
            line@ == terminator() ==> final(self).phase == BlockPhase::Done && (r matches Step::Finished(
                Ok(text),
            ) && text@ == block_text(old(self).block.lines@)),
            line@ != terminator() ==> final(self).phase == BlockPhase::Reading && r is NextLine
                && final(self).block.lines@ == old(self).block.lines@.push(line@),
    {
        if self.block.add_line(line) {
            self.phase = BlockPhase::Done;
            let text: String = take_string(&mut self.block.text);
            proof {
                self.block.lines@ = Seq::empty();
                assert(Seq::<Seq<char>>::empty().map_values(|l: Seq<char>| crate::session::unstuff(l)) =~= Seq::<Seq<char>>::empty());
            }
            Step::Finished(Ok(text))
        } else {
            Step::NextLine
        }
    }
}

} // verus!
