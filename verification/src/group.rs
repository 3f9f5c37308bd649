//! Selecting a newsgroup with `GROUP`: the reply line, trimmed, is the result.
use vstd::prelude::*;
use crate::command::{crlf, group_command};
use crate::session::{await_code, sends_then_awaits, Step};
use crate::text::{is_space, trim, trim_end_spec, trim_spec, trim_start_spec};

verus! {

/// `group`: sends `GROUP <name>`, waits for a 211 reply and returns it trimmed.
pub struct GroupSession {
    pub done: bool,
}

impl GroupSession {
    /// Starts the exchange.
    pub fn start(group_name: &str) -> (r: (GroupSession, Step<String>))
        ensures
            !r.0.done,
            sends_then_awaits(r.1, "GROUP "@ + group_name@ + crlf(), seq!["211"@], 5, 3),
    {
        (GroupSession { done: false }, Step::Exchange { command: group_command(group_name), read: await_code("211", 5, 3) })
    }

    /// Takes the reply: the result is the reply without surrounding whitespace, and
    /// it keeps the status code the reply starts with.
    pub fn on_reply(&mut self, reply: &str) -> (r: Step<String>)
        requires
            !old(self).done,
        ensures
            final(self).done,
            r matches Step::Finished(Ok(s)) && s@ == trim_spec(reply@),
            "211"@.is_prefix_of(reply@) ==> "211"@.is_prefix_of(trim_spec(reply@)),
    {
        self.done = true;
        proof {
            reveal_strlit("211");
            if "211"@.is_prefix_of(reply@) {
                lemma_trim_keeps_prefix(reply@, "211"@);
            }
        }
        Step::Finished(Ok(trim(reply)))
    }
}

/// Trimming keeps a prefix that holds no whitespace.
pub proof fn lemma_trim_keeps_prefix(s: Seq<char>, p: Seq<char>)
    requires
        p.is_prefix_of(s),
        p.len() > 0,
        forall|i: int| 0 <= i < p.len() ==> !is_space(#[trigger] p[i]),
    ensures
        p.is_prefix_of(trim_spec(s)),
{
    assert(s.len() > 0 && s[0] == p[0]);
    assert(trim_start_spec(s) == s);
    lemma_trim_end_keeps_prefix(s, p);
}

proof fn lemma_trim_end_keeps_prefix(s: Seq<char>, p: Seq<char>)
    requires
        p.is_prefix_of(s),
        p.len() > 0,
        forall|i: int| 0 <= i < p.len() ==> !is_space(#[trigger] p[i]),
    ensures
        p.is_prefix_of(trim_end_spec(s)),
    decreases s.len(),
{
    if s.len() > 0 && is_space(s.last()) {
        assert(s.len() > p.len()) by {
            if s.len() == p.len() {
                assert(s.last() == p[p.len() - 1]);
            }
        }
        assert(p.is_prefix_of(s.drop_last())) by {
            assert forall|i: int| 0 <= i < p.len() implies p[i] == s.drop_last()[i] by {
                assert(p[i] == s[i]);
            }
        }
        lemma_trim_end_keeps_prefix(s.drop_last(), p);
    }
}

} // verus!
