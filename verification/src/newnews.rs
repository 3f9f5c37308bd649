//! Articles posted since a date, with `NEWNEWS`.
use vstd::prelude::*;
use crate::command::{crlf, newnews_command};
use crate::error::NntpError;
use crate::session::{await_code, is_terminator, sends_then_awaits, take_vec, terminator, unstuff, unstuff_line, BlockPhase, Step};
use crate::text::{is_space, lemma_trim_of_clean, starts_with, trim, trim_end_spec, trim_spec, trim_start_spec};
use crate::utils::views_of;

verus! {

/// `newnews`: sends `NEWNEWS <date> <time> [<distribution>]`, expects a 230 reply
/// (waiting longer than other commands), then reads lines up to the terminating `.`
/// line, collecting each line that is not empty once undoubled and trimmed as a
/// message identifier.
pub struct NewnewsSession {
    pub phase: BlockPhase,
    pub ids: Vec<String>,
    /// The lines of the list received so far.
    pub lines: Ghost<Seq<Seq<char>>>,
}

/// The identifiers a `NEWNEWS` list made of `lines` (the terminating line not among
/// them) names: each line with its leading `.` undoubled and trimmed, in order,
/// leaving out lines that are then empty.
pub open spec fn message_ids(lines: Seq<Seq<char>>) -> Seq<Seq<char>>
    decreases lines.len(),
{
    if lines.len() == 0 {
        Seq::empty()
    } else {
        let id = trim_spec(unstuff(lines.last()));
        if id.len() > 0 {
            message_ids(lines.drop_last()).push(id)
        } else {
            message_ids(lines.drop_last())
        }
    }
}

/// Every collected identifier is non-empty and has no surrounding whitespace.
pub open spec fn clean_ids(ids: Seq<Seq<char>>) -> bool {
    forall|k: int|
        0 <= k < ids.len() ==> (#[trigger] ids[k]).len() > 0 && !is_space(ids[k][0]) && !is_space(
            ids[k].last(),
        )
}

impl NewnewsSession {
    /// The identifiers collected are those the lines received name, and clean.
    pub open spec fn wf(&self) -> bool {
        &&& views_of(self.ids@) == message_ids(self.lines@)
        &&& clean_ids(views_of(self.ids@))
    }

    /// Starts the exchange.
    pub fn start(date: &str, time: &str, distribution: Option<&str>) -> (r: (NewnewsSession, Step<Vec<String>>))
        ensures
            r.0.phase == BlockPhase::AwaitingReply,
            r.0.wf(),
            r.0.lines@ == Seq::<Seq<char>>::empty(),
            sends_then_awaits(
                r.1,
                match distribution {
                    Some(d) => "NEWNEWS "@ + date@ + " "@ + time@ + " "@ + d@ + crlf(),
                    None => "NEWNEWS "@ + date@ + " "@ + time@ + crlf(),
                },
                seq!["230"@],
                10,
                5,
            ),
    {
        let command: String = newnews_command(date, time, distribution);
        let s = NewnewsSession { phase: BlockPhase::AwaitingReply, ids: Vec::new(), lines: Ghost(Seq::empty()) };
        assert(views_of(s.ids@) =~= Seq::<Seq<char>>::empty());
        (s, Step::Exchange { command, read: await_code("230", 10, 5) })
    }

    /// Takes the status reply: the identifiers follow a 230 reply, any other fails.
    pub fn on_reply(&mut self, reply: &str) -> (r: Step<Vec<String>>)
        requires
            old(self).phase == BlockPhase::AwaitingReply,
        ensures
            final(self).ids@ == old(self).ids@,
            final(self).lines@ == old(self).lines@,
            "230"@.is_prefix_of(reply@) ==> final(self).phase == BlockPhase::Reading && r is NextLine,
            !"230"@.is_prefix_of(reply@) ==> final(self).phase == BlockPhase::Done && r matches Step::Finished(
                Err(NntpError::NewnewsFailed),
            ),
    {
        if starts_with(reply, "230") {
            self.phase = BlockPhase::Reading;
            Step::NextLine
        } else {
            self.phase = BlockPhase::Done;
            Step::Finished(Err(NntpError::NewnewsFailed))
        }
    }

    /// Takes a line of the list. At the terminating line the result is the list of
    /// identifiers that the lines received before it name.
    pub fn on_line(&mut self, line: &str) -> (r: Step<Vec<String>>)
        requires
            old(self).phase == BlockPhase::Reading,
            old(self).wf(),
        ensures
            final(self).wf(),
            line@ == terminator() ==> {
                &&& final(self).phase == BlockPhase::Done
                &&& r matches Step::Finished(Ok(ids))
                &&& views_of(ids@) == message_ids(old(self).lines@)
                &&& clean_ids(views_of(ids@))
            },
            line@ != terminator() ==> {
                &&& final(self).phase == BlockPhase::Reading
                &&& r is NextLine
                &&& final(self).lines@ == old(self).lines@.push(line@)
            },
    {
        if is_terminator(line) {
            self.phase = BlockPhase::Done;
            let ids: Vec<String> = take_vec(&mut self.ids);
            proof {
                self.lines@ = Seq::empty();
            }
            assert(views_of(self.ids@) =~= Seq::<Seq<char>>::empty());
            return Step::Finished(Ok(ids));
        }
        let kept: String = unstuff_line(line);
        let id: String = trim(kept.as_str());
        let ghost lines2 = self.lines@.push(line@);
        assert(lines2.drop_last() =~= self.lines@);
        if id.as_str().is_empty() {
            proof {
                self.lines@ = lines2;
            }
            return Step::NextLine;
        }
        proof {
            lemma_trim_is_clean(kept@);
        }
        self.ids.push(id);
        assert(views_of(self.ids@) =~= views_of(old(self).ids@).push(trim_spec(unstuff(line@))));
        proof {
            self.lines@ = lines2;
        }
        Step::NextLine
    }
}

proof fn lemma_trim_start_clean(s: Seq<char>)
    ensures
        trim_start_spec(s).len() > 0 ==> !is_space(trim_start_spec(s)[0]),
        trim_start_spec(s).len() <= s.len(),
    decreases s.len(),
{
    if s.len() > 0 && is_space(s[0]) {
        lemma_trim_start_clean(s.drop_first());
    }
}

proof fn lemma_trim_end_clean(s: Seq<char>)
    ensures
        trim_end_spec(s).len() > 0 ==> !is_space(trim_end_spec(s).last()),
        trim_end_spec(s).len() > 0 ==> trim_end_spec(s)[0] == s[0],
        trim_end_spec(s).len() <= s.len(),
    decreases s.len(),
{
    if s.len() > 0 && is_space(s.last()) {
        lemma_trim_end_clean(s.drop_last());
    }
}

/// A trimmed text that is not empty neither starts nor ends with whitespace.
pub proof fn lemma_trim_is_clean(s: Seq<char>)
    ensures
        trim_spec(s).len() > 0 ==> !is_space(trim_spec(s)[0]) && !is_space(trim_spec(s).last()),
{
    lemma_trim_start_clean(s);
    lemma_trim_end_clean(trim_start_spec(s));
}


/// Each line received names at most one identifier, and adding a line keeps every
/// identifier named before it: appending a line whose undoubled, trimmed text is not
/// empty appends that text to the identifiers, and appending any other line leaves
/// them unchanged.
pub proof fn lemma_message_ids_push(lines: Seq<Seq<char>>, line: Seq<char>)
    ensures
        trim_spec(unstuff(line)).len() > 0 ==> message_ids(lines.push(line)) == message_ids(lines).push(
            trim_spec(unstuff(line)),
        ),
        trim_spec(unstuff(line)).len() == 0 ==> message_ids(lines.push(line)) == message_ids(lines),
{
    assert(lines.push(line).drop_last() =~= lines);
}

/// The identifiers of a list are its lines, undoubled and trimmed, with the empty
/// ones left out, in the order received; so there are as many identifiers as lines
/// that are not empty once undoubled and trimmed.
pub proof fn lemma_message_ids_are_the_named_lines(lines: Seq<Seq<char>>)
    ensures
        message_ids(lines) == lines.map_values(|l: Seq<char>| trim_spec(unstuff(l))).filter(
            |t: Seq<char>| t.len() > 0,
        ),
        message_ids(lines).len() == lines.filter(|l: Seq<char>| trim_spec(unstuff(l)).len() > 0).len(),
    decreases lines.len(),
{
    let named = |t: Seq<char>| t.len() > 0;
    let id_of = |l: Seq<char>| trim_spec(unstuff(l));
    let names_one = |l: Seq<char>| trim_spec(unstuff(l)).len() > 0;
    if lines.len() == 0 {
        reveal(Seq::filter);
        assert(lines.map_values(id_of) =~= Seq::<Seq<char>>::empty());
    } else {
        let rest = lines.drop_last();
        let last = lines.last();
        lemma_message_ids_are_the_named_lines(rest);
        assert(rest.push(last) =~= lines);
        assert(lines.map_values(id_of) =~= rest.map_values(id_of).push(id_of(last)));
        rest.map_values(id_of).lemma_filter_push(id_of(last), named);
        rest.lemma_filter_push(last, names_one);
        lemma_message_ids_push(rest, last);
    }
}


/// Trimming twice is trimming once.
pub proof fn lemma_trim_idempotent(s: Seq<char>)
    ensures
        trim_spec(trim_spec(s)) == trim_spec(s),
{
    lemma_trim_is_clean(s);
    let t = trim_spec(s);
    if t.len() > 0 {
        lemma_trim_of_clean(t);
    } else {
        assert(trim_start_spec(t) == t);
        assert(trim_end_spec(t) == t);
    }
}

} // verus!
