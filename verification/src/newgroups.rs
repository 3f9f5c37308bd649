//! Newsgroups created since a date, with `NEWGROUPS`.
use vstd::prelude::*;
use crate::command::{crlf, newgroups_command};
use crate::error::NntpError;
use crate::session::{await_code, is_terminator, sends_then_awaits, take_vec, terminator, unstuff, unstuff_line, BlockPhase, Step};
use crate::text::{
    decimal_spec, fields_spec, is_word, lemma_decimal_is_word, lemma_fields_of_word, lemma_fields_of_word_then,
    lemma_trim_of_clean, lemma_u32_or_zero_reads_decimal, parse_u32_or_zero, split_fields, starts_with, trim,
    trim_spec, u32_or_zero,
};

verus! {

/// A newly created newsgroup as `NEWGROUPS` describes it.
#[derive(Debug)]
pub struct Newsgroup {
    pub name: String,
    pub high: u32,
    pub low: u32,
    pub status: String,
}

impl Newsgroup {
    /// The name, the highest and lowest article numbers, and the status.
    pub open spec fn model(&self) -> (Seq<char>, nat, nat, Seq<char>) {
        (self.name@, self.high as nat, self.low as nat, self.status@)
    }
}

/// The newsgroup a `NEWGROUPS` line describes: the trimmed line needs at least four
/// whitespace-separated fields, the name, the highest number, the lowest number and
/// the status.
pub open spec fn newgroups_entry_spec(line: Seq<char>) -> Option<(Seq<char>, nat, nat, Seq<char>)> {
    let f = fields_spec(trim_spec(line));
    if f.len() < 4 {
        None
    } else {
        Some((f[0], u32_or_zero(f[1]), u32_or_zero(f[2]), f[3]))
    }
}

/// Reads one line of a `NEWGROUPS` reply.
pub fn parse_newgroups_line(line: &str) -> (r: Option<Newsgroup>)
    ensures
        match r {
            None => newgroups_entry_spec(line@) is None,
            Some(g) => newgroups_entry_spec(line@) == Some(g.model()),
        },
{
    let trimmed: String = trim(line);
    let parts: Vec<String> = split_fields(trimmed.as_str());
    if parts.len() >= 4 {
        assert(parts@[0]@ == fields_spec(trimmed@)[0]);
        assert(parts@[1]@ == fields_spec(trimmed@)[1]);
        assert(parts@[2]@ == fields_spec(trimmed@)[2]);
        assert(parts@[3]@ == fields_spec(trimmed@)[3]);
        let high: u32 = parse_u32_or_zero(parts[1].as_str());
        let low: u32 = parse_u32_or_zero(parts[2].as_str());
        Some(Newsgroup { name: parts[0].clone(), high, low, status: parts[3].clone() })
    } else {
        None
    }
}

/// The newsgroups a `NEWGROUPS` list made of `lines` (the terminating line not among
/// them) describes: one per line that, with its leading `.` undoubled, describes one,
/// in order.
pub open spec fn newgroups_listing(lines: Seq<Seq<char>>) -> Seq<(Seq<char>, nat, nat, Seq<char>)>
    decreases lines.len(),
{
    if lines.len() == 0 {
        Seq::empty()
    } else {
        match newgroups_entry_spec(unstuff(lines.last())) {
            Some(m) => newgroups_listing(lines.drop_last()).push(m),
            None => newgroups_listing(lines.drop_last()),
        }
    }
}

/// The descriptions of `groups`.
pub open spec fn models_of(groups: Seq<Newsgroup>) -> Seq<(Seq<char>, nat, nat, Seq<char>)> {
    groups.map_values(|g: Newsgroup| g.model())
}

/// `newgroups`: sends `NEWGROUPS <date> <time> [<distribution>]`, expects a 231 reply,
/// then reads lines up to the terminating `.` line, collecting one newsgroup per
/// line with at least four fields.
pub struct NewgroupsSession {
    pub phase: BlockPhase,
    pub groups: Vec<Newsgroup>,
    /// The lines of the list received so far.
    pub lines: Ghost<Seq<Seq<char>>>,
}

impl NewgroupsSession {
    /// The newsgroups collected are those the lines received describe.
    pub open spec fn wf(&self) -> bool {
        models_of(self.groups@) == newgroups_listing(self.lines@)
    }

    /// Starts the exchange.
    pub fn start(date: &str, time: &str, distribution: Option<&str>) -> (r: (NewgroupsSession, Step<Vec<Newsgroup>>))
        ensures
            r.0.phase == BlockPhase::AwaitingReply,
            r.0.wf(),
            r.0.lines@ == Seq::<Seq<char>>::empty(),
            sends_then_awaits(
                r.1,
                match distribution {
                    Some(d) => "NEWGROUPS "@ + date@ + " "@ + time@ + " "@ + d@ + crlf(),
                    None => "NEWGROUPS "@ + date@ + " "@ + time@ + crlf(),
                },
                seq!["231"@],
                5,
                3,
            ),
    {
        let command: String = newgroups_command(date, time, distribution);
        let s = NewgroupsSession { phase: BlockPhase::AwaitingReply, groups: Vec::new(), lines: Ghost(Seq::empty()) };
        assert(models_of(s.groups@) =~= Seq::<(Seq<char>, nat, nat, Seq<char>)>::empty());
        (s, Step::Exchange { command, read: await_code("231", 5, 3) })
    }

    /// Takes the status reply: the list follows a 231 reply, any other fails.
    pub fn on_reply(&mut self, reply: &str) -> (r: Step<Vec<Newsgroup>>)
        requires
            old(self).phase == BlockPhase::AwaitingReply,
        ensures
            final(self).groups@ == old(self).groups@,
            final(self).lines@ == old(self).lines@,
            "231"@.is_prefix_of(reply@) ==> final(self).phase == BlockPhase::Reading && r is NextLine,
            !"231"@.is_prefix_of(reply@) ==> final(self).phase == BlockPhase::Done && r matches Step::Finished(
                Err(NntpError::NewgroupsFailed),
            ),
    {
        if starts_with(reply, "231") {
            self.phase = BlockPhase::Reading;
            Step::NextLine
        } else {
            self.phase = BlockPhase::Done;
            Step::Finished(Err(NntpError::NewgroupsFailed))
        }
    }

    /// Takes a line of the list. At the terminating line the result is the list the
    /// lines received before it describe.
    pub fn on_line(&mut self, line: &str) -> (r: Step<Vec<Newsgroup>>)
        requires
            old(self).phase == BlockPhase::Reading,
            old(self).wf(),
        ensures
            final(self).wf(),
            line@ == terminator() ==> {
                &&& final(self).phase == BlockPhase::Done
                &&& r matches Step::Finished(Ok(groups))
                &&& models_of(groups@) == newgroups_listing(old(self).lines@)
            },
            line@ != terminator() ==> {
                &&& final(self).phase == BlockPhase::Reading
                &&& r is NextLine
                &&& final(self).lines@ == old(self).lines@.push(line@)
            },
    {
        if is_terminator(line) {
            self.phase = BlockPhase::Done;
            let groups: Vec<Newsgroup> = take_vec(&mut self.groups);
            proof {
                self.lines@ = Seq::empty();
            }
            assert(models_of(self.groups@) =~= Seq::<(Seq<char>, nat, nat, Seq<char>)>::empty());
            return Step::Finished(Ok(groups));
        }
        let kept: String = unstuff_line(line);
        let ghost lines2 = self.lines@.push(line@);
        assert(lines2.drop_last() =~= self.lines@);
        match parse_newgroups_line(kept.as_str()) {
            None => {},
            Some(g) => {
                self.groups.push(g);
                assert(models_of(self.groups@) =~= models_of(old(self).groups@).push(
                    self.groups@.last().model(),
                ));
            },
        }
        proof {
            self.lines@ = lines2;
        }
        Step::NextLine
    }
}


/// Every line of the list that describes a newsgroup yields its own entry, and adding
/// a line keeps every entry described before it: appending a line that describes a
/// newsgroup appends that newsgroup to the listing, and appending any other line
/// leaves the listing unchanged.
pub proof fn lemma_newgroups_listing_push(lines: Seq<Seq<char>>, line: Seq<char>)
    ensures
        match newgroups_entry_spec(unstuff(line)) {
            Some(m) => newgroups_listing(lines.push(line)) == newgroups_listing(lines).push(m),
            None => newgroups_listing(lines.push(line)) == newgroups_listing(lines),
        },
{
    assert(lines.push(line).drop_last() =~= lines);
}

/// The listing holds, in the order received, the newsgroup of each line that describes
/// one (a line with at least four fields) and nothing else; so it has as many entries
/// as there are such lines.
pub proof fn lemma_newgroups_listing_is_the_described_lines(lines: Seq<Seq<char>>)
    ensures
        newgroups_listing(lines) == lines.filter_map(|l: Seq<char>| newgroups_entry_spec(unstuff(l))),
        newgroups_listing(lines).len() == lines.filter(
            |l: Seq<char>| newgroups_entry_spec(unstuff(l)) is Some,
        ).len(),
    decreases lines.len(),
{
    let entry = |l: Seq<char>| newgroups_entry_spec(unstuff(l));
    let describes = |l: Seq<char>| newgroups_entry_spec(unstuff(l)) is Some;
    if lines.len() == 0 {
        reveal(Seq::filter);
    } else {
        let rest = lines.drop_last();
        let last = lines.last();
        lemma_newgroups_listing_is_the_described_lines(rest);
        assert(rest.push(last) =~= lines);
        rest.lemma_filter_push(last, describes);
        match entry(last) {
            Some(m) => {
                assert(rest.filter_map(entry) + seq![m] =~= rest.filter_map(entry).push(m));
            },
            None => {},
        }
    }
}


/// A `NEWGROUPS` line reads back as what it says: for a name and a status that are
/// words and any two unsigned 32-bit numbers, in either order, the line
/// `<name> <high> <low> <status>` describes exactly that newsgroup, no number lost.
pub proof fn lemma_newgroups_line_roundtrip(name: Seq<char>, high: nat, low: nat, status: Seq<char>)
    requires
        is_word(name),
        is_word(status),
        high <= u32::MAX,
        low <= u32::MAX,
    ensures
        newgroups_entry_spec(
            name + seq![' '] + decimal_spec(high) + seq![' '] + decimal_spec(low) + seq![' '] + status,
        ) == Some((name, high, low, status)),
{
    let line = name + seq![' '] + decimal_spec(high) + seq![' '] + decimal_spec(low) + seq![' '] + status;
    let after_low = status;
    let after_high = decimal_spec(low) + seq![' '] + after_low;
    let after_name = decimal_spec(high) + seq![' '] + after_high;
    lemma_decimal_is_word(high);
    lemma_decimal_is_word(low);
    lemma_fields_of_word(status);
    lemma_fields_of_word_then(decimal_spec(low), after_low);
    lemma_fields_of_word_then(decimal_spec(high), after_high);
    lemma_fields_of_word_then(name, after_name);
    assert(line =~= name + seq![' '] + after_name);
    assert(line[0] == name[0]);
    assert(line.last() == status.last());
    lemma_trim_of_clean(line);
    let f = fields_spec(trim_spec(line));
    assert(f =~= seq![name, decimal_spec(high), decimal_spec(low), status]);
    lemma_u32_or_zero_reads_decimal(high);
    lemma_u32_or_zero_reads_decimal(low);
}

} // verus!
