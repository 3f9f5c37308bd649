//! Overview data of a range of articles with `XOVER`.
use vstd::prelude::*;
use crate::command::{crlf, group_command, xover_command};
use crate::error::NntpError;
use crate::session::{range_or_default, sends_then_reads_line, take_vec, unstuff, unstuff_line, ReplyRead, Step};
use crate::text::{
    decimal_spec, is_space, lemma_decimal_is_word, lemma_split_of_piece, lemma_split_of_piece_then,
    lemma_trim_of_clean, lemma_u32_or_zero_reads_decimal, parse_u32_or_zero, split_on, split_spec, starts_with, trim,
    trim_end, trim_end_spec, trim_spec, u32_or_zero,
};

verus! {

/// Overview data of one article.
#[derive(Debug)]
pub struct Overview {
    pub article_id: u32,
    pub subject: String,
    pub from: String,
    pub date: String,
    pub message_id: Option<String>,
    pub references: Option<String>,
}

/// The text of an optional string.
pub open spec fn opt_view(o: Option<String>) -> Option<Seq<char>> {
    match o {
        Some(s) => Some(s@),
        None => None,
    }
}

/// The fields of an overview entry: number, subject, author, date, message
/// identifier and references.
pub type OverviewModel = (nat, Seq<char>, Seq<char>, Seq<char>, Option<Seq<char>>, Option<Seq<char>>);

impl Overview {
    /// The fields as text and numbers.
    pub open spec fn model(&self) -> OverviewModel {
        (
            self.article_id as nat,
            self.subject@,
            self.from@,
            self.date@,
            opt_view(self.message_id),
            opt_view(self.references),
        )
    }
}

/// The entry an `XOVER` line describes: the line without trailing whitespace is split
/// at tabs; it needs at least four fields, the article number (0 when it is not a
/// number), subject, author and date, taken as they are; a fifth and a sixth field,
/// when present, are the message identifier and the references, trimmed.
pub open spec fn overview_entry_spec(line: Seq<char>) -> Option<OverviewModel> {
    let f = split_spec(trim_end_spec(line), '\t');
    if f.len() < 4 {
        None
    } else {
        Some(
            (
                u32_or_zero(f[0]),
                f[1],
                f[2],
                f[3],
                if f.len() > 4 {
                    Some(trim_spec(f[4]))
                } else {
                    None
                },
                if f.len() > 5 {
                    Some(trim_spec(f[5]))
                } else {
                    None
                },
            ),
        )
    }
}

/// Reads one line of an `XOVER` reply.
pub fn parse_overview_line(line: &str) -> (r: Option<Overview>)
    ensures
        match r {
            None => overview_entry_spec(line@) is None,
            Some(o) => overview_entry_spec(line@) == Some(o.model()),
        },
{
    let stripped: String = trim_end(line);
    let f: Vec<String> = split_on(stripped.as_str(), '\t');
    if f.len() < 4 {
        return None;
    }
    let ghost fs = split_spec(trim_end_spec(line@), '\t');
    assert(f@[0]@ == fs[0] && f@[1]@ == fs[1] && f@[2]@ == fs[2] && f@[3]@ == fs[3]);
    let article_id: u32 = parse_u32_or_zero(f[0].as_str());
    let message_id: Option<String> = if f.len() > 4 {
        assert(f@[4]@ == fs[4]);
        Some(trim(f[4].as_str()))
    } else {
        None
    };
    let references: Option<String> = if f.len() > 5 {
        assert(f@[5]@ == fs[5]);
        Some(trim(f[5].as_str()))
    } else {
        None
    };
    Some(
        Overview {
            article_id,
            subject: f[1].clone(),
            from: f[2].clone(),
            date: f[3].clone(),
            message_id,
            references,
        },
    )
}

/// Whether `line` ends the overview: it is a single `.` once trimmed.
pub open spec fn ends_overview(line: Seq<char>) -> bool {
    trim_spec(line) == seq!['.']
}

fn ends_overview_exec(line: &str) -> (b: bool)
    ensures
        b == ends_overview(line@),
{
    let t: String = trim(line);
    proof {
        reveal_strlit(".");
        assert("."@ =~= seq!['.']);
    }
    crate::text::same_text(t.as_str(), ".")
}

/// Where `fetch_xover_range` stands.
#[derive(Debug, PartialEq, Eq, Structural)]
pub enum XoverPhase {
    /// `GROUP` was sent; its reply is awaited.
    AwaitingGroup,
    /// `XOVER` was sent; its reply is awaited.
    AwaitingOverview,
    /// The overview lines are being read.
    Reading,
    /// The exchange is over.
    Done,
}

/// `fetch_xover_range`: selects the group (a 211 reply, read as one line), asks for
/// the overview of the range (a 224 reply, read as one line), then reads lines up to
/// a `.` line, collecting one entry per line with at least four tab-separated fields.
pub struct XoverSession {
    pub phase: XoverPhase,
    pub first: u32,
    pub last: u32,
    pub entries: Vec<Overview>,
    /// The overview lines received so far.
    pub lines: Ghost<Seq<Seq<char>>>,
}

/// The entries an overview made of `lines` (the ending line not among them)
/// describes: one per line that, with its leading `.` undoubled, describes one, in
/// order.
pub open spec fn overview_listing(lines: Seq<Seq<char>>) -> Seq<OverviewModel>
    decreases lines.len(),
{
    if lines.len() == 0 {
        Seq::empty()
    } else {
        match overview_entry_spec(unstuff(lines.last())) {
            Some(m) => overview_listing(lines.drop_last()).push(m),
            None => overview_listing(lines.drop_last()),
        }
    }
}

/// The descriptions of `entries`.
pub open spec fn overview_models(entries: Seq<Overview>) -> Seq<OverviewModel> {
    entries.map_values(|o: Overview| o.model())
}

impl XoverSession {
    /// The entries collected are those the lines received describe.
    pub open spec fn wf(&self) -> bool {
        overview_models(self.entries@) == overview_listing(self.lines@)
    }

    /// Starts the exchange.
    pub fn start(group: &str, range: Option<(u32, u32)>) -> (r: (XoverSession, Step<Vec<Overview>>))
        ensures
            r.0.phase == XoverPhase::AwaitingGroup,
            (r.0.first, r.0.last) == range_or_default(range),
            r.0.wf(),
            r.0.lines@ == Seq::<Seq<char>>::empty(),
            sends_then_reads_line(r.1, "GROUP "@ + group@ + crlf()),
    {
        let (first, last): (u32, u32) = match range {
            Some(r) => r,
            None => (1, 10),
        };
        let s = XoverSession { phase: XoverPhase::AwaitingGroup, first, last, entries: Vec::new(), lines: Ghost(Seq::empty()) };
        assert(overview_models(s.entries@) =~= Seq::<OverviewModel>::empty());
        (s, Step::Exchange { command: group_command(group), read: ReplyRead::SingleLine })
    }

    /// Takes the reply to `GROUP` or to `XOVER`.
    pub fn on_reply(&mut self, reply: &str) -> (r: Step<Vec<Overview>>)
        requires
            old(self).phase == XoverPhase::AwaitingGroup || old(self).phase
                == XoverPhase::AwaitingOverview,
        ensures
            final(self).first == old(self).first,
            final(self).last == old(self).last,
            final(self).entries@ == old(self).entries@,
            final(self).lines@ == old(self).lines@,
            old(self).phase == XoverPhase::AwaitingGroup && "211"@.is_prefix_of(reply@) ==> {
                &&& final(self).phase == XoverPhase::AwaitingOverview
                &&& sends_then_reads_line(
                    r,
                    "XOVER "@ + decimal_spec(old(self).first as nat) + "-"@ + decimal_spec(
                        old(self).last as nat,
                    ) + crlf(),
                )
            },
            old(self).phase == XoverPhase::AwaitingGroup && !"211"@.is_prefix_of(reply@) ==> {
                &&& final(self).phase == XoverPhase::Done
                &&& r matches Step::Finished(Err(NntpError::XoverGroupFailed(t)))
                &&& t@ == trim_spec(reply@)
            },
            old(self).phase == XoverPhase::AwaitingOverview && "224"@.is_prefix_of(reply@) ==> {
                &&& final(self).phase == XoverPhase::Reading
                &&& r is NextLine
            },
            old(self).phase == XoverPhase::AwaitingOverview && !"224"@.is_prefix_of(reply@) ==> {
                &&& final(self).phase == XoverPhase::Done
                &&& r matches Step::Finished(Err(NntpError::XoverFailed(t)))
                &&& t@ == trim_spec(reply@)
            },
    {
        if self.phase == XoverPhase::AwaitingGroup {
            if starts_with(reply, "211") {
                self.phase = XoverPhase::AwaitingOverview;
                Step::Exchange { command: xover_command(self.first, self.last), read: ReplyRead::SingleLine }
            } else {
                self.phase = XoverPhase::Done;
                Step::Finished(Err(NntpError::XoverGroupFailed(trim(reply))))
            }
        } else {
            if starts_with(reply, "224") {
                self.phase = XoverPhase::Reading;
                Step::NextLine
            } else {
                self.phase = XoverPhase::Done;
                Step::Finished(Err(NntpError::XoverFailed(trim(reply))))
            }
        }
    }

    /// Takes an overview line. At a line that is `.` once trimmed, the result is the
    /// overview the lines received before it describe.
    pub fn on_line(&mut self, line: &str) -> (r: Step<Vec<Overview>>)
        requires
            old(self).phase == XoverPhase::Reading,
            old(self).wf(),
        ensures
            final(self).wf(),
            ends_overview(line@) ==> {
                &&& final(self).phase == XoverPhase::Done
                &&& r matches Step::Finished(Ok(entries))
                &&& overview_models(entries@) == overview_listing(old(self).lines@)
            },
            !ends_overview(line@) ==> {
                &&& final(self).phase == XoverPhase::Reading
                &&& r is NextLine
                &&& final(self).lines@ == old(self).lines@.push(line@)
            },
    {
        if ends_overview_exec(line) {
            self.phase = XoverPhase::Done;
            let entries: Vec<Overview> = take_vec(&mut self.entries);
            proof {
                self.lines@ = Seq::empty();
            }
            assert(overview_models(self.entries@) =~= Seq::<OverviewModel>::empty());
            return Step::Finished(Ok(entries));
        }
        let kept: String = unstuff_line(line);
        let ghost lines2 = self.lines@.push(line@);
        assert(lines2.drop_last() =~= self.lines@);
        match parse_overview_line(kept.as_str()) {
            None => {},
            Some(o) => {
                self.entries.push(o);
                assert(overview_models(self.entries@) =~= overview_models(old(self).entries@).push(
                    self.entries@.last().model(),
                ));
            },
        }
        proof {
            self.lines@ = lines2;
        }
        Step::NextLine
    }
}


/// Adding a line keeps every entry described before it: appending a line that
/// describes an entry appends that entry to the overview, and appending any other line
/// leaves the overview unchanged.
pub proof fn lemma_overview_listing_push(lines: Seq<Seq<char>>, line: Seq<char>)
    ensures
        match overview_entry_spec(unstuff(line)) {
            Some(m) => overview_listing(lines.push(line)) == overview_listing(lines).push(m),
            None => overview_listing(lines.push(line)) == overview_listing(lines),
        },
{
    assert(lines.push(line).drop_last() =~= lines);
}

/// The overview holds, in the order received, the entry of each line that describes
/// one (a line with at least four tab-separated fields) and nothing else; so it has as
/// many entries as there are such lines.
pub proof fn lemma_overview_listing_is_the_described_lines(lines: Seq<Seq<char>>)
    ensures
        overview_listing(lines) == lines.filter_map(|l: Seq<char>| overview_entry_spec(unstuff(l))),
        overview_listing(lines).len() == lines.filter(
            |l: Seq<char>| overview_entry_spec(unstuff(l)) is Some,
        ).len(),
    decreases lines.len(),
{
    let entry = |l: Seq<char>| overview_entry_spec(unstuff(l));
    let describes = |l: Seq<char>| overview_entry_spec(unstuff(l)) is Some;
    if lines.len() == 0 {
        reveal(Seq::filter);
    } else {
        let rest = lines.drop_last();
        let last = lines.last();
        lemma_overview_listing_is_the_described_lines(rest);
        assert(rest.push(last) =~= lines);
        rest.lemma_filter_push(last, describes);
        match entry(last) {
            Some(m) => {
                assert(rest.filter_map(entry) + seq![m] =~= rest.filter_map(entry).push(m));
            },
            None => {},
        }
    }
}


/// Whether `s` holds no tab.
pub open spec fn tab_free(s: Seq<char>) -> bool {
    forall|i: int| 0 <= i < s.len() ==> #[trigger] s[i] != '\t'
}

/// An overview line reads back as what it says: for every article number `n` that is
/// an unsigned 32-bit value, and a subject, an author and a date without tabs (the
/// date not ending in whitespace), the line `<n>\t<subject>\t<author>\t<date>`
/// describes the entry with number `n` and exactly those fields, and no message
/// identifier or references.
pub proof fn lemma_overview_line_roundtrip(n: nat, subject: Seq<char>, from: Seq<char>, date: Seq<char>)
    requires
        n <= u32::MAX,
        tab_free(subject),
        tab_free(from),
        tab_free(date),
        date.len() > 0,
        !is_space(date.last()),
    ensures
        overview_entry_spec(
            decimal_spec(n) + seq!['\t'] + subject + seq!['\t'] + from + seq!['\t'] + date,
        ) == Some((n, subject, from, date, None::<Seq<char>>, None::<Seq<char>>)),
{
    let line = decimal_spec(n) + seq!['\t'] + subject + seq!['\t'] + from + seq!['\t'] + date;
    let after_from = date;
    let after_subject = from + seq!['\t'] + after_from;
    let after_number = subject + seq!['\t'] + after_subject;
    lemma_decimal_is_word(n);
    assert(tab_free(decimal_spec(n))) by {
        assert forall|i: int| 0 <= i < decimal_spec(n).len() implies #[trigger] decimal_spec(n)[i] != '\t' by {
            assert(!is_space(decimal_spec(n)[i]));
        }
    }
    lemma_split_of_piece(date, '\t');
    lemma_split_of_piece_then(from, '\t', after_from);
    lemma_split_of_piece_then(subject, '\t', after_subject);
    lemma_split_of_piece_then(decimal_spec(n), '\t', after_number);
    assert(line =~= decimal_spec(n) + seq!['\t'] + after_number);
    assert(line.last() == date.last());
    assert(trim_end_spec(line) == line);
    let f = split_spec(trim_end_spec(line), '\t');
    assert(f =~= seq![decimal_spec(n), subject, from, date]);
    lemma_u32_or_zero_reads_decimal(n);
}


/// An overview line with all six fields reads back as what it says: for every article
/// number `n` that is an unsigned 32-bit value, tab-free subject, author and date, and
/// a message identifier and references that hold no tab and no whitespace at their
/// edges (the references not empty), the line
/// `<n>\t<subject>\t<author>\t<date>\t<message-id>\t<references>` describes exactly
/// that entry.
pub proof fn lemma_overview_full_line_roundtrip(
    n: nat,
    subject: Seq<char>,
    from: Seq<char>,
    date: Seq<char>,
    message_id: Seq<char>,
    references: Seq<char>,
)
    requires
        n <= u32::MAX,
        tab_free(subject),
        tab_free(from),
        tab_free(date),
        tab_free(message_id),
        tab_free(references),
        trim_spec(message_id) == message_id,
        references.len() > 0,
        !is_space(references[0]),
        !is_space(references.last()),
    ensures
        overview_entry_spec(
            decimal_spec(n) + seq!['\t'] + subject + seq!['\t'] + from + seq!['\t'] + date + seq!['\t']
                + message_id + seq!['\t'] + references,
        ) == Some((n, subject, from, date, Some(message_id), Some(references))),
{
    let line = decimal_spec(n) + seq!['\t'] + subject + seq!['\t'] + from + seq!['\t'] + date + seq!['\t']
        + message_id + seq!['\t'] + references;
    let after_message_id = references;
    let after_date = message_id + seq!['\t'] + after_message_id;
    let after_from = date + seq!['\t'] + after_date;
    let after_subject = from + seq!['\t'] + after_from;
    let after_number = subject + seq!['\t'] + after_subject;
    lemma_decimal_is_word(n);
    assert(tab_free(decimal_spec(n))) by {
        assert forall|i: int| 0 <= i < decimal_spec(n).len() implies #[trigger] decimal_spec(n)[i] != '\t' by {
            assert(!is_space(decimal_spec(n)[i]));
        }
    }
    lemma_split_of_piece(references, '\t');
    lemma_split_of_piece_then(message_id, '\t', after_message_id);
    lemma_split_of_piece_then(date, '\t', after_date);
    lemma_split_of_piece_then(from, '\t', after_from);
    lemma_split_of_piece_then(subject, '\t', after_subject);
    lemma_split_of_piece_then(decimal_spec(n), '\t', after_number);
    assert(line =~= decimal_spec(n) + seq!['\t'] + after_number);
    assert(line.last() == references.last());
    assert(trim_end_spec(line) == line);
    let f = split_spec(trim_end_spec(line), '\t');
    assert(f =~= seq![decimal_spec(n), subject, from, date, message_id, references]);
    lemma_trim_of_clean(references);
    lemma_u32_or_zero_reads_decimal(n);
}

} // verus!
