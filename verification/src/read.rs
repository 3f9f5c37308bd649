//! Reading a range of articles of a newsgroup with `GROUP` and `ARTICLE`.
use vstd::prelude::*;
use crate::command::{article_command, crlf, group_command};
use crate::error::NntpError;
use crate::session::{
    is_terminator, range_or_default, sends_then_reads_line, take_string, take_vec, terminator,
    unstuff, unstuff_line, ReplyRead, Step,
};
use crate::text::{decimal_spec, same_text, starts_with};

verus! {

/// An article read from a newsgroup: the header lines and the body lines.
#[derive(Debug)]
pub struct Article {
    pub header: String,
    pub body: String,
}

impl Article {
    /// The header and the body.
    pub open spec fn model(&self) -> (Seq<char>, Seq<char>) {
        (self.header@, self.body@)
    }
}

/// The empty line that separates the header from the body.
pub open spec fn blank_line() -> Seq<char> {
    seq!['\r', '\n']
}

/// The header of an article made of `lines` (each already undoubled): the lines
/// before the first empty line, concatenated.
pub open spec fn header_text(lines: Seq<Seq<char>>) -> Seq<char>
    decreases lines.len(),
{
    if lines.len() == 0 {
        Seq::empty()
    } else if lines.drop_last().contains(blank_line()) || lines.last() == blank_line() {
        header_text(lines.drop_last())
    } else {
        header_text(lines.drop_last()) + lines.last()
    }
}

/// The body of an article made of `lines`: all lines after the first empty line,
/// empty ones included, concatenated.
pub open spec fn body_text(lines: Seq<Seq<char>>) -> Seq<char>
    decreases lines.len(),
{
    if lines.len() == 0 {
        Seq::empty()
    } else if lines.drop_last().contains(blank_line()) {
        body_text(lines.drop_last()) + lines.last()
    } else {
        body_text(lines.drop_last())
    }
}

/// The lines of an article concatenated, leaving out only the first empty line.
pub open spec fn text_without_separator(lines: Seq<Seq<char>>) -> Seq<char>
    decreases lines.len(),
{
    if lines.len() == 0 {
        Seq::empty()
    } else if lines.last() == blank_line() && !lines.drop_last().contains(blank_line()) {
        text_without_separator(lines.drop_last())
    } else {
        text_without_separator(lines.drop_last()) + lines.last()
    }
}

proof fn lemma_no_blank_no_body(lines: Seq<Seq<char>>)
    requires
        !lines.contains(blank_line()),
    ensures
        body_text(lines) == Seq::<char>::empty(),
    decreases lines.len(),
{
    if lines.len() > 0 {
        assert(!lines.drop_last().contains(blank_line())) by {
            if lines.drop_last().contains(blank_line()) {
                let k = choose|k: int| 0 <= k < lines.drop_last().len() && lines.drop_last()[k] == blank_line();
                assert(lines[k] == blank_line());
            }
        }
        lemma_no_blank_no_body(lines.drop_last());
    }
}

/// Splitting an article loses only the line that separates its parts: its header
/// followed by its body is every line but the first empty one, in order.
pub proof fn lemma_header_body_partition(lines: Seq<Seq<char>>)
    ensures
        header_text(lines) + body_text(lines) == text_without_separator(lines),
    decreases lines.len(),
{
    if lines.len() > 0 {
        let p = lines.drop_last();
        lemma_header_body_partition(p);
        if p.contains(blank_line()) {
            assert(header_text(p) + (body_text(p) + lines.last()) =~= (header_text(p) + body_text(p))
                + lines.last());
        } else {
            lemma_no_blank_no_body(p);
            if lines.last() != blank_line() {
                assert((header_text(p) + lines.last()) + Seq::<char>::empty() =~= (header_text(p)
                    + Seq::<char>::empty()) + lines.last());
            }
        }
    }
}

/// The articles kept over a run: for each number dealt with, in order, `None` when
/// its reply was not 220, or the undoubled lines of the article read; one article
/// per read one.
pub open spec fn kept_articles(outcomes: Seq<Option<Seq<Seq<char>>>>) -> Seq<(Seq<char>, Seq<char>)>
    decreases outcomes.len(),
{
    if outcomes.len() == 0 {
        Seq::empty()
    } else {
        match outcomes.last() {
            Some(lines) => kept_articles(outcomes.drop_last()).push((header_text(lines), body_text(lines))),
            None => kept_articles(outcomes.drop_last()),
        }
    }
}

/// No more articles are kept than numbers dealt with.
pub proof fn lemma_kept_bound(outcomes: Seq<Option<Seq<Seq<char>>>>)
    ensures
        kept_articles(outcomes).len() <= outcomes.len(),
    decreases outcomes.len(),
{
    if outcomes.len() > 0 {
        lemma_kept_bound(outcomes.drop_last());
    }
}

/// The header and body of `articles`.
pub open spec fn article_models(articles: Seq<Article>) -> Seq<(Seq<char>, Seq<char>)> {
    articles.map_values(|a: Article| a.model())
}

/// How many numbers `first..=last` holds.
pub open spec fn range_len(first: u32, last: u32) -> nat {
    if first <= last {
        (last - first + 1) as nat
    } else {
        0
    }
}

/// Where `read_from_group` stands.
#[derive(Debug, PartialEq, Eq, Structural)]
pub enum ReadPhase {
    /// `GROUP` was sent; its reply is awaited.
    AwaitingGroup,
    /// `ARTICLE <next>` was sent; its reply is awaited.
    AwaitingArticle,
    /// The lines of article `next` are being read.
    ReadingArticle,
    /// The exchange is over.
    Done,
}

/// Where a `read_from_group` exchange stands, as far as what it sends and returns
/// depends on it.
pub struct ReadModel {
    pub phase: ReadPhase,
    pub first: u32,
    pub next: u32,
    pub last: u32,
    pub in_header: bool,
    /// The undoubled lines of the article being read.
    pub lines: Seq<Seq<char>>,
    /// What came of each number dealt with.
    pub outcomes: Seq<Option<Seq<Seq<char>>>>,
}

/// What a `read_from_group` exchange does next.
pub enum ReadAction {
    /// Send this command and read one reply line.
    Send(Seq<char>),
    /// Read the next line of the article.
    Next,
    /// The exchange ends with these articles (header and body).
    FinishedOk(Seq<(Seq<char>, Seq<char>)>),
    /// The exchange ends with an error.
    FinishedErr,
}

/// `ARTICLE <n>`.
pub open spec fn article_command_spec(n: u32) -> Seq<char> {
    "ARTICLE "@ + decimal_spec(n as nat) + crlf()
}

/// What an exec step means for the exchange.
pub open spec fn read_action_of(r: Step<Vec<Article>>) -> ReadAction {
    match r {
        Step::Exchange { command, read } => ReadAction::Send(command@),
        Step::NextLine => ReadAction::Next,
        Step::Finished(Ok(v)) => ReadAction::FinishedOk(article_models(v@)),
        Step::Finished(Err(_)) => ReadAction::FinishedErr,
    }
}

/// The exchange when `GROUP` has just been sent for the range `first..=last`.
pub open spec fn read_start(first: u32, last: u32) -> ReadModel {
    ReadModel {
        phase: ReadPhase::AwaitingGroup,
        first,
        next: first,
        last,
        in_header: true,
        lines: Seq::empty(),
        outcomes: Seq::empty(),
    }
}

/// Moving past article `next`: the end after the last number of the range, otherwise
/// `ARTICLE` for the following one.
pub open spec fn read_advance(m: ReadModel) -> (ReadModel, ReadAction) {
    if m.next == m.last {
        (
            ReadModel { phase: ReadPhase::Done, in_header: true, lines: Seq::empty(), ..m },
            ReadAction::FinishedOk(kept_articles(m.outcomes)),
        )
    } else {
        (
            ReadModel {
                phase: ReadPhase::AwaitingArticle,
                next: (m.next + 1) as u32,
                in_header: true,
                lines: Seq::empty(),
                ..m
            },
            ReadAction::Send(article_command_spec((m.next + 1) as u32)),
        )
    }
}

/// A reply line taken while `GROUP` or `ARTICLE` awaits its reply.
pub open spec fn read_on_reply(m: ReadModel, reply: Seq<char>) -> (ReadModel, ReadAction) {
    if m.phase == ReadPhase::AwaitingGroup {
        if !"211"@.is_prefix_of(reply) {
            (ReadModel { phase: ReadPhase::Done, ..m }, ReadAction::FinishedErr)
        } else if m.first > m.last {
            (ReadModel { phase: ReadPhase::Done, ..m }, ReadAction::FinishedOk(kept_articles(m.outcomes)))
        } else {
            (
                ReadModel { phase: ReadPhase::AwaitingArticle, next: m.first, ..m },
                ReadAction::Send(article_command_spec(m.first)),
            )
        }
    } else if "220"@.is_prefix_of(reply) {
        (
            ReadModel { phase: ReadPhase::ReadingArticle, in_header: true, lines: Seq::empty(), ..m },
            ReadAction::Next,
        )
    } else {
        read_advance(ReadModel { outcomes: m.outcomes.push(None), ..m })
    }
}

/// A line taken while an article is read.
pub open spec fn read_on_line(m: ReadModel, line: Seq<char>) -> (ReadModel, ReadAction) {
    if line == terminator() {
        read_advance(ReadModel { outcomes: m.outcomes.push(Some(m.lines)), ..m })
    } else {
        let kept = unstuff(line);
        (
            ReadModel {
                in_header: m.in_header && kept != blank_line(),
                lines: m.lines.push(kept),
                ..m
            },
            ReadAction::Next,
        )
    }
}

/// A line from the server, taken as the exchange stands: as a reply, or as a line of
/// the article being read.
pub open spec fn read_feed(m: ReadModel, line: Seq<char>) -> (ReadModel, ReadAction) {
    if m.phase == ReadPhase::ReadingArticle {
        read_on_line(m, line)
    } else {
        read_on_reply(m, line)
    }
}

/// Running the exchange from `m` on the lines the server sends: the state reached,
/// the commands sent on the way, and the outcome (`Some(Some(articles))`,
/// `Some(None)` for an error, `None` while unfinished). Lines after the end are not
/// read.
pub open spec fn read_run(m: ReadModel, lines: Seq<Seq<char>>) -> (
    ReadModel,
    Seq<Seq<char>>,
    Option<Option<Seq<(Seq<char>, Seq<char>)>>>,
)
    decreases lines.len(),
{
    if lines.len() == 0 || m.phase == ReadPhase::Done {
        (m, Seq::empty(), None)
    } else {
        let (m1, a) = read_feed(m, lines[0]);
        match a {
            ReadAction::FinishedOk(v) => (m1, Seq::empty(), Some(Some(v))),
            ReadAction::FinishedErr => (m1, Seq::empty(), Some(None)),
            ReadAction::Send(c) => {
                let (m2, cs, r) = read_run(m1, lines.drop_first());
                (m2, seq![c] + cs, r)
            },
            ReadAction::Next => read_run(m1, lines.drop_first()),
        }
    }
}

/// The bookkeeping of an exchange agrees: numbers are dealt with in order from the
/// first of the range, none beyond its last.
pub open spec fn read_model_ok(m: ReadModel) -> bool {
    &&& m.phase == ReadPhase::AwaitingGroup ==> m.outcomes.len() == 0 && m.next == m.first
    &&& (m.phase == ReadPhase::AwaitingArticle || m.phase == ReadPhase::ReadingArticle) ==> {
        &&& m.first <= m.next <= m.last
        &&& m.outcomes.len() == m.next - m.first
    }
}

proof fn lemma_feed_ok(m: ReadModel, line: Seq<char>)
    requires
        read_model_ok(m),
        m.phase != ReadPhase::Done,
    ensures
        read_model_ok(read_feed(m, line).0),
        read_feed(m, line).0.first == m.first,
        read_feed(m, line).0.last == m.last,
        read_feed(m, line).1 matches ReadAction::FinishedOk(v) ==> v.len() <= range_len(m.first, m.last),
{
    let (m1, a) = read_feed(m, line);
    if m.phase == ReadPhase::AwaitingGroup {
        if "211"@.is_prefix_of(line) && m.first > m.last {
            assert(kept_articles(m.outcomes) =~= Seq::<(Seq<char>, Seq<char>)>::empty());
        }
    } else if m.phase == ReadPhase::AwaitingArticle {
        if !"220"@.is_prefix_of(line) {
            lemma_kept_bound(m.outcomes.push(None));
        }
    } else {
        if line == terminator() {
            lemma_kept_bound(m.outcomes.push(Some(m.lines)));
        }
    }
}

proof fn lemma_run_bound(m: ReadModel, lines: Seq<Seq<char>>)
    requires
        read_model_ok(m),
    ensures
        read_run(m, lines).2 matches Some(Some(v)) ==> v.len() <= range_len(m.first, m.last),
    decreases lines.len(),
{
    if lines.len() > 0 && m.phase != ReadPhase::Done {
        lemma_feed_ok(m, lines[0]);
        let (m1, a) = read_feed(m, lines[0]);
        lemma_run_bound(m1, lines.drop_first());
    }
}

/// Whatever the server sends, a `read_from_group` exchange returns no more articles
/// than its range holds numbers; and for an empty range (first above last) it sends
/// nothing after `GROUP` and returns no article.
pub proof fn lemma_read_result_bound(first: u32, last: u32, lines: Seq<Seq<char>>)
    ensures
        read_run(read_start(first, last), lines).2 matches Some(Some(v)) ==> v.len() <= range_len(
            first,
            last,
        ),
        first > last ==> read_run(read_start(first, last), lines).1.len() == 0,
        first > last ==> (read_run(read_start(first, last), lines).2 matches Some(Some(v)) ==> v.len()
            == 0),
{
    lemma_run_bound(read_start(first, last), lines);
}

/// The lines the server sends for one `ARTICLE` command: the reply, and after a 220
/// reply the article's lines as sent and the terminating line.
pub open spec fn answer_lines(answer: (Seq<char>, Seq<Seq<char>>)) -> Seq<Seq<char>> {
    if "220"@.is_prefix_of(answer.0) {
        seq![answer.0] + answer.1 + seq![terminator()]
    } else {
        seq![answer.0]
    }
}

/// The lines the server sends for a run of `ARTICLE` commands.
pub open spec fn answers_transcript(answers: Seq<(Seq<char>, Seq<Seq<char>>)>) -> Seq<Seq<char>>
    decreases answers.len(),
{
    if answers.len() == 0 {
        Seq::empty()
    } else {
        answer_lines(answers[0]) + answers_transcript(answers.drop_first())
    }
}

/// What comes of one answer: the undoubled article lines after a 220 reply, nothing
/// otherwise.
pub open spec fn answer_outcome(answer: (Seq<char>, Seq<Seq<char>>)) -> Option<Seq<Seq<char>>> {
    if "220"@.is_prefix_of(answer.0) {
        Some(answer.1.map_values(|l: Seq<char>| unstuff(l)))
    } else {
        None
    }
}

/// What comes of each answer.
pub open spec fn answers_outcomes(answers: Seq<(Seq<char>, Seq<Seq<char>>)>) -> Seq<Option<Seq<Seq<char>>>> {
    answers.map_values(|a: (Seq<char>, Seq<Seq<char>>)| answer_outcome(a))
}

/// `ARTICLE` for `count` numbers from `from` on, in increasing order.
pub open spec fn article_commands(from: u32, count: nat) -> Seq<Seq<char>>
    decreases count,
{
    if count == 0 {
        Seq::empty()
    } else {
        seq![article_command_spec(from)] + article_commands((from + 1) as u32, (count - 1) as nat)
    }
}

/// No line of an answer's article is the terminating line.
pub open spec fn answers_ok(answers: Seq<(Seq<char>, Seq<Seq<char>>)>) -> bool {
    forall|k: int, j: int|
        0 <= k < answers.len() && 0 <= j < answers[k].1.len() ==> #[trigger] answers[k].1[j] != terminator()
}

proof fn lemma_article_lines_run(m: ReadModel, body: Seq<Seq<char>>, tail: Seq<Seq<char>>) -> (m2: ReadModel)
    requires
        m.phase == ReadPhase::ReadingArticle,
        forall|j: int| 0 <= j < body.len() ==> #[trigger] body[j] != terminator(),
    ensures
        m2.phase == ReadPhase::ReadingArticle,
        m2.first == m.first,
        m2.next == m.next,
        m2.last == m.last,
        m2.outcomes == m.outcomes,
        m2.lines == m.lines + body.map_values(|l: Seq<char>| unstuff(l)),
        read_run(m, body + tail) == read_run(m2, tail),
    decreases body.len(),
{
    if body.len() == 0 {
        assert(body + tail =~= tail);
        assert(m.lines + body.map_values(|l: Seq<char>| unstuff(l)) =~= m.lines);
        m
    } else {
        let (m1, a) = read_feed(m, body[0]);
        assert((body + tail)[0] == body[0]);
        assert((body + tail).drop_first() =~= body.drop_first() + tail);
        let rest = body.drop_first();
        assert forall|j: int| 0 <= j < rest.len() implies #[trigger] rest[j] != terminator() by {
            assert(rest[j] == body[j + 1]);
        }
        let m2 = lemma_article_lines_run(m1, rest, tail);
        assert(m.lines.push(unstuff(body[0])) + rest.map_values(|l: Seq<char>| unstuff(l)) =~= m.lines
            + body.map_values(|l: Seq<char>| unstuff(l)));
        m2
    }
}

proof fn lemma_answers_run(m: ReadModel, answers: Seq<(Seq<char>, Seq<Seq<char>>)>)
    requires
        m.phase == ReadPhase::AwaitingArticle,
        m.first <= m.next <= m.last,
        answers.len() == m.last - m.next + 1,
        answers_ok(answers),
    ensures
        read_run(m, answers_transcript(answers)).1 == article_commands(
            (m.next + 1) as u32,
            (answers.len() - 1) as nat,
        ),
        read_run(m, answers_transcript(answers)).2 == Some(
            Some(kept_articles(m.outcomes + answers_outcomes(answers))),
        ),
    decreases answers.len(),
{
    let a = answers[0];
    let rest = answers.drop_first();
    let t = answers_transcript(answers);
    let tr = answers_transcript(rest);
    assert(t == answer_lines(a) + tr);
    assert(answers_ok(rest)) by {
        assert forall|k: int, j: int| 0 <= k < rest.len() && 0 <= j < rest[k].1.len() implies #[trigger] rest[k].1[j]
            != terminator() by {
            assert(rest[k] == answers[k + 1]);
        }
    }
    assert(answers_outcomes(answers) =~= seq![answer_outcome(a)] + answers_outcomes(rest));
    let o = answer_outcome(a);
    // The model once the answer's lines up to (and without) its last one are taken.
    let mr = if "220"@.is_prefix_of(a.0) {
        let m_read = ReadModel { phase: ReadPhase::ReadingArticle, in_header: true, lines: Seq::empty(), ..m };
        assert(t[0] == a.0);
        assert(t.drop_first() =~= a.1 + (seq![terminator()] + tr));
        assert forall|j: int| 0 <= j < a.1.len() implies #[trigger] a.1[j] != terminator() by {
            assert(answers[0].1[j] != terminator());
        }
        let m2 = lemma_article_lines_run(m_read, a.1, seq![terminator()] + tr);
        assert(m2.lines =~= a.1.map_values(|l: Seq<char>| unstuff(l)));
        assert(read_run(m, t) == read_run(m2, seq![terminator()] + tr));
        assert((seq![terminator()] + tr)[0] == terminator());
        assert((seq![terminator()] + tr).drop_first() =~= tr);
        m2
    } else {
        assert(t[0] == a.0);
        assert(t.drop_first() =~= tr);
        m
    };
    let stepped = ReadModel { outcomes: m.outcomes.push(o), ..mr };
    let (m1, act) = read_advance(stepped);
    assert(m.outcomes.push(o) + answers_outcomes(rest) =~= m.outcomes + answers_outcomes(answers));
    if m.next == m.last {
        assert(rest.len() == 0);
        assert(answers_outcomes(rest) =~= Seq::<Option<Seq<Seq<char>>>>::empty());
        assert(m.outcomes.push(o) + answers_outcomes(rest) =~= m.outcomes.push(o));
    } else {
        lemma_answers_run(m1, rest);
        assert(article_commands((m.next + 1) as u32, (answers.len() - 1) as nat) == seq![
            article_command_spec((m.next + 1) as u32),
        ] + article_commands((m.next + 2) as u32, (rest.len() - 1) as nat));
    }
}

/// A whole `read_from_group` exchange on a range `first..=last` that is not empty:
/// when the server accepts the group and answers each `ARTICLE` in turn (a reply
/// line, and after a 220 reply the article and the terminating line), the commands
/// sent after `GROUP` are `ARTICLE first` up to `ARTICLE last` in increasing order,
/// and the result holds, in that order, exactly one article per number answered with
/// 220 and none for the others.
pub proof fn lemma_read_exchange(
    first: u32,
    last: u32,
    group_reply: Seq<char>,
    answers: Seq<(Seq<char>, Seq<Seq<char>>)>,
)
    requires
        "211"@.is_prefix_of(group_reply),
        first <= last,
        answers.len() == range_len(first, last),
        answers_ok(answers),
    ensures
        read_run(read_start(first, last), seq![group_reply] + answers_transcript(answers)).1
            == article_commands(first, answers.len()),
        read_run(read_start(first, last), seq![group_reply] + answers_transcript(answers)).2 == Some(
            Some(kept_articles(answers_outcomes(answers))),
        ),
{
    let lines = seq![group_reply] + answers_transcript(answers);
    let m0 = read_start(first, last);
    assert(lines[0] == group_reply);
    assert(lines.drop_first() =~= answers_transcript(answers));
    let m1 = ReadModel { phase: ReadPhase::AwaitingArticle, next: first, ..m0 };
    lemma_answers_run(m1, answers);
    assert(m1.outcomes + answers_outcomes(answers) =~= answers_outcomes(answers));
    assert(article_commands(first, answers.len()) == seq![article_command_spec(first)]
        + article_commands((first + 1) as u32, (answers.len() - 1) as nat));
}

/// `read_from_group`: selects the group (a 211 reply, read as one line), then for
/// each number of the range, in order, sends `ARTICLE <number>` and reads one reply
/// line; after a 220 reply it reads the article up to the terminating `.` line,
/// undoubling leading dots, splits it at the first empty line into header and body,
/// and keeps it. Other replies pass over that number.
pub struct ReadSession {
    pub phase: ReadPhase,
    pub first: u32,
    pub next: u32,
    pub last: u32,
    pub articles: Vec<Article>,
    pub current: Article,
    pub in_header: bool,
    /// The undoubled lines of the current article taken so far.
    pub lines: Ghost<Seq<Seq<char>>>,
    /// What came of each number dealt with so far.
    pub outcomes: Ghost<Seq<Option<Seq<Seq<char>>>>>,
}

impl ReadSession {
    /// The article being read holds exactly the lines taken, the articles kept are
    /// those of the numbers dealt with, and the numbers are dealt with in order from
    /// the first of the range.
    pub open spec fn wf(&self) -> bool {
        &&& self.current.header@ == header_text(self.lines@)
        &&& self.current.body@ == body_text(self.lines@)
        &&& self.in_header == !self.lines@.contains(blank_line())
        &&& self.phase != ReadPhase::Done ==> article_models(self.articles@) == kept_articles(self.outcomes@)
        &&& self.phase == ReadPhase::AwaitingGroup ==> self.outcomes@.len() == 0 && self.next == self.first
        &&& (self.phase == ReadPhase::AwaitingArticle || self.phase == ReadPhase::ReadingArticle) ==> {
            &&& self.first <= self.next <= self.last
            &&& self.outcomes@.len() == self.next - self.first
        }
    }

    /// The exchange as it stands.
    pub open spec fn model(&self) -> ReadModel {
        ReadModel {
            phase: self.phase,
            first: self.first,
            next: self.next,
            last: self.last,
            in_header: self.in_header,
            lines: self.lines@,
            outcomes: self.outcomes@,
        }
    }

    /// Starts the exchange.
    pub fn start(group: &str, range: Option<(u32, u32)>) -> (r: (ReadSession, Step<Vec<Article>>))
        ensures
            r.0.wf(),
            r.0.model() == read_start(range_or_default(range).0, range_or_default(range).1),
            r.0.phase == ReadPhase::AwaitingGroup,
            (r.0.first, r.0.last) == range_or_default(range),
            sends_then_reads_line(r.1, "GROUP "@ + group@ + crlf()),
    {
        let (first, last): (u32, u32) = match range {
            Some(r) => r,
            None => (1, 10),
        };
        let s = ReadSession {
            phase: ReadPhase::AwaitingGroup,
            first,
            next: first,
            last,
            articles: Vec::new(),
            current: Article { header: String::new(), body: String::new() },
            in_header: true,
            lines: Ghost(Seq::empty()),
            outcomes: Ghost(Seq::empty()),
        };
        assert(article_models(s.articles@) =~= Seq::<(Seq<char>, Seq<char>)>::empty());
        (s, Step::Exchange { command: group_command(group), read: ReplyRead::SingleLine })
    }

    /// Moves past article `next`, whose outcome was just recorded: the exchange ends
    /// after the last number of the range, otherwise the following article is asked
    /// for.
    fn advance(&mut self) -> (r: Step<Vec<Article>>)
        requires
            old(self).phase == ReadPhase::AwaitingArticle || old(self).phase
                == ReadPhase::ReadingArticle,
            old(self).first <= old(self).next <= old(self).last,
            old(self).outcomes@.len() == old(self).next - old(self).first + 1,
            article_models(old(self).articles@) == kept_articles(old(self).outcomes@),
        ensures
            final(self).wf(),
            (final(self).model(), read_action_of(r)) == read_advance(old(self).model()),
            final(self).first == old(self).first,
            final(self).last == old(self).last,
            final(self).outcomes@ == old(self).outcomes@,
            final(self).lines@ == Seq::<Seq<char>>::empty(),
            old(self).next == old(self).last ==> {
                &&& final(self).phase == ReadPhase::Done
                &&& r matches Step::Finished(Ok(articles))
                &&& article_models(articles@) == kept_articles(old(self).outcomes@)
                &&& old(self).outcomes@.len() == range_len(old(self).first, old(self).last)
                &&& articles@.len() <= range_len(old(self).first, old(self).last)
            },
            old(self).next < old(self).last ==> {
                &&& final(self).phase == ReadPhase::AwaitingArticle
                &&& final(self).next == old(self).next + 1
                &&& sends_then_reads_line(r, "ARTICLE "@ + decimal_spec(final(self).next as nat) + crlf())
            },
    {
        self.current = Article { header: String::new(), body: String::new() };
        self.in_header = true;
        proof {
            self.lines@ = Seq::empty();
        }
        if self.next == self.last {
            self.phase = ReadPhase::Done;
            proof {
                lemma_kept_bound(self.outcomes@);
                assert(article_models(self.articles@).len() == self.articles@.len());
            }
            Step::Finished(Ok(take_vec(&mut self.articles)))
        } else {
            self.next = self.next + 1;
            self.phase = ReadPhase::AwaitingArticle;
            Step::Exchange { command: article_command(self.next), read: ReplyRead::SingleLine }
        }
    }

    /// Takes the reply to `GROUP` or to `ARTICLE`.
    pub fn on_reply(&mut self, reply: &str) -> (r: Step<Vec<Article>>)
        requires
            old(self).wf(),
            old(self).phase == ReadPhase::AwaitingGroup || old(self).phase
                == ReadPhase::AwaitingArticle,
        ensures
            final(self).wf(),
            (final(self).model(), read_action_of(r)) == read_on_reply(old(self).model(), reply@),
            final(self).first == old(self).first,
            final(self).last == old(self).last,
            old(self).phase == ReadPhase::AwaitingGroup && !"211"@.is_prefix_of(reply@) ==> {
                &&& final(self).phase == ReadPhase::Done
                &&& r matches Step::Finished(Err(NntpError::GroupNotSelected))
            },
            old(self).phase == ReadPhase::AwaitingGroup && "211"@.is_prefix_of(reply@)
                && old(self).first > old(self).last ==> {
                &&& final(self).phase == ReadPhase::Done
                &&& r matches Step::Finished(Ok(articles))
                &&& articles@.len() == 0
            },
            old(self).phase == ReadPhase::AwaitingGroup && "211"@.is_prefix_of(reply@)
                && old(self).first <= old(self).last ==> {
                &&& final(self).phase == ReadPhase::AwaitingArticle
                &&& final(self).next == old(self).first
                &&& final(self).outcomes@ == old(self).outcomes@
                &&& sends_then_reads_line(r, "ARTICLE "@ + decimal_spec(old(self).first as nat) + crlf())
            },
            old(self).phase == ReadPhase::AwaitingArticle && "220"@.is_prefix_of(reply@) ==> {
                &&& final(self).phase == ReadPhase::ReadingArticle
                &&& r is NextLine
                &&& final(self).next == old(self).next
                &&& final(self).outcomes@ == old(self).outcomes@
                &&& final(self).lines@ == Seq::<Seq<char>>::empty()
            },
            old(self).phase == ReadPhase::AwaitingArticle && !"220"@.is_prefix_of(reply@) ==> {
                &&& final(self).outcomes@ == old(self).outcomes@.push(None)
                &&& old(self).next == old(self).last ==> {
                    &&& final(self).phase == ReadPhase::Done
                    &&& r matches Step::Finished(Ok(articles))
                    &&& article_models(articles@) == kept_articles(final(self).outcomes@)
                    &&& final(self).outcomes@.len() == range_len(old(self).first, old(self).last)
                    &&& articles@.len() <= range_len(old(self).first, old(self).last)
                }
                &&& old(self).next < old(self).last ==> {
                    &&& final(self).phase == ReadPhase::AwaitingArticle
                    &&& final(self).next == old(self).next + 1
                    &&& sends_then_reads_line(r, "ARTICLE "@ + decimal_spec(final(self).next as nat) + crlf())
                }
            },
    {
        if self.phase == ReadPhase::AwaitingGroup {
            if !starts_with(reply, "211") {
                self.phase = ReadPhase::Done;
                return Step::Finished(Err(NntpError::GroupNotSelected));
            }
            if self.first > self.last {
                assert(article_models(self.articles@).len() == self.articles@.len());
                assert(kept_articles(self.outcomes@).len() == 0);
                self.phase = ReadPhase::Done;
                return Step::Finished(Ok(take_vec(&mut self.articles)));
            }
            self.next = self.first;
            self.phase = ReadPhase::AwaitingArticle;
            Step::Exchange { command: article_command(self.next), read: ReplyRead::SingleLine }
        } else if starts_with(reply, "220") {
            self.phase = ReadPhase::ReadingArticle;
            self.current = Article { header: String::new(), body: String::new() };
            self.in_header = true;
            proof {
                self.lines@ = Seq::empty();
            }
            Step::NextLine
        } else {
            proof {
                let o = self.outcomes@.push(None);
                assert(o.drop_last() =~= self.outcomes@);
                self.outcomes@ = o;
            }
            self.advance()
        }
    }

    /// Takes a line of the article being read. The terminating line ends the article,
    /// which is kept, and moves past it in the range; any other line has its leading
    /// `.` undoubled: the first empty line switches from the header to the body and
    /// is not kept, every other line goes to the header or the body.
    pub fn on_line(&mut self, line: &str) -> (r: Step<Vec<Article>>)
        requires
            old(self).wf(),
            old(self).phase == ReadPhase::ReadingArticle,
        ensures
            final(self).wf(),
            (final(self).model(), read_action_of(r)) == read_on_line(old(self).model(), line@),
            final(self).first == old(self).first,
            final(self).last == old(self).last,
            line@ != terminator() ==> {
                &&& final(self).phase == ReadPhase::ReadingArticle
                &&& r is NextLine
                &&& final(self).next == old(self).next
                &&& final(self).outcomes@ == old(self).outcomes@
                &&& final(self).lines@ == old(self).lines@.push(unstuff(line@))
            },
            line@ == terminator() ==> {
                &&& final(self).outcomes@ == old(self).outcomes@.push(Some(old(self).lines@))
                &&& old(self).next == old(self).last ==> {
                    &&& final(self).phase == ReadPhase::Done
                    &&& r matches Step::Finished(Ok(articles))
                    &&& article_models(articles@) == kept_articles(final(self).outcomes@)
                    &&& final(self).outcomes@.len() == range_len(old(self).first, old(self).last)
                    &&& articles@.len() <= range_len(old(self).first, old(self).last)
                }
                &&& old(self).next < old(self).last ==> {
                    &&& final(self).phase == ReadPhase::AwaitingArticle
                    &&& final(self).next == old(self).next + 1
                    &&& sends_then_reads_line(r, "ARTICLE "@ + decimal_spec(final(self).next as nat) + crlf())
                }
            },
    {
        if is_terminator(line) {
            let header: String = take_string(&mut self.current.header);
            let body: String = take_string(&mut self.current.body);
            let ghost done_lines = self.lines@;
            self.articles.push(Article { header, body });
            proof {
                let o = self.outcomes@.push(Some(done_lines));
                assert(o.drop_last() =~= self.outcomes@);
                assert(article_models(self.articles@) =~= article_models(old(self).articles@).push(
                    (header_text(done_lines), body_text(done_lines)),
                ));
                self.outcomes@ = o;
            }
            return self.advance();
        }
        let kept: String = unstuff_line(line);
        let ghost before = self.lines@;
        let ghost ls = before.push(kept@);
        proof {
            reveal_strlit("\r\n");
            assert("\r\n"@ =~= blank_line());
            assert(ls.drop_last() =~= before);
            assert(ls.contains(blank_line()) == (before.contains(blank_line()) || kept@ == blank_line())) by {
                if ls.contains(blank_line()) {
                    let k = choose|k: int| 0 <= k < ls.len() && ls[k] == blank_line();
                    if k < before.len() {
                        assert(before[k] == blank_line());
                    }
                }
                if before.contains(blank_line()) {
                    let k = choose|k: int| 0 <= k < before.len() && before[k] == blank_line();
                    assert(ls[k] == blank_line());
                }
                if kept@ == blank_line() {
                    assert(ls[before.len() as int] == blank_line());
                }
            }
        }
        if self.in_header {
            if same_text(kept.as_str(), "\r\n") {
                self.in_header = false;
            } else {
                self.current.header.append(kept.as_str());
            }
        } else {
            self.current.body.append(kept.as_str());
        }
        proof {
            self.lines@ = ls;
        }
        Step::NextLine
    }
}

} // verus!
