//! The steps of an exchange with the server. Each command is a small state machine:
//! it says what to send and how to read the reply, takes the reply and the lines
//! that follow it, and finally hands back a result. The caller performs the I/O.
use vstd::prelude::*;
use crate::error::NntpError;
use crate::text::{chars_of, push_char, same_text, string_of_range};
use crate::utils::views_of;

verus! {

/// How the reply to a command is read.
#[derive(Debug)]
pub enum ReplyRead {
    /// Lines are read, each within `timeout_secs` seconds, until one starts with one
    /// of `expected`, at most `max_attempts` lines (see `ResponseWait`).
    Awaited { expected: Vec<String>, timeout_secs: u64, max_attempts: u8 },
    /// Exactly one line is read.
    SingleLine,
}

/// What the caller does next.
#[derive(Debug)]
pub enum Step<T> {
    /// Write `command`, flush, then read the reply as `read` says and hand it to
    /// `on_reply`.
    Exchange { command: String, read: ReplyRead },
    /// Read the next line of a multi-line block and hand it to `on_line`.
    NextLine,
    /// The exchange is over.
    Finished(Result<T, NntpError>),
}

/// `read` waits for a line that starts with one of `codes`, each line within
/// `timeout` seconds, reading at most `attempts` lines.
pub open spec fn awaits(read: ReplyRead, codes: Seq<Seq<char>>, timeout: u64, attempts: u8) -> bool {
    &&& read matches ReplyRead::Awaited { expected, timeout_secs, max_attempts }
    &&& views_of(expected@) == codes
    &&& timeout_secs == timeout
    &&& max_attempts == attempts
}

/// `step` sends `command` and reads the reply as a single line.
pub open spec fn sends_then_reads_line<T>(step: Step<T>, command: Seq<char>) -> bool {
    &&& step matches Step::Exchange { command: c, read }
    &&& c@ == command
    &&& read is SingleLine
}

/// `step` sends `command` and waits for a reply starting with one of `codes`.
pub open spec fn sends_then_awaits<T>(
    step: Step<T>,
    command: Seq<char>,
    codes: Seq<Seq<char>>,
    timeout: u64,
    attempts: u8,
) -> bool {
    &&& step matches Step::Exchange { command: c, read }
    &&& c@ == command
    &&& awaits(read, codes, timeout, attempts)
}

/// Wait for a reply starting with `code`.
pub fn await_code(code: &str, timeout: u64, attempts: u8) -> (r: ReplyRead)
    ensures
        awaits(r, seq![code@], timeout, attempts),
{
    let expected: Vec<String> = vec![String::from_str(code)];
    assert(views_of(expected@) =~= seq![code@]);
    ReplyRead::Awaited { expected, timeout_secs: timeout, max_attempts: attempts }
}

/// Wait for a reply starting with `first` or `second`.
pub fn await_codes(first: &str, second: &str, timeout: u64, attempts: u8) -> (r: ReplyRead)
    ensures
        awaits(r, seq![first@, second@], timeout, attempts),
{
    let expected: Vec<String> = vec![String::from_str(first), String::from_str(second)];
    assert(views_of(expected@) =~= seq![first@, second@]);
    ReplyRead::Awaited { expected, timeout_secs: timeout, max_attempts: attempts }
}

/// The article range asked for: the one given, or articles 1 to 10.
pub open spec fn range_or_default(range: Option<(u32, u32)>) -> (u32, u32) {
    match range {
        Some(r) => r,
        None => (1, 10),
    }
}

/// The line that ends a multi-line block: a single dot.
pub open spec fn terminator() -> Seq<char> {
    seq!['.', '\r', '\n']
}

/// Whether `line` is exactly the terminating `.` line.
pub fn is_terminator(line: &str) -> (b: bool)
    ensures
        b == (line@ == terminator()),
{
    proof {
        reveal_strlit(".\r\n");
        assert(".\r\n"@ =~= terminator());
    }
    same_text(line, ".\r\n")
}

/// A line of a multi-line block as the server meant it: the server doubles a
/// leading `.` (RFC 3977, section 3.1.1), so a line that starts with `.` and is not
/// the terminating line loses its first character.
pub open spec fn unstuff(line: Seq<char>) -> Seq<char> {
    if line.len() > 0 && line[0] == '.' {
        line.drop_first()
    } else {
        line
    }
}

/// Undoes the doubling of a leading `.` on a line of a multi-line block.
pub fn unstuff_line(line: &str) -> (r: String)
    ensures
        r@ == unstuff(line@),
{
    let cs: Vec<char> = chars_of(line);
    if cs.len() > 0 && cs[0] == '.' {
        assert(cs@.subrange(1, cs@.len() as int) =~= line@.drop_first());
        string_of_range(&cs, 1, cs.len())
    } else {
        assert(cs@.subrange(0, cs@.len() as int) =~= line@);
        string_of_range(&cs, 0, cs.len())
    }
}

/// Text as sent in a multi-line block: a `.` that begins a line (at the start of the
/// text or after a `\n`) is doubled (RFC 3977, section 3.1.1), so that no line of the
/// text can end the block.
pub open spec fn dot_stuff_spec(s: Seq<char>) -> Seq<char>
    decreases s.len(),
{
    if s.len() == 0 {
        Seq::empty()
    } else {
        let p = s.drop_last();
        if s.last() == '.' && (p.len() == 0 || p.last() == '\n') {
            dot_stuff_spec(p) + seq!['.', '.']
        } else {
            dot_stuff_spec(p).push(s.last())
        }
    }
}

/// Doubles every `.` that begins a line of `s`.
pub fn dot_stuff(s: &str) -> (r: String)
    ensures
        r@ == dot_stuff_spec(s@),
{
    let cs: Vec<char> = chars_of(s);
    let mut r: String = String::new();
    let mut i: usize = 0;
    assert(cs@.take(0) =~= Seq::<char>::empty());
    while i < cs.len()
        invariant
            i <= cs.len(),
            cs@ == s@,
            r@ == dot_stuff_spec(cs@.take(i as int)),
        decreases cs.len() - i,
    {
        let c: char = cs[i];
        let ghost t = cs@.take(i + 1);
        assert(t.drop_last() =~= cs@.take(i as int));
        assert(t.last() == c);
        if c == '.' && (i == 0 || cs[i - 1] == '\n') {
            r.append("..");
            proof {
                reveal_strlit("..");
                assert(".."@ =~= seq!['.', '.']);
            }
        } else {
            push_char(&mut r, c);
        }
        i = i + 1;
    }
    assert(cs@.take(cs@.len() as int) =~= s@);
    r
}

proof fn lemma_dot_stuff_single_line(s: Seq<char>)
    requires
        s.len() > 0,
        forall|i: int| 0 <= i < s.len() - 1 ==> #[trigger] s[i] != '\n',
    ensures
        dot_stuff_spec(s) == if s[0] == '.' {
            seq!['.'] + s
        } else {
            s
        },
    decreases s.len(),
{
    let p = s.drop_last();
    if s.len() == 1 {
        assert(p.len() == 0);
        assert(dot_stuff_spec(p) =~= Seq::<char>::empty());
        if s[0] == '.' {
            assert(Seq::<char>::empty() + seq!['.', '.'] =~= seq!['.'] + s);
        } else {
            assert(Seq::<char>::empty().push(s.last()) =~= s);
        }
    } else {
        assert forall|i: int| 0 <= i < p.len() - 1 implies #[trigger] p[i] != '\n' by {
            assert(p[i] == s[i]);
        }
        lemma_dot_stuff_single_line(p);
        assert(p.last() == s[s.len() - 2]);
        assert(p[0] == s[0]);
        if s[0] == '.' {
            assert((seq!['.'] + p).push(s.last()) =~= seq!['.'] + s);
        } else {
            assert(p.push(s.last()) =~= s);
        }
    }
}

/// What a posted line reads back as: a line `l` (holding no line break) sent with its
/// leading dot doubled and a CRLF is never taken for the terminating line, and
/// undoubling it gives `l` and the CRLF back.
pub proof fn lemma_stuffed_line_reads_back(l: Seq<char>)
    requires
        forall|i: int| 0 <= i < l.len() ==> #[trigger] l[i] != '\n',
    ensures
        dot_stuff_spec(l + seq!['\r', '\n']) != terminator(),
        unstuff(dot_stuff_spec(l + seq!['\r', '\n'])) == l + seq!['\r', '\n'],
{
    let s = l + seq!['\r', '\n'];
    assert forall|i: int| 0 <= i < s.len() - 1 implies #[trigger] s[i] != '\n' by {
        if i < l.len() {
            assert(s[i] == l[i]);
        }
    }
    lemma_dot_stuff_single_line(s);
    if s[0] == '.' {
        assert((seq!['.'] + s).drop_first() =~= s);
        assert((seq!['.'] + s).len() >= 4);
    } else {
        assert(s.len() == 2 ==> s[0] == '\r');
    }
}

/// The concatenation of `lines`, in order.
pub open spec fn concat_lines(lines: Seq<Seq<char>>) -> Seq<char>
    decreases lines.len(),
{
    if lines.len() == 0 {
        Seq::empty()
    } else {
        concat_lines(lines.drop_last()) + lines.last()
    }
}

/// Appending a line to a concatenation.
pub proof fn lemma_concat_push(lines: Seq<Seq<char>>, line: Seq<char>)
    ensures
        concat_lines(lines.push(line)) == concat_lines(lines) + line,
{
    assert(lines.push(line).drop_last() =~= lines);
}

/// Moves the text out of `s`, leaving it empty.
pub fn take_string(s: &mut String) -> (r: String)
    ensures
        r@ == old(s)@,
        final(s)@ == Seq::<char>::empty(),
{
    let mut r: String = String::new();
    core::mem::swap(s, &mut r);
    r
}

/// Moves the items out of `v`, leaving it empty.
pub fn take_vec<T>(v: &mut Vec<T>) -> (r: Vec<T>)
    ensures
        r@ == old(v)@,
        final(v)@ == Seq::<T>::empty(),
{
    let mut r: Vec<T> = Vec::new();
    core::mem::swap(v, &mut r);
    r
}

/// The text a block made of `lines` (the terminating line not among them) carries:
/// the lines, each with its leading `.` undoubled, concatenated.
pub open spec fn block_text(lines: Seq<Seq<char>>) -> Seq<char> {
    concat_lines(lines.map_values(|l: Seq<char>| unstuff(l)))
}

/// Taking one more line adds its undoubled text.
pub proof fn lemma_block_text_push(lines: Seq<Seq<char>>, line: Seq<char>)
    ensures
        block_text(lines.push(line)) == block_text(lines) + unstuff(line),
{
    assert(lines.push(line).map_values(|l: Seq<char>| unstuff(l)) =~= lines.map_values(
        |l: Seq<char>| unstuff(l),
    ).push(unstuff(line)));
    lemma_concat_push(lines.map_values(|l: Seq<char>| unstuff(l)), unstuff(line));
}

/// The text of a multi-line block: the lines before the terminating `.` line, each
/// with its leading `.` undoubled, concatenated with their line endings.
pub struct TextBlock {
    pub text: String,
    /// The lines received so far, as they came.
    pub lines: Ghost<Seq<Seq<char>>>,
}

impl TextBlock {
    /// The text is what the lines received carry.
    pub open spec fn wf(&self) -> bool {
        self.text@ == block_text(self.lines@)
    }

    /// An empty block.
    pub fn new() -> (b: TextBlock)
        ensures
            b.wf(),
            b.lines@ == Seq::<Seq<char>>::empty(),
    {
        assert(Seq::<Seq<char>>::empty().map_values(|l: Seq<char>| unstuff(l)) =~= Seq::<Seq<char>>::empty());
        TextBlock { text: String::new(), lines: Ghost(Seq::empty()) }
    }

    /// Takes a line; returns whether it was the terminating line, which is not kept.
    /// Any other line is kept with its leading `.` undoubled.
    pub fn add_line(&mut self, line: &str) -> (end: bool)
        requires
            old(self).wf(),
        ensures
            final(self).wf(),
            end == (line@ == terminator()),
            end ==> final(self).lines@ == old(self).lines@,
            !end ==> final(self).lines@ == old(self).lines@.push(line@),
    {
        if is_terminator(line) {
            return true;
        }
        let kept: String = unstuff_line(line);
        self.text.append(kept.as_str());
        proof {
            lemma_block_text_push(self.lines@, line@);
            self.lines@ = self.lines@.push(line@);
        }
        false
    }
}

/// Where a command that answers with a multi-line block stands.
#[derive(Debug, PartialEq, Eq, Structural)]
pub enum BlockPhase {
    /// The command was sent; its status reply is awaited.
    AwaitingReply,
    /// The block is being read.
    Reading,
    /// The exchange is over.
    Done,
}

} // verus!
