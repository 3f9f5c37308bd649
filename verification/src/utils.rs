//! Reply handling shared by all commands: turning a received line into text, and
//! waiting for a reply line that starts with one of the expected status codes.
use vstd::prelude::*;
use vstd::utf8::{decode_utf8, valid_utf8};
use crate::text::starts_with;

verus! {

/// The text that `String::from_utf8_lossy` makes of `bytes`.
pub uninterp spec fn lossy_utf8(bytes: Seq<u8>) -> Seq<char>;

/// `String::from_utf8_lossy`, made owned. Its result is named `lossy_utf8`; as
/// the documentation says, bytes that are valid UTF-8 are decoded unchanged. What
/// it makes of invalid sequences (U+FFFD in their place) is left unsaid.
#[verifier::external_body]
fn from_utf8_lossy(bytes: &[u8]) -> (s: String)
    ensures
        s@ == lossy_utf8(bytes@),
        valid_utf8(bytes@) ==> s@ == decode_utf8(bytes@),
{
    String::from_utf8_lossy(bytes).into_owned()
}

/// The text of a line received from the server (`read_line_with_timeout`), with
/// invalid UTF-8 replaced.
pub fn decode_line(bytes: &[u8]) -> (s: String)
    ensures
        s@ == lossy_utf8(bytes@),
        valid_utf8(bytes@) ==> s@ == decode_utf8(bytes@),
{
    from_utf8_lossy(bytes)
}

/// The character views of a list of strings.
pub open spec fn views_of(v: Seq<String>) -> Seq<Seq<char>> {
    v.map_values(|s: String| s@)
}

/// Whether `line` starts with one of `prefixes`.
pub open spec fn has_any_prefix(line: Seq<char>, prefixes: Seq<Seq<char>>) -> bool {
    exists|i: int| 0 <= i < prefixes.len() && #[trigger] prefixes[i].is_prefix_of(line)
}

/// Whether `line` starts with one of `prefixes`.
pub fn starts_with_any(line: &str, prefixes: &Vec<String>) -> (b: bool)
    ensures
        b == has_any_prefix(line@, views_of(prefixes@)),
{
    let mut i: usize = 0;
    while i < prefixes.len()
        invariant
            i <= prefixes.len(),
            forall|j: int| 0 <= j < i ==> !(#[trigger] views_of(prefixes@)[j]).is_prefix_of(line@),
        decreases prefixes.len() - i,
    {
        if starts_with(line, prefixes[i].as_str()) {
            assert(views_of(prefixes@)[i as int].is_prefix_of(line@));
            return true;
        }
        i = i + 1;
    }
    false
}

/// The position of the first of `lines` that starts with one of `prefixes`, or the
/// number of lines when none does.
pub open spec fn first_reply_index(lines: Seq<Seq<char>>, prefixes: Seq<Seq<char>>) -> nat
    decreases lines.len(),
{
    if lines.len() == 0 {
        0
    } else if has_any_prefix(lines[0], prefixes) {
        0
    } else {
        1 + first_reply_index(lines.drop_first(), prefixes)
    }
}

/// What waiting for a reply starting with one of `prefixes`, reading at most `max`
/// lines, makes of the lines `lines` read so far: `Some(Some(reply))` when the reply
/// is the first matching line among the first `max`, `Some(None)` when `max` lines
/// were read and none matched, and `None` while more lines are to be read.
pub open spec fn wait_outcome(lines: Seq<Seq<char>>, prefixes: Seq<Seq<char>>, max: nat) -> Option<Option<Seq<char>>> {
    let i = first_reply_index(lines, prefixes);
    if i < lines.len() && i < max {
        Some(Some(lines[i as int]))
    } else if lines.len() >= max {
        Some(None)
    } else {
        None
    }
}

proof fn lemma_first_reply_index(lines: Seq<Seq<char>>, prefixes: Seq<Seq<char>>, k: int)
    requires
        0 <= k <= lines.len(),
        forall|j: int| 0 <= j < k ==> !has_any_prefix(#[trigger] lines[j], prefixes),
        k < lines.len() ==> has_any_prefix(lines[k], prefixes),
    ensures
        first_reply_index(lines, prefixes) == k,
    decreases k,
{
    if k > 0 {
        let t = lines.drop_first();
        assert forall|j: int| 0 <= j < k - 1 implies !has_any_prefix(#[trigger] t[j], prefixes) by {
            assert(t[j] == lines[j + 1]);
        }
        assert(!has_any_prefix(lines[0], prefixes));
        lemma_first_reply_index(t, prefixes, k - 1);
    }
}

proof fn lemma_first_reply_index_matches(lines: Seq<Seq<char>>, prefixes: Seq<Seq<char>>)
    ensures
        first_reply_index(lines, prefixes) <= lines.len(),
        first_reply_index(lines, prefixes) < lines.len() ==> has_any_prefix(
            lines[first_reply_index(lines, prefixes) as int],
            prefixes,
        ),
        forall|j: int| 0 <= j < first_reply_index(lines, prefixes) ==> !has_any_prefix(#[trigger] lines[j], prefixes),
    decreases lines.len(),
{
    if lines.len() > 0 && !has_any_prefix(lines[0], prefixes) {
        let t = lines.drop_first();
        lemma_first_reply_index_matches(t, prefixes);
        assert forall|j: int| 0 <= j < first_reply_index(lines, prefixes) implies !has_any_prefix(#[trigger] lines[j], prefixes) by {
            if j > 0 {
                assert(lines[j] == t[j - 1]);
            }
        }
    }
}

/// A wait gives a reply exactly when one of the first `max` lines starts with an
/// expected prefix, and the reply it gives starts with one.
pub proof fn lemma_wait_gives_reply(lines: Seq<Seq<char>>, prefixes: Seq<Seq<char>>, max: nat)
    ensures
        (wait_outcome(lines, prefixes, max) matches Some(Some(r))) <==> exists|i: int|
            0 <= i < lines.len() && i < max && #[trigger] has_any_prefix(lines[i], prefixes),
        wait_outcome(lines, prefixes, max) matches Some(Some(r)) ==> has_any_prefix(r, prefixes),
{
    lemma_first_reply_index_matches(lines, prefixes);
    let k = first_reply_index(lines, prefixes);
    if exists|i: int| 0 <= i < lines.len() && i < max && #[trigger] has_any_prefix(lines[i], prefixes) {
        let i = choose|i: int| 0 <= i < lines.len() && i < max && #[trigger] has_any_prefix(lines[i], prefixes);
        assert(k <= i);
    }
}

/// What to do next while waiting for a reply.
#[derive(Debug)]
pub enum WaitStep {
    /// Read another line (within the timeout) and hand it over.
    ReadLine,
    /// This line is the reply.
    Accepted(String),
    /// The allowed number of lines was read and none was the reply.
    GaveUp,
}

/// `wait_for_response`: reads up to `max_attempts` lines and takes the first one
/// that starts with one of the expected prefixes.
pub struct ResponseWait {
    pub expected: Vec<String>,
    pub max_attempts: u8,
    pub attempts: u8,
    /// The lines read so far.
    pub seen: Ghost<Seq<Seq<char>>>,
}

impl ResponseWait {
    /// The prefixes that mark the reply.
    pub open spec fn prefixes(&self) -> Seq<Seq<char>> {
        views_of(self.expected@)
    }

    /// Whether the `j`-th line read was the reply.
    pub open spec fn is_reply(&self, j: int) -> bool {
        has_any_prefix(self.seen@[j], self.prefixes())
    }

    /// The bookkeeping agrees: one attempt per line read, no more than allowed, and
    /// only the last line read may have been the reply.
    pub open spec fn wf(&self) -> bool {
        &&& self.seen@.len() == self.attempts
        &&& self.attempts <= self.max_attempts
        &&& forall|j: int| 0 <= j < self.seen@.len() - 1 ==> !self.is_reply(j)
    }

    /// Whether another line is to be read.
    pub open spec fn awaiting(&self) -> bool {
        &&& self.attempts < self.max_attempts
        &&& forall|j: int| 0 <= j < self.seen@.len() ==> !self.is_reply(j)
    }

    /// Starts waiting; the first step is to read a line, unless no attempt is allowed.
    pub fn new(expected: Vec<String>, max_attempts: u8) -> (r: (ResponseWait, WaitStep))
        ensures
            r.0.wf(),
            r.0.expected@ == expected@,
            r.0.max_attempts == max_attempts,
            r.0.seen@ == Seq::<Seq<char>>::empty(),
            r.0.awaiting() == (max_attempts > 0),
            r.1 is ReadLine <==> max_attempts > 0,
            r.1 is GaveUp <==> max_attempts == 0,
            r.1 is GaveUp <==> wait_outcome(Seq::empty(), views_of(expected@), max_attempts as nat)
                == Some(None::<Seq<char>>),
    {
        let w = ResponseWait { expected, max_attempts, attempts: 0, seen: Ghost(Seq::empty()) };
        if max_attempts > 0 {
            (w, WaitStep::ReadLine)
        } else {
            (w, WaitStep::GaveUp)
        }
    }

    /// Takes the next line read. It is the reply when it starts with an expected
    /// prefix; otherwise another line is read while attempts remain. Over the whole
    /// wait, each step is what `wait_outcome` makes of the lines read so far.
    pub fn on_line(&mut self, line: String) -> (r: WaitStep)
        requires
            old(self).wf(),
            old(self).awaiting(),
        ensures
            final(self).wf(),
            final(self).expected@ == old(self).expected@,
            final(self).max_attempts == old(self).max_attempts,
            final(self).seen@ == old(self).seen@.push(line@),
            match r {
                WaitStep::Accepted(reply) => {
                    &&& reply@ == line@
                    &&& has_any_prefix(line@, old(self).prefixes())
                },
                WaitStep::GaveUp => {
                    &&& !has_any_prefix(line@, old(self).prefixes())
                    &&& final(self).attempts == final(self).max_attempts
                },
                WaitStep::ReadLine => {
                    &&& !has_any_prefix(line@, old(self).prefixes())
                    &&& final(self).awaiting()
                },
            },
            match r {
                WaitStep::Accepted(reply) => wait_outcome(final(self).seen@, old(self).prefixes(), old(self).max_attempts as nat) == Some(Some(reply@)),
                WaitStep::GaveUp => wait_outcome(final(self).seen@, old(self).prefixes(), old(self).max_attempts as nat) == Some(None::<Seq<char>>),
                WaitStep::ReadLine => wait_outcome(final(self).seen@, old(self).prefixes(), old(self).max_attempts as nat) is None,
            },
    {
        let hit: bool = starts_with_any(line.as_str(), &self.expected);
        let ghost before = self.seen@;
        self.attempts = self.attempts + 1;
        proof {
            self.seen@ = self.seen@.push(line@);
            assert forall|j: int| 0 <= j < before.len() implies !self.is_reply(j) by {
                assert(self.seen@[j] == before[j]);
                assert(!old(self).is_reply(j));
            }
            assert(self.seen@[before.len() as int] == line@);
            assert forall|j: int| 0 <= j < before.len() implies !has_any_prefix(#[trigger] self.seen@[j], self.prefixes()) by {
                assert(!self.is_reply(j));
            }
            if hit {
                lemma_first_reply_index(self.seen@, self.prefixes(), before.len() as int);
            } else {
                lemma_first_reply_index(self.seen@, self.prefixes(), self.seen@.len() as int);
            }
        }
        if hit {
            WaitStep::Accepted(line)
        } else if self.attempts == self.max_attempts {
            WaitStep::GaveUp
        } else {
            WaitStep::ReadLine
        }
    }
}

/// A reply is the first line, among at most `max_attempts` lines read, that starts
/// with an expected prefix: when the wait accepts a line, that line is the last one
/// read, every earlier one lacked all the expected prefixes, and no more lines than
/// allowed were read.
pub proof fn lemma_reply_is_first_match(w: ResponseWait)
    requires
        w.wf(),
        w.seen@.len() > 0,
        w.is_reply(w.seen@.len() - 1),
    ensures
        w.seen@.len() <= w.max_attempts,
        forall|j: int| 0 <= j < w.seen@.len() - 1 ==> !has_any_prefix(w.seen@[j], w.prefixes()),
{
    assert forall|j: int| 0 <= j < w.seen@.len() - 1 implies !has_any_prefix(w.seen@[j], w.prefixes()) by {
        assert(!w.is_reply(j));
    }
}

} // verus!
