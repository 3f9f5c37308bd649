//! Listing the available newsgroups with `LIST`.
use vstd::prelude::*;
use crate::command::{crlf, list_command};
use crate::error::NntpError;
use crate::session::{await_code, sends_then_awaits, take_vec, BlockPhase, Step};
use crate::text::{
    decimal_spec, fields_spec, is_word, lemma_decimal_is_word, lemma_fields_of_word, lemma_fields_of_word_then,
    lemma_parse_decimal_roundtrip, parse_u64, parse_unsigned_spec, split_fields, starts_with, NumberError,
};
use crate::utils::{decode_line, lossy_utf8};

verus! {

/// A newsgroup as `LIST` describes it.
#[derive(Debug)]
pub struct Newsgroup {
    pub name: String,
    pub high: u64,
    pub low: u64,
    pub status: String,
}

impl Newsgroup {
    /// The name, the highest and lowest article numbers, and the status.
    pub open spec fn model(&self) -> (Seq<char>, nat, nat, Seq<char>) {
        (self.name@, self.high as nat, self.low as nat, self.status@)
    }
}

/// The entry a `LIST` line describes: it needs at least four whitespace-separated
/// fields, the name, the highest number, the lowest number and the status (further
/// fields are ignored). A line with fewer fields describes nothing; a number that is
/// not an unsigned 64-bit integer is an error, the highest number checked first.
pub open spec fn list_entry_spec(line: Seq<char>) -> Option<
    Result<(Seq<char>, nat, nat, Seq<char>), NumberError>,
> {
    let f = fields_spec(line);
    if f.len() < 4 {
        None
    } else {
        match parse_unsigned_spec(f[1], u64::MAX as nat) {
            Err(e) => Some(Err(e)),
            Ok(high) => match parse_unsigned_spec(f[2], u64::MAX as nat) {
                Err(e) => Some(Err(e)),
                Ok(low) => Some(Ok((f[0], high, low, f[3]))),
            },
        }
    }
}

/// Reads one line of a `LIST` reply (without its line ending).
pub fn parse_list_line(line: &str) -> (r: Option<Result<Newsgroup, NumberError>>)
    ensures
        match r {
            None => list_entry_spec(line@) is None,
            Some(Ok(g)) => list_entry_spec(line@) == Some(
                Ok::<(Seq<char>, nat, nat, Seq<char>), NumberError>(g.model()),
            ),
            Some(Err(e)) => list_entry_spec(line@) == Some(
                Err::<(Seq<char>, nat, nat, Seq<char>), NumberError>(e),
            ),
        },
{
    let parts: Vec<String> = split_fields(line);
    if parts.len() < 4 {
        return None;
    }
    assert(parts@[1]@ == fields_spec(line@)[1]);
    assert(parts@[2]@ == fields_spec(line@)[2]);
    let high: u64 = match parse_u64(parts[1].as_str()) {
        Ok(v) => v,
        Err(e) => return Some(Err(e)),
    };
    let low: u64 = match parse_u64(parts[2].as_str()) {
        Ok(v) => v,
        Err(e) => return Some(Err(e)),
    };
    assert(parts@[0]@ == fields_spec(line@)[0]);
    assert(parts@[3]@ == fields_spec(line@)[3]);
    Some(Ok(Newsgroup { name: parts[0].clone(), high, low, status: parts[3].clone() }))
}

/// `buf` without one trailing LF and then without one trailing CR.
pub open spec fn strip_line_ending(buf: Seq<u8>) -> Seq<u8> {
    let b = if buf.len() > 0 && buf.last() == 10 {
        buf.drop_last()
    } else {
        buf
    };
    if b.len() > 0 && b.last() == 13 {
        b.drop_last()
    } else {
        b
    }
}

/// Whether a raw `LIST` line ends the listing: end of input (nothing read), or the
/// terminating `.` line with either line ending.
pub open spec fn ends_listing(buf: Seq<u8>) -> bool {
    ||| buf.len() == 0
    ||| buf == seq![46u8, 13u8, 10u8]
    ||| buf == seq![46u8, 10u8]
}

fn strip_line_ending_exec(buf: &[u8]) -> (r: Vec<u8>)
    ensures
        r@ == strip_line_ending(buf@),
{
    let mut n: usize = buf.len();
    if n > 0 && buf[n - 1] == 10 {
        n = n - 1;
    }
    if n > 0 && buf[n - 1] == 13 {
        n = n - 1;
    }
    let mut r: Vec<u8> = Vec::new();
    let mut i: usize = 0;
    while i < n
        invariant
            n <= buf.len(),
            i <= n,
            r@ == buf@.subrange(0, i as int),
        decreases n - i,
    {
        r.push(buf[i]);
        assert(buf@.subrange(0, i + 1) =~= buf@.subrange(0, i as int).push(buf@[i as int]));
        i = i + 1;
    }
    assert(r@ =~= strip_line_ending(buf@));
    r
}

fn ends_listing_exec(buf: &[u8]) -> (b: bool)
    ensures
        b == ends_listing(buf@),
{
    if buf.len() == 0 {
        return true;
    }
    if buf.len() == 3 && buf[0] == 46 && buf[1] == 13 && buf[2] == 10 {
        assert(buf@ =~= seq![46u8, 13u8, 10u8]);
        return true;
    }
    if buf.len() == 2 && buf[0] == 46 && buf[1] == 10 {
        assert(buf@ =~= seq![46u8, 10u8]);
        return true;
    }
    assert(buf@ != seq![46u8, 13u8, 10u8] && buf@ != seq![46u8, 10u8]) by {
        if buf@ == seq![46u8, 13u8, 10u8] {
            assert(buf@.len() == 3 && buf@[0] == 46 && buf@[1] == 13 && buf@[2] == 10);
        }
        if buf@ == seq![46u8, 10u8] {
            assert(buf@.len() == 2 && buf@[0] == 46 && buf@[1] == 10);
        }
    }
    false
}

/// A raw line of a multi-line block without the doubling of its leading `.`.
pub open spec fn unstuff_bytes(buf: Seq<u8>) -> Seq<u8> {
    if buf.len() > 0 && buf[0] == 46 {
        buf.drop_first()
    } else {
        buf
    }
}

fn unstuff_bytes_exec(buf: &[u8]) -> (r: &[u8])
    ensures
        r@ == unstuff_bytes(buf@),
{
    if buf.len() > 0 && buf[0] == 46 {
        let r: &[u8] = vstd::slice::slice_subrange(buf, 1, buf.len());
        assert(r@ =~= buf@.drop_first());
        r
    } else {
        buf
    }
}

/// What a raw `LIST` line that does not end the listing describes: the line with its
/// leading `.` undoubled and its line ending removed, read as text (invalid UTF-8
/// replaced).
pub open spec fn list_line_entry(buf: Seq<u8>) -> Option<Result<(Seq<char>, nat, nat, Seq<char>), NumberError>> {
    list_entry_spec(lossy_utf8(strip_line_ending(unstuff_bytes(buf))))
}

/// The newsgroups a listing made of `bufs` (the ending line not among them)
/// describes, one per line that describes one, in order.
pub open spec fn list_listing(bufs: Seq<Seq<u8>>) -> Seq<(Seq<char>, nat, nat, Seq<char>)>
    decreases bufs.len(),
{
    if bufs.len() == 0 {
        Seq::empty()
    } else {
        match list_line_entry(bufs.last()) {
            Some(Ok(m)) => list_listing(bufs.drop_last()).push(m),
            _ => list_listing(bufs.drop_last()),
        }
    }
}

/// The descriptions of `groups`.
pub open spec fn models_of(groups: Seq<Newsgroup>) -> Seq<(Seq<char>, nat, nat, Seq<char>)> {
    groups.map_values(|g: Newsgroup| g.model())
}

/// `list_newsgroups`: sends `LIST`, expects a 215 reply, then reads raw lines up to
/// the terminating `.` line or the end of input, collecting one newsgroup per
/// well-formed line; a bad number ends it with an error.
pub struct ListSession {
    pub phase: BlockPhase,
    pub groups: Vec<Newsgroup>,
    /// The raw lines of the listing received so far.
    pub lines: Ghost<Seq<Seq<u8>>>,
}

impl ListSession {
    /// The newsgroups collected are those the lines received describe, and none of
    /// those lines held a bad number.
    pub open spec fn wf(&self) -> bool {
        &&& models_of(self.groups@) == list_listing(self.lines@)
        &&& forall|k: int| 0 <= k < self.lines@.len() ==> !(#[trigger] list_line_entry(self.lines@[k]) matches Some(Err(_)))
    }

    /// Starts the exchange.
    pub fn start() -> (r: (ListSession, Step<Vec<Newsgroup>>))
        ensures
            r.0.phase == BlockPhase::AwaitingReply,
            r.0.wf(),
            r.0.lines@ == Seq::<Seq<u8>>::empty(),
            sends_then_awaits(r.1, "LIST"@ + crlf(), seq!["215"@], 5, 3),
    {
        let s = ListSession { phase: BlockPhase::AwaitingReply, groups: Vec::new(), lines: Ghost(Seq::empty()) };
        assert(models_of(s.groups@) =~= Seq::<(Seq<char>, nat, nat, Seq<char>)>::empty());
        (s, Step::Exchange { command: list_command(), read: await_code("215", 5, 3) })
    }

    /// Takes the status reply: the listing follows a 215 reply, any other fails.
    pub fn on_reply(&mut self, reply: &str) -> (r: Step<Vec<Newsgroup>>)
        requires
            old(self).phase == BlockPhase::AwaitingReply,
        ensures
            final(self).groups@ == old(self).groups@,
            final(self).lines@ == old(self).lines@,
            "215"@.is_prefix_of(reply@) ==> final(self).phase == BlockPhase::Reading && r is NextLine,
            !"215"@.is_prefix_of(reply@) ==> final(self).phase == BlockPhase::Done && r matches Step::Finished(
                Err(NntpError::ListFailed),
            ),
    {
        if starts_with(reply, "215") {
            self.phase = BlockPhase::Reading;
            Step::NextLine
        } else {
            self.phase = BlockPhase::Done;
            Step::Finished(Err(NntpError::ListFailed))
        }
    }

    /// Takes one raw line, line ending included (empty at the end of input). The
    /// listing ends at the end of input or the `.` line, with the newsgroups the
    /// lines received before it describe; a line that holds a bad number ends it with
    /// that error; any other line is taken.
    pub fn on_line(&mut self, buf: &[u8]) -> (r: Step<Vec<Newsgroup>>)
        requires
            old(self).phase == BlockPhase::Reading,
            old(self).wf(),
        ensures
            final(self).wf(),
            ends_listing(buf@) ==> {
                &&& final(self).phase == BlockPhase::Done
                &&& r matches Step::Finished(Ok(groups))
                &&& models_of(groups@) == list_listing(old(self).lines@)
            },
            !ends_listing(buf@) ==> match list_line_entry(buf@) {
                Some(Err(e)) => {
                    &&& final(self).phase == BlockPhase::Done
                    &&& r matches Step::Finished(Err(NntpError::InvalidNumber(k)))
                    &&& k == e
                },
                _ => {
                    &&& final(self).phase == BlockPhase::Reading
                    &&& r is NextLine
                    &&& final(self).lines@ == old(self).lines@.push(buf@)
                },
            },
    {
        if ends_listing_exec(buf) {
            self.phase = BlockPhase::Done;
            let groups: Vec<Newsgroup> = take_vec(&mut self.groups);
            proof {
                self.lines@ = Seq::empty();
            }
            assert(models_of(self.groups@) =~= Seq::<(Seq<char>, nat, nat, Seq<char>)>::empty());
            return Step::Finished(Ok(groups));
        }
        let unstuffed: &[u8] = unstuff_bytes_exec(buf);
        let stripped: Vec<u8> = strip_line_ending_exec(unstuffed);
        let line: String = decode_line(stripped.as_slice());
        let ghost lines2 = self.lines@.push(buf@);
        assert(lines2.drop_last() =~= self.lines@);
        match parse_list_line(line.as_str()) {
            None => {},
            Some(Ok(g)) => {
                self.groups.push(g);
                assert(models_of(self.groups@) =~= models_of(old(self).groups@).push(
                    self.groups@.last().model(),
                ));
            },
            Some(Err(e)) => {
                self.phase = BlockPhase::Done;
                return Step::Finished(Err(NntpError::InvalidNumber(e)));
            },
        }
        proof {
            assert forall|k: int| 0 <= k < lines2.len() implies !(#[trigger] list_line_entry(lines2[k]) matches Some(Err(_))) by {
                if k < self.lines@.len() {
                    assert(lines2[k] == self.lines@[k]);
                }
            }
            self.lines@ = lines2;
        }
        Step::NextLine
    }
}


/// Adding a line keeps every newsgroup described before it: appending a line that
/// describes a newsgroup appends that newsgroup to the listing, and appending any
/// other line leaves the listing unchanged.
pub proof fn lemma_list_listing_push(bufs: Seq<Seq<u8>>, buf: Seq<u8>)
    ensures
        match list_line_entry(buf) {
            Some(Ok(m)) => list_listing(bufs.push(buf)) == list_listing(bufs).push(m),
            _ => list_listing(bufs.push(buf)) == list_listing(bufs),
        },
{
    assert(bufs.push(buf).drop_last() =~= bufs);
}

/// The listing holds, in the order received, the newsgroup of each line that
/// describes one and nothing else; so it has as many entries as there are such lines.
pub proof fn lemma_list_listing_is_the_described_lines(bufs: Seq<Seq<u8>>)
    ensures
        list_listing(bufs) == bufs.filter_map(
            |b: Seq<u8>|
                match list_line_entry(b) {
                    Some(Ok(m)) => Some(m),
                    _ => None,
                },
        ),
        list_listing(bufs).len() == bufs.filter(|b: Seq<u8>| list_line_entry(b) matches Some(Ok(_))).len(),
    decreases bufs.len(),
{
    let entry = |b: Seq<u8>|
        match list_line_entry(b) {
            Some(Ok(m)) => Some(m),
            _ => None,
        };
    let describes = |b: Seq<u8>| list_line_entry(b) matches Some(Ok(_));
    if bufs.len() == 0 {
        reveal(Seq::filter);
    } else {
        let rest = bufs.drop_last();
        let last = bufs.last();
        lemma_list_listing_is_the_described_lines(rest);
        assert(rest.push(last) =~= bufs);
        rest.lemma_filter_push(last, describes);
        match list_line_entry(last) {
            Some(Ok(m)) => {
                assert(rest.filter_map(entry) + seq![m] =~= rest.filter_map(entry).push(m));
            },
            _ => {},
        }
    }
}


/// A line with at least four fields whose second and third fields are unsigned 64-bit
/// numbers always describes a newsgroup, whatever the two numbers are (an empty group
/// has its highest number below its lowest): its name and status are the first and
/// fourth fields, and its numbers are those two.
pub proof fn lemma_list_entry_of_numbers(line: Seq<char>, high: nat, low: nat)
    requires
        fields_spec(line).len() >= 4,
        parse_unsigned_spec(fields_spec(line)[1], u64::MAX as nat) == Ok::<nat, NumberError>(high),
        parse_unsigned_spec(fields_spec(line)[2], u64::MAX as nat) == Ok::<nat, NumberError>(low),
    ensures
        list_entry_spec(line) == Some(
            Ok::<(Seq<char>, nat, nat, Seq<char>), NumberError>(
                (fields_spec(line)[0], high, low, fields_spec(line)[3]),
            ),
        ),
{
}

/// A `LIST` line reads back as what it says: for a name and a status that are words
/// and any two unsigned 64-bit numbers, in either order, the line
/// `<name> <high> <low> <status>` describes exactly that newsgroup.
pub proof fn lemma_list_line_roundtrip(name: Seq<char>, high: nat, low: nat, status: Seq<char>)
    requires
        is_word(name),
        is_word(status),
        high <= u64::MAX,
        low <= u64::MAX,
    ensures
        list_entry_spec(
            name + seq![' '] + decimal_spec(high) + seq![' '] + decimal_spec(low) + seq![' '] + status,
        ) == Some(Ok::<(Seq<char>, nat, nat, Seq<char>), NumberError>((name, high, low, status))),
{
    let line = name + seq![' '] + decimal_spec(high) + seq![' '] + decimal_spec(low) + seq![' '] + status;
    let after_low = status;
    let after_high = decimal_spec(low) + seq![' '] + after_low;
    let after_name = decimal_spec(high) + seq![' '] + after_high;
    lemma_decimal_is_word(high);
    lemma_decimal_is_word(low);
    lemma_fields_of_word(status);
    lemma_fields_of_word_then(decimal_spec(low), after_low);
    lemma_fields_of_word_then(decimal_spec(high), after_high);
    lemma_fields_of_word_then(name, after_name);
    assert(line =~= name + seq![' '] + after_name);
    let f = fields_spec(line);
    assert(f =~= seq![name, decimal_spec(high), decimal_spec(low), status]);
    lemma_parse_decimal_roundtrip(high, u64::MAX as nat);
    lemma_parse_decimal_roundtrip(low, u64::MAX as nat);
}


/// A bad number on a line with at least four fields is reported, never skipped: a
/// highest number that is not an unsigned 64-bit value gives its error whatever the
/// lowest number is, and a good highest number with a bad lowest number gives the
/// lowest number's error.
pub proof fn lemma_list_entry_bad_number(line: Seq<char>)
    requires
        fields_spec(line).len() >= 4,
    ensures
        parse_unsigned_spec(fields_spec(line)[1], u64::MAX as nat) matches Err(e) ==> list_entry_spec(line)
            == Some(Err::<(Seq<char>, nat, nat, Seq<char>), NumberError>(e)),
        parse_unsigned_spec(fields_spec(line)[1], u64::MAX as nat) is Ok ==> (parse_unsigned_spec(
            fields_spec(line)[2],
            u64::MAX as nat,
        ) matches Err(e) ==> list_entry_spec(line) == Some(
            Err::<(Seq<char>, nat, nat, Seq<char>), NumberError>(e),
        )),
{
}

} // verus!
