//! Character-level text handling for protocol lines: whitespace (the Unicode
//! `White_Space` property, as `char::is_whitespace` uses it), trimming, prefix
//! tests, splitting into whitespace-separated fields and on a separator.
use vstd::prelude::*;

verus! {

/// The Unicode `White_Space` property.
pub open spec fn is_space(c: char) -> bool {
    let u = c as u32;
    ||| 9 <= u <= 13
    ||| u == 32
    ||| u == 0x85
    ||| u == 0xA0
    ||| u == 0x1680
    ||| 0x2000 <= u <= 0x200A
    ||| u == 0x2028
    ||| u == 0x2029
    ||| u == 0x202F
    ||| u == 0x205F
    ||| u == 0x3000
}

/// Whether `c` is a whitespace character.
pub fn is_space_char(c: char) -> (b: bool)
    ensures
        b == is_space(c),
{
    let u: u32 = c as u32;
    (9 <= u && u <= 13) || u == 32 || u == 0x85 || u == 0xA0 || u == 0x1680 || (0x2000 <= u && u
        <= 0x200A) || u == 0x2028 || u == 0x2029 || u == 0x202F || u == 0x205F || u == 0x3000
}

/// `String::push`: appends one character.
#[verifier::external_body]
pub(crate) fn push_char(s: &mut String, c: char)
    ensures
        final(s)@ == old(s)@.push(c),
{
    s.push(c);
}

/// The characters of a string slice, in order.
pub fn chars_of(s: &str) -> (v: Vec<char>)
    ensures
        v@ == s@,
{
    let mut v: Vec<char> = Vec::new();
    for c in it: s.chars()
        invariant
            v@ == it.seq().take(it.index() as int),
    {
        v.push(c);
    }
    v
}

/// Appends `cs[lo..hi]` to `s`.
pub fn push_range(s: &mut String, cs: &Vec<char>, lo: usize, hi: usize)
    requires
        lo <= hi <= cs.len(),
    ensures
        final(s)@ == old(s)@ + cs@.subrange(lo as int, hi as int),
{
    let mut i: usize = lo;
    while i < hi
        invariant
            lo <= i <= hi <= cs.len(),
            s@ == old(s)@ + cs@.subrange(lo as int, i as int),
        decreases hi - i,
    {
        push_char(s, cs[i]);
        assert(cs@.subrange(lo as int, i + 1) =~= cs@.subrange(lo as int, i as int).push(cs@[i as int]));
        i = i + 1;
    }
}

/// A new string holding `cs[lo..hi]`.
pub fn string_of_range(cs: &Vec<char>, lo: usize, hi: usize) -> (s: String)
    requires
        lo <= hi <= cs.len(),
    ensures
        s@ == cs@.subrange(lo as int, hi as int),
{
    let mut s: String = String::new();
    push_range(&mut s, cs, lo, hi);
    s
}

/// Whether `s` begins with `prefix`.
pub fn starts_with(s: &str, prefix: &str) -> (b: bool)
    ensures
        b == prefix@.is_prefix_of(s@),
{
    let sc: Vec<char> = chars_of(s);
    let pc: Vec<char> = chars_of(prefix);
    if pc.len() > sc.len() {
        return false;
    }
    let mut i: usize = 0;
    while i < pc.len()
        invariant
            pc.len() <= sc.len(),
            i <= pc.len(),
            sc@ == s@,
            pc@ == prefix@,
            forall|j: int| 0 <= j < i ==> pc@[j] == sc@[j],
        decreases pc.len() - i,
    {
        if pc[i] != sc[i] {
            return false;
        }
        i = i + 1;
    }
    true
}

/// Whether `s` holds exactly the characters of `t`.
pub fn same_text(s: &str, t: &str) -> (b: bool)
    ensures
        b == (s@ == t@),
{
    let sc: Vec<char> = chars_of(s);
    let tc: Vec<char> = chars_of(t);
    if sc.len() != tc.len() {
        return false;
    }
    let mut i: usize = 0;
    while i < sc.len()
        invariant
            sc.len() == tc.len(),
            i <= sc.len(),
            sc@ == s@,
            tc@ == t@,
            forall|j: int| 0 <= j < i ==> sc@[j] == tc@[j],
        decreases sc.len() - i,
    {
        if sc[i] != tc[i] {
            return false;
        }
        i = i + 1;
    }
    assert(sc@ =~= tc@);
    true
}

/// `s` without its leading whitespace.
pub open spec fn trim_start_spec(s: Seq<char>) -> Seq<char>
    decreases s.len(),
{
    if s.len() > 0 && is_space(s[0]) {
        trim_start_spec(s.drop_first())
    } else {
        s
    }
}

/// `s` without its trailing whitespace.
pub open spec fn trim_end_spec(s: Seq<char>) -> Seq<char>
    decreases s.len(),
{
    if s.len() > 0 && is_space(s.last()) {
        trim_end_spec(s.drop_last())
    } else {
        s
    }
}

/// `s` without leading and trailing whitespace.
pub open spec fn trim_spec(s: Seq<char>) -> Seq<char> {
    trim_end_spec(trim_start_spec(s))
}

proof fn lemma_trim_start_step(s: Seq<char>, i: int)
    requires
        0 <= i < s.len(),
        is_space(s[i]),
    ensures
        trim_start_spec(s.skip(i)) == trim_start_spec(s.skip(i + 1)),
{
    assert(s.skip(i).drop_first() =~= s.skip(i + 1));
}

proof fn lemma_trim_end_step(s: Seq<char>, i: int)
    requires
        0 < i <= s.len(),
        is_space(s[i - 1]),
    ensures
        trim_end_spec(s.take(i)) == trim_end_spec(s.take(i - 1)),
{
    assert(s.take(i).drop_last() =~= s.take(i - 1));
}

/// The index of the first non-whitespace character of `cs[lo..hi]`, or `hi`.
fn skip_spaces_forward(cs: &Vec<char>, lo: usize, hi: usize) -> (i: usize)
    requires
        lo <= hi <= cs.len(),
    ensures
        lo <= i <= hi,
        trim_start_spec(cs@.subrange(lo as int, hi as int)) == cs@.subrange(i as int, hi as int),
{
    let ghost t = cs@.subrange(lo as int, hi as int);
    let mut i: usize = lo;
    assert(t.skip(0) =~= t);
    while i < hi && is_space_char(cs[i])
        invariant
            lo <= i <= hi <= cs.len(),
            t == cs@.subrange(lo as int, hi as int),
            trim_start_spec(t) == trim_start_spec(t.skip(i - lo)),
        decreases hi - i,
    {
        proof {
            lemma_trim_start_step(t, i - lo);
        }
        i = i + 1;
    }
    assert(t.skip(i - lo) =~= cs@.subrange(i as int, hi as int));
    i
}

/// The index just past the last non-whitespace character of `cs[lo..hi]`, or `lo`.
fn skip_spaces_backward(cs: &Vec<char>, lo: usize, hi: usize) -> (j: usize)
    requires
        lo <= hi <= cs.len(),
    ensures
        lo <= j <= hi,
        trim_end_spec(cs@.subrange(lo as int, hi as int)) == cs@.subrange(lo as int, j as int),
{
    let ghost t = cs@.subrange(lo as int, hi as int);
    let mut j: usize = hi;
    assert(t.take(hi - lo) =~= t);
    while j > lo && is_space_char(cs[j - 1])
        invariant
            lo <= j <= hi <= cs.len(),
            t == cs@.subrange(lo as int, hi as int),
            trim_end_spec(t) == trim_end_spec(t.take(j - lo)),
        decreases j - lo,
    {
        proof {
            lemma_trim_end_step(t, j - lo);
        }
        j = j - 1;
    }
    assert(t.take(j - lo) =~= cs@.subrange(lo as int, j as int));
    j
}

/// `str::trim`: the string without leading and trailing whitespace.
pub fn trim(s: &str) -> (r: String)
    ensures
        r@ == trim_spec(s@),
{
    let cs: Vec<char> = chars_of(s);
    let i: usize = skip_spaces_forward(&cs, 0, cs.len());
    let j: usize = skip_spaces_backward(&cs, i, cs.len());
    assert(cs@.subrange(0, cs@.len() as int) =~= s@);
    string_of_range(&cs, i, j)
}

/// `str::trim_end`: the string without trailing whitespace.
pub fn trim_end(s: &str) -> (r: String)
    ensures
        r@ == trim_end_spec(s@),
{
    let cs: Vec<char> = chars_of(s);
    let j: usize = skip_spaces_backward(&cs, 0, cs.len());
    assert(cs@.subrange(0, cs@.len() as int) =~= s@);
    string_of_range(&cs, 0, j)
}


/// The length of the run of non-whitespace characters at the front of `s`.
pub open spec fn word_len(s: Seq<char>) -> nat
    decreases s.len(),
{
    if s.len() > 0 && !is_space(s[0]) {
        1 + word_len(s.drop_first())
    } else {
        0
    }
}

/// A leading run of non-whitespace is no longer than the text.
pub proof fn lemma_word_len_bound(s: Seq<char>)
    ensures
        word_len(s) <= s.len(),
    decreases s.len(),
{
    if s.len() > 0 && !is_space(s[0]) {
        lemma_word_len_bound(s.drop_first());
    }
}

/// `str::split_whitespace`: the maximal runs of non-whitespace characters of `s`,
/// in order.
pub open spec fn fields_spec(s: Seq<char>) -> Seq<Seq<char>>
    decreases s.len(),
{
    if s.len() == 0 {
        seq![]
    } else if is_space(s[0]) {
        fields_spec(s.drop_first())
    } else {
        proof {
            lemma_word_len_bound(s);
        }
        seq![s.take(word_len(s) as int)] + fields_spec(s.skip(word_len(s) as int))
    }
}

proof fn lemma_word_len_exact(s: Seq<char>, k: int)
    requires
        0 <= k <= s.len(),
        forall|j: int| 0 <= j < k ==> !is_space(#[trigger] s[j]),
        k == s.len() || is_space(s[k]),
    ensures
        word_len(s) == k,
    decreases k,
{
    if k > 0 {
        lemma_word_len_exact(s.drop_first(), k - 1);
    }
}

proof fn lemma_fields_space_step(s: Seq<char>, i: int)
    requires
        0 <= i < s.len(),
        is_space(s[i]),
    ensures
        fields_spec(s.skip(i)) == fields_spec(s.skip(i + 1)),
{
    assert(s.skip(i).drop_first() =~= s.skip(i + 1));
}

proof fn lemma_fields_word_step(s: Seq<char>, i: int, j: int)
    requires
        0 <= i < j <= s.len(),
        forall|k: int| i <= k < j ==> !is_space(#[trigger] s[k]),
        j == s.len() || is_space(s[j]),
    ensures
        fields_spec(s.skip(i)) == seq![s.subrange(i, j)] + fields_spec(s.skip(j)),
{
    let t = s.skip(i);
    assert forall|k: int| 0 <= k < j - i implies !is_space(#[trigger] t[k]) by {
        assert(t[k] == s[i + k]);
    }
    lemma_word_len_exact(t, j - i);
    assert(t.take(j - i) =~= s.subrange(i, j));
    assert(t.skip(j - i) =~= s.skip(j));
}

/// `str::split_whitespace`, collected: the whitespace-separated fields of `s`.
pub fn split_fields(s: &str) -> (v: Vec<String>)
    ensures
        v@.len() == fields_spec(s@).len(),
        forall|k: int| 0 <= k < v@.len() ==> #[trigger] v@[k]@ == fields_spec(s@)[k],
{
    let cs: Vec<char> = chars_of(s);
    let n: usize = cs.len();
    let mut v: Vec<String> = Vec::new();
    let ghost done: Seq<Seq<char>> = seq![];
    let mut i: usize = 0;
    assert(cs@.skip(0) =~= cs@);
    while i < n
        invariant
            n == cs.len(),
            cs@ == s@,
            i <= n,
            v@.len() == done.len(),
            forall|k: int| 0 <= k < v@.len() ==> #[trigger] v@[k]@ == done[k],
            done + fields_spec(cs@.skip(i as int)) == fields_spec(s@),
        decreases n - i,
    {
        if is_space_char(cs[i]) {
            proof {
                lemma_fields_space_step(cs@, i as int);
            }
            i = i + 1;
        } else {
            let mut j: usize = i + 1;
            while j < n && !is_space_char(cs[j])
                invariant
                    n == cs.len(),
                    i < j <= n,
                    forall|k: int| i <= k < j ==> !is_space(#[trigger] cs@[k]),
                decreases n - j,
            {
                j = j + 1;
            }
            proof {
                lemma_fields_word_step(cs@, i as int, j as int);
            }
            let w: String = string_of_range(&cs, i, j);
            v.push(w);
            proof {
                assert(done.push(cs@.subrange(i as int, j as int)) + fields_spec(cs@.skip(j as int))
                    =~= done + fields_spec(cs@.skip(i as int)));
                done = done.push(cs@.subrange(i as int, j as int));
            }
            i = j;
        }
    }
    assert(fields_spec(cs@.skip(n as int)) =~= seq![]) by {
        assert(cs@.skip(n as int).len() == 0);
    }
    assert(done =~= fields_spec(s@));
    v
}

/// The length of the run of characters other than `sep` at the front of `s`.
pub open spec fn piece_len(s: Seq<char>, sep: char) -> nat
    decreases s.len(),
{
    if s.len() > 0 && s[0] != sep {
        1 + piece_len(s.drop_first(), sep)
    } else {
        0
    }
}

/// A leading run of characters other than `sep` is no longer than the text.
pub proof fn lemma_piece_len_bound(s: Seq<char>, sep: char)
    ensures
        piece_len(s, sep) <= s.len(),
    decreases s.len(),
{
    if s.len() > 0 && s[0] != sep {
        lemma_piece_len_bound(s.drop_first(), sep);
    }
}

/// `str::split` on one character: the pieces of `s` between occurrences of `sep`;
/// there is always at least one, and two separators side by side give an empty piece.
pub open spec fn split_spec(s: Seq<char>, sep: char) -> Seq<Seq<char>>
    decreases s.len(),
{
    let k = piece_len(s, sep);
    proof {
        lemma_piece_len_bound(s, sep);
    }
    if k >= s.len() {
        seq![s]
    } else {
        seq![s.take(k as int)] + split_spec(s.skip(k + 1 as int), sep)
    }
}

proof fn lemma_piece_len_exact(s: Seq<char>, sep: char, k: int)
    requires
        0 <= k <= s.len(),
        forall|j: int| 0 <= j < k ==> #[trigger] s[j] != sep,
        k == s.len() || s[k] == sep,
    ensures
        piece_len(s, sep) == k,
    decreases k,
{
    if k > 0 {
        lemma_piece_len_exact(s.drop_first(), sep, k - 1);
    }
}

/// `str::split` on one character, collected.
pub fn split_on(s: &str, sep: char) -> (v: Vec<String>)
    ensures
        v@.len() == split_spec(s@, sep).len(),
        forall|k: int| 0 <= k < v@.len() ==> #[trigger] v@[k]@ == split_spec(s@, sep)[k],
{
    let cs: Vec<char> = chars_of(s);
    let n: usize = cs.len();
    let mut v: Vec<String> = Vec::new();
    let ghost done: Seq<Seq<char>> = seq![];
    let mut i: usize = 0;
    assert(cs@.skip(0) =~= cs@);
    loop
        invariant
            n == cs.len(),
            cs@ == s@,
            i <= n,
            v@.len() == done.len(),
            forall|k: int| 0 <= k < v@.len() ==> #[trigger] v@[k]@ == done[k],
            done + split_spec(cs@.skip(i as int), sep) == split_spec(s@, sep),
        decreases n - i,
    {
        let mut j: usize = i;
        while j < n && cs[j] != sep
            invariant
                n == cs.len(),
                i <= j <= n,
                forall|k: int| i <= k < j ==> #[trigger] cs@[k] != sep,
            decreases n - j,
        {
            j = j + 1;
        }
        let ghost t = cs@.skip(i as int);
        proof {
            assert forall|k: int| 0 <= k < j - i implies #[trigger] t[k] != sep by {
                assert(t[k] == cs@[i + k]);
            }
            lemma_piece_len_exact(t, sep, j - i);
            assert(t.take(j - i) =~= cs@.subrange(i as int, j as int));
        }
        let w: String = string_of_range(&cs, i, j);
        v.push(w);
        if j == n {
            proof {
                assert(t =~= cs@.subrange(i as int, j as int));
                assert(done.push(t) =~= done + split_spec(t, sep));
                done = done.push(t);
            }
            assert(done =~= split_spec(s@, sep));
            return v;
        }
        proof {
            assert(t.skip(j - i + 1) =~= cs@.skip(j + 1));
            assert(done.push(cs@.subrange(i as int, j as int)) + split_spec(cs@.skip(j + 1), sep)
                =~= done + split_spec(t, sep));
            done = done.push(cs@.subrange(i as int, j as int));
        }
        i = j + 1;
    }
}

/// The value of the decimal digit `c`.
pub open spec fn digit_value(c: char) -> nat {
    (c as u32 - 48) as nat
}

/// Whether `c` is an ASCII decimal digit.
pub open spec fn is_digit(c: char) -> bool {
    48 <= c as u32 <= 57
}

/// Why a text is not an unsigned integer (`core::num::IntErrorKind`).
#[derive(Clone, Copy, Debug, PartialEq, Eq, Structural)]
pub enum NumberError {
    /// The text is empty.
    Empty,
    /// A character is not a decimal digit.
    InvalidDigit,
    /// The value does not fit in the target type.
    PosOverflow,
}

/// Reads the digits `ds` from left to right onto `acc`, failing at the first
/// character that is not a digit or whose digit takes the value above `max`.
pub open spec fn scan_digits(ds: Seq<char>, acc: nat, max: nat) -> Result<nat, NumberError>
    decreases ds.len(),
{
    if ds.len() == 0 {
        Ok(acc)
    } else if !is_digit(ds[0]) {
        Err(NumberError::InvalidDigit)
    } else if acc * 10 + digit_value(ds[0]) > max {
        Err(NumberError::PosOverflow)
    } else {
        scan_digits(ds.drop_first(), acc * 10 + digit_value(ds[0]), max)
    }
}

/// `FromStr` for an unsigned integer type whose largest value is `max`: an optional
/// `+` followed by at least one decimal digit.
pub open spec fn parse_unsigned_spec(s: Seq<char>, max: nat) -> Result<nat, NumberError> {
    if s.len() == 0 {
        Err(NumberError::Empty)
    } else if (s[0] == '+' || s[0] == '-') && s.len() == 1 {
        Err(NumberError::InvalidDigit)
    } else if s[0] == '+' {
        scan_digits(s.drop_first(), 0, max)
    } else {
        scan_digits(s, 0, max)
    }
}

fn scan_digits_exec(cs: &Vec<char>, start: usize, max: u64) -> (r: Result<u64, NumberError>)
    requires
        start <= cs.len(),
    ensures
        match r {
            Ok(v) => scan_digits(cs@.skip(start as int), 0, max as nat) == Ok::<nat, NumberError>(
                v as nat,
            ),
            Err(e) => scan_digits(cs@.skip(start as int), 0, max as nat) == Err::<nat, NumberError>(
                e,
            ),
        },
{
    let mut acc: u64 = 0;
    let mut i: usize = start;
    while i < cs.len()
        invariant
            start <= i <= cs.len(),
            acc <= max,
            scan_digits(cs@.skip(start as int), 0, max as nat) == scan_digits(
                cs@.skip(i as int),
                acc as nat,
                max as nat,
            ),
        decreases cs.len() - i,
    {
        let c: char = cs[i];
        let u: u32 = c as u32;
        assert(cs@.skip(i as int)[0] == c);
        assert(cs@.skip(i as int).drop_first() =~= cs@.skip(i + 1));
        if u < 48 || u > 57 {
            return Err(NumberError::InvalidDigit);
        }
        let d: u64 = (u - 48) as u64;
        let next: u128 = (acc as u128) * 10 + (d as u128);
        if next > max as u128 {
            return Err(NumberError::PosOverflow);
        }
        acc = next as u64;
        i = i + 1;
    }
    assert(cs@.skip(i as int).len() == 0);
    Ok(acc)
}

fn parse_bounded(s: &str, max: u64) -> (r: Result<u64, NumberError>)
    ensures
        match r {
            Ok(v) => parse_unsigned_spec(s@, max as nat) == Ok::<nat, NumberError>(v as nat),
            Err(e) => parse_unsigned_spec(s@, max as nat) == Err::<nat, NumberError>(e),
        },
{
    let cs: Vec<char> = chars_of(s);
    if cs.len() == 0 {
        return Err(NumberError::Empty);
    }
    if (cs[0] == '+' || cs[0] == '-') && cs.len() == 1 {
        return Err(NumberError::InvalidDigit);
    }
    if cs[0] == '+' {
        assert(cs@.skip(1) =~= s@.drop_first());
        scan_digits_exec(&cs, 1, max)
    } else {
        assert(cs@.skip(0) =~= s@);
        scan_digits_exec(&cs, 0, max)
    }
}

/// `str::parse::<u64>`.
pub fn parse_u64(s: &str) -> (r: Result<u64, NumberError>)
    ensures
        match r {
            Ok(v) => parse_unsigned_spec(s@, u64::MAX as nat) == Ok::<nat, NumberError>(v as nat),
            Err(e) => parse_unsigned_spec(s@, u64::MAX as nat) == Err::<nat, NumberError>(e),
        },
{
    parse_bounded(s, u64::MAX)
}

/// `str::parse::<u32>`.
pub fn parse_u32(s: &str) -> (r: Result<u32, NumberError>)
    ensures
        match r {
            Ok(v) => parse_unsigned_spec(s@, u32::MAX as nat) == Ok::<nat, NumberError>(v as nat),
            Err(e) => parse_unsigned_spec(s@, u32::MAX as nat) == Err::<nat, NumberError>(e),
        },
{
    match parse_bounded(s, u32::MAX as u64) {
        Ok(v) => {
            proof {
                lemma_parse_bounded_by_max(s@, u32::MAX as nat);
            }
            Ok(v as u32)
        },
        Err(e) => Err(e),
    }
}

proof fn lemma_scan_bounded_by_max(ds: Seq<char>, acc: nat, max: nat)
    requires
        acc <= max,
    ensures
        scan_digits(ds, acc, max) matches Ok(v) ==> v <= max,
    decreases ds.len(),
{
    if ds.len() > 0 && is_digit(ds[0]) && acc * 10 + digit_value(ds[0]) <= max {
        lemma_scan_bounded_by_max(ds.drop_first(), acc * 10 + digit_value(ds[0]), max);
    }
}

/// A parsed value never exceeds the largest value of the target type.
pub proof fn lemma_parse_bounded_by_max(s: Seq<char>, max: nat)
    ensures
        parse_unsigned_spec(s, max) matches Ok(v) ==> v <= max,
{
    lemma_scan_bounded_by_max(s, 0, max);
    if s.len() > 0 {
        lemma_scan_bounded_by_max(s.drop_first(), 0, max);
    }
}

/// The decimal digit character for `d < 10`.
pub open spec fn digit_char(d: nat) -> char {
    if d == 0 {
        '0'
    } else if d == 1 {
        '1'
    } else if d == 2 {
        '2'
    } else if d == 3 {
        '3'
    } else if d == 4 {
        '4'
    } else if d == 5 {
        '5'
    } else if d == 6 {
        '6'
    } else if d == 7 {
        '7'
    } else if d == 8 {
        '8'
    } else {
        '9'
    }
}

/// The decimal notation of `n` (`Display` for unsigned integers): no sign, no
/// leading zeros, and `0` for zero.
pub open spec fn decimal_spec(n: nat) -> Seq<char>
    decreases n,
{
    if n < 10 {
        seq![digit_char(n)]
    } else {
        decimal_spec(n / 10).push(digit_char(n % 10))
    }
}

fn digit_to_char(d: u64) -> (c: char)
    requires
        d < 10,
    ensures
        c == digit_char(d as nat),
{
    if d == 0 {
        '0'
    } else if d == 1 {
        '1'
    } else if d == 2 {
        '2'
    } else if d == 3 {
        '3'
    } else if d == 4 {
        '4'
    } else if d == 5 {
        '5'
    } else if d == 6 {
        '6'
    } else if d == 7 {
        '7'
    } else if d == 8 {
        '8'
    } else {
        '9'
    }
}

/// Appends the decimal notation of `n` to `s`.
pub fn push_decimal(s: &mut String, n: u64)
    ensures
        final(s)@ == old(s)@ + decimal_spec(n as nat),
    decreases n,
{
    if n >= 10 {
        push_decimal(s, n / 10);
    }
    push_char(s, digit_to_char(n % 10));
    assert(n < 10 ==> n % 10 == n);
}

proof fn lemma_digit_char(d: nat)
    requires
        d < 10,
    ensures
        is_digit(digit_char(d)),
        digit_value(digit_char(d)) == d,
        digit_char(d) != '+',
        digit_char(d) != '-',
{
}

proof fn lemma_scan_push(ds: Seq<char>, acc: nat, max: nat, c: char, v: nat)
    requires
        scan_digits(ds, acc, max) == Ok::<nat, NumberError>(v),
        is_digit(c),
        v * 10 + digit_value(c) <= max,
    ensures
        scan_digits(ds.push(c), acc, max) == Ok::<nat, NumberError>(v * 10 + digit_value(c)),
    decreases ds.len(),
{
    assert(ds.push(c)[ds.len() as int] == c);
    reveal_with_fuel(scan_digits, 2);
    if ds.len() == 0 {
        assert(v == acc);
        assert(ds.push(c)[0] == c);
        assert(ds.push(c).drop_first() =~= ds);
    } else {
        assert(ds.push(c)[0] == ds[0]);
        assert(ds.push(c).drop_first() =~= ds.drop_first().push(c));
        lemma_scan_push(ds.drop_first(), acc * 10 + digit_value(ds[0]), max, c, v);
    }
}

proof fn lemma_scan_decimal(n: nat, max: nat)
    requires
        n <= max,
    ensures
        scan_digits(decimal_spec(n), 0, max) == Ok::<nat, NumberError>(n),
        decimal_spec(n).len() >= 1,
        is_digit(decimal_spec(n)[0]),
    decreases n,
{
    if n < 10 {
        lemma_digit_char(n);
        reveal_with_fuel(scan_digits, 2);
        let s = seq![digit_char(n)];
        assert(s[0] == digit_char(n));
        assert(s.drop_first() =~= Seq::<char>::empty());
        assert(decimal_spec(n) == s);
    } else {
        lemma_scan_decimal(n / 10, max);
        lemma_digit_char(n % 10);
        assert((n / 10) * 10 + n % 10 == n);
        lemma_scan_push(decimal_spec(n / 10), 0, max, digit_char(n % 10), n / 10);
        assert(decimal_spec(n)[0] == decimal_spec(n / 10)[0]);
    }
}

/// Reading back the decimal notation of a value gives the value: for every `n` up to
/// the largest value `max` of the target type, parsing `decimal_spec(n)` yields `n`.
pub proof fn lemma_parse_decimal_roundtrip(n: nat, max: nat)
    requires
        n <= max,
    ensures
        parse_unsigned_spec(decimal_spec(n), max) == Ok::<nat, NumberError>(n),
{
    lemma_scan_decimal(n, max);
    let s = decimal_spec(n);
    assert(s[0] != '+' && s[0] != '-');
}

/// A number read leniently: its value, or 0 when the text is not an unsigned 32-bit
/// integer (`parse().unwrap_or(0)`).
pub open spec fn u32_or_zero(text: Seq<char>) -> nat {
    match parse_unsigned_spec(text, u32::MAX as nat) {
        Ok(v) => v,
        Err(_) => 0,
    }
}

/// `text.parse::<u32>().unwrap_or(0)`.
pub fn parse_u32_or_zero(text: &str) -> (v: u32)
    ensures
        v as nat == u32_or_zero(text@),
{
    match parse_u32(text) {
        Ok(v) => v,
        Err(_) => 0,
    }
}

/// Lenient reading loses no 32-bit value: the decimal notation of every `n` up to
/// `u32::MAX` reads back as `n`.
pub proof fn lemma_u32_or_zero_reads_decimal(n: nat)
    requires
        n <= u32::MAX,
    ensures
        u32_or_zero(decimal_spec(n)) == n,
{
    lemma_parse_decimal_roundtrip(n, u32::MAX as nat);
}

/// Lenient reading agrees with strict reading wherever strict reading succeeds, and
/// gives 0 exactly where it fails.
pub proof fn lemma_u32_or_zero_agrees_with_parse(text: Seq<char>)
    ensures
        parse_unsigned_spec(text, u32::MAX as nat) matches Ok(v) ==> u32_or_zero(text) == v,
        parse_unsigned_spec(text, u32::MAX as nat) is Err ==> u32_or_zero(text) == 0,
        u32_or_zero(text) <= u32::MAX,
{
    lemma_parse_bounded_by_max(text, u32::MAX as nat);
}

/// Whether `s` is a word: not empty and without whitespace.
pub open spec fn is_word(s: Seq<char>) -> bool {
    s.len() > 0 && forall|i: int| 0 <= i < s.len() ==> !is_space(#[trigger] s[i])
}

/// A text that neither starts nor ends with whitespace is its own trim.
pub proof fn lemma_trim_of_clean(s: Seq<char>)
    requires
        s.len() > 0,
        !is_space(s[0]),
        !is_space(s.last()),
    ensures
        trim_spec(s) == s,
{
    assert(trim_start_spec(s) == s);
    assert(trim_end_spec(s) == s);
}

/// A word is the one field of itself.
pub proof fn lemma_fields_of_word(w: Seq<char>)
    requires
        is_word(w),
    ensures
        fields_spec(w) == seq![w],
{
    lemma_fields_word_step(w, 0, w.len() as int);
    assert(w.skip(0) =~= w);
    assert(w.subrange(0, w.len() as int) =~= w);
    assert(w.skip(w.len() as int) =~= Seq::<char>::empty());
    assert(fields_spec(Seq::<char>::empty()) =~= Seq::<Seq<char>>::empty());
}

/// A word followed by a space is the first field, and the fields of what follows the
/// space come after it.
pub proof fn lemma_fields_of_word_then(w: Seq<char>, rest: Seq<char>)
    requires
        is_word(w),
    ensures
        fields_spec(w + seq![' '] + rest) == seq![w] + fields_spec(rest),
{
    let s = w + seq![' '] + rest;
    let n = w.len() as int;
    assert forall|k: int| 0 <= k < n implies !is_space(#[trigger] s[k]) by {
        assert(s[k] == w[k]);
    }
    assert(s[n] == ' ');
    lemma_fields_word_step(s, 0, n);
    lemma_fields_space_step(s, n);
    assert(s.skip(0) =~= s);
    assert(s.subrange(0, n) =~= w);
    assert(s.skip(n + 1) =~= rest);
}

/// The decimal notation of a number is a word of digits.
pub proof fn lemma_decimal_is_word(n: nat)
    ensures
        is_word(decimal_spec(n)),
        forall|i: int| 0 <= i < decimal_spec(n).len() ==> is_digit(#[trigger] decimal_spec(n)[i]),
    decreases n,
{
    if n < 10 {
        lemma_digit_char(n);
        assert(decimal_spec(n) =~= seq![digit_char(n)]);
    } else {
        lemma_decimal_is_word(n / 10);
        lemma_digit_char(n % 10);
        let d = decimal_spec(n / 10);
        assert(decimal_spec(n) == d.push(digit_char(n % 10)));
        assert forall|i: int| 0 <= i < decimal_spec(n).len() implies is_digit(#[trigger] decimal_spec(n)[i]) by {
            if i < d.len() {
                assert(decimal_spec(n)[i] == d[i]);
            }
        }
    }
}

/// A text without the separator is the one piece of itself.
pub proof fn lemma_split_of_piece(p: Seq<char>, sep: char)
    requires
        forall|i: int| 0 <= i < p.len() ==> #[trigger] p[i] != sep,
    ensures
        split_spec(p, sep) == seq![p],
{
    lemma_piece_len_exact(p, sep, p.len() as int);
}

/// A text without the separator, followed by the separator, is the first piece, and
/// the pieces of what follows the separator come after it.
pub proof fn lemma_split_of_piece_then(p: Seq<char>, sep: char, rest: Seq<char>)
    requires
        forall|i: int| 0 <= i < p.len() ==> #[trigger] p[i] != sep,
    ensures
        split_spec(p + seq![sep] + rest, sep) == seq![p] + split_spec(rest, sep),
{
    let s = p + seq![sep] + rest;
    let n = p.len() as int;
    assert forall|j: int| 0 <= j < n implies #[trigger] s[j] != sep by {
        assert(s[j] == p[j]);
    }
    assert(s[n] == sep);
    lemma_piece_len_exact(s, sep, n);
    assert(s.take(n) =~= p);
    assert(s.skip(n + 1) =~= rest);
}

/// The pieces joined back together, with `sep` between consecutive pieces.
pub open spec fn join_spec(pieces: Seq<Seq<char>>, sep: char) -> Seq<char>
    decreases pieces.len(),
{
    if pieces.len() <= 1 {
        if pieces.len() == 1 {
            pieces[0]
        } else {
            Seq::empty()
        }
    } else {
        pieces[0].push(sep) + join_spec(pieces.drop_first(), sep)
    }
}

proof fn lemma_piece_len_props(s: Seq<char>, sep: char)
    ensures
        piece_len(s, sep) <= s.len(),
        forall|j: int| 0 <= j < piece_len(s, sep) ==> #[trigger] s[j] != sep,
        piece_len(s, sep) < s.len() ==> s[piece_len(s, sep) as int] == sep,
    decreases s.len(),
{
    if s.len() > 0 && s[0] != sep {
        lemma_piece_len_props(s.drop_first(), sep);
        assert forall|j: int| 0 <= j < piece_len(s, sep) implies #[trigger] s[j] != sep by {
            if j > 0 {
                assert(s[j] == s.drop_first()[j - 1]);
            }
        }
    }
}

/// Splitting at a separator loses nothing: no piece holds the separator, and joining
/// the pieces with it gives back the text.
pub proof fn lemma_split_join(s: Seq<char>, sep: char)
    ensures
        join_spec(split_spec(s, sep), sep) == s,
        forall|k: int, j: int|
            0 <= k < split_spec(s, sep).len() && 0 <= j < split_spec(s, sep)[k].len()
                ==> #[trigger] split_spec(s, sep)[k][j] != sep,
    decreases s.len(),
{
    lemma_piece_len_props(s, sep);
    let k = piece_len(s, sep);
    if k >= s.len() {
        assert(split_spec(s, sep) == seq![s]);
    } else {
        let rest = s.skip(k + 1 as int);
        lemma_split_join(rest, sep);
        let ps = split_spec(s, sep);
        assert(ps == seq![s.take(k as int)] + split_spec(rest, sep));
        assert(ps.drop_first() =~= split_spec(rest, sep));
        assert(split_spec(rest, sep).len() >= 1);
        assert(s.take(k as int).push(sep) + rest =~= s);
        assert forall|a: int, j: int| 0 <= a < ps.len() && 0 <= j < ps[a].len() implies #[trigger] ps[a][j] != sep by {
            if a > 0 {
                assert(ps[a] == split_spec(rest, sep)[a - 1]);
            }
        }
    }
}

/// The fields of a text are words: none is empty and none holds whitespace.
pub proof fn lemma_fields_are_words(s: Seq<char>)
    ensures
        forall|k: int| 0 <= k < fields_spec(s).len() ==> (#[trigger] fields_spec(s)[k]).len() > 0,
        forall|k: int, j: int|
            0 <= k < fields_spec(s).len() && 0 <= j < fields_spec(s)[k].len() ==> !is_space(
                #[trigger] fields_spec(s)[k][j],
            ),
    decreases s.len(),
{
    if s.len() > 0 {
        if is_space(s[0]) {
            lemma_fields_are_words(s.drop_first());
            assert(fields_spec(s) == fields_spec(s.drop_first()));
        } else {
            let n = word_len(s);
            lemma_word_len_bound(s);
            lemma_word_len_props(s);
            lemma_fields_are_words(s.skip(n as int));
            let fs = fields_spec(s);
            assert(fs == seq![s.take(n as int)] + fields_spec(s.skip(n as int)));
            assert forall|k: int| 0 <= k < fs.len() implies (#[trigger] fs[k]).len() > 0 by {
                if k == 0 {
                    assert(fs[0] == s.take(n as int));
                }
                if k > 0 {
                    assert(fs[k] == fields_spec(s.skip(n as int))[k - 1]);
                }
            }
            assert forall|k: int, j: int| 0 <= k < fs.len() && 0 <= j < fs[k].len() implies !is_space(
                #[trigger] fs[k][j],
            ) by {
                if k > 0 {
                    assert(fs[k] == fields_spec(s.skip(n as int))[k - 1]);
                } else {
                    assert(fs[0] == s.take(n as int));
                    assert(fs[0][j] == s[j]);
                }
            }
        }
    }
}

proof fn lemma_word_len_props(s: Seq<char>)
    ensures
        forall|j: int| 0 <= j < word_len(s) ==> !is_space(#[trigger] s[j]),
        s.len() > 0 && !is_space(s[0]) ==> word_len(s) >= 1,
    decreases s.len(),
{
    if s.len() > 0 && !is_space(s[0]) {
        lemma_word_len_props(s.drop_first());
        lemma_word_len_bound(s.drop_first());
        assert forall|j: int| 0 <= j < word_len(s) implies !is_space(#[trigger] s[j]) by {
            if j > 0 {
                assert(s[j] == s.drop_first()[j - 1]);
            }
        }
    }
}

} // verus!
