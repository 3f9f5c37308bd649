//! The command lines the client sends (RFC 3977, RFC 4643). Every command is a
//! keyword, its arguments separated by single spaces, and a CRLF.
use vstd::prelude::*;
use crate::text::{decimal_spec, push_decimal};

verus! {

/// The line terminator of the protocol.
pub open spec fn crlf() -> Seq<char> {
    seq!['\r', '\n']
}

fn crlf_str() -> (s: &'static str)
    ensures
        s@ == crlf(),
{
    proof {
        reveal_strlit("\r\n");
    }
    "\r\n"
}

/// `keyword` followed by a CRLF.
fn bare_command(keyword: &str) -> (c: String)
    ensures
        c@ == keyword@ + crlf(),
{
    let mut c: String = String::from_str(keyword);
    c.append(crlf_str());
    c
}

/// `keyword`, then `arg`, then a CRLF.
fn command_with(keyword: &str, arg: &str) -> (c: String)
    ensures
        c@ == keyword@ + arg@ + crlf(),
{
    let mut c: String = String::from_str(keyword);
    c.append(arg);
    c.append(crlf_str());
    c
}

/// `AUTHINFO USER <username>` (RFC 4643).
pub fn authinfo_user_command(username: &str) -> (c: String)
    ensures
        c@ == "AUTHINFO USER "@ + username@ + crlf(),
{
    command_with("AUTHINFO USER ", username)
}

/// `AUTHINFO PASS <password>` (RFC 4643).
pub fn authinfo_pass_command(password: &str) -> (c: String)
    ensures
        c@ == "AUTHINFO PASS "@ + password@ + crlf(),
{
    command_with("AUTHINFO PASS ", password)
}

/// `GROUP <name>`.
pub fn group_command(name: &str) -> (c: String)
    ensures
        c@ == "GROUP "@ + name@ + crlf(),
{
    command_with("GROUP ", name)
}

/// `BODY <identifier>`.
pub fn body_command(identifier: &str) -> (c: String)
    ensures
        c@ == "BODY "@ + identifier@ + crlf(),
{
    command_with("BODY ", identifier)
}

/// `HEAD <identifier>`.
pub fn head_command(identifier: &str) -> (c: String)
    ensures
        c@ == "HEAD "@ + identifier@ + crlf(),
{
    command_with("HEAD ", identifier)
}

/// `STAT <identifier>`.
pub fn stat_command(identifier: &str) -> (c: String)
    ensures
        c@ == "STAT "@ + identifier@ + crlf(),
{
    command_with("STAT ", identifier)
}

/// `LIST`.
pub fn list_command() -> (c: String)
    ensures
        c@ == "LIST"@ + crlf(),
{
    bare_command("LIST")
}

/// `POST`.
pub fn post_command() -> (c: String)
    ensures
        c@ == "POST"@ + crlf(),
{
    bare_command("POST")
}

/// `QUIT`.
pub fn quit_command() -> (c: String)
    ensures
        c@ == "QUIT"@ + crlf(),
{
    bare_command("QUIT")
}

/// `ARTICLE <number>`.
pub fn article_command(number: u32) -> (c: String)
    ensures
        c@ == "ARTICLE "@ + decimal_spec(number as nat) + crlf(),
{
    let mut c: String = String::from_str("ARTICLE ");
    push_decimal(&mut c, number as u64);
    c.append(crlf_str());
    c
}

/// `XOVER <start>-<end>`.
pub fn xover_command(start: u32, end: u32) -> (c: String)
    ensures
        c@ == "XOVER "@ + decimal_spec(start as nat) + "-"@ + decimal_spec(end as nat) + crlf(),
{
    let mut c: String = String::from_str("XOVER ");
    push_decimal(&mut c, start as u64);
    c.append("-");
    push_decimal(&mut c, end as u64);
    c.append(crlf_str());
    c
}

/// `<keyword><date> <time>[ <distribution>]`, ended by a CRLF.
fn dated_command(keyword: &str, date: &str, time: &str, distribution: Option<&str>) -> (c: String)
    ensures
        c@ == match distribution {
            Some(d) => keyword@ + date@ + " "@ + time@ + " "@ + d@ + crlf(),
            None => keyword@ + date@ + " "@ + time@ + crlf(),
        },
{
    let mut c: String = String::from_str(keyword);
    c.append(date);
    c.append(" ");
    c.append(time);
    match distribution {
        Some(d) => {
            c.append(" ");
            c.append(d);
        },
        None => {},
    }
    c.append(crlf_str());
    c
}

/// `NEWGROUPS <date> <time> [<distribution>]`.
pub fn newgroups_command(date: &str, time: &str, distribution: Option<&str>) -> (c: String)
    ensures
        c@ == match distribution {
            Some(d) => "NEWGROUPS "@ + date@ + " "@ + time@ + " "@ + d@ + crlf(),
            None => "NEWGROUPS "@ + date@ + " "@ + time@ + crlf(),
        },
{
    dated_command("NEWGROUPS ", date, time, distribution)
}

/// `NEWNEWS <date> <time> [<distribution>]`.
pub fn newnews_command(date: &str, time: &str, distribution: Option<&str>) -> (c: String)
    ensures
        c@ == match distribution {
            Some(d) => "NEWNEWS "@ + date@ + " "@ + time@ + " "@ + d@ + crlf(),
            None => "NEWNEWS "@ + date@ + " "@ + time@ + crlf(),
        },
{
    dated_command("NEWNEWS ", date, time, distribution)
}

} // verus!
