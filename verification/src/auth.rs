//! Logging in with `AUTHINFO USER` and `AUTHINFO PASS` (RFC 4643).
use vstd::prelude::*;
use crate::command::{authinfo_pass_command, authinfo_user_command, crlf};
use crate::error::NntpError;
use crate::session::{await_code, sends_then_awaits, Step};
use crate::text::starts_with;
use crate::utils::{has_any_prefix, lemma_wait_gives_reply, wait_outcome};

verus! {

/// How a connection is made.
#[derive(Clone, Copy, Debug, PartialEq, Eq, Structural)]
pub enum AuthType {
    Plain,
    SSL,
}

/// Whether a login succeeds when the server sends `user_lines` while the reply to
/// `AUTHINFO USER` is awaited and `pass_lines` while the reply to `AUTHINFO PASS` is:
/// one of the first three of the former starts with 381 and one of the first three
/// of the latter with 281.
pub open spec fn login_accepted(user_lines: Seq<Seq<char>>, pass_lines: Seq<Seq<char>>) -> bool {
    &&& exists|i: int| 0 <= i < user_lines.len() && i < 3 && #[trigger] "381"@.is_prefix_of(user_lines[i])
    &&& exists|j: int| 0 <= j < pass_lines.len() && j < 3 && #[trigger] "281"@.is_prefix_of(pass_lines[j])
}

/// The login runs as two waits, for 381 then for 281, each over at most three lines,
/// and `AuthSession::on_reply` succeeds exactly on a 381 reply followed by a 281
/// reply: so the login succeeds exactly when `login_accepted` holds of the lines
/// the server sends.
pub proof fn lemma_login_accepted(user_lines: Seq<Seq<char>>, pass_lines: Seq<Seq<char>>)
    ensures
        login_accepted(user_lines, pass_lines) <==> {
            &&& wait_outcome(user_lines, seq!["381"@], 3) matches Some(Some(r1))
            &&& "381"@.is_prefix_of(r1)
            &&& wait_outcome(pass_lines, seq!["281"@], 3) matches Some(Some(r2))
            &&& "281"@.is_prefix_of(r2)
        },
{
    lemma_wait_gives_reply(user_lines, seq!["381"@], 3);
    lemma_wait_gives_reply(pass_lines, seq!["281"@], 3);
    lemma_single_prefix(user_lines, "381"@);
    lemma_single_prefix(pass_lines, "281"@);
}

proof fn lemma_single_prefix(lines: Seq<Seq<char>>, p: Seq<char>)
    ensures
        forall|l: Seq<char>| #[trigger] has_any_prefix(l, seq![p]) <==> p.is_prefix_of(l),
        (exists|i: int| 0 <= i < lines.len() && i < 3 && #[trigger] has_any_prefix(lines[i], seq![p]))
            <==> (exists|i: int| 0 <= i < lines.len() && i < 3 && #[trigger] p.is_prefix_of(lines[i])),
{
    assert forall|l: Seq<char>| #[trigger] has_any_prefix(l, seq![p]) <==> p.is_prefix_of(l) by {
        if p.is_prefix_of(l) {
            assert(seq![p][0] == p);
        }
    }
    if exists|i: int| 0 <= i < lines.len() && i < 3 && #[trigger] p.is_prefix_of(lines[i]) {
        let i = choose|i: int| 0 <= i < lines.len() && i < 3 && #[trigger] p.is_prefix_of(lines[i]);
        assert(has_any_prefix(lines[i], seq![p]));
    }
    if exists|i: int| 0 <= i < lines.len() && i < 3 && #[trigger] has_any_prefix(lines[i], seq![p]) {
        let i = choose|i: int| 0 <= i < lines.len() && i < 3 && #[trigger] has_any_prefix(lines[i], seq![p]);
        assert(p.is_prefix_of(lines[i]));
    }
}

/// Where `authenticate` stands.
#[derive(Debug, PartialEq, Eq, Structural)]
pub enum AuthPhase {
    /// `AUTHINFO USER` was sent; a reply asking for the password (381) is awaited.
    AwaitingUser,
    /// `AUTHINFO PASS` was sent; a reply accepting it (281) is awaited.
    AwaitingPass,
    /// The exchange is over.
    Done,
}

/// `authenticate`, once connected: sends the user name, and after a 381 reply the
/// password; a 281 reply to it completes the login.
pub struct AuthSession {
    pub phase: AuthPhase,
    pub password: String,
}

impl AuthSession {
    /// Starts the login.
    pub fn start(username: &str, password: &str) -> (r: (AuthSession, Step<()>))
        ensures
            r.0.phase == AuthPhase::AwaitingUser,
            r.0.password@ == password@,
            sends_then_awaits(r.1, "AUTHINFO USER "@ + username@ + crlf(), seq!["381"@], 5, 3),
    {
        let s = AuthSession { phase: AuthPhase::AwaitingUser, password: String::from_str(password) };
        (s, Step::Exchange { command: authinfo_user_command(username), read: await_code("381", 5, 3) })
    }

    /// Takes the reply to `AUTHINFO USER` or to `AUTHINFO PASS`.
    pub fn on_reply(&mut self, reply: &str) -> (r: Step<()>)
        requires
            old(self).phase == AuthPhase::AwaitingUser || old(self).phase == AuthPhase::AwaitingPass,
        ensures
            final(self).password@ == old(self).password@,
            old(self).phase == AuthPhase::AwaitingUser ==> if "381"@.is_prefix_of(reply@) {
                &&& final(self).phase == AuthPhase::AwaitingPass
                &&& sends_then_awaits(r, "AUTHINFO PASS "@ + old(self).password@ + crlf(), seq!["281"@], 5, 3)
            } else {
                &&& final(self).phase == AuthPhase::Done
                &&& r matches Step::Finished(Err(NntpError::UnexpectedUserReply))
            },
            old(self).phase == AuthPhase::AwaitingPass ==> {
                &&& final(self).phase == AuthPhase::Done
                &&& if "281"@.is_prefix_of(reply@) {
                    r matches Step::Finished(Ok(()))
                } else {
                    r matches Step::Finished(Err(NntpError::AuthenticationFailed))
                }
            },
    {
        if self.phase == AuthPhase::AwaitingUser {
            if starts_with(reply, "381") {
                self.phase = AuthPhase::AwaitingPass;
                Step::Exchange { command: authinfo_pass_command(self.password.as_str()), read: await_code("281", 5, 3) }
            } else {
                self.phase = AuthPhase::Done;
                Step::Finished(Err(NntpError::UnexpectedUserReply))
            }
        } else {
            self.phase = AuthPhase::Done;
            if starts_with(reply, "281") {
                Step::Finished(Ok(()))
            } else {
                Step::Finished(Err(NntpError::AuthenticationFailed))
            }
        }
    }
}

} // verus!
