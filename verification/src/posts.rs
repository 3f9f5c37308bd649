//! Posting an article over a plain connection, one reply line per command.
use vstd::prelude::*;
use crate::command::{crlf, group_command, post_command};
use crate::error::NntpError;
use crate::session::{dot_stuff, dot_stuff_spec, sends_then_reads_line, ReplyRead, Step};
use crate::text::starts_with;

verus! {

/// An article to post over a plain connection.
#[derive(Debug)]
pub struct Article {
    pub subject: String,
    pub body: String,
}

/// The text sent for an article: the `Subject` header line, an empty line, the body
/// with its leading dots doubled, and the terminating `.` line; subject and body are
/// not trimmed.
pub open spec fn plain_article_text_spec(subject: Seq<char>, body: Seq<char>) -> Seq<char> {
    "Subject: "@ + subject + "\r\n\r\n"@ + dot_stuff_spec(body) + "\r\n.\r\n"@
}

/// The text sent for `article` once the server is ready for it.
pub fn plain_article_text(article: &Article) -> (t: String)
    ensures
        t@ == plain_article_text_spec(article.subject@, article.body@),
{
    let mut t: String = String::from_str("Subject: ");
    t.append(article.subject.as_str());
    t.append("\r\n\r\n");
    t.append(dot_stuff(article.body.as_str()).as_str());
    t.append("\r\n.\r\n");
    t
}

/// Where the plain `post_to_group` stands.
#[derive(Debug, PartialEq, Eq, Structural)]
pub enum PlainPostPhase {
    /// `GROUP` was sent; its reply line is awaited.
    AwaitingGroup,
    /// `POST` was sent; its reply line is awaited.
    AwaitingPost,
    /// The article was sent; its reply line is awaited.
    AwaitingResult,
    /// The exchange is over.
    Done,
}

/// `post_to_group` over a plain connection: selects the group (211), asks to post
/// (340), sends the article and expects 240, reading one line after each command.
pub struct PlainPostSession {
    pub phase: PlainPostPhase,
    pub text: String,
}

impl PlainPostSession {
    /// Starts the exchange; the article text is prepared now and sent later.
    pub fn start(group: &str, article: &Article) -> (r: (PlainPostSession, Step<()>))
        ensures
            r.0.phase == PlainPostPhase::AwaitingGroup,
            r.0.text@ == plain_article_text_spec(article.subject@, article.body@),
            sends_then_reads_line(r.1, "GROUP "@ + group@ + crlf()),
    {
        let s = PlainPostSession { phase: PlainPostPhase::AwaitingGroup, text: plain_article_text(article) };
        (s, Step::Exchange { command: group_command(group), read: ReplyRead::SingleLine })
    }

    /// Takes the reply line to `GROUP`, to `POST` or to the article.
    pub fn on_reply(&mut self, reply: &str) -> (r: Step<()>)
        requires
            old(self).phase == PlainPostPhase::AwaitingGroup || old(self).phase
                == PlainPostPhase::AwaitingPost || old(self).phase == PlainPostPhase::AwaitingResult,
        ensures
            final(self).text@ == old(self).text@,
            old(self).phase == PlainPostPhase::AwaitingGroup ==> if "211"@.is_prefix_of(reply@) {
                &&& final(self).phase == PlainPostPhase::AwaitingPost
                &&& sends_then_reads_line(r, "POST"@ + crlf())
            } else {
                &&& final(self).phase == PlainPostPhase::Done
                &&& r matches Step::Finished(Err(NntpError::GroupNotSelected))
            },
            old(self).phase == PlainPostPhase::AwaitingPost ==> if "340"@.is_prefix_of(reply@) {
                &&& final(self).phase == PlainPostPhase::AwaitingResult
                &&& sends_then_reads_line(r, old(self).text@)
            } else {
                &&& final(self).phase == PlainPostPhase::Done
                &&& r matches Step::Finished(Err(NntpError::ArticleNotAccepted))
            },
            old(self).phase == PlainPostPhase::AwaitingResult ==> {
                &&& final(self).phase == PlainPostPhase::Done
                &&& if "240"@.is_prefix_of(reply@) {
                    r matches Step::Finished(Ok(()))
                } else {
                    r matches Step::Finished(Err(NntpError::ArticleNotPosted))
                }
            },
    {
        if self.phase == PlainPostPhase::AwaitingGroup {
            if starts_with(reply, "211") {
                self.phase = PlainPostPhase::AwaitingPost;
                Step::Exchange { command: post_command(), read: ReplyRead::SingleLine }
            } else {
                self.phase = PlainPostPhase::Done;
                Step::Finished(Err(NntpError::GroupNotSelected))
            }
        } else if self.phase == PlainPostPhase::AwaitingPost {
            if starts_with(reply, "340") {
                self.phase = PlainPostPhase::AwaitingResult;
                Step::Exchange { command: self.text.clone(), read: ReplyRead::SingleLine }
            } else {
                self.phase = PlainPostPhase::Done;
                Step::Finished(Err(NntpError::ArticleNotAccepted))
            }
        } else {
            self.phase = PlainPostPhase::Done;
            if starts_with(reply, "240") {
                Step::Finished(Ok(()))
            } else {
                Step::Finished(Err(NntpError::ArticleNotPosted))
            }
        }
    }
}

} // verus!
