//! Posting an article to a newsgroup with `GROUP` and `POST`.
use vstd::prelude::*;
use crate::command::{crlf, group_command, post_command};
use crate::error::NntpError;
use crate::session::{await_code, await_codes, dot_stuff, dot_stuff_spec, sends_then_awaits, Step};
use crate::newnews::{lemma_trim_idempotent, lemma_trim_is_clean};
use crate::text::{is_space, starts_with, trim, trim_spec};

verus! {

/// An article to post.
#[derive(Debug)]
pub struct Article {
    pub from: String,
    pub subject: String,
    pub body: String,
    pub newsgroups: String,
}

/// The text sent for `article`: the `From`, `Newsgroups` and `Subject` header lines,
/// an empty line, the body and the terminating `.` line, each field trimmed and the
/// body's leading dots doubled.
pub open spec fn article_text_spec(from: Seq<char>, newsgroups: Seq<char>, subject: Seq<char>, body: Seq<char>) -> Seq<char> {
    "From: "@ + trim_spec(from) + "\r\nNewsgroups: "@ + trim_spec(newsgroups) + "\r\nSubject: "@
        + trim_spec(subject) + "\r\n\r\n"@ + dot_stuff_spec(trim_spec(body)) + "\r\n.\r\n"@
}

/// The text sent for `article` once the server is ready for it.
pub fn article_text(article: &Article) -> (t: String)
    ensures
        t@ == article_text_spec(article.from@, article.newsgroups@, article.subject@, article.body@),
{
    let mut t: String = String::from_str("From: ");
    t.append(trim(article.from.as_str()).as_str());
    t.append("\r\nNewsgroups: ");
    t.append(trim(article.newsgroups.as_str()).as_str());
    t.append("\r\nSubject: ");
    t.append(trim(article.subject.as_str()).as_str());
    t.append("\r\n\r\n");
    t.append(dot_stuff(trim(article.body.as_str()).as_str()).as_str());
    t.append("\r\n.\r\n");
    t
}

/// Where `post_to_group` stands.
#[derive(Debug, PartialEq, Eq, Structural)]
pub enum PostPhase {
    /// `GROUP` was sent; its reply is awaited.
    AwaitingGroup,
    /// `POST` was sent; its reply is awaited.
    AwaitingPost,
    /// The article was sent; its reply is awaited.
    AwaitingResult,
    /// The exchange is over.
    Done,
}

/// `post_to_group`: selects the group (211), asks to post (340), sends the article
/// and waits for the server's answer to it: 240 means the article was accepted, and
/// 441 means the posting failed.
pub struct PostSession {
    pub phase: PostPhase,
    pub text: String,
}

impl PostSession {
    /// Starts the exchange; the article text is prepared now and sent later.
    pub fn start(article: &Article, newsgroup: &str) -> (r: (PostSession, Step<()>))
        ensures
            r.0.phase == PostPhase::AwaitingGroup,
            r.0.text@ == article_text_spec(article.from@, article.newsgroups@, article.subject@, article.body@),
            sends_then_awaits(r.1, "GROUP "@ + newsgroup@ + crlf(), seq!["211"@], 5, 3),
    {
        let s = PostSession { phase: PostPhase::AwaitingGroup, text: article_text(article) };
        (s, Step::Exchange { command: group_command(newsgroup), read: await_code("211", 5, 3) })
    }

    /// Takes the reply to `GROUP`, to `POST` or to the article.
    pub fn on_reply(&mut self, reply: &str) -> (r: Step<()>)
        requires
            old(self).phase == PostPhase::AwaitingGroup || old(self).phase == PostPhase::AwaitingPost
                || old(self).phase == PostPhase::AwaitingResult,
        ensures
            final(self).text@ == old(self).text@,
            old(self).phase == PostPhase::AwaitingGroup ==> if "211"@.is_prefix_of(reply@) {
                &&& final(self).phase == PostPhase::AwaitingPost
                &&& sends_then_awaits(r, "POST"@ + crlf(), seq!["340"@], 5, 3)
            } else {
                &&& final(self).phase == PostPhase::Done
                &&& r matches Step::Finished(Err(NntpError::GroupNotSet))
            },
            old(self).phase == PostPhase::AwaitingPost ==> if "340"@.is_prefix_of(reply@) {
                &&& final(self).phase == PostPhase::AwaitingResult
                &&& sends_then_awaits(r, old(self).text@, seq!["240"@, "441"@], 5, 3)
            } else {
                &&& final(self).phase == PostPhase::Done
                &&& r matches Step::Finished(Err(NntpError::PostNotInitiated))
            },
            old(self).phase == PostPhase::AwaitingResult ==> {
                &&& final(self).phase == PostPhase::Done
                &&& if "240"@.is_prefix_of(reply@) {
                    r matches Step::Finished(Ok(()))
                } else {
                    r matches Step::Finished(Err(NntpError::PostNotCompleted))
                }
            },
    {
        if self.phase == PostPhase::AwaitingGroup {
            if starts_with(reply, "211") {
                self.phase = PostPhase::AwaitingPost;
                Step::Exchange { command: post_command(), read: await_code("340", 5, 3) }
            } else {
                self.phase = PostPhase::Done;
                Step::Finished(Err(NntpError::GroupNotSet))
            }
        } else if self.phase == PostPhase::AwaitingPost {
            if starts_with(reply, "340") {
                self.phase = PostPhase::AwaitingResult;
                Step::Exchange { command: self.text.clone(), read: await_codes("240", "441", 5, 3) }
            } else {
                self.phase = PostPhase::Done;
                Step::Finished(Err(NntpError::PostNotInitiated))
            }
        } else {
            self.phase = PostPhase::Done;
            if starts_with(reply, "240") {
                Step::Finished(Ok(()))
            } else {
                Step::Finished(Err(NntpError::PostNotCompleted))
            }
        }
    }
}


/// Whitespace around the fields never reaches the text sent: an article whose fields
/// are first trimmed gives the same text as the article itself, so a subject read with
/// its line break gives the same header as the subject without it.
pub proof fn lemma_article_text_ignores_edge_whitespace(
    from: Seq<char>,
    newsgroups: Seq<char>,
    subject: Seq<char>,
    body: Seq<char>,
)
    ensures
        article_text_spec(from, newsgroups, subject, body) == article_text_spec(
            trim_spec(from),
            trim_spec(newsgroups),
            trim_spec(subject),
            trim_spec(body),
        ),
{
    lemma_trim_idempotent(from);
    lemma_trim_idempotent(newsgroups);
    lemma_trim_idempotent(subject);
    lemma_trim_idempotent(body);
}

/// Each header line carries its field with the surrounding whitespace removed: the
/// text begins with `From: ` and the trimmed author, the trimmed newsgroups follow
/// `\r\nNewsgroups: `, the trimmed subject stands between `\r\nSubject: ` and the
/// empty line, and none of these values starts or ends with whitespace or a line
/// break.
pub proof fn lemma_article_headers_hold_trimmed_fields(
    from: Seq<char>,
    newsgroups: Seq<char>,
    subject: Seq<char>,
    body: Seq<char>,
)
    ensures
        ("From: "@ + trim_spec(from) + "\r\nNewsgroups: "@ + trim_spec(newsgroups)).is_prefix_of(
            article_text_spec(from, newsgroups, subject, body),
        ),
        ({
            let text = article_text_spec(from, newsgroups, subject, body);
            let at = ("From: "@ + trim_spec(from) + "\r\nNewsgroups: "@ + trim_spec(newsgroups)).len();
            let subject_line = "\r\nSubject: "@ + trim_spec(subject) + "\r\n\r\n"@;
            text.subrange(at as int, (at + subject_line.len()) as int) == subject_line
        }),
        trim_spec(from).len() > 0 ==> !is_space(trim_spec(from)[0]) && !is_space(trim_spec(from).last()),
        trim_spec(newsgroups).len() > 0 ==> !is_space(trim_spec(newsgroups)[0]) && !is_space(
            trim_spec(newsgroups).last(),
        ),
        trim_spec(subject).len() > 0 ==> !is_space(trim_spec(subject)[0]) && !is_space(
            trim_spec(subject).last(),
        ),
{
    let text = article_text_spec(from, newsgroups, subject, body);
    let head = "From: "@ + trim_spec(from) + "\r\nNewsgroups: "@ + trim_spec(newsgroups);
    let subject_line = "\r\nSubject: "@ + trim_spec(subject) + "\r\n\r\n"@;
    let tail = dot_stuff_spec(trim_spec(body)) + "\r\n.\r\n"@;
    assert(text =~= head + subject_line + tail);
    assert(text.subrange(0, head.len() as int) =~= head);
    assert(text.subrange(head.len() as int, (head.len() + subject_line.len()) as int) =~= subject_line);
    lemma_trim_is_clean(from);
    lemma_trim_is_clean(newsgroups);
    lemma_trim_is_clean(subject);
}

/// With fields that have no surrounding whitespace, the text is the fields as given:
/// `From: <from>\r\nNewsgroups: <newsgroups>\r\nSubject: <subject>\r\n\r\n`, the
/// body with its leading dots doubled, and `\r\n.\r\n`.
pub proof fn lemma_article_text_of_clean_fields(
    from: Seq<char>,
    newsgroups: Seq<char>,
    subject: Seq<char>,
    body: Seq<char>,
)
    requires
        trim_spec(from) == from,
        trim_spec(newsgroups) == newsgroups,
        trim_spec(subject) == subject,
        trim_spec(body) == body,
    ensures
        article_text_spec(from, newsgroups, subject, body) == "From: "@ + from + "\r\nNewsgroups: "@
            + newsgroups + "\r\nSubject: "@ + subject + "\r\n\r\n"@ + dot_stuff_spec(body)
            + "\r\n.\r\n"@,
{
}

} // verus!
