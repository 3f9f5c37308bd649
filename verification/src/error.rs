//! Why an exchange with the server failed.
use vstd::prelude::*;
use crate::text::NumberError;

verus! {

/// Why an exchange with the server failed.
#[derive(Debug)]
pub enum NntpError {
    /// The reply to `AUTHINFO USER` did not ask for a password.
    UnexpectedUserReply,
    /// The server refused the password.
    AuthenticationFailed,
    /// None of the lines read while waiting started with an expected code.
    NoExpectedResponse,
    /// The reply to `BODY` was not 222.
    BodyFailed,
    /// The reply to `HEAD` was not 221.
    HeadFailed,
    /// The reply to `LIST` was not 215.
    ListFailed,
    /// The reply to `NEWGROUPS` was not 231.
    NewgroupsFailed,
    /// The reply to `NEWNEWS` was not 230.
    NewnewsFailed,
    /// Before posting, the reply to `GROUP` was not 211.
    GroupNotSet,
    /// The reply to `POST` was not 340.
    PostNotInitiated,
    /// The article was not posted: the reply to it was not 240.
    PostNotCompleted,
    /// The reply to `QUIT` was not 205.
    QuitFailed,
    /// The reply to `GROUP` was not 211.
    GroupNotSelected,
    /// The reply to `POST` was not 340 (plain-socket posting).
    ArticleNotAccepted,
    /// The reply to the article was not 240 (plain-socket posting).
    ArticleNotPosted,
    /// The reply to `STAT` was not 223.
    StatFailed,
    /// The reply to `STAT` had no message identifier after the article number.
    StatMalformed,
    /// Before an overview, the reply to `GROUP` was not 211; it holds the trimmed reply.
    XoverGroupFailed(String),
    /// The reply to `XOVER` was not 224; it holds the trimmed reply.
    XoverFailed(String),
    /// A number in a listing is not an unsigned integer.
    InvalidNumber(NumberError),
}

} // verus!
