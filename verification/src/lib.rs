//! An NNTP client library (RFC 3977, RFC 4643) whose protocol logic is verified:
//! the commands it sends, how it waits for replies, and how it reads the lines that
//! follow them. Each command is a state machine that says what to send and read;
//! the caller performs the network I/O.
pub mod auth;
pub mod body;
pub mod command;
pub mod error;
pub mod group;
pub mod head;
pub mod list;
pub mod newgroups;
pub mod newnews;
pub mod post;
pub mod posts;
pub mod quit;
pub mod read;
pub mod session;
pub mod stat;
pub mod text;
pub mod utils;
pub mod xover;

pub use auth::AuthType;
pub use list::Newsgroup;
pub use post::Article as PostArticle;
pub use read::Article as ReadArticle;
