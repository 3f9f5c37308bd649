use rek2_nntp::auth::AuthSession;
use rek2_nntp::body::BodySession;
use rek2_nntp::error::NntpError;
use rek2_nntp::group::GroupSession;
use rek2_nntp::head::HeadSession;
use rek2_nntp::list::ListSession;
use rek2_nntp::newgroups::NewgroupsSession;
use rek2_nntp::newnews::NewnewsSession;
use rek2_nntp::post::{Article as PostArticle, PostSession};
use rek2_nntp::posts::{Article as PlainArticle, PlainPostSession};
use rek2_nntp::quit::QuitSession;
use rek2_nntp::read::ReadSession;
use rek2_nntp::session::{ReplyRead, Step};
use rek2_nntp::stat::StatSession;
use rek2_nntp::text::NumberError;
use rek2_nntp::xover::XoverSession;

fn sent<T: std::fmt::Debug>(step: &Step<T>) -> (String, Option<(Vec<String>, u64, u8)>) {
    match step {
        Step::Exchange { command, read } => match read {
            ReplyRead::Awaited { expected, timeout_secs, max_attempts } => {
                (command.clone(), Some((expected.clone(), *timeout_secs, *max_attempts)))
            }
            ReplyRead::SingleLine => (command.clone(), None),
        },
        other => panic!("expected an exchange, got {:?}", other),
    }
}

fn awaited(codes: &[&str], t: u64, n: u8) -> Option<(Vec<String>, u64, u8)> {
    Some((codes.iter().map(|c| c.to_string()).collect(), t, n))
}

#[test]
fn login_succeeds_after_381_and_281() {
    let (mut s, first) = AuthSession::start("alice", "pw");
    assert_eq!(sent(&first), ("AUTHINFO USER alice\r\n".to_string(), awaited(&["381"], 5, 3)));
    let second = s.on_reply("381 PASS required\r\n");
    assert_eq!(sent(&second), ("AUTHINFO PASS pw\r\n".to_string(), awaited(&["281"], 5, 3)));
    assert!(matches!(s.on_reply("281 Ok\r\n"), Step::Finished(Ok(()))));
}

#[test]
fn login_refusals() {
    let (mut s, _) = AuthSession::start("alice", "pw");
    assert!(matches!(s.on_reply("482 no\r\n"), Step::Finished(Err(NntpError::UnexpectedUserReply))));
    let (mut s, _) = AuthSession::start("alice", "pw");
    s.on_reply("381 more\r\n");
    assert!(matches!(s.on_reply("481 bad\r\n"), Step::Finished(Err(NntpError::AuthenticationFailed))));
}

#[test]
fn group_reply_is_trimmed() {
    let (mut s, first) = GroupSession::start("hispagatos.test");
    assert_eq!(sent(&first), ("GROUP hispagatos.test\r\n".to_string(), awaited(&["211"], 5, 3)));
    match s.on_reply("211 5 10 14 hispagatos.test\r\n") {
        Step::Finished(Ok(r)) => {
            assert_eq!(r, "211 5 10 14 hispagatos.test");
            let parts: Vec<&str> = r.split_whitespace().collect();
            assert_eq!(parts[2], "10");
        }
        other => panic!("{:?}", other),
    }
}

#[test]
fn quit_expects_205() {
    let (mut s, first) = QuitSession::start();
    assert_eq!(sent(&first), ("QUIT\r\n".to_string(), awaited(&["205"], 5, 3)));
    assert!(matches!(s.on_reply("205 bye\r\n"), Step::Finished(Ok(()))));
    let (mut s, _) = QuitSession::start();
    assert!(matches!(s.on_reply("500 what\r\n"), Step::Finished(Err(NntpError::QuitFailed))));
}

#[test]
fn stat_returns_message_id() {
    let (mut s, first) = StatSession::start("10");
    assert_eq!(sent(&first), ("STAT 10\r\n".to_string(), awaited(&["223"], 5, 3)));
    match s.on_reply("223 10 <abc@example.com>\r\n") {
        Step::Finished(Ok(id)) => assert_eq!(id, "<abc@example.com>"),
        other => panic!("{:?}", other),
    }
    let (mut s, _) = StatSession::start("3000234");
    match s.on_reply("223 3000234 <45223423@example.com>\r\n") {
        Step::Finished(Ok(id)) => assert_eq!(id, "<45223423@example.com>"),
        other => panic!("{:?}", other),
    }
    let (mut s, _) = StatSession::start("10");
    assert!(matches!(s.on_reply("223 10\r\n"), Step::Finished(Err(NntpError::StatMalformed))));
    let (mut s, _) = StatSession::start("10");
    assert!(matches!(s.on_reply("423 no\r\n"), Step::Finished(Err(NntpError::StatFailed))));
}

#[test]
fn body_collects_lines_until_dot() {
    let (mut s, first) = BodySession::start("1");
    assert_eq!(sent(&first), ("BODY 1\r\n".to_string(), awaited(&["222"], 5, 3)));
    assert!(matches!(s.on_reply("222 1 <a@b> body\r\n"), Step::NextLine));
    assert!(matches!(s.on_line("line one\r\n"), Step::NextLine));
    assert!(matches!(s.on_line("\r\n"), Step::NextLine));
    assert!(matches!(s.on_line("..stuffed\r\n"), Step::NextLine));
    match s.on_line(".\r\n") {
        Step::Finished(Ok(t)) => assert_eq!(t, "line one\r\n\r\n.stuffed\r\n"),
        other => panic!("{:?}", other),
    }
    let (mut s, _) = BodySession::start("1");
    assert!(matches!(s.on_reply("430 no such article\r\n"), Step::Finished(Err(NntpError::BodyFailed))));
}

#[test]
fn head_collects_lines_until_dot() {
    let (mut s, first) = HeadSession::start("<x@y>");
    assert_eq!(sent(&first), ("HEAD <x@y>\r\n".to_string(), awaited(&["221"], 5, 3)));
    assert!(matches!(s.on_reply("221 0 <x@y>\r\n"), Step::NextLine));
    assert!(matches!(s.on_line("Subject: hi\r\n"), Step::NextLine));
    match s.on_line(".\r\n") {
        Step::Finished(Ok(t)) => assert_eq!(t, "Subject: hi\r\n"),
        other => panic!("{:?}", other),
    }
    let (mut s, _) = HeadSession::start("1");
    assert!(matches!(s.on_reply("423 no\r\n"), Step::Finished(Err(NntpError::HeadFailed))));
}

#[test]
fn list_parses_lines() {
    let (mut s, first) = ListSession::start();
    assert_eq!(sent(&first), ("LIST\r\n".to_string(), awaited(&["215"], 5, 3)));
    assert!(matches!(s.on_reply("215 list follows\r\n"), Step::NextLine));
    assert!(matches!(s.on_line(b"comp.lang.rust 120 3 y\r\n"), Step::NextLine));
    assert!(matches!(s.on_line(b"short line\r\n"), Step::NextLine));
    assert!(matches!(s.on_line(b"alt.test 9 1 m extra\n"), Step::NextLine));
    match s.on_line(b".\r\n") {
        Step::Finished(Ok(groups)) => {
            assert_eq!(groups.len(), 2);
            assert_eq!(groups[0].name, "comp.lang.rust");
            assert_eq!(groups[0].high, 120);
            assert_eq!(groups[0].low, 3);
            assert_eq!(groups[0].status, "y");
            assert_eq!(groups[1].name, "alt.test");
            assert_eq!(groups[1].status, "m");
        }
        other => panic!("{:?}", other),
    }
}

#[test]
fn list_ends_at_end_of_input_and_fails_on_bad_numbers() {
    let (mut s, _) = ListSession::start();
    s.on_reply("215 ok\r\n");
    assert!(matches!(s.on_line(b"a 1 0 y\r\n"), Step::NextLine));
    match s.on_line(b"") {
        Step::Finished(Ok(groups)) => assert_eq!(groups.len(), 1),
        other => panic!("{:?}", other),
    }
    let (mut s, _) = ListSession::start();
    s.on_reply("215 ok\r\n");
    assert!(matches!(
        s.on_line(b"a x 0 y\r\n"),
        Step::Finished(Err(NntpError::InvalidNumber(NumberError::InvalidDigit)))
    ));
    let (mut s, _) = ListSession::start();
    assert!(matches!(s.on_reply("500 ?\r\n"), Step::Finished(Err(NntpError::ListFailed))));
}

#[test]
fn newgroups_parses_lenient_numbers() {
    let (mut s, first) = NewgroupsSession::start("20230101", "000000", None);
    assert_eq!(sent(&first), ("NEWGROUPS 20230101 000000\r\n".to_string(), awaited(&["231"], 5, 3)));
    assert!(matches!(s.on_reply("231 list follows\r\n"), Step::NextLine));
    assert!(matches!(s.on_line("  new.group 12 x y\r\n"), Step::NextLine));
    assert!(matches!(s.on_line("bad\r\n"), Step::NextLine));
    match s.on_line(".\r\n") {
        Step::Finished(Ok(g)) => {
            assert_eq!(g.len(), 1);
            assert_eq!(g[0].name, "new.group");
            assert_eq!(g[0].high, 12);
            assert_eq!(g[0].low, 0);
            assert_eq!(g[0].status, "y");
        }
        other => panic!("{:?}", other),
    }
}

#[test]
fn newnews_keeps_trimmed_ids() {
    let (mut s, first) = NewnewsSession::start("20230101", "000000", Some("world"));
    assert_eq!(
        sent(&first),
        ("NEWNEWS 20230101 000000 world\r\n".to_string(), awaited(&["230"], 10, 5))
    );
    assert!(matches!(s.on_reply("230 list follows\r\n"), Step::NextLine));
    assert!(matches!(s.on_line(" <a@b>\r\n"), Step::NextLine));
    assert!(matches!(s.on_line("\r\n"), Step::NextLine));
    match s.on_line(".\r\n") {
        Step::Finished(Ok(ids)) => assert_eq!(ids, vec!["<a@b>".to_string()]),
        other => panic!("{:?}", other),
    }
    let (mut s, _) = NewnewsSession::start("d", "t", None);
    assert!(matches!(s.on_reply("502 no\r\n"), Step::Finished(Err(NntpError::NewnewsFailed))));
}

#[test]
fn post_runs_three_exchanges() {
    let a = PostArticle {
        from: "u@e".to_string(),
        newsgroups: "g".to_string(),
        subject: "s".to_string(),
        body: "b".to_string(),
    };
    let (mut s, first) = PostSession::start(&a, "g");
    assert_eq!(sent(&first), ("GROUP g\r\n".to_string(), awaited(&["211"], 5, 3)));
    let second = s.on_reply("211 1 1 1 g\r\n");
    assert_eq!(sent(&second), ("POST\r\n".to_string(), awaited(&["340"], 5, 3)));
    let third = s.on_reply("340 send\r\n");
    assert_eq!(
        sent(&third),
        (
            "From: u@e\r\nNewsgroups: g\r\nSubject: s\r\n\r\nb\r\n.\r\n".to_string(),
            awaited(&["240", "441"], 5, 3)
        )
    );
    assert!(matches!(s.on_reply("240 article posted\r\n"), Step::Finished(Ok(()))));
}

#[test]
fn post_441_is_a_failure() {
    let a = PostArticle {
        from: "a@x".to_string(),
        newsgroups: "g".to_string(),
        subject: "s".to_string(),
        body: "x\r\n.\r\ny".to_string(),
    };
    let (mut s, _) = PostSession::start(&a, "g");
    s.on_reply("211 1 1 1 g\r\n");
    let third = s.on_reply("340 send article\r\n");
    assert!(sent(&third).0.ends_with("\r\n\r\nx\r\n..\r\ny\r\n.\r\n"));
    assert!(matches!(s.on_reply("441 posting failed\r\n"), Step::Finished(Err(NntpError::PostNotCompleted))));
}

#[test]
fn post_refusals() {
    let a = PostArticle { from: String::new(), newsgroups: String::new(), subject: String::new(), body: String::new() };
    let (mut s, _) = PostSession::start(&a, "g");
    assert!(matches!(s.on_reply("411 no\r\n"), Step::Finished(Err(NntpError::GroupNotSet))));
    let (mut s, _) = PostSession::start(&a, "g");
    s.on_reply("211 ok\r\n");
    assert!(matches!(s.on_reply("440 no\r\n"), Step::Finished(Err(NntpError::PostNotInitiated))));
    let (mut s, _) = PostSession::start(&a, "g");
    s.on_reply("211 ok\r\n");
    s.on_reply("340 ok\r\n");
    assert!(matches!(s.on_reply("500 ?\r\n"), Step::Finished(Err(NntpError::PostNotCompleted))));
}

#[test]
fn plain_post() {
    let a = PlainArticle { subject: "s".to_string(), body: "b".to_string() };
    let (mut s, first) = PlainPostSession::start("g", &a);
    assert_eq!(sent(&first), ("GROUP g\r\n".to_string(), None));
    assert_eq!(sent(&s.on_reply("211 ok\r\n")), ("POST\r\n".to_string(), None));
    assert_eq!(sent(&s.on_reply("340 ok\r\n")), ("Subject: s\r\n\r\nb\r\n.\r\n".to_string(), None));
    assert!(matches!(s.on_reply("441 no\r\n"), Step::Finished(Err(NntpError::ArticleNotPosted))));
}

#[test]
fn read_splits_header_and_body_and_skips_missing_articles() {
    let (mut s, first) = ReadSession::start("g", Some((3, 5)));
    assert_eq!(sent(&first), ("GROUP g\r\n".to_string(), None));
    assert_eq!(sent(&s.on_reply("211 3 3 5 g\r\n")), ("ARTICLE 3\r\n".to_string(), None));
    assert!(matches!(s.on_reply("220 3 <a@b>\r\n"), Step::NextLine));
    assert!(matches!(s.on_line("Subject: one\r\n"), Step::NextLine));
    assert!(matches!(s.on_line("\r\n"), Step::NextLine));
    assert!(matches!(s.on_line("hello\r\n"), Step::NextLine));
    assert!(matches!(s.on_line("\r\n"), Step::NextLine));
    assert!(matches!(s.on_line("world\r\n"), Step::NextLine));
    assert_eq!(sent(&s.on_line(".\r\n")), ("ARTICLE 4\r\n".to_string(), None));
    assert_eq!(sent(&s.on_reply("423 no such article\r\n")), ("ARTICLE 5\r\n".to_string(), None));
    assert!(matches!(s.on_reply("220 5 <c@d>\r\n"), Step::NextLine));
    match s.on_line(".\r\n") {
        Step::Finished(Ok(articles)) => {
            assert_eq!(articles.len(), 2);
            assert_eq!(articles[0].header, "Subject: one\r\n");
            assert_eq!(articles[0].body, "hello\r\n\r\nworld\r\n");
            assert_eq!(articles[1].header, "");
            assert_eq!(articles[1].body, "");
        }
        other => panic!("{:?}", other),
    }
}

#[test]
fn read_defaults_and_failures() {
    let (mut s, _) = ReadSession::start("g", None);
    assert_eq!(sent(&s.on_reply("211 ok\r\n")), ("ARTICLE 1\r\n".to_string(), None));
    let (mut s, _) = ReadSession::start("g", Some((5, 4)));
    match s.on_reply("211 ok\r\n") {
        Step::Finished(Ok(a)) => assert!(a.is_empty()),
        other => panic!("{:?}", other),
    }
    let (mut s, _) = ReadSession::start("g", None);
    assert!(matches!(s.on_reply("411 no\r\n"), Step::Finished(Err(NntpError::GroupNotSelected))));
    let (mut s, _) = ReadSession::start("g", Some((u32::MAX, u32::MAX)));
    assert_eq!(sent(&s.on_reply("211 ok\r\n")), ("ARTICLE 4294967295\r\n".to_string(), None));
    assert!(matches!(s.on_reply("423 no\r\n"), Step::Finished(Ok(_))));
}

#[test]
fn xover_parses_tab_separated_lines() {
    let (mut s, first) = XoverSession::start("g", Some((10, 14)));
    assert_eq!(sent(&first), ("GROUP g\r\n".to_string(), None));
    assert_eq!(sent(&s.on_reply("211 5 10 14 g\r\n")), ("XOVER 10-14\r\n".to_string(), None));
    assert!(matches!(s.on_reply("224 overview follows\r\n"), Step::NextLine));
    assert!(matches!(
        s.on_line("10\tHello\tme@x\tMon, 1 Jan 2024\t <id@x> \t<r@x>\t100\r\n"),
        Step::NextLine
    ));
    assert!(matches!(s.on_line("11\tShort\r\n"), Step::NextLine));
    assert!(matches!(s.on_line("zz\tS\tF\tD\r\n"), Step::NextLine));
    match s.on_line(" .\r\n") {
        Step::Finished(Ok(o)) => {
            assert_eq!(o.len(), 2);
            assert_eq!(o[0].article_id, 10);
            assert_eq!(o[0].subject, "Hello");
            assert_eq!(o[0].from, "me@x");
            assert_eq!(o[0].date, "Mon, 1 Jan 2024");
            assert_eq!(o[0].message_id.as_deref(), Some("<id@x>"));
            assert_eq!(o[0].references.as_deref(), Some("<r@x>"));
            assert_eq!(o[1].article_id, 0);
            assert_eq!(o[1].message_id, None);
            assert_eq!(o[1].references, None);
        }
        other => panic!("{:?}", other),
    }
}

#[test]
fn xover_failures_keep_the_reply() {
    let (mut s, _) = XoverSession::start("g", None);
    match s.on_reply(" 411 no such group \r\n") {
        Step::Finished(Err(NntpError::XoverGroupFailed(t))) => assert_eq!(t, "411 no such group"),
        other => panic!("{:?}", other),
    }
    let (mut s, _) = XoverSession::start("g", None);
    assert_eq!(sent(&s.on_reply("211 ok\r\n")), ("XOVER 1-10\r\n".to_string(), None));
    match s.on_reply("420 no article\r\n") {
        Step::Finished(Err(NntpError::XoverFailed(t))) => assert_eq!(t, "420 no article"),
        other => panic!("{:?}", other),
    }
}

#[test]
fn block_readers_undouble_leading_dots() {
    let (mut s, _) = NewnewsSession::start("d", "t", None);
    s.on_reply("230 ok\r\n");
    assert!(matches!(s.on_line("..<dot@x>\r\n"), Step::NextLine));
    match s.on_line(".\r\n") {
        Step::Finished(Ok(ids)) => assert_eq!(ids, vec![".<dot@x>".to_string()]),
        other => panic!("{:?}", other),
    }
    let (mut s, _) = NewgroupsSession::start("d", "t", None);
    s.on_reply("231 ok\r\n");
    s.on_line("..hidden 2 1 y\r\n");
    match s.on_line(".\r\n") {
        Step::Finished(Ok(g)) => assert_eq!(g[0].name, ".hidden"),
        other => panic!("{:?}", other),
    }
    let (mut s, _) = ListSession::start();
    s.on_reply("215 ok\r\n");
    s.on_line(b"..dot.group 2 1 y\r\n");
    match s.on_line(b".\n") {
        Step::Finished(Ok(g)) => assert_eq!(g[0].name, ".dot.group"),
        other => panic!("{:?}", other),
    }
    let (mut s, _) = XoverSession::start("g", None);
    s.on_reply("211 ok\r\n");
    s.on_reply("224 ok\r\n");
    s.on_line("5\t..S\tF\tD\r\n");
    match s.on_line(".\r\n") {
        Step::Finished(Ok(o)) => assert_eq!(o[0].subject, "..S"),
        other => panic!("{:?}", other),
    }
    let (mut s, _) = HeadSession::start("1");
    s.on_reply("221 ok\r\n");
    s.on_line("..hidden\r\n");
    match s.on_line(".\r\n") {
        Step::Finished(Ok(t)) => assert_eq!(t, ".hidden\r\n"),
        other => panic!("{:?}", other),
    }
}

#[test]
fn read_keeps_empty_body_lines() {
    let (mut s, _) = ReadSession::start("g", Some((1, 1)));
    s.on_reply("211 1 1 1 g\r\n");
    s.on_reply("220 1 <a@x>\r\n");
    for l in ["Subject: s\r\n", "\r\n", "p1\r\n", "\r\n", "..p2\r\n"] {
        assert!(matches!(s.on_line(l), Step::NextLine));
    }
    match s.on_line(".\r\n") {
        Step::Finished(Ok(a)) => {
            assert_eq!(a.len(), 1);
            assert_eq!(a[0].header, "Subject: s\r\n");
            assert_eq!(a[0].body, "p1\r\n\r\n.p2\r\n");
        }
        other => panic!("{:?}", other),
    }
}
