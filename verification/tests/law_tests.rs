use rek2_nntp::body::BodySession;
use rek2_nntp::session::dot_stuff;
use rek2_nntp::utils::{ResponseWait, WaitStep};
use rek2_nntp::command::{article_command, xover_command};
use rek2_nntp::read::ReadSession;
use rek2_nntp::session::Step;
use rek2_nntp::text::{parse_u32, split_fields, split_on, trim};

#[test]
fn article_numbers_read_back() {
    for n in [0u32, 7, 10, 99, 100, 65535, 4294967295] {
        let c = article_command(n);
        let digits = &c["ARTICLE ".len()..c.len() - 2];
        assert_eq!(parse_u32(digits), Ok(n));
    }
    let c = xover_command(12, 3456);
    let range = &c["XOVER ".len()..c.len() - 2];
    let ends: Vec<&str> = range.split('-').collect();
    assert_eq!(parse_u32(ends[0]), Ok(12));
    assert_eq!(parse_u32(ends[1]), Ok(3456));
}

#[test]
fn split_then_join_gives_back_the_text() {
    for s in ["", "a", "\t", "a\tb\t\tc\t", "no tabs here"] {
        let pieces = split_on(s, '\t');
        assert!(pieces.iter().all(|p| !p.contains('\t')));
        assert_eq!(pieces.join("\t"), s);
    }
}

#[test]
fn fields_are_words() {
    let fs = split_fields(" a\u{a0}b\t\tc d\r\n");
    assert_eq!(fs, vec!["a", "b", "c", "d"]);
    assert!(fs.iter().all(|f| !f.is_empty() && !f.chars().any(char::is_whitespace)));
}

#[test]
fn trimmed_text_is_clean() {
    for s in ["  x y  ", "\r\n", "\u{2003}z\u{2003}"] {
        let t = trim(s);
        assert_eq!(t, s.trim());
        if let (Some(a), Some(b)) = (t.chars().next(), t.chars().last()) {
            assert!(!a.is_whitespace() && !b.is_whitespace());
        }
    }
}

#[test]
fn header_and_body_hold_every_line_but_the_separator() {
    let lines = ["A: 1\r\n", "B: 2\r\n", "\r\n", "one\r\n", "\r\n", "two\r\n"];
    let (mut s, _) = ReadSession::start("g", Some((1, 1)));
    s.on_reply("211 ok\r\n");
    s.on_reply("220 1 <x@y>\r\n");
    for l in lines {
        assert!(matches!(s.on_line(l), Step::NextLine));
    }
    match s.on_line(".\r\n") {
        Step::Finished(Ok(articles)) => {
            let joined = format!("{}{}", articles[0].header, articles[0].body);
            let first_blank = lines.iter().position(|l| *l == "\r\n").unwrap();
            let without: String = lines
                .iter()
                .enumerate()
                .filter(|(i, _)| *i != first_blank)
                .map(|(_, l)| *l)
                .collect();
            assert_eq!(joined, without);
            assert_eq!(articles[0].body, "one\r\n\r\ntwo\r\n");
        }
        other => panic!("{:?}", other),
    }
}

#[test]
fn posted_lines_read_back() {
    let body = "first\r\n.\r\n..two\r\n.x";
    let sent = dot_stuff(body);
    assert_eq!(sent, "first\r\n..\r\n...two\r\n..x");
    let (mut s, _) = BodySession::start("1");
    s.on_reply("222 ok\r\n");
    let text = format!("{}\r\n", sent);
    let mut rest = text.as_str();
    while let Some(i) = rest.find("\r\n") {
        let line = &rest[..i + 2];
        assert!(matches!(s.on_line(line), Step::NextLine));
        rest = &rest[i + 2..];
    }
    match s.on_line(".\r\n") {
        Step::Finished(Ok(t)) => assert_eq!(t, format!("{}\r\n", body)),
        other => panic!("{:?}", other),
    }
}

#[test]
fn wait_outcome_is_first_match_within_attempts() {
    let (mut w, _) = ResponseWait::new(vec!["381".to_string()], 3);
    assert!(matches!(w.on_line("200 a\r\n".to_string()), WaitStep::ReadLine));
    assert!(matches!(w.on_line("201 b\r\n".to_string()), WaitStep::ReadLine));
    assert!(matches!(w.on_line("202 c\r\n".to_string()), WaitStep::GaveUp));
}

#[test]
fn read_exchange_asks_each_number_once_in_order() {
    let (mut s, _) = ReadSession::start("g", Some((7, 9)));
    let mut sent = Vec::new();
    let mut step = s.on_reply("211 3 7 9 g\r\n");
    let script = [
        "220 7 <a@x>\r\n", "A: 1\r\n", "\r\n", "seven\r\n", ".\r\n",
        "423 no such article\r\n",
        "220 9 <c@x>\r\n", "C: 3\r\n", ".\r\n",
    ];
    let mut i = 0;
    let result = loop {
        match step {
            Step::Exchange { command, .. } => {
                sent.push(command);
                step = s.on_reply(script[i]);
                i += 1;
            }
            Step::NextLine => {
                step = s.on_line(script[i]);
                i += 1;
            }
            Step::Finished(r) => break r,
        }
    };
    assert_eq!(sent, vec!["ARTICLE 7\r\n", "ARTICLE 8\r\n", "ARTICLE 9\r\n"]);
    let articles = result.unwrap();
    assert_eq!(articles.len(), 2);
    assert_eq!(articles[0].header, "A: 1\r\n");
    assert_eq!(articles[0].body, "seven\r\n");
    assert_eq!(articles[1].header, "C: 3\r\n");
    assert_eq!(articles[1].body, "");
}

#[test]
fn empty_range_sends_only_group() {
    let (mut s, _) = ReadSession::start("g", Some((9, 7)));
    match s.on_reply("211 ok\r\n") {
        Step::Finished(Ok(v)) => assert!(v.is_empty()),
        other => panic!("{:?}", other),
    }
}
