use rek2_nntp::command::{
    article_command, authinfo_pass_command, authinfo_user_command, body_command, group_command,
    head_command, list_command, newgroups_command, newnews_command, post_command, quit_command,
    stat_command, xover_command,
};
use rek2_nntp::post::{article_text, Article as PostArticle};
use rek2_nntp::posts::{plain_article_text, Article as PlainArticle};

#[test]
fn simple_commands() {
    assert_eq!(authinfo_user_command("alice"), "AUTHINFO USER alice\r\n");
    assert_eq!(authinfo_pass_command("s3cret"), "AUTHINFO PASS s3cret\r\n");
    assert_eq!(group_command("comp.lang.rust"), "GROUP comp.lang.rust\r\n");
    assert_eq!(body_command("1"), "BODY 1\r\n");
    assert_eq!(head_command("<id@host>"), "HEAD <id@host>\r\n");
    assert_eq!(stat_command("7"), "STAT 7\r\n");
    assert_eq!(list_command(), "LIST\r\n");
    assert_eq!(post_command(), "POST\r\n");
    assert_eq!(quit_command(), "QUIT\r\n");
}

#[test]
fn numbered_commands() {
    assert_eq!(article_command(0), "ARTICLE 0\r\n");
    assert_eq!(article_command(1), "ARTICLE 1\r\n");
    assert_eq!(article_command(4294967295), "ARTICLE 4294967295\r\n");
    assert_eq!(xover_command(10, 205), "XOVER 10-205\r\n");
}

#[test]
fn dated_commands() {
    assert_eq!(newgroups_command("20250101", "000000", None), "NEWGROUPS 20250101 000000\r\n");
    assert_eq!(
        newgroups_command("20250101", "000000", Some("<comp>")),
        "NEWGROUPS 20250101 000000 <comp>\r\n"
    );
    assert_eq!(newnews_command("20230101", "120000", None), "NEWNEWS 20230101 120000\r\n");
    assert_eq!(newnews_command("20230101", "120000", Some("world")), "NEWNEWS 20230101 120000 world\r\n");
}

#[test]
fn article_texts() {
    let a = PostArticle {
        from: " user@example.com ".to_string(),
        newsgroups: "comp.lang.rust\n".to_string(),
        subject: "Hello Rust!".to_string(),
        body: "\tThis is a test article posted using rek2_nntp  ".to_string(),
    };
    assert_eq!(
        article_text(&a),
        "From: user@example.com\r\nNewsgroups: comp.lang.rust\r\nSubject: Hello Rust!\r\n\r\nThis is a test article posted using rek2_nntp\r\n.\r\n"
    );
    let p = PlainArticle { subject: " S ".to_string(), body: "B".to_string() };
    assert_eq!(plain_article_text(&p), "Subject:  S \r\n\r\nB\r\n.\r\n");
    let p = PlainArticle { subject: "S".to_string(), body: ".a\n.b".to_string() };
    assert_eq!(plain_article_text(&p), "Subject: S\r\n\r\n..a\n..b\r\n.\r\n");
}
