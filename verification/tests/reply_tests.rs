use rek2_nntp::utils::{decode_line, starts_with_any, ResponseWait, WaitStep};

fn codes(cs: &[&str]) -> Vec<String> {
    cs.iter().map(|c| c.to_string()).collect()
}

#[test]
fn decode_line_replaces_invalid_utf8() {
    assert_eq!(decode_line(b"200 ready\r\n"), "200 ready\r\n");
    assert_eq!(decode_line("caf\u{e9}".as_bytes()), "caf\u{e9}");
    assert_eq!(decode_line(b"a\xffb"), "a\u{fffd}b");
}

#[test]
fn prefixes_any() {
    assert!(starts_with_any("441 posting failed", &codes(&["240", "441"])));
    assert!(!starts_with_any("440 posting not allowed", &codes(&["240", "441"])));
    assert!(!starts_with_any("240", &codes(&[])));
}

#[test]
fn wait_takes_first_matching_line() {
    let (mut w, first) = ResponseWait::new(codes(&["381"]), 3);
    assert!(matches!(first, WaitStep::ReadLine));
    assert!(matches!(w.on_line("200 welcome\r\n".to_string()), WaitStep::ReadLine));
    match w.on_line("381 password required\r\n".to_string()) {
        WaitStep::Accepted(line) => assert_eq!(line, "381 password required\r\n"),
        other => panic!("unexpected {:?}", other),
    }
    assert_eq!(w.attempts, 2);
}

#[test]
fn wait_gives_up_after_max_attempts() {
    let (mut w, _) = ResponseWait::new(codes(&["211"]), 2);
    assert!(matches!(w.on_line("100 a\r\n".to_string()), WaitStep::ReadLine));
    assert!(matches!(w.on_line("100 b\r\n".to_string()), WaitStep::GaveUp));
}

#[test]
fn wait_with_no_attempts_gives_up_at_once() {
    let (_w, first) = ResponseWait::new(codes(&["211"]), 0);
    assert!(matches!(first, WaitStep::GaveUp));
}
