use ptero_relay::classify::{classify, classify_content, redact_addresses, ConsoleEvent};

fn chat(u: &str, b: &str) -> ConsoleEvent {
    ConsoleEvent::ChatMessage { username: u.to_string(), body: b.to_string() }
}

#[test]
fn chat_line_gives_username_and_body() {
    let e = classify("[12:00:00] [Server thread/INFO]: <Alice> hello world");
    assert_eq!(e, chat("Alice", "hello world"));
}

#[test]
fn chat_uses_last_delimiter() {
    let e = classify("[a]: [b]: <Zed> x]y");
    assert_eq!(e, chat("Zed", "x]y"));
}

#[test]
fn chat_without_body_gives_empty_body() {
    assert_eq!(classify("[T] [S]: <Bob>"), chat("Bob", ""));
}

#[test]
fn greater_before_less_still_finds_a_pair() {
    assert_eq!(classify("[T]: a>b<c>  d"), chat("c", " d"));
}

#[test]
fn join_line_names_player() {
    let e = classify("[12:00:01] [Server thread/INFO]: Bob joined the game");
    assert_eq!(e, ConsoleEvent::PlayerJoined { name: "Bob".to_string() });
}

#[test]
fn leave_line_names_player() {
    let e = classify("[12:00:02] [Server thread/INFO]: Bob left the game");
    assert_eq!(e, ConsoleEvent::PlayerLeft { name: "Bob".to_string() });
}

#[test]
fn player_name_is_trimmed() {
    let e = classify("[T]: \t Bob  joined the game");
    assert_eq!(e, ConsoleEvent::PlayerJoined { name: "Bob".to_string() });
}

#[test]
fn leftmost_notice_wins() {
    let e = classify("[T]: Ann left the game after Bob joined the game");
    assert_eq!(e, ConsoleEvent::PlayerLeft { name: "Ann".to_string() });
}

#[test]
fn address_is_redacted() {
    let e = classify("[T] [S]: connection from 192.168.1.10 accepted");
    assert_eq!(
        e,
        ConsoleEvent::Redacted { content: "connection from (redacted) accepted".to_string() }
    );
}

#[test]
fn each_address_gets_one_placeholder() {
    let (out, n) = redact_addresses("192.168.1.10 and 192.168.1.10, 10.0.0.1");
    assert_eq!(out, "(redacted) and (redacted), (redacted)");
    assert_eq!(n, 3);
    assert!(!out.contains("192.168.1.10"));
    assert_eq!(out.matches("(redacted)").count(), 3);
}

#[test]
fn long_digit_runs_are_not_groups() {
    let (out, n) = redact_addresses("1234.5.6.7 and 1.2.3.45678");
    assert_eq!(out, "1(redacted) and (redacted)78");
    assert_eq!(n, 2);
}

#[test]
fn three_groups_are_no_address() {
    assert_eq!(
        classify("[T]: seen 1.2.3 today"),
        ConsoleEvent::Unclassified { raw: "seen 1.2.3 today".to_string() }
    );
}

#[test]
fn line_without_delimiter_is_unclassified() {
    let line = "Loading libraries, please wait...";
    assert_eq!(classify(line), ConsoleEvent::Unclassified { raw: line.to_string() });
    assert_eq!(classify(""), ConsoleEvent::Unclassified { raw: String::new() });
    assert_eq!(classify("]:"), ConsoleEvent::Unclassified { raw: "]:".to_string() });
}

#[test]
fn other_content_is_passed_through() {
    assert_eq!(
        classify("[T] [S]: Done (3.2s)!"),
        ConsoleEvent::Unclassified { raw: "Done (3.2s)!".to_string() }
    );
}

#[test]
fn redacted_content_is_left_alone() {
    let e = classify("[T]: from 10.0.0.1:25565 and 8.8.8.8");
    let content = match e {
        ConsoleEvent::Redacted { content } => content,
        other => panic!("expected a redaction, got {:?}", other),
    };
    assert_eq!(content, "from (redacted):25565 and (redacted)");
    let (again, n) = redact_addresses(&content);
    assert_eq!(again, content);
    assert_eq!(n, 0);
    assert_eq!(classify_content(&content), ConsoleEvent::Unclassified { raw: content.clone() });
}

#[test]
fn placeholder_once_per_address() {
    let c = "a 192.168.1.10 b 192.168.1.10 c 192.168.1.10";
    let (out, n) = redact_addresses(c);
    assert_eq!(n, 3);
    assert_eq!(out.matches("(redacted)").count(), 3);
    assert!(!out.contains("192.168.1.10"));
}
