use ptero_relay::classify::ConsoleEvent;
use ptero_relay::relay::{format_event, relay_message, OutboundMessage};
use ptero_relay::session::{
    auth_frame, auth_frame_from_quoted, decode_frame, frame_event, SessionAction, SessionError,
    SessionState, StreamInput, StreamSession,
};

fn open_session(channel: u64) -> StreamSession {
    let mut s = StreamSession::new("tok".to_string(), channel);
    let a = s.step(StreamInput::Connected);
    assert_eq!(a, SessionAction::SendAuth("{\"event\":\"auth\",\"args\":[\"tok\"]}".to_string()));
    assert_eq!(s.state, SessionState::Open);
    s
}

fn text(t: &str) -> StreamInput {
    StreamInput::Text(t.to_string())
}

#[test]
fn auth_frame_carries_token() {
    assert_eq!(auth_frame("abc"), "{\"event\":\"auth\",\"args\":[\"abc\"]}");
    assert_eq!(auth_frame("a\"b"), "{\"event\":\"auth\",\"args\":[\"a\\\"b\"]}");
    assert_eq!(
        auth_frame("a\\b\nc\u{1}d\u{1f}é"),
        "{\"event\":\"auth\",\"args\":[\"a\\\\b\\nc\\u0001d\\u001fé\"]}"
    );
    assert_eq!(auth_frame_from_quoted("\"q\""), "{\"event\":\"auth\",\"args\":[\"q\"]}");
}

#[test]
fn console_frame_is_delivered_once() {
    let mut s = open_session(42);
    let a = s.step(text("{\"event\":\"console output\",\"args\":[\"[T] [S]: <X> hi\"]}"));
    match a {
        SessionAction::Deliver(m) => {
            assert_eq!(m.channel_target, 42);
            assert!(m.text.contains('X'));
            assert!(m.text.contains("hi"));
            assert_eq!(m.text, "Minecraft: X : \"hi\"");
            assert!(!m.text.chars().any(|c| c.is_ascii_digit()));
        }
        other => panic!("expected a delivery, got {:?}", other),
    }
    assert_eq!(s.state, SessionState::Open);
}

#[test]
fn stats_frame_is_not_delivered() {
    let mut s = open_session(1);
    assert_eq!(s.step(text("{\"event\":\"stats\",\"args\":[\"{}\"]}")), SessionAction::Skip);
    assert_eq!(decode_frame("{\"event\":\"stats\",\"args\":[]}"), Some(ConsoleEvent::Stats));
}

#[test]
fn malformed_frame_does_not_stop_the_session() {
    let mut s = open_session(7);
    assert_eq!(s.step(text("{\"event\": \"console output\", ")), SessionAction::Skip);
    assert_eq!(s.step(StreamInput::NotText), SessionAction::Skip);
    assert_eq!(s.state, SessionState::Open);
    let a = s.step(text("{\"event\":\"console output\",\"args\":[\"[T]: Bob joined the game\"]}"));
    assert_eq!(
        a,
        SessionAction::Deliver(OutboundMessage {
            channel_target: 7,
            text: "Bob joined the game".to_string()
        })
    );
}

#[test]
fn redacted_line_is_delivered_without_address() {
    let mut s = open_session(3);
    let a = s.step(text("{\"event\":\"console output\",\"args\":[\"[T]: login from 10.1.2.3\"]}"));
    assert_eq!(
        a,
        SessionAction::Deliver(OutboundMessage {
            channel_target: 3,
            text: "login from (redacted)".to_string()
        })
    );
}

#[test]
fn other_events_are_unclassified() {
    let f = "{\"event\":\"status\",\"args\":[\"running\"]}";
    assert_eq!(decode_frame(f), Some(ConsoleEvent::Unclassified { raw: f.to_string() }));
    let mut s = open_session(3);
    assert_eq!(s.step(text(f)), SessionAction::Skip);
    assert_eq!(decode_frame("not json"), None);
    assert_eq!(
        decode_frame("{\"event\":\"console output\",\"args\":[7]}"),
        None
    );
    assert_eq!(
        decode_frame("{\"event\":\"console output\",\"args\":[]}"),
        None
    );
    let g = "{\"event\":3}";
    assert_eq!(decode_frame(g), Some(ConsoleEvent::Unclassified { raw: g.to_string() }));
}

#[test]
fn frame_event_reads_fields() {
    assert_eq!(frame_event("f", Some("stats".to_string()), None), Some(ConsoleEvent::Stats));
    assert_eq!(frame_event("f", Some("console output".to_string()), None), None);
    assert_eq!(
        frame_event("f", None, Some("x".to_string())),
        Some(ConsoleEvent::Unclassified { raw: "f".to_string() })
    );
    assert_eq!(
        frame_event("f", Some("console output".to_string()), Some("[a]: Al left the game".to_string())),
        Some(ConsoleEvent::PlayerLeft { name: "Al".to_string() })
    );
}

#[test]
fn stream_end_is_an_error() {
    let mut s = open_session(1);
    assert_eq!(s.step(StreamInput::ConnectionClosed), SessionAction::End(SessionError::Closed));
    assert_eq!(s.state, SessionState::Closed);
    assert_eq!(s.step(text("{}")), SessionAction::End(SessionError::Closed));
    let mut t = open_session(1);
    assert_eq!(t.step(StreamInput::TransportError), SessionAction::End(SessionError::Transport));
}

#[test]
fn frames_before_auth_break_protocol() {
    let mut s = StreamSession::new("tok".to_string(), 1);
    assert_eq!(s.step(text("{}")), SessionAction::End(SessionError::Protocol));
    let mut t = StreamSession::new("tok".to_string(), 1);
    assert_eq!(t.step(StreamInput::ConnectFailed), SessionAction::End(SessionError::Connect));
    let mut u = open_session(1);
    assert_eq!(u.step(StreamInput::Connected), SessionAction::End(SessionError::Protocol));
}

#[test]
fn formatting_of_each_event() {
    let chat = ConsoleEvent::ChatMessage { username: "A".to_string(), body: "b c".to_string() };
    assert_eq!(format_event(&chat).unwrap(), "Minecraft: A : \"b c\"");
    let left = ConsoleEvent::PlayerLeft { name: "Z".to_string() };
    assert_eq!(format_event(&left).unwrap(), "Z left the game");
    let red = ConsoleEvent::Redacted { content: "x (redacted)".to_string() };
    assert_eq!(format_event(&red).unwrap(), "x (redacted)");
    assert_eq!(format_event(&ConsoleEvent::Stats), None);
    assert_eq!(format_event(&ConsoleEvent::Unclassified { raw: "r".to_string() }), None);
    assert_eq!(relay_message(9, &ConsoleEvent::Stats), None);
}
