use vstd::prelude::*;
use vstd::string::*;

use crate::classify::{classify, classify_spec, ConsoleEvent, EventModel};
use crate::json::{
    first_str_item, first_string_item, json_doc, json_parses, json_quoted, parse_json, quote_json,
    str_member, string_member,
};
use crate::relay::{format_spec, relay_message, OutboundMessage};

verus! {

/// What the `event` field and the first of the `args` of an inbound frame mean.
pub open spec fn frame_event_spec(
    text: Seq<char>,
    event: Option<Seq<char>>,
    first_arg: Option<Seq<char>>,
) -> Option<EventModel> {
    match event {
        Some(ev) => if ev == "stats"@ {
            Some(EventModel::Stats)
        } else if ev == "console output"@ {
            match first_arg {
                Some(line) => Some(classify_spec(line)),
                None => None,
            }
        } else {
            Some(EventModel::Unclassified { raw: text })
        },
        None => Some(EventModel::Unclassified { raw: text }),
    }
}

/// What an inbound text frame means: nothing unless serde_json accepts it,
/// else the event of its `event` field and the first of its `args`.
pub open spec fn decode_frame_spec(text: Seq<char>) -> Option<EventModel> {
    if json_parses(text) {
        frame_event_spec(
            text,
            str_member(json_doc(text), "event"@),
            first_str_item(json_doc(text), "args"@),
        )
    } else {
        None
    }
}

/// The line delivered for an inbound text frame, if any.
pub open spec fn frame_delivery(text: Seq<char>) -> Option<Seq<char>> {
    match decode_frame_spec(text) {
        Some(e) => format_spec(e),
        None => None,
    }
}

/// The channel and line that an action delivers, if it delivers.
pub open spec fn delivery_of(a: SessionAction) -> Option<(u64, Seq<char>)> {
    match a {
        SessionAction::Deliver(m) => Some((m.channel_target, m.text@)),
        _ => None,
    }
}

pub open spec fn opt_view(o: Option<String>) -> Option<Seq<char>> {
    match o {
        Some(s) => Some(s@),
        None => None,
    }
}

pub open spec fn opt_event_view(o: Option<ConsoleEvent>) -> Option<EventModel> {
    match o {
        Some(e) => Some(e@),
        None => None,
    }
}

/// The event of a decoded frame, from its `event` field and the first of its
/// `args`: telemetry for `"stats"`, the classified console line for
/// `"console output"`, and the frame's text passed through otherwise.
pub fn frame_event(text: &str, event: Option<String>, first_arg: Option<String>) -> (r: Option<
    ConsoleEvent,
>)
    ensures
        opt_event_view(r) == frame_event_spec(text@, opt_view(event), opt_view(first_arg)),
{
    match event {
        Some(ev) => {
            if ev == String::from_str("stats") {
                Some(ConsoleEvent::Stats)
            } else if ev == String::from_str("console output") {
                match first_arg {
                    Some(line) => Some(classify(line.as_str())),
                    None => None,
                }
            } else {
                Some(ConsoleEvent::Unclassified { raw: String::from_str(text) })
            }
        },
        None => Some(ConsoleEvent::Unclassified { raw: String::from_str(text) }),
    }
}

/// Decodes an inbound text frame as JSON and says what it means; a frame
/// that is not JSON means nothing.
pub fn decode_frame(text: &str) -> (r: Option<ConsoleEvent>)
    ensures
        opt_event_view(r) == decode_frame_spec(text@),
{
    match parse_json(text) {
        Some(v) => {
            let event = string_member(&v, "event");
            let first_arg = first_string_item(&v, "args");
            frame_event(text, event, first_arg)
        },
        None => None,
    }
}

/// The authentication frame that carries `quoted`, a token already written
/// as a JSON string literal.
pub open spec fn auth_frame_spec(quoted: Seq<char>) -> Seq<char> {
    "{\"event\":\"auth\",\"args\":["@ + quoted + "]}"@
}

/// Builds the authentication frame around a token already written as a JSON
/// string literal.
pub fn auth_frame_from_quoted(quoted: &str) -> (r: String)
    ensures
        r@ == auth_frame_spec(quoted@),
{
    let mut f = String::from_str("{\"event\":\"auth\",\"args\":[");
    f.append(quoted);
    f.append("]}");
    f
}

/// Builds the authentication frame `{"event":"auth","args":[token]}`.
pub fn auth_frame(token: &str) -> (r: String)
    ensures
        r@ == auth_frame_spec(json_quoted(token@)),
{
    let q = quote_json(token).unwrap();
    auth_frame_from_quoted(q.as_str())
}

/// Why a stream session ended.
#[derive(Clone, Copy, Debug, PartialEq, Eq)]
pub enum SessionError {
    /// The websocket could not be opened.
    Connect,
    /// The peer or the session broke the protocol.
    Protocol,
    /// The transport failed while reading.
    Transport,
    /// The connection closed.
    Closed,
}

/// Where a stream session stands.
#[derive(Clone, Copy, Debug, PartialEq, Eq)]
pub enum SessionState {
    Connecting,
    Open,
    Closed,
}

/// What the transport reports to a stream session.
#[derive(Clone, Debug, PartialEq, Eq)]
pub enum StreamInput {
    /// The websocket is open.
    Connected,
    /// The websocket could not be opened.
    ConnectFailed,
    /// A frame that reads as UTF-8 text.
    Text(String),
    /// A frame that does not read as text.
    NotText,
    /// Reading failed.
    TransportError,
    /// The connection closed.
    ConnectionClosed,
}

/// What the transport is to do next.
#[derive(Clone, Debug, PartialEq, Eq)]
pub enum SessionAction {
    /// Send this authentication frame.
    SendAuth(String),
    /// Hand this message to the relay sink, then read on.
    Deliver(OutboundMessage),
    /// Read on.
    Skip,
    /// Close the connection; the session is over.
    End(SessionError),
}

/// The decisions of one websocket session: authenticate first, then turn
/// each frame into at most one delivery, until the stream ends.
pub struct StreamSession {
    pub state: SessionState,
    pub token: String,
    pub channel: u64,
}

impl StreamSession {
    /// A session that waits for its connection, with the handshake's token
    /// and the channel to deliver to.
    pub fn new(token: String, channel: u64) -> (r: Self)
        ensures
            r.state == SessionState::Connecting,
            r.token@ == token@,
            r.channel == channel,
    {
        StreamSession { state: SessionState::Connecting, token, channel }
    }

    /// Takes one report of the transport and says what to do next.
    pub fn step(&mut self, input: StreamInput) -> (r: SessionAction)
        ensures
            final(self).token@ == old(self).token@,
            final(self).channel == old(self).channel,
            old(self).state == SessionState::Connecting && input == StreamInput::Connected
                ==> final(self).state == SessionState::Open && (r matches SessionAction::SendAuth(f)
                && f@ == auth_frame_spec(json_quoted(old(self).token@))),
            old(self).state == SessionState::Open ==> match input {
                StreamInput::Text(t) => final(self).state == SessionState::Open && (r is Deliver
                    || r is Skip) && delivery_of(r) == match frame_delivery(t@) {
                    Some(x) => Some((old(self).channel, x)),
                    None => None,
                },
                StreamInput::NotText => final(self).state == SessionState::Open && r
                    == SessionAction::Skip,
                StreamInput::TransportError => final(self).state == SessionState::Closed && r
                    == SessionAction::End(SessionError::Transport),
                StreamInput::ConnectionClosed => final(self).state == SessionState::Closed && r
                    == SessionAction::End(SessionError::Closed),
                _ => final(self).state == SessionState::Closed && r == SessionAction::End(
                    SessionError::Protocol,
                ),
            },
            old(self).state == SessionState::Connecting ==> match input {
                StreamInput::Connected => true,
                StreamInput::ConnectFailed => final(self).state == SessionState::Closed && r
                    == SessionAction::End(SessionError::Connect),
                _ => final(self).state == SessionState::Closed && r == SessionAction::End(
                    SessionError::Protocol,
                ),
            },
            old(self).state == SessionState::Closed ==> final(self).state == SessionState::Closed
                && r == SessionAction::End(SessionError::Closed),
    {
        match self.state {
            SessionState::Connecting => match input {
                StreamInput::Connected => {
                    let f = auth_frame(self.token.as_str());
                    self.state = SessionState::Open;
                    SessionAction::SendAuth(f)
                },
                StreamInput::ConnectFailed => {
                    self.state = SessionState::Closed;
                    SessionAction::End(SessionError::Connect)
                },
                _ => {
                    self.state = SessionState::Closed;
                    SessionAction::End(SessionError::Protocol)
                },
            },
            SessionState::Open => match input {
                StreamInput::Text(t) => match decode_frame(t.as_str()) {
                    Some(e) => match relay_message(self.channel, &e) {
                        Some(m) => SessionAction::Deliver(m),
                        None => SessionAction::Skip,
                    },
                    None => SessionAction::Skip,
                },
                StreamInput::NotText => SessionAction::Skip,
                StreamInput::TransportError => {
                    self.state = SessionState::Closed;
                    SessionAction::End(SessionError::Transport)
                },
                StreamInput::ConnectionClosed => {
                    self.state = SessionState::Closed;
                    SessionAction::End(SessionError::Closed)
                },
                _ => {
                    self.state = SessionState::Closed;
                    SessionAction::End(SessionError::Protocol)
                },
            },
            SessionState::Closed => SessionAction::End(SessionError::Closed),
        }
    }
}

/// A frame whose event is `"stats"` is telemetry and is never delivered,
/// whatever its arguments.
pub proof fn lemma_stats_frame_not_delivered(text: Seq<char>, first_arg: Option<Seq<char>>)
    ensures
        frame_event_spec(text, Some("stats"@), first_arg) == Some(EventModel::Stats),
        format_spec(EventModel::Stats) is None,
{
}

/// A frame that serde_json accepts, whose event is `"stats"`, delivers
/// nothing.
pub proof fn lemma_stats_frame_delivers_nothing(text: Seq<char>)
    requires
        json_parses(text),
        str_member(json_doc(text), "event"@) == Some("stats"@),
    ensures
        decode_frame_spec(text) == Some(EventModel::Stats),
        frame_delivery(text) is None,
{
}

/// A frame that serde_json does not accept delivers nothing.
pub proof fn lemma_malformed_frame_delivers_nothing(text: Seq<char>)
    requires
        !json_parses(text),
    ensures
        decode_frame_spec(text) is None,
        frame_delivery(text) is None,
{
}

} // verus!
