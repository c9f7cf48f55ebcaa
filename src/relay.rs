use vstd::prelude::*;
use vstd::string::*;

use crate::classify::{joined_suffix, left_suffix, ConsoleEvent, EventModel};

verus! {

/// One message for the notification channel.
#[derive(Clone, Debug, PartialEq, Eq)]
pub struct OutboundMessage {
    pub channel_target: u64,
    pub text: String,
}

/// The line that an event is delivered as, or `None` for events that are
/// not delivered.
pub open spec fn format_spec(e: EventModel) -> Option<Seq<char>> {
    match e {
        EventModel::ChatMessage { username, body } => Some(
            "Minecraft: "@ + username + " : \""@ + body + "\""@,
        ),
        EventModel::PlayerJoined { name } => Some(name + joined_suffix()),
        EventModel::PlayerLeft { name } => Some(name + left_suffix()),
        EventModel::Redacted { content } => Some(content),
        EventModel::Stats => None,
        EventModel::Unclassified { .. } => None,
    }
}

/// Formats an event for delivery: chat messages under a fixed label, join
/// and leave notices naming the player, redacted content as it stands.
pub fn format_event(e: &ConsoleEvent) -> (r: Option<String>)
    ensures
        r matches Some(t) ==> format_spec(e@) == Some(t@),
        r is None ==> format_spec(e@) is None,
{
    match e {
        ConsoleEvent::ChatMessage { username, body } => {
            let mut t = String::from_str("Minecraft: ");
            t.append(username.as_str());
            t.append(" : \"");
            t.append(body.as_str());
            t.append("\"");
            Some(t)
        },
        ConsoleEvent::PlayerJoined { name } => {
            let mut t = name.clone();
            t.append(" joined the game");
            proof {
                reveal_strlit(" joined the game");
                assert(" joined the game"@ =~= joined_suffix());
            }
            Some(t)
        },
        ConsoleEvent::PlayerLeft { name } => {
            let mut t = name.clone();
            t.append(" left the game");
            proof {
                reveal_strlit(" left the game");
                assert(" left the game"@ =~= left_suffix());
            }
            Some(t)
        },
        ConsoleEvent::Redacted { content } => Some(content.clone()),
        ConsoleEvent::Stats => None,
        ConsoleEvent::Unclassified { .. } => None,
    }
}

/// The message to send to `channel` for `e`, if `e` is delivered at all.
pub fn relay_message(channel: u64, e: &ConsoleEvent) -> (r: Option<OutboundMessage>)
    ensures
        r is Some <==> format_spec(e@) is Some,
        r matches Some(m) ==> m.channel_target == channel && format_spec(e@) == Some(m.text@),
{
    match format_event(e) {
        Some(text) => Some(OutboundMessage { channel_target: channel, text }),
        None => None,
    }
}

} // verus!
