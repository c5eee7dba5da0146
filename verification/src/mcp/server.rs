//! What the MCP server's tools answer: the checks made before a broker
//! call, the requests they send, and the replies they give.

use vstd::prelude::*;

use crate::text::str_eq;
use crate::types::{ListPeersRequest, Message, Peer, PeerId, PeerScope, SendMessageRequest};

verus! {

/// The server's name towards the MCP client.
pub const SERVER_NAME: &'static str = "sinew";

/// The server's instructions towards the MCP client.
pub const SERVER_INSTRUCTIONS: &'static str = "Peer discovery and messaging for coding-assistant sessions. Use list_peers to find other sessions, send_message to communicate, set_summary to share what you're working on.";

/// The experimental capability that announces channel notifications for
/// the client's namespace `ns`: "<ns>/channel".
pub fn channel_capability(ns: &str) -> (r: String)
    ensures
        r@ == ns@ + "/channel"@,
{
    let mut s = String::from_str(ns);
    s.append("/channel");
    s
}

/// The method of the notification that pushes an incoming message to a
/// client of namespace `ns`: "notifications/<ns>/channel".
pub fn channel_notification_method(ns: &str) -> (r: String)
    ensures
        r@ == "notifications/"@ + ns@ + "/channel"@,
{
    let mut s = String::from_str("notifications/");
    s.append(ns);
    s.append("/channel");
    s
}

/// A tool's answer: text, or records that are shown as pretty JSON.
#[derive(Debug)]
pub enum ToolReply {
    Text(String),
    Peers(Vec<Peer>),
    Messages(Vec<Message>),
}

/// The scope that a tool argument names, if any.
pub open spec fn parse_scope_spec(s: Seq<char>) -> Option<PeerScope> {
    if s == "machine"@ {
        Some(PeerScope::Machine)
    } else if s == "directory"@ {
        Some(PeerScope::Directory)
    } else if s == "repo"@ {
        Some(PeerScope::Repo)
    } else {
        None
    }
}

/// The scope that a tool argument names: "machine", "directory" or "repo".
pub fn parse_scope(s: &str) -> (r: Option<PeerScope>)
    ensures
        r == parse_scope_spec(s@),
{
    if str_eq(s, "machine") {
        Some(PeerScope::Machine)
    } else if str_eq(s, "directory") {
        Some(PeerScope::Directory)
    } else if str_eq(s, "repo") {
        Some(PeerScope::Repo)
    } else {
        None
    }
}

/// The session's peer id, or the reply of a tool called before the
/// session registered.
pub fn registered_id(peer_id: &Option<PeerId>) -> (r: Result<PeerId, String>)
    ensures
        match peer_id {
            Some(id) => r == Ok::<PeerId, String>(*id),
            None => r matches Err(t) && t@ == "Error: not registered"@,
        },
{
    match peer_id {
        Some(id) => Ok(id.clone()),
        None => Err(String::from_str("Error: not registered")),
    }
}

/// `list_peers` before the broker call: the listing to ask for, or the
/// reply when the session is not registered or the scope is unknown.
pub fn list_peers_request(peer_id: &Option<PeerId>, scope: &str) -> (r: Result<
    ListPeersRequest,
    String,
>)
    ensures
        peer_id is None ==> (r matches Err(t) && t@ == "Error: not registered"@),
        peer_id is Some && parse_scope_spec(scope@) is None ==> (r matches Err(t) && t@
            == "Invalid scope. Use: machine, directory, or repo"@),
        peer_id is Some && parse_scope_spec(scope@) is Some ==> (r matches Ok(req) && req.id
            == peer_id->0 && Some(req.scope) == parse_scope_spec(scope@)),
{
    let id = match registered_id(peer_id) {
        Ok(id) => id,
        Err(t) => {
            return Err(t);
        },
    };
    match parse_scope(scope) {
        Some(s) => Ok(ListPeersRequest { id, scope: s }),
        None => Err(String::from_str("Invalid scope. Use: machine, directory, or repo")),
    }
}

/// `prefix` followed by `rest`.
fn failure_text(prefix: &str, rest: &str) -> (r: String)
    ensures
        r@ == prefix@ + rest@,
{
    let mut s = String::from_str(prefix);
    s.append(rest);
    s
}

/// `list_peers` after the broker call: the peers, or the failure (`Err`
/// carries the failure's text).
pub fn list_peers_reply(outcome: Result<Vec<Peer>, String>) -> (r: ToolReply)
    ensures
        match outcome {
            Ok(p) => r == ToolReply::Peers(p),
            Err(e) => r matches ToolReply::Text(t) && t@ == "Failed to list peers: "@ + e@,
        },
{
    match outcome {
        Ok(p) => ToolReply::Peers(p),
        Err(e) => ToolReply::Text(failure_text("Failed to list peers: ", e.as_str())),
    }
}

/// `send_message` before the broker call: the message to send from this
/// session, or the reply when the session is not registered.
pub fn send_message_request(peer_id: &Option<PeerId>, to_id: String, message: String) -> (r:
    Result<SendMessageRequest, String>)
    ensures
        match peer_id {
            Some(id) => r == Ok::<SendMessageRequest, String>(
                SendMessageRequest { from_id: *id, to_id: to_id, text: message },
            ),
            None => r matches Err(t) && t@ == "Error: not registered"@,
        },
{
    match registered_id(peer_id) {
        Ok(from_id) => Ok(SendMessageRequest { from_id, to_id, text: message }),
        Err(t) => Err(t),
    }
}

/// `send_message` after the broker call.
pub fn send_message_reply(outcome: Result<(), String>) -> (r: String)
    ensures
        match outcome {
            Ok(()) => r@ == "Message sent"@,
            Err(e) => r@ == "Failed to send message: "@ + e@,
        },
{
    match outcome {
        Ok(()) => String::from_str("Message sent"),
        Err(e) => failure_text("Failed to send message: ", e.as_str()),
    }
}

/// `set_summary` after the broker call.
pub fn set_summary_reply(outcome: Result<(), String>) -> (r: String)
    ensures
        match outcome {
            Ok(()) => r@ == "Summary updated"@,
            Err(e) => r@ == "Failed to set summary: "@ + e@,
        },
{
    match outcome {
        Ok(()) => String::from_str("Summary updated"),
        Err(e) => failure_text("Failed to set summary: ", e.as_str()),
    }
}

/// `check_messages` after the broker call: "No new messages" when none
/// arrived, else the messages.
pub fn check_messages_reply(outcome: Result<Vec<Message>, String>) -> (r: ToolReply)
    ensures
        match outcome {
            Ok(m) => if m@.len() == 0 {
                r matches ToolReply::Text(t) && t@ == "No new messages"@
            } else {
                r == ToolReply::Messages(m)
            },
            Err(e) => r matches ToolReply::Text(t) && t@ == "Failed to check messages: "@ + e@,
        },
{
    match outcome {
        Ok(m) => {
            if m.len() == 0 {
                ToolReply::Text(String::from_str("No new messages"))
            } else {
                ToolReply::Messages(m)
            }
        },
        Err(e) => ToolReply::Text(failure_text("Failed to check messages: ", e.as_str())),
    }
}

} // verus!
