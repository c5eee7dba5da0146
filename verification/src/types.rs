//! Data carried between the broker and the per-session MCP servers.

use vstd::prelude::*;

verus! {

/// 8-character lowercase alphanumeric peer identifier.
pub type PeerId = String;

/// A copy of an optional string, equal to it.
pub fn clone_opt_string(o: &Option<String>) -> (r: Option<String>)
    ensures
        r == *o,
{
    match o {
        Some(s) => Some(s.clone()),
        None => None,
    }
}

/// View of an optional string as an optional character sequence.
pub open spec fn opt_view(o: Option<String>) -> Option<Seq<char>> {
    match o {
        Some(s) => Some(s@),
        None => None,
    }
}

/// View of a string slice option as an optional character sequence.
pub open spec fn opt_str_view(o: Option<&str>) -> Option<Seq<char>> {
    match o {
        Some(s) => Some(s@),
        None => None,
    }
}

/// What a peer record holds, with its strings as character sequences.
pub struct PeerView {
    pub id: Seq<char>,
    pub pid: u32,
    pub cwd: Seq<char>,
    pub git_root: Option<Seq<char>>,
    pub tty: Option<Seq<char>>,
    pub summary: Option<Seq<char>>,
    pub registered_at: Seq<char>,
    pub last_seen: Seq<char>,
}

/// What a message record holds, with its strings as character sequences.
pub struct MessageView {
    pub id: i64,
    pub from_id: Seq<char>,
    pub to_id: Seq<char>,
    pub text: Seq<char>,
    pub sent_at: Seq<char>,
    pub delivered: bool,
}

/// What a registration request holds, with its strings as character sequences.
pub struct RegisterRequestView {
    pub pid: u32,
    pub cwd: Seq<char>,
    pub git_root: Option<Seq<char>>,
    pub tty: Option<Seq<char>>,
    pub summary: Option<Seq<char>>,
}

pub open spec fn peer_views(s: Seq<Peer>) -> Seq<PeerView> {
    s.map_values(|p: Peer| p@)
}

pub open spec fn message_views(s: Seq<Message>) -> Seq<MessageView> {
    s.map_values(|m: Message| m@)
}

/// A registered session.
#[derive(Debug, PartialEq, Eq)]
pub struct Peer {
    pub id: PeerId,
    pub pid: u32,
    pub cwd: String,
    pub git_root: Option<String>,
    pub tty: Option<String>,
    pub summary: Option<String>,
    pub registered_at: String,
    pub last_seen: String,
}

impl View for Peer {
    type V = PeerView;

    open spec fn view(&self) -> PeerView {
        PeerView {
            id: self.id@,
            pid: self.pid,
            cwd: self.cwd@,
            git_root: opt_view(self.git_root),
            tty: opt_view(self.tty),
            summary: opt_view(self.summary),
            registered_at: self.registered_at@,
            last_seen: self.last_seen@,
        }
    }
}

impl Clone for Peer {
    fn clone(&self) -> (r: Self)
        ensures
            r == *self,
    {
        Peer {
            id: self.id.clone(),
            pid: self.pid,
            cwd: self.cwd.clone(),
            git_root: clone_opt_string(&self.git_root),
            tty: clone_opt_string(&self.tty),
            summary: clone_opt_string(&self.summary),
            registered_at: self.registered_at.clone(),
            last_seen: self.last_seen.clone(),
        }
    }
}

/// A message queued from one peer to another.
#[derive(Debug, PartialEq, Eq)]
pub struct Message {
    pub id: i64,
    pub from_id: PeerId,
    pub to_id: PeerId,
    pub text: String,
    pub sent_at: String,
    pub delivered: bool,
}

impl View for Message {
    type V = MessageView;

    open spec fn view(&self) -> MessageView {
        MessageView {
            id: self.id,
            from_id: self.from_id@,
            to_id: self.to_id@,
            text: self.text@,
            sent_at: self.sent_at@,
            delivered: self.delivered,
        }
    }
}

impl Clone for Message {
    fn clone(&self) -> (r: Self)
        ensures
            r == *self,
    {
        Message {
            id: self.id,
            from_id: self.from_id.clone(),
            to_id: self.to_id.clone(),
            text: self.text.clone(),
            sent_at: self.sent_at.clone(),
            delivered: self.delivered,
        }
    }
}

#[derive(Debug, PartialEq, Eq)]
pub struct RegisterRequest {
    pub pid: u32,
    pub cwd: String,
    pub git_root: Option<String>,
    pub tty: Option<String>,
    pub summary: Option<String>,
}

impl View for RegisterRequest {
    type V = RegisterRequestView;

    open spec fn view(&self) -> RegisterRequestView {
        RegisterRequestView {
            pid: self.pid,
            cwd: self.cwd@,
            git_root: opt_view(self.git_root),
            tty: opt_view(self.tty),
            summary: opt_view(self.summary),
        }
    }
}

impl Clone for RegisterRequest {
    fn clone(&self) -> (r: Self)
        ensures
            r == *self,
    {
        RegisterRequest {
            pid: self.pid,
            cwd: self.cwd.clone(),
            git_root: clone_opt_string(&self.git_root),
            tty: clone_opt_string(&self.tty),
            summary: clone_opt_string(&self.summary),
        }
    }
}

#[derive(Debug, Clone, PartialEq, Eq)]
pub struct RegisterResponse {
    pub id: PeerId,
}

#[derive(Debug, Clone, PartialEq, Eq)]
pub struct ListPeersRequest {
    pub id: PeerId,
    pub scope: PeerScope,
}

/// Which peers a listing covers.
#[derive(Debug, Clone, Copy, PartialEq, Eq, Structural)]
pub enum PeerScope {
    Machine,
    Directory,
    Repo,
}

#[derive(Debug, Clone, PartialEq, Eq)]
pub struct SendMessageRequest {
    pub from_id: PeerId,
    pub to_id: PeerId,
    pub text: String,
}

#[derive(Debug, Clone, PartialEq, Eq)]
pub struct PollMessagesRequest {
    pub id: PeerId,
}

#[derive(Debug, PartialEq, Eq)]
pub struct PollMessagesResponse {
    pub messages: Vec<Message>,
}

#[derive(Debug, Clone, PartialEq, Eq)]
pub struct HeartbeatRequest {
    pub id: PeerId,
}

#[derive(Debug, Clone, PartialEq, Eq)]
pub struct SetSummaryRequest {
    pub id: PeerId,
    pub summary: String,
}

#[derive(Debug, Clone, PartialEq, Eq)]
pub struct UnregisterRequest {
    pub id: PeerId,
}

#[derive(Debug, Clone, PartialEq, Eq)]
pub struct HealthResponse {
    pub status: String,
    pub peer_count: i64,
}

#[derive(Debug, Clone, PartialEq, Eq)]
pub struct ErrorResponse {
    pub error: String,
}

} // verus!
