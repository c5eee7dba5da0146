//! The broker's API, route by route, on a fresh in-memory store.

use sinew::broker::db::Database;
use sinew::broker::routes::{self, ApiResponse, ResponseBody};
use sinew::types::{
    HealthResponse, HeartbeatRequest, ListPeersRequest, Peer, PeerScope, PollMessagesRequest,
    PollMessagesResponse, RegisterRequest, RegisterResponse, SendMessageRequest,
    SetSummaryRequest, UnregisterRequest,
};

/// A broker answering through its routes, with errors as in the client:
/// any 4xx or 5xx answer is an `Err` carrying the status.
struct Broker {
    db: Database,
}

fn ok_or_status(r: &ApiResponse) -> Result<(), u16> {
    if r.status >= 400 { Err(r.status) } else { Ok(()) }
}

impl Broker {
    fn health(&self) -> Result<HealthResponse, u16> {
        match routes::health(&self.db) {
            ApiResponse { status: 200, body: ResponseBody::Health(h) } => Ok(h),
            r => Err(r.status),
        }
    }

    fn register(&mut self, req: &RegisterRequest) -> Result<RegisterResponse, u16> {
        match routes::register(&mut self.db, req) {
            ApiResponse { status: 200, body: ResponseBody::Registered(r) } => Ok(r),
            r => Err(r.status),
        }
    }

    fn heartbeat(&mut self, id: &String) -> Result<(), u16> {
        ok_or_status(&routes::heartbeat(&mut self.db, &HeartbeatRequest { id: id.clone() }))
    }

    fn set_summary(&mut self, id: &String, summary: &str) -> Result<(), u16> {
        ok_or_status(&routes::set_summary(
            &mut self.db,
            &SetSummaryRequest { id: id.clone(), summary: summary.to_string() },
        ))
    }

    fn list_peers(&mut self, req: &ListPeersRequest) -> Result<Vec<Peer>, u16> {
        match routes::list_peers(&mut self.db, req) {
            ApiResponse { status: 200, body: ResponseBody::Peers(p) } => Ok(p),
            r => Err(r.status),
        }
    }

    fn send_message(&mut self, req: &SendMessageRequest) -> Result<(), u16> {
        ok_or_status(&routes::send_message(&mut self.db, req))
    }

    fn poll_messages(&mut self, id: &String) -> Result<PollMessagesResponse, u16> {
        match routes::poll_messages(&mut self.db, &PollMessagesRequest { id: id.clone() }) {
            ApiResponse { status: 200, body: ResponseBody::Messages(m) } => Ok(m),
            r => Err(r.status),
        }
    }

    fn unregister(&mut self, id: &String) -> Result<(), u16> {
        ok_or_status(&routes::unregister(&mut self.db, &UnregisterRequest { id: id.clone() }))
    }
}

fn start_broker() -> Broker {
    Broker { db: Database::new_in_memory().unwrap() }
}

fn register_req(pid: u32, cwd: &str, git_root: Option<&str>) -> RegisterRequest {
    RegisterRequest {
        pid,
        cwd: cwd.into(),
        git_root: git_root.map(Into::into),
        tty: None,
        summary: None,
    }
}

fn own_pid() -> u32 {
    nix::unistd::getpid().as_raw() as u32
}

// ---- Health ----

#[test]
fn health_returns_ok_and_peer_count() {
    let mut client = start_broker();

    let h = client.health().unwrap();
    assert_eq!(h.status, "ok");
    assert_eq!(h.peer_count, 0);

    client.register(&register_req(1000, "/a", None)).unwrap();

    let h = client.health().unwrap();
    assert_eq!(h.peer_count, 1);
}

// ---- Registration ----

#[test]
fn register_returns_8char_alphanumeric_id() {
    let mut client = start_broker();
    let reg = client.register(&register_req(1000, "/home", None)).unwrap();
    assert_eq!(reg.id.len(), 8);
    assert!(reg.id.chars().all(|c| c.is_ascii_alphanumeric()));
}

#[test]
fn broker_integration_duplicate_pid_reuses_existing_id() {
    let mut client = start_broker();
    let r1 = client.register(&register_req(1000, "/a", None)).unwrap();
    let r2 = client.register(&register_req(1000, "/b", None)).unwrap();
    assert_eq!(r1.id, r2.id);
}

#[test]
fn different_pids_get_different_ids() {
    let mut client = start_broker();
    let r1 = client.register(&register_req(1000, "/a", None)).unwrap();
    let r2 = client.register(&register_req(2000, "/a", None)).unwrap();
    assert_ne!(r1.id, r2.id);
}

// ---- Heartbeat ----

#[test]
fn heartbeat_succeeds_for_registered_peer() {
    let mut client = start_broker();
    let reg = client.register(&register_req(1000, "/a", None)).unwrap();
    client.heartbeat(&reg.id).unwrap();
}

#[test]
fn heartbeat_fails_for_unknown_peer() {
    let mut client = start_broker();
    assert!(client.heartbeat(&"notfound".into()).is_err());
}

// ---- Set Summary ----

#[test]
fn set_summary_updates_peer_info() {
    let mut client = start_broker();
    let reg = client.register(&register_req(own_pid(), "/a", None)).unwrap();

    client.set_summary(&reg.id, "Working on integration tests").unwrap();

    // A second peer queries list_peers.
    let other = client.register(&register_req(own_pid() + 99999, "/b", None)).unwrap();

    let peers = client
        .list_peers(&ListPeersRequest { id: other.id, scope: PeerScope::Machine })
        .unwrap();

    let peer = peers.iter().find(|p| p.id == reg.id).unwrap();
    assert_eq!(peer.summary, Some("Working on integration tests".into()));
}

#[test]
fn set_summary_fails_for_unknown_peer() {
    let mut client = start_broker();
    assert!(client.set_summary(&"notfound".into(), "test").is_err());
}

// ---- List Peers ----

#[test]
fn list_peers_machine_scope_excludes_requester() {
    let mut client = start_broker();
    let pid = own_pid();

    let r1 = client.register(&register_req(pid, "/a", Some("/repo"))).unwrap();
    let r2 = client.register(&register_req(pid + 99999, "/b", Some("/repo"))).unwrap();

    let peers = client
        .list_peers(&ListPeersRequest { id: r1.id.clone(), scope: PeerScope::Machine })
        .unwrap();

    assert!(peers.iter().all(|p| p.id != r1.id));
    // r2 may or may not appear, depending on whether its process id is alive.
    let _ = r2;
}

#[test]
fn list_peers_directory_scope_filters_by_cwd() {
    let mut client = start_broker();
    let pid = own_pid();

    let r1 = client.register(&register_req(pid, "/project/a", Some("/project"))).unwrap();
    let r2 = client.register(&register_req(pid + 1, "/project/a", Some("/project"))).unwrap();
    let _r3 = client.register(&register_req(pid + 2, "/other", Some("/other"))).unwrap();

    let peers = client
        .list_peers(&ListPeersRequest { id: r1.id.clone(), scope: PeerScope::Directory })
        .unwrap();

    for p in &peers {
        assert_eq!(p.cwd, "/project/a");
        assert_ne!(p.id, r1.id);
    }
    let _ = r2;
}

#[test]
fn list_peers_repo_scope_filters_by_git_root() {
    let mut client = start_broker();
    let pid = own_pid();

    let r1 = client.register(&register_req(pid, "/project/a", Some("/project"))).unwrap();
    let _r2 = client.register(&register_req(pid + 1, "/project/b", Some("/project"))).unwrap();
    let _r3 = client.register(&register_req(pid + 2, "/other", Some("/other"))).unwrap();

    let peers = client
        .list_peers(&ListPeersRequest { id: r1.id.clone(), scope: PeerScope::Repo })
        .unwrap();

    for p in &peers {
        assert_eq!(p.git_root, Some("/project".into()));
        assert_ne!(p.id, r1.id);
    }
}

// ---- Messaging ----

#[test]
fn send_message_to_nonexistent_peer_fails() {
    let mut client = start_broker();
    let sender = client.register(&register_req(1000, "/a", None)).unwrap();

    let result = client.send_message(&SendMessageRequest {
        from_id: sender.id,
        to_id: "nonexistent".into(),
        text: "hello".into(),
    });
    assert!(result.is_err());
}

#[test]
fn full_message_send_poll_flow() {
    let mut client = start_broker();

    let sender = client.register(&register_req(1111, "/a", None)).unwrap();
    let receiver = client.register(&register_req(2222, "/b", None)).unwrap();

    client
        .send_message(&SendMessageRequest {
            from_id: sender.id.clone(),
            to_id: receiver.id.clone(),
            text: "message 1".into(),
        })
        .unwrap();
    client
        .send_message(&SendMessageRequest {
            from_id: sender.id.clone(),
            to_id: receiver.id.clone(),
            text: "message 2".into(),
        })
        .unwrap();

    let poll1 = client.poll_messages(&receiver.id).unwrap();
    assert_eq!(poll1.messages.len(), 2);
    assert_eq!(poll1.messages[0].text, "message 1");
    assert_eq!(poll1.messages[0].from_id, sender.id);
    assert_eq!(poll1.messages[1].text, "message 2");

    let poll2 = client.poll_messages(&receiver.id).unwrap();
    assert!(poll2.messages.is_empty());
}

// ---- Unregister ----

#[test]
fn broker_integration_unregister_removes_peer() {
    let mut client = start_broker();
    let reg = client.register(&register_req(1000, "/a", None)).unwrap();

    assert_eq!(client.health().unwrap().peer_count, 1);

    client.unregister(&reg.id).unwrap();

    assert_eq!(client.health().unwrap().peer_count, 0);
}

// ---- Full lifecycle flow ----

#[test]
fn full_lifecycle_register_heartbeat_message_unregister() {
    let mut client = start_broker();

    let peer_a = client.register(&register_req(1111, "/workspace", Some("/repo"))).unwrap();
    let peer_b = client.register(&register_req(2222, "/workspace", Some("/repo"))).unwrap();

    client.heartbeat(&peer_a.id).unwrap();
    client.heartbeat(&peer_b.id).unwrap();

    client.set_summary(&peer_a.id, "Building feature X").unwrap();

    client
        .send_message(&SendMessageRequest {
            from_id: peer_a.id.clone(),
            to_id: peer_b.id.clone(),
            text: "I finished the API layer".into(),
        })
        .unwrap();

    let poll = client.poll_messages(&peer_b.id).unwrap();
    assert_eq!(poll.messages.len(), 1);
    assert_eq!(poll.messages[0].text, "I finished the API layer");

    let health = client.health().unwrap();
    assert_eq!(health.status, "ok");
    assert_eq!(health.peer_count, 2);

    client.unregister(&peer_a.id).unwrap();
    client.unregister(&peer_b.id).unwrap();

    let health = client.health().unwrap();
    assert_eq!(health.peer_count, 0);
}

// ---- Error answers ----

#[test]
fn unknown_peers_get_404_with_their_id() {
    let mut db = Database::new_in_memory().unwrap();
    let r = routes::heartbeat(&mut db, &HeartbeatRequest { id: "ghost".into() });
    assert_eq!(r.status, 404);
    match r.body {
        ResponseBody::Error(e) => assert_eq!(e.error, "peer not found: ghost"),
        other => panic!("unexpected body {other:?}"),
    }
    let r = routes::send_message(
        &mut db,
        &SendMessageRequest { from_id: "a".into(), to_id: "nobody".into(), text: "x".into() },
    );
    assert_eq!(r.status, 404);
    match r.body {
        ResponseBody::Error(e) => assert_eq!(e.error, "peer not found: nobody"),
        other => panic!("unexpected body {other:?}"),
    }
}

#[test]
fn internal_errors_name_their_context() {
    let r = routes::internal_error("register peer");
    assert_eq!(r.status, 500);
    match r.body {
        ResponseBody::Error(e) => assert_eq!(e.error, "internal error: register peer"),
        other => panic!("unexpected body {other:?}"),
    }
    let r = routes::shutdown();
    assert_eq!(r.status, 200);
    assert!(matches!(r.body, ResponseBody::ShuttingDown));
}

#[test]
fn unknown_requester_lists_nobody() {
    let mut client = start_broker();
    client.register(&register_req(own_pid(), "/a", None)).unwrap();
    let peers = client
        .list_peers(&ListPeersRequest { id: "lookup".into(), scope: PeerScope::Machine })
        .unwrap();
    assert!(peers.is_empty());
}

#[test]
fn dead_peers_are_dropped_from_listing_and_store() {
    let mut client = start_broker();
    let me = client.register(&register_req(own_pid(), "/a", None)).unwrap();
    // A process id that no process has.
    client.register(&register_req(u32::MAX - 1, "/b", None)).unwrap();
    assert_eq!(client.health().unwrap().peer_count, 2);
    let peers = client
        .list_peers(&ListPeersRequest { id: me.id.clone(), scope: PeerScope::Machine })
        .unwrap();
    assert!(peers.is_empty());
    assert_eq!(client.health().unwrap().peer_count, 1);
}
