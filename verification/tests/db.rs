//! The broker's store, operation by operation.

use sinew::broker::db::{Database, DbError};
use sinew::types::{PeerId, PeerScope, RegisterRequest, SendMessageRequest};

fn setup_db() -> Database {
    Database::new_in_memory().expect("failed to create in-memory db")
}

fn test_register_request(pid: u32, cwd: &str) -> RegisterRequest {
    RegisterRequest {
        pid,
        cwd: cwd.into(),
        git_root: Some("/repo".into()),
        tty: Some("/dev/pts/0".into()),
        summary: None,
    }
}

// ---- Peer registration ----

#[test]
fn register_peer_returns_8char_alphanumeric_id() {
    let mut db = setup_db();
    let id = db.register_peer(&test_register_request(1000, "/home")).unwrap();
    assert_eq!(id.len(), 8);
    assert!(id.chars().all(|c| c.is_ascii_alphanumeric()));
}

#[test]
fn db_duplicate_pid_reuses_existing_id() {
    let mut db = setup_db();
    let id1 = db.register_peer(&test_register_request(1000, "/home")).unwrap();
    let id2 = db.register_peer(&test_register_request(1000, "/other")).unwrap();
    assert_eq!(id1, id2);
}

#[test]
fn different_pids_get_unique_ids() {
    let mut db = setup_db();
    let id1 = db.register_peer(&test_register_request(1000, "/home")).unwrap();
    let id2 = db.register_peer(&test_register_request(2000, "/home")).unwrap();
    assert_ne!(id1, id2);
}

// ---- Peer lifecycle ----

#[test]
fn heartbeat_fails_for_nonexistent_peer() {
    let mut db = setup_db();
    let result = db.update_heartbeat(&"notfound".into());
    assert!(result.is_err());
}

#[test]
fn db_unregister_removes_peer() {
    let mut db = setup_db();
    let id = db.register_peer(&test_register_request(1000, "/home")).unwrap();
    db.unregister_peer(&id).unwrap();
    let found = db.find_peer_by_pid(1000).unwrap();
    assert!(found.is_none());
}

#[test]
fn set_summary_persists_and_is_retrievable() {
    let mut db = setup_db();
    let id = db.register_peer(&test_register_request(1000, "/home")).unwrap();
    db.set_summary(&id, "Working on feature X").unwrap();
    let peer = db.find_peer_by_pid(1000).unwrap().unwrap();
    assert_eq!(peer.summary, Some("Working on feature X".into()));
}

#[test]
fn set_summary_fails_for_nonexistent_peer() {
    let mut db = setup_db();
    let result = db.set_summary(&"notfound".into(), "test");
    assert!(result.is_err());
}

#[test]
fn remove_peers_only_deletes_specified_ids() {
    let mut db = setup_db();
    let id1 = db.register_peer(&test_register_request(1000, "/a")).unwrap();
    let id2 = db.register_peer(&test_register_request(2000, "/b")).unwrap();
    db.remove_peers(&[id1]).unwrap();
    let peers = db.get_all_peers().unwrap();
    assert_eq!(peers.len(), 1);
    assert_eq!(peers[0].id, id2);
}

// ---- Message delivery ----

#[test]
fn poll_returns_undelivered_messages_then_marks_as_delivered() {
    let mut db = setup_db();
    db.send_message(&SendMessageRequest {
        from_id: "a".into(),
        to_id: "b".into(),
        text: "msg1".into(),
    })
    .unwrap();
    db.send_message(&SendMessageRequest {
        from_id: "a".into(),
        to_id: "b".into(),
        text: "msg2".into(),
    })
    .unwrap();

    let msgs = db.poll_messages(&"b".into()).unwrap();
    assert_eq!(msgs.len(), 2);
    assert_eq!(msgs[0].text, "msg1");
    assert_eq!(msgs[1].text, "msg2");

    // Second poll returns nothing: the messages are now delivered.
    let msgs = db.poll_messages(&"b".into()).unwrap();
    assert!(msgs.is_empty());
}

#[test]
fn messages_are_routed_only_to_target_peer() {
    let mut db = setup_db();
    db.send_message(&SendMessageRequest {
        from_id: "a".into(),
        to_id: "b".into(),
        text: "for b".into(),
    })
    .unwrap();
    db.send_message(&SendMessageRequest {
        from_id: "a".into(),
        to_id: "c".into(),
        text: "for c".into(),
    })
    .unwrap();

    let msgs_b = db.poll_messages(&"b".into()).unwrap();
    assert_eq!(msgs_b.len(), 1);
    assert_eq!(msgs_b[0].text, "for b");
}

// ---- Scope-based peer listing ----

fn setup_scoped_peers(db: &mut Database) -> (PeerId, PeerId, PeerId) {
    let id1 = db
        .register_peer(&RegisterRequest {
            pid: 1000,
            cwd: "/project/a".into(),
            git_root: Some("/project".into()),
            tty: None,
            summary: None,
        })
        .unwrap();
    let id2 = db
        .register_peer(&RegisterRequest {
            pid: 2000,
            cwd: "/project/a".into(),
            git_root: Some("/project".into()),
            tty: None,
            summary: None,
        })
        .unwrap();
    let id3 = db
        .register_peer(&RegisterRequest {
            pid: 3000,
            cwd: "/other".into(),
            git_root: Some("/other".into()),
            tty: None,
            summary: None,
        })
        .unwrap();
    (id1, id2, id3)
}

#[test]
fn machine_scope_returns_all_peers_except_self() {
    let mut db = setup_db();
    let (id1, _id2, _id3) = setup_scoped_peers(&mut db);
    let peers = db
        .list_peers(&PeerScope::Machine, &id1, "/project/a", Some("/project"))
        .unwrap();
    assert_eq!(peers.len(), 2);
    assert!(peers.iter().all(|p| p.id != id1));
}

#[test]
fn directory_scope_returns_only_same_cwd() {
    let mut db = setup_db();
    let (id1, id2, _id3) = setup_scoped_peers(&mut db);
    let peers = db
        .list_peers(&PeerScope::Directory, &id1, "/project/a", Some("/project"))
        .unwrap();
    assert_eq!(peers.len(), 1);
    assert_eq!(peers[0].id, id2);
}

#[test]
fn repo_scope_returns_only_same_git_root() {
    let mut db = setup_db();
    let (id1, id2, _id3) = setup_scoped_peers(&mut db);
    let peers = db
        .list_peers(&PeerScope::Repo, &id1, "/project/a", Some("/project"))
        .unwrap();
    assert_eq!(peers.len(), 1);
    assert_eq!(peers[0].id, id2);
}

#[test]
fn repo_scope_without_git_root_returns_empty() {
    let mut db = setup_db();
    let (id1, _id2, _id3) = setup_scoped_peers(&mut db);
    let peers = db.list_peers(&PeerScope::Repo, &id1, "/project/a", None).unwrap();
    assert!(peers.is_empty());
}

// ---- Fixed ids and times ----

#[test]
fn register_at_uses_the_drawn_id_and_stamp() {
    let mut db = setup_db();
    let id = db
        .register_peer_at(&test_register_request(42, "/w"), "abcd1234".into(), "t1".into())
        .unwrap();
    assert_eq!(id, "abcd1234");
    let peer = db.find_peer_by_pid(42).unwrap().unwrap();
    assert_eq!(peer.registered_at, "t1");
    assert_eq!(peer.last_seen, "t1");
    assert_eq!(peer.cwd, "/w");
    assert_eq!(peer.tty, Some("/dev/pts/0".into()));
}

#[test]
fn reregistration_renews_details_but_keeps_id_and_first_stamp() {
    let mut db = setup_db();
    db.register_peer_at(&test_register_request(42, "/w"), "abcd1234".into(), "t1".into())
        .unwrap();
    let again = RegisterRequest {
        pid: 42,
        cwd: "/elsewhere".into(),
        git_root: None,
        tty: None,
        summary: Some("busy".into()),
    };
    let id = db.register_peer_at(&again, "zzzz9999".into(), "t2".into()).unwrap();
    assert_eq!(id, "abcd1234");
    let peer = db.find_peer_by_pid(42).unwrap().unwrap();
    assert_eq!(peer.cwd, "/elsewhere");
    assert_eq!(peer.git_root, None);
    assert_eq!(peer.summary, Some("busy".into()));
    assert_eq!(peer.registered_at, "t1");
    assert_eq!(peer.last_seen, "t2");
    assert_eq!(db.get_all_peers().unwrap().len(), 1);
}

#[test]
fn drawn_id_that_collides_is_refused_and_changes_nothing() {
    let mut db = setup_db();
    db.register_peer_at(&test_register_request(1, "/a"), "same0000".into(), "t".into())
        .unwrap();
    let r = db.register_peer_at(&test_register_request(2, "/b"), "same0000".into(), "t".into());
    match r {
        Err(DbError::IdConflict(id)) => assert_eq!(id, "same0000"),
        other => panic!("unexpected: {other:?}"),
    }
    assert_eq!(db.get_all_peers().unwrap().len(), 1);
    assert!(db.find_peer_by_pid(2).unwrap().is_none());
}

#[test]
fn heartbeat_at_stamps_only_that_peer() {
    let mut db = setup_db();
    db.register_peer_at(&test_register_request(1, "/a"), "aaaa0000".into(), "t0".into())
        .unwrap();
    db.register_peer_at(&test_register_request(2, "/b"), "bbbb0000".into(), "t0".into())
        .unwrap();
    db.update_heartbeat_at(&"bbbb0000".into(), "t9".into()).unwrap();
    assert_eq!(db.find_peer_by_pid(1).unwrap().unwrap().last_seen, "t0");
    assert_eq!(db.find_peer_by_pid(2).unwrap().unwrap().last_seen, "t9");
    match db.update_heartbeat_at(&"cccc0000".into(), "t9".into()) {
        Err(DbError::PeerNotFound(id)) => assert_eq!(id, "cccc0000"),
        other => panic!("unexpected: {other:?}"),
    }
}

#[test]
fn message_ids_count_up_from_one() {
    let mut db = setup_db();
    let req = SendMessageRequest { from_id: "a".into(), to_id: "b".into(), text: "x".into() };
    assert_eq!(db.send_message_at(&req, "t".into()).unwrap(), 1);
    assert_eq!(db.send_message_at(&req, "t".into()).unwrap(), 2);
    assert_eq!(db.send_message(&req).unwrap(), 3);
    let msgs = db.poll_messages(&"b".into()).unwrap();
    let ids: Vec<i64> = msgs.iter().map(|m| m.id).collect();
    assert_eq!(ids, vec![1, 2, 3]);
    assert!(msgs.iter().all(|m| !m.delivered && m.from_id == "a"));
    assert_eq!(msgs[0].sent_at, "t");
}

#[test]
fn poll_by_one_peer_leaves_other_queues() {
    let mut db = setup_db();
    for (to, text) in [("b", "1"), ("c", "2"), ("b", "3"), ("c", "4")] {
        db.send_message_at(
            &SendMessageRequest { from_id: "a".into(), to_id: to.into(), text: text.into() },
            "t".into(),
        )
        .unwrap();
    }
    let b = db.poll_messages(&"b".into()).unwrap();
    assert_eq!(b.iter().map(|m| m.text.as_str()).collect::<Vec<_>>(), vec!["1", "3"]);
    let c = db.poll_messages(&"c".into()).unwrap();
    assert_eq!(c.iter().map(|m| m.text.as_str()).collect::<Vec<_>>(), vec!["2", "4"]);
    assert!(db.poll_messages(&"b".into()).unwrap().is_empty());
    assert!(db.poll_messages(&"c".into()).unwrap().is_empty());
}

#[test]
fn peer_exists_follows_registration() {
    let mut db = setup_db();
    assert!(!db.peer_exists(&"abcd1234".into()).unwrap());
    db.register_peer_at(&test_register_request(5, "/a"), "abcd1234".into(), "t".into())
        .unwrap();
    assert!(db.peer_exists(&"abcd1234".into()).unwrap());
    db.unregister_peer(&"abcd1234".into()).unwrap();
    assert!(!db.peer_exists(&"abcd1234".into()).unwrap());
    // Unregistering an unknown peer is no error.
    db.unregister_peer(&"abcd1234".into()).unwrap();
}

#[test]
fn listing_keeps_registration_order_and_compares_exactly() {
    let mut db = setup_db();
    for (pid, id, cwd, root) in [
        (1, "p1", "/x", Some("/r")),
        (2, "p2", "/x/", Some("/r")),
        (3, "p3", "/x", None),
        (4, "p4", "/x", Some("/r")),
    ] {
        db.register_peer_at(
            &RegisterRequest {
                pid,
                cwd: cwd.into(),
                git_root: root.map(Into::into),
                tty: None,
                summary: None,
            },
            id.into(),
            "t".into(),
        )
        .unwrap();
    }
    let dir = db.list_peers(&PeerScope::Directory, &"p1".into(), "/x", Some("/r")).unwrap();
    assert_eq!(dir.iter().map(|p| p.id.as_str()).collect::<Vec<_>>(), vec!["p3", "p4"]);
    let repo = db.list_peers(&PeerScope::Repo, &"p1".into(), "/x", Some("/r")).unwrap();
    assert_eq!(repo.iter().map(|p| p.id.as_str()).collect::<Vec<_>>(), vec!["p2", "p4"]);
    let all = db.list_peers(&PeerScope::Machine, &"nobody".into(), "", None).unwrap();
    assert_eq!(all.len(), 4);
}

#[test]
fn saved_contents_round_trip() {
    let mut db = setup_db();
    db.register_peer_at(&test_register_request(1, "/a"), "aaaa0000".into(), "t".into())
        .unwrap();
    db.send_message_at(
        &SendMessageRequest { from_id: "x".into(), to_id: "aaaa0000".into(), text: "hi".into() },
        "t".into(),
    )
    .unwrap();
    let (peers, messages, last) = db.to_parts();
    assert_eq!(last, 1);
    let mut again = Database::from_parts(peers, messages, last).unwrap();
    assert_eq!(again.find_peer_by_pid(1).unwrap().unwrap().id, "aaaa0000");
    assert_eq!(again.poll_messages(&"aaaa0000".into()).unwrap()[0].text, "hi");
    let req = SendMessageRequest { from_id: "x".into(), to_id: "y".into(), text: "z".into() };
    assert_eq!(again.send_message_at(&req, "t".into()).unwrap(), 2);
}

#[test]
fn saved_contents_that_break_the_invariant_are_refused() {
    let mut db = setup_db();
    db.register_peer_at(&test_register_request(1, "/a"), "aaaa0000".into(), "t".into())
        .unwrap();
    let (mut peers, _, _) = db.to_parts();
    let mut twin = peers[0].clone();
    twin.pid = 2;
    peers.push(twin);
    assert!(matches!(
        Database::from_parts(peers, vec![], 0),
        Err(DbError::InvalidContents)
    ));
    let m = |id: i64| sinew::types::Message {
        id,
        from_id: "a".into(),
        to_id: "b".into(),
        text: "t".into(),
        sent_at: "s".into(),
        delivered: false,
    };
    assert!(matches!(Database::from_parts(vec![], vec![m(2), m(1)], 5), Err(DbError::InvalidContents)));
    assert!(matches!(Database::from_parts(vec![], vec![m(6)], 5), Err(DbError::InvalidContents)));
    assert!(matches!(Database::from_parts(vec![], vec![m(0)], 5), Err(DbError::InvalidContents)));
    assert!(matches!(Database::from_parts(vec![], vec![], -1), Err(DbError::InvalidContents)));
    assert!(Database::from_parts(vec![], vec![m(1), m(5)], 5).is_ok());
}
