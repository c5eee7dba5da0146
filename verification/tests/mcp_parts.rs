//! The MCP side: client addressing, broker bring-up, tools and summary.

use sinew::mcp::client::{check_status, BrokerClient, ClientError, ROUTE_HEALTH};
use sinew::mcp::launcher::{LaunchAction, LaunchState, LauncherError, HEALTH_POLL_ATTEMPTS};
use sinew::mcp::server::{
    channel_capability, channel_notification_method, check_messages_reply, list_peers_reply,
    list_peers_request, parse_scope, registered_id, send_message_reply, send_message_request,
    set_summary_reply, ToolReply,
};
use sinew::mcp::summary::{recent_files, summary_from_content, summary_prompt, usable_api_key};
use sinew::types::{Message, PeerScope};

#[test]
fn client_drops_trailing_slashes() {
    let c = BrokerClient::new("http://127.0.0.1:7899//");
    assert_eq!(c.base_url(), "http://127.0.0.1:7899");
    assert_eq!(c.endpoint(ROUTE_HEALTH), "http://127.0.0.1:7899/health");
}

#[test]
fn error_statuses_become_broker_errors() {
    assert!(check_status(200, "200 OK").is_ok());
    assert!(check_status(399, "399 <unknown status code>").is_ok());
    assert!(check_status(600, "600 <unknown status code>").is_ok());
    match check_status(404, "404 Not Found") {
        Err(ClientError::BrokerError { status, body }) => {
            assert_eq!(status, 404);
            assert_eq!(body, "HTTP 404 Not Found");
        }
        other => panic!("unexpected: {other:?}"),
    }
    assert!(check_status(500, "500 Internal Server Error").is_err());
    assert!(check_status(599, "599").is_err());
}

#[test]
fn running_broker_is_ready_at_once() {
    let mut s = LaunchState::new();
    assert!(matches!(s.after_probe(true), Ok(LaunchAction::Ready)));
}

#[test]
fn spawned_broker_gets_twelve_probes() {
    let mut s = LaunchState::new();
    assert!(matches!(s.after_probe(false), Ok(LaunchAction::SpawnBroker)));
    assert_eq!(s.after_spawn(), LaunchAction::WaitThenProbe);
    for _ in 1..HEALTH_POLL_ATTEMPTS {
        assert!(matches!(s.after_probe(false), Ok(LaunchAction::WaitThenProbe)));
    }
    assert!(matches!(s.after_probe(false), Err(LauncherError::Timeout)));
}

#[test]
fn spawned_broker_that_comes_up_is_ready() {
    let mut s = LaunchState::new();
    let _ = s.after_probe(false);
    s.after_spawn();
    assert!(matches!(s.after_probe(false), Ok(LaunchAction::WaitThenProbe)));
    assert!(matches!(s.after_probe(true), Ok(LaunchAction::Ready)));
}

#[test]
fn scopes_are_parsed_by_name() {
    assert_eq!(parse_scope("machine"), Some(PeerScope::Machine));
    assert_eq!(parse_scope("directory"), Some(PeerScope::Directory));
    assert_eq!(parse_scope("repo"), Some(PeerScope::Repo));
    assert_eq!(parse_scope("Repo"), None);
}

#[test]
fn tools_need_a_registration() {
    assert_eq!(registered_id(&None).unwrap_err(), "Error: not registered");
    assert_eq!(registered_id(&Some("abc".into())).unwrap(), "abc");
    assert_eq!(list_peers_request(&None, "machine").unwrap_err(), "Error: not registered");
    assert_eq!(
        list_peers_request(&Some("me".into()), "galaxy").unwrap_err(),
        "Invalid scope. Use: machine, directory, or repo"
    );
    let req = list_peers_request(&Some("me".into()), "repo").unwrap();
    assert_eq!(req.id, "me");
    assert_eq!(req.scope, PeerScope::Repo);
    assert_eq!(
        send_message_request(&None, "x".into(), "hi".into()).unwrap_err(),
        "Error: not registered"
    );
    let m = send_message_request(&Some("me".into()), "you".into(), "hi".into()).unwrap();
    assert_eq!((m.from_id.as_str(), m.to_id.as_str(), m.text.as_str()), ("me", "you", "hi"));
}

#[test]
fn tool_replies() {
    assert_eq!(send_message_reply(Ok(())), "Message sent");
    assert_eq!(send_message_reply(Err("boom".into())), "Failed to send message: boom");
    assert_eq!(set_summary_reply(Ok(())), "Summary updated");
    assert_eq!(set_summary_reply(Err("x".into())), "Failed to set summary: x");
    match check_messages_reply(Ok(vec![])) {
        ToolReply::Text(t) => assert_eq!(t, "No new messages"),
        other => panic!("unexpected: {other:?}"),
    }
    let m = Message {
        id: 1,
        from_id: "a".into(),
        to_id: "b".into(),
        text: "t".into(),
        sent_at: "s".into(),
        delivered: false,
    };
    assert!(matches!(check_messages_reply(Ok(vec![m])), ToolReply::Messages(v) if v.len() == 1));
    match check_messages_reply(Err("down".into())) {
        ToolReply::Text(t) => assert_eq!(t, "Failed to check messages: down"),
        other => panic!("unexpected: {other:?}"),
    }
    match list_peers_reply(Err("down".into())) {
        ToolReply::Text(t) => assert_eq!(t, "Failed to list peers: down"),
        other => panic!("unexpected: {other:?}"),
    }
    assert!(matches!(list_peers_reply(Ok(vec![])), ToolReply::Peers(v) if v.is_empty()));
}

#[test]
fn channel_names() {
    assert_eq!(channel_capability("acme"), "acme/channel");
    assert_eq!(channel_notification_method("acme"), "notifications/acme/channel");
}

#[test]
fn recent_files_are_deduplicated_and_capped() {
    assert_eq!(recent_files("", ""), None);
    assert_eq!(recent_files("a.rs\nb.rs", "b.rs\n\nc.rs"), Some("a.rs, b.rs, c.rs".into()));
    assert_eq!(recent_files("a\na\nb\na", ""), Some("a, b, a".into()));
    let many: Vec<String> = (0..15).map(|i| format!("f{i}")).collect();
    let expected: Vec<String> = (0..10).map(|i| format!("f{i}")).collect();
    assert_eq!(recent_files(&many.join("\n"), ""), Some(expected.join(", ")));
}

#[test]
fn prompt_and_answer() {
    assert_eq!(
        summary_prompt("/w", "main", "a.rs"),
        "Summarize what this developer is working on in 1-2 sentences based on:\nWorking directory: /w\nGit branch: main\nRecent files: a.rs\nBe concise and specific."
    );
    assert_eq!(summary_from_content(Some("  Fixing bugs.\n")), Some("Fixing bugs.".into()));
    assert_eq!(summary_from_content(None), None);
}

#[test]
fn summary_is_skipped_when_api_key_is_absent_or_empty() {
    assert!(usable_api_key(None).is_none());
    assert!(usable_api_key(Some(String::new())).is_none());
}

#[test]
fn a_set_api_key_is_used() {
    assert_eq!(usable_api_key(Some("k".into())), Some("k".into()));
}
