//! The MCP server's lifecycle decisions.

use sinew::mcp::lifecycle::{
    env_info, extract_port, git_output_text, lookup_request, peer_info, registration_request,
    sender_details, FailureCounter, SessionRecord, RECOVERY_THRESHOLD,
};
use sinew::broker::db::Database;
use sinew::broker::routes::{self, ApiResponse, ResponseBody};
use sinew::types::{Peer, PeerScope, RegisterRequest};

#[test]
fn extract_port_from_url() {
    assert_eq!(extract_port("http://127.0.0.1:7899"), 7899);
    assert_eq!(extract_port("http://127.0.0.1:8080"), 8080);
    assert_eq!(extract_port("http://127.0.0.1:8080/"), 8080);
    assert_eq!(extract_port("http://localhost"), 7899);
}

#[test]
fn extract_port_edge_cases() {
    assert_eq!(extract_port("http://h:+80"), 80);
    assert_eq!(extract_port("http://h:65535"), 65535);
    assert_eq!(extract_port("http://h:65536"), 7899);
    assert_eq!(extract_port("http://h:"), 7899);
    assert_eq!(extract_port("http://h:80//"), 80);
    assert_eq!(extract_port("http://h:8a"), 7899);
    assert_eq!(extract_port("9000"), 9000);
    assert_eq!(extract_port(""), 7899);
    assert_eq!(extract_port("http://h:0"), 0);
}

#[test]
fn third_consecutive_failure_calls_for_recovery() {
    let mut c = FailureCounter::new();
    assert!(!c.record_failure());
    assert!(!c.record_failure());
    assert!(c.record_failure());
    assert_eq!(c.consecutive, RECOVERY_THRESHOLD);
    c.recovery_attempted();
    assert_eq!(c.consecutive, 0);
    assert!(!c.record_failure());
    c.record_success();
    assert!(!c.record_failure());
    assert!(!c.record_failure());
}

fn peer(id: &str, cwd: &str, summary: Option<&str>) -> Peer {
    Peer {
        id: id.into(),
        pid: 1,
        cwd: cwd.into(),
        git_root: None,
        tty: None,
        summary: summary.map(Into::into),
        registered_at: "t".into(),
        last_seen: "t".into(),
    }
}

#[test]
fn peer_info_describes_the_sender() {
    let peers = vec![peer("a", "/x", Some("busy")), peer("b", "/y", None), peer("a", "/z", None)];
    assert_eq!(peer_info(&peers, "a"), ("busy".to_string(), "/x".to_string()));
    assert_eq!(peer_info(&peers, "b"), (String::new(), "/y".to_string()));
    assert_eq!(peer_info(&peers, "c"), (String::new(), String::new()));
}

#[test]
fn lookup_asks_machine_wide_for_the_session_itself() {
    let r = lookup_request("k3x9m2pq");
    assert_eq!(r.id, "k3x9m2pq");
    assert_eq!(r.scope, PeerScope::Machine);
}

#[test]
fn lookup_finds_a_live_sender_in_another_directory() {
    let mut db = Database::new_in_memory().unwrap();
    let own = match routes::register(
        &mut db,
        &RegisterRequest {
            // The requester is never listed, so its process is not probed.
            pid: u32::MAX - 1,
            cwd: "/receiver".into(),
            git_root: None,
            tty: None,
            summary: None,
        },
    ) {
        ApiResponse { status: 200, body: ResponseBody::Registered(r) } => r.id,
        r => panic!("register failed: {r:?}"),
    };
    let sender = match routes::register(
        &mut db,
        &RegisterRequest {
            pid: nix::unistd::getpid().as_raw() as u32,
            cwd: "/elsewhere".into(),
            git_root: Some("/elsewhere".into()),
            tty: None,
            summary: Some("Reviewing the parser".into()),
        },
    ) {
        ApiResponse { status: 200, body: ResponseBody::Registered(r) } => r.id,
        r => panic!("register failed: {r:?}"),
    };
    let peers = match routes::list_peers(&mut db, &lookup_request(&own)) {
        ApiResponse { status: 200, body: ResponseBody::Peers(p) } => p,
        r => panic!("list failed: {r:?}"),
    };
    assert_eq!(
        peer_info(&peers, &sender),
        ("Reviewing the parser".to_string(), "/elsewhere".to_string())
    );
    assert_eq!(peer_info(&peers, &own), (String::new(), String::new()));
    let record = SessionRecord { cwd: "/receiver".into(), summary: None };
    assert_eq!(
        sender_details(&own, &record, &sender, &peers),
        ("Reviewing the parser".to_string(), "/elsewhere".to_string())
    );
}

#[test]
fn a_self_sent_message_is_described_from_the_session_record() {
    let req = RegisterRequest {
        pid: 4242,
        cwd: "/work/app".into(),
        git_root: None,
        tty: None,
        summary: None,
    };
    let mut record = SessionRecord::registered(&req);
    assert_eq!(record.cwd, "/work/app");
    assert_eq!(record.summary, None);
    // Listings never show the session itself.
    let others = vec![peer("zz", "/other", Some("elsewhere"))];
    assert_eq!(
        sender_details("me000001", &record, "me000001", &others),
        (String::new(), "/work/app".to_string())
    );
    record.summary_set("Fixing the login flow");
    assert_eq!(
        sender_details("me000001", &record, "me000001", &others),
        ("Fixing the login flow".to_string(), "/work/app".to_string())
    );
    assert_eq!(
        sender_details("me000001", &record, "zz", &others),
        ("elsewhere".to_string(), "/other".to_string())
    );
    assert_eq!(
        sender_details("me000001", &record, "gone0000", &others),
        (String::new(), String::new())
    );
}

#[test]
fn heartbeat_failures_recover_on_every_third() {
    let mut c = FailureCounter::new();
    let mut recoveries = 0;
    for _ in 0..7 {
        if c.record_failure() {
            recoveries += 1;
            c.recovery_attempted();
        }
        assert!(c.consecutive < RECOVERY_THRESHOLD);
    }
    assert_eq!(recoveries, 2);
    assert_eq!(c.consecutive, 1);
    c.record_success();
    assert_eq!(c.consecutive, 0);
}

#[test]
fn environment_and_registration() {
    let env = env_info(None, Some("/repo".into()), true);
    assert_eq!(env.cwd, ".");
    assert_eq!(env.tty, Some("interactive".into()));
    let req = registration_request(77, env);
    assert_eq!(req.pid, 77);
    assert_eq!(req.cwd, ".");
    assert_eq!(req.git_root, Some("/repo".into()));
    assert_eq!(req.summary, None);
    let env = env_info(Some("/w".into()), None, false);
    assert_eq!(env.cwd, "/w");
    assert_eq!(env.tty, None);
}

#[test]
fn git_output_is_trimmed_when_the_command_succeeded() {
    assert_eq!(git_output_text(true, "  /home/me/repo\n"), Some("/home/me/repo".into()));
    assert_eq!(git_output_text(false, "/home/me/repo\n"), None);
}
