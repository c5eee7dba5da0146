//! Dropping peers whose process has ended.

use sinew::broker::db::Database;
use sinew::broker::routes::prune_dead_peers;
use sinew::broker::{cleanup_stale_peers, collect_dead_ids, probe_liveness, remove_dead_peers};
use sinew::types::RegisterRequest;

fn req(pid: u32) -> RegisterRequest {
    RegisterRequest { pid, cwd: "/w".into(), git_root: None, tty: None, summary: None }
}

fn own_pid() -> u32 {
    nix::unistd::getpid().as_raw() as u32
}

#[test]
fn dead_ids_follow_the_flags() {
    let mut db = Database::new_in_memory().unwrap();
    for (pid, id) in [(1, "p1"), (2, "p2"), (3, "p3")] {
        db.register_peer_at(&req(pid), id.into(), "t".into()).unwrap();
    }
    let peers = db.get_all_peers().unwrap();
    assert_eq!(collect_dead_ids(&peers, &vec![true, false, false]), vec!["p2", "p3"]);
    assert_eq!(remove_dead_peers(&mut db, &peers, &vec![false, true, true]), 1);
    let left: Vec<String> = db.get_all_peers().unwrap().into_iter().map(|p| p.id).collect();
    assert_eq!(left, vec!["p2", "p3"]);
    assert_eq!(remove_dead_peers(&mut db, &peers, &vec![true, true, true]), 0);
    assert_eq!(db.get_all_peers().unwrap().len(), 2);
}

#[test]
fn pruning_drops_dead_peers_from_listing_and_store() {
    let mut db = Database::new_in_memory().unwrap();
    for (pid, id) in [(1, "p1"), (2, "p2"), (3, "p3")] {
        db.register_peer_at(&req(pid), id.into(), "t".into()).unwrap();
    }
    let listed = db.get_all_peers().unwrap()[1..].to_vec();
    let kept = prune_dead_peers(&mut db, listed, &vec![false, true]);
    assert_eq!(kept.iter().map(|p| p.id.as_str()).collect::<Vec<_>>(), vec!["p3"]);
    let left: Vec<String> = db.get_all_peers().unwrap().into_iter().map(|p| p.id).collect();
    assert_eq!(left, vec!["p1", "p3"]);
}

#[test]
fn sweep_removes_only_ended_processes() {
    let mut db = Database::new_in_memory().unwrap();
    db.register_peer_at(&req(own_pid()), "live0000".into(), "t".into()).unwrap();
    db.register_peer_at(&req(u32::MAX - 1), "gone0000".into(), "t".into()).unwrap();
    let peers = db.get_all_peers().unwrap();
    assert_eq!(probe_liveness(&peers), vec![true, false]);
    assert_eq!(cleanup_stale_peers(&mut db), 1);
    let left: Vec<String> = db.get_all_peers().unwrap().into_iter().map(|p| p.id).collect();
    assert_eq!(left, vec!["live0000"]);
}
