//! The broker: the peer registry and message queues, the answers that its
//! HTTP routes give, and the sweep that drops peers whose process ended.

pub mod db;
pub mod readings;
pub mod routes;

use vstd::prelude::*;

use self::db::{id_listed, lemma_filter_member, lemma_without_nothing, Database, DbView};
use crate::text::string_seq_views;
use crate::process::{probe_liveness_of, Liveness};
use crate::types::{peer_views, Peer, PeerId, PeerView};

verus! {

/// The broker failed to start or to keep serving.
#[derive(Debug)]
pub struct BrokerRunError;

/// The port that the broker listens on unless told otherwise.
pub const DEFAULT_PORT: u16 = 7899;

/// Seconds between two sweeps for peers whose process has ended.
pub const STALE_CLEANUP_INTERVAL_SECS: u64 = 30;

/// The ids of the peers in `peers` whose flag in `alive` is false, in order.
pub open spec fn dead_ids(peers: Seq<PeerView>, alive: Seq<bool>) -> Seq<Seq<char>>
    decreases peers.len(),
{
    if peers.len() == 0 {
        Seq::empty()
    } else {
        let rest = dead_ids(peers.drop_last(), alive);
        if alive[peers.len() - 1] {
            rest
        } else {
            rest.push(peers.last().id)
        }
    }
}

/// An id is among the dead ones only when a peer with that id was probed
/// dead.
pub proof fn lemma_dead_id_has_dead_probe(peers: Seq<PeerView>, alive: Seq<bool>, id: Seq<char>)
    requires
        id_listed(dead_ids(peers, alive), id),
    ensures
        exists|m: int| 0 <= m < peers.len() && !alive[m] && (#[trigger] peers[m]).id == id,
    decreases peers.len(),
{
    let rest = peers.drop_last();
    let d = dead_ids(rest, alive);
    let last = peers.len() - 1;
    if !alive[last] && d.push(peers.last().id).last() == id {
        assert(peers[last].id == id);
    } else {
        let k = choose|k: int| 0 <= k < dead_ids(peers, alive).len() && dead_ids(peers, alive)[k] == id;
        assert(d[k] == id);
        lemma_dead_id_has_dead_probe(rest, alive, id);
        let m = choose|m: int| 0 <= m < rest.len() && !alive[m] && (#[trigger] rest[m]).id == id;
        assert(peers[m] == rest[m]);
    }
}

/// A peer probed dead has its id among the dead ones.
pub proof fn lemma_dead_probe_lists_id(peers: Seq<PeerView>, alive: Seq<bool>, j: int)
    requires
        0 <= j < peers.len(),
        !alive[j],
    ensures
        id_listed(dead_ids(peers, alive), peers[j].id),
    decreases peers.len(),
{
    let rest = peers.drop_last();
    let d = dead_ids(rest, alive);
    if j == peers.len() - 1 {
        assert(dead_ids(peers, alive) == d.push(peers[j].id));
        assert(dead_ids(peers, alive)[d.len() as int] == peers[j].id);
    } else {
        lemma_dead_probe_lists_id(rest, alive, j);
        assert(rest[j] == peers[j]);
        let k = choose|k: int| 0 <= k < d.len() && d[k] == peers[j].id;
        if !alive[peers.len() - 1] {
            assert(dead_ids(peers, alive)[k] == d[k]);
        }
    }
}

/// The sweep removes exactly the peers probed dead: with one flag per
/// registered peer, a peer stays in the store when, and only when, its
/// flag says its process is alive, and no peer is added.
pub proof fn law_sweep_removes_exactly_the_dead(v: DbView, alive: Seq<bool>)
    requires
        v.wf(),
        alive.len() == v.peers.len(),
    ensures
        forall|j: int|
            0 <= j < v.peers.len() ==> (v.without_ids(dead_ids(v.peers, alive)).peers.contains(
                #[trigger] v.peers[j],
            ) <==> alive[j]),
        forall|p: PeerView|
            v.without_ids(dead_ids(v.peers, alive)).peers.contains(p) ==> v.peers.contains(p),
{
    let dead = dead_ids(v.peers, alive);
    let pred = |p: PeerView| !id_listed(dead, p.id);
    let kept = v.peers.filter(pred);
    assert(v.without_ids(dead).peers == kept);
    assert forall|j: int| 0 <= j < v.peers.len() implies (kept.contains(#[trigger] v.peers[j])
        <==> alive[j]) by {
        if alive[j] {
            if id_listed(dead, v.peers[j].id) {
                lemma_dead_id_has_dead_probe(v.peers, alive, v.peers[j].id);
                let m = choose|m: int|
                    0 <= m < v.peers.len() && !alive[m] && (#[trigger] v.peers[m]).id
                        == v.peers[j].id;
                if m < j {
                    assert(v.peers[m].id != v.peers[j].id);
                } else if m > j {
                    assert(v.peers[j].id != v.peers[m].id);
                }
            }
            v.peers.lemma_filter_contains(pred, j);
        } else {
            lemma_dead_probe_lists_id(v.peers, alive, j);
            if kept.contains(v.peers[j]) {
                let i = choose|i: int| 0 <= i < kept.len() && kept[i] == v.peers[j];
                v.peers.lemma_filter_pred(pred, i);
            }
        }
    }
    assert forall|p: PeerView| kept.contains(p) implies v.peers.contains(p) by {
        let i = choose|i: int| 0 <= i < kept.len() && kept[i] == p;
        lemma_filter_member(v.peers, pred, i);
    }
}

/// The ids of the peers that `alive` marks dead.
pub fn collect_dead_ids(peers: &Vec<Peer>, alive: &Vec<bool>) -> (r: Vec<PeerId>)
    requires
        alive@.len() == peers@.len(),
    ensures
        string_seq_views(r@) == dead_ids(peer_views(peers@), alive@),
{
    let ghost pv = peer_views(peers@);
    let mut dead: Vec<PeerId> = Vec::new();
    let n = peers.len();
    let mut i: usize = 0;
    assert(pv.take(0) =~= Seq::<PeerView>::empty());
    assert(string_seq_views(dead@) =~= Seq::<Seq<char>>::empty());
    while i < n
        invariant
            i <= n,
            n == peers@.len(),
            alive@.len() == n,
            pv == peer_views(peers@),
            string_seq_views(dead@) == dead_ids(pv.take(i as int), alive@),
        decreases n - i,
    {
        assert(pv.take(i as int + 1).drop_last() =~= pv.take(i as int));
        if !alive[i] {
            let ghost before = dead@;
            dead.push(peers[i].id.clone());
            assert(string_seq_views(dead@) =~= string_seq_views(before).push(pv[i as int].id));
        }
        i = i + 1;
    }
    assert(pv.take(n as int) =~= pv);
    dead
}

/// Whether `alive` holds, for each peer of `peers` in order, what a probe
/// of that peer's process found.
pub open spec fn probed_flags(peers: Seq<PeerView>, alive: Seq<bool>) -> bool {
    exists|probes: Seq<Liveness>|
        {
            &&& probes.len() == peers.len()
            &&& alive.len() == peers.len()
            &&& forall|i: int|
                0 <= i < peers.len() ==> (#[trigger] probes[i]).probed_pid() == peers[i].pid
                    && alive[i] == probes[i].found_alive()
        }
}

/// Probes the process of each peer, in order: one flag per peer, and a
/// peer whose process id is above `i32::MAX` is dead (see
/// `is_process_alive`).
pub fn probe_liveness(peers: &Vec<Peer>) -> (alive: Vec<bool>)
    ensures
        alive@.len() == peers@.len(),
        forall|i: int|
            0 <= i < peers@.len() && (#[trigger] peers@[i]).pid > i32::MAX as u32 ==> !alive@[i],
        probed_flags(peer_views(peers@), alive@),
{
    let mut alive: Vec<bool> = Vec::new();
    let ghost mut probes: Seq<Liveness> = Seq::empty();
    let ghost pv = peer_views(peers@);
    let n = peers.len();
    let mut i: usize = 0;
    while i < n
        invariant
            i <= n,
            n == peers@.len(),
            pv == peer_views(peers@),
            alive@.len() == i,
            probes.len() == i,
            forall|j: int|
                0 <= j < i && (#[trigger] peers@[j]).pid > i32::MAX as u32 ==> !alive@[j],
            forall|j: int|
                0 <= j < i ==> (#[trigger] probes[j]).probed_pid() == pv[j].pid && alive@[j]
                    == probes[j].found_alive(),
        decreases n - i,
    {
        let probe = probe_liveness_of(peers[i].pid);
        alive.push(probe.alive());
        proof {
            probes = probes.push(probe);
        }
        i = i + 1;
    }
    assert(probes.len() == pv.len() && alive@.len() == pv.len() && forall|j: int|
        0 <= j < pv.len() ==> (#[trigger] probes[j]).probed_pid() == pv[j].pid && alive@[j]
            == probes[j].found_alive());
    alive
}

/// Removes from the store the peers of `peers` that `alive` marks dead, and
/// answers how many that were. Nothing is removed when none is dead.
pub fn remove_dead_peers(db: &mut Database, peers: &Vec<Peer>, alive: &Vec<bool>) -> (r: usize)
    requires
        old(db).wf(),
        alive@.len() == peers@.len(),
    ensures
        final(db).wf(),
        final(db)@ == old(db)@.without_ids(dead_ids(peer_views(peers@), alive@)),
        r == dead_ids(peer_views(peers@), alive@).len(),
{
    let dead = collect_dead_ids(peers, alive);
    if dead.len() > 0 {
        let _ = db.remove_peers(dead.as_slice());
    } else {
        proof {
            assert(dead_ids(peer_views(peers@), alive@) =~= Seq::<Seq<char>>::empty());
            lemma_without_nothing(old(db)@);
        }
    }
    dead.len()
}

/// One sweep of the stale-peer cleanup: probes the process of every
/// registered peer and removes the peers whose process has ended, whatever
/// the probes answered; answers how many were removed.
pub fn cleanup_stale_peers(db: &mut Database) -> (r: usize)
    requires
        old(db).wf(),
    ensures
        final(db).wf(),
        exists|alive: Seq<bool>|
            {
                &&& alive.len() == old(db)@.peers.len()
                &&& forall|i: int|
                    0 <= i < alive.len() && (#[trigger] old(db)@.peers[i]).pid > i32::MAX as u32
                        ==> !alive[i]
                &&& probed_flags(old(db)@.peers, alive)
                &&& final(db)@ == old(db)@.without_ids(dead_ids(old(db)@.peers, alive))
                &&& r == dead_ids(old(db)@.peers, alive).len()
            },
{
    let peers = match db.get_all_peers() {
        Ok(p) => p,
        Err(_) => {
            return 0;
        },
    };
    let alive = probe_liveness(&peers);
    let r = remove_dead_peers(db, &peers, &alive);
    assert(peer_views(peers@) == old(db)@.peers);
    r
}

} // verus!
