//! Decisions of the MCP server's lifecycle: which broker port a URL names,
//! when repeated failures call for a recovery, what the session registers
//! with, and how a message's sender is described.

use vstd::prelude::*;

use crate::broker::DEFAULT_PORT;
use crate::text::{
    after_last, after_last_char, parse_u16, parse_u16_spec, trim, trim_end_char,
    trim_end_matches_char, trim_spec,
};
use crate::broker::db::{
    has_id, id_index, id_listed, in_scope, law_listing_is_the_scope, law_peer_updates_touch_one_peer,
    law_registration_is_recorded, lemma_filter_member, lemma_register_keeps_wf,
    lemma_unique_id_index, pid_index, DbView,
};
use crate::broker::routes::survivors;
use crate::broker::{dead_ids, lemma_dead_id_has_dead_probe};
use crate::types::{
    clone_opt_string, opt_view, peer_views, ListPeersRequest, Peer, PeerScope, PeerView,
    RegisterRequest, RegisterRequestView,
};

verus! {

/// Seconds between two heartbeats.
pub const HEARTBEAT_INTERVAL_SECS: u64 = 15;

/// Seconds between two polls for messages.
pub const POLL_INTERVAL_SECS: u64 = 1;

/// Consecutive failed broker calls after which the broker is recovered.
pub const RECOVERY_THRESHOLD: u32 = 3;

/// The MCP server failed.
#[derive(Debug)]
pub struct McpError;

/// The port named after the last `:` of a broker URL, trailing slashes
/// ignored; the default port when that is not a valid port number.
pub open spec fn extract_port_spec(url: Seq<char>) -> u16 {
    match parse_u16_spec(trim_end_char(after_last(url, ':'), '/')) {
        Some(p) => p,
        None => 7899,
    }
}

/// The broker port that `broker_url` names (see `extract_port_spec`).
pub fn extract_port(broker_url: &str) -> (port: u16)
    ensures
        port == extract_port_spec(broker_url@),
{
    let tail = after_last_char(broker_url, ':');
    let digits = trim_end_matches_char(tail, '/');
    match parse_u16(digits) {
        Some(p) => p,
        None => DEFAULT_PORT,
    }
}

/// The number of consecutive failed broker calls, shared by the heartbeat
/// and the message poll.
pub struct FailureCounter {
    pub consecutive: u32,
}

/// The count after one more failure (wrapping, as an atomic add does).
pub open spec fn count_after_failure(c: u32) -> u32 {
    if c == u32::MAX {
        0
    } else {
        (c + 1) as u32
    }
}

impl FailureCounter {
    pub fn new() -> (r: Self)
        ensures
            r.consecutive == 0,
    {
        FailureCounter { consecutive: 0 }
    }

    /// A call succeeded: the count starts over.
    pub fn record_success(&mut self)
        ensures
            final(self).consecutive == 0,
    {
        self.consecutive = 0;
    }

    /// A call failed: counts it and answers whether the broker is now to be
    /// recovered, which is when the count has reached the threshold.
    pub fn record_failure(&mut self) -> (recover: bool)
        ensures
            final(self).consecutive == count_after_failure(old(self).consecutive),
            recover == (final(self).consecutive >= RECOVERY_THRESHOLD),
    {
        if self.consecutive == u32::MAX {
            self.consecutive = 0;
        } else {
            self.consecutive = self.consecutive + 1;
        }
        self.consecutive >= RECOVERY_THRESHOLD
    }

    /// A recovery was attempted: the count starts over.
    pub fn recovery_attempted(&mut self)
        ensures
            final(self).consecutive == 0,
    {
        self.consecutive = 0;
    }
}

/// Starting from no failures, the first two failures call for no recovery
/// and the third does; a success in between starts the count over.
pub proof fn law_third_consecutive_failure_recovers()
    ensures
        count_after_failure(0) < RECOVERY_THRESHOLD,
        count_after_failure(count_after_failure(0)) < RECOVERY_THRESHOLD,
        count_after_failure(count_after_failure(count_after_failure(0))) >= RECOVERY_THRESHOLD,
{
}

/// One tick of the heartbeat loop from count `c`, as the calls on a
/// `FailureCounter` make it: a heartbeat that succeeded (`ok`) starts the
/// count over; one that failed is counted, and when the count reaches the
/// threshold the broker is recovered and the count starts over. Gives the
/// new count and whether a recovery was made.
pub open spec fn heartbeat_step(c: u32, ok: bool) -> (u32, bool) {
    if ok {
        (0, false)
    } else if count_after_failure(c) >= RECOVERY_THRESHOLD {
        (0, true)
    } else {
        (count_after_failure(c), false)
    }
}

/// The count after heartbeats with the outcomes `outcomes`, in order,
/// starting from no failures.
pub open spec fn count_after_heartbeats(outcomes: Seq<bool>) -> u32
    decreases outcomes.len(),
{
    if outcomes.len() == 0 {
        0
    } else {
        heartbeat_step(count_after_heartbeats(outcomes.drop_last()), outcomes.last()).0
    }
}

/// The number of failed heartbeats at the end of `outcomes`, after the last
/// success.
pub open spec fn trailing_failures(outcomes: Seq<bool>) -> nat
    decreases outcomes.len(),
{
    if outcomes.len() == 0 || outcomes.last() {
        0
    } else {
        trailing_failures(outcomes.drop_last()) + 1
    }
}

/// Over any run of heartbeats, with no other task touching the count, the
/// count is the number of consecutive failures since the last success or
/// recovery, and stays below the threshold; a tick recovers the broker
/// exactly when its heartbeat failed and completes a run of
/// `RECOVERY_THRESHOLD` consecutive failures.
pub proof fn law_failure_count_tracks_consecutive_failures(outcomes: Seq<bool>)
    ensures
        count_after_heartbeats(outcomes) == trailing_failures(outcomes) % (
        RECOVERY_THRESHOLD as nat),
        count_after_heartbeats(outcomes) < RECOVERY_THRESHOLD,
        outcomes.len() > 0 ==> (heartbeat_step(
            count_after_heartbeats(outcomes.drop_last()),
            outcomes.last(),
        ).1 <==> !outcomes.last() && trailing_failures(outcomes) % (RECOVERY_THRESHOLD as nat)
            == 0),
    decreases outcomes.len(),
{
    if outcomes.len() > 0 {
        let before = outcomes.drop_last();
        law_failure_count_tracks_consecutive_failures(before);
        let t = trailing_failures(before);
        if !outcomes.last() {
            assert(trailing_failures(outcomes) == t + 1);
            let n = RECOVERY_THRESHOLD as nat;
            assert(t % n == n - 1 ==> (t + 1) % n == 0);
            assert(t % n < n - 1 ==> (t + 1) % n == t % n + 1);
        }
    }
}

/// What the session registers with besides its process id.
pub struct EnvInfo {
    pub cwd: String,
    pub git_root: Option<String>,
    pub tty: Option<String>,
}

/// The text that a successful git command printed, trimmed; nothing when
/// the command failed.
pub fn git_output_text(success: bool, stdout: &str) -> (r: Option<String>)
    ensures
        success ==> (r matches Some(s) && s@ == trim_spec(stdout@)),
        !success ==> r is None,
{
    if success {
        Some(String::from_str(trim(stdout)))
    } else {
        None
    }
}

/// The environment description: the working directory (or "." when it
/// could not be read), the git root, and "interactive" as the terminal
/// when standard input is one.
pub fn env_info(cwd: Option<String>, git_root: Option<String>, stdin_is_terminal: bool) -> (r:
    EnvInfo)
    ensures
        match cwd {
            Some(c) => r.cwd == c,
            None => r.cwd@ == "."@,
        },
        r.git_root == git_root,
        stdin_is_terminal ==> (r.tty matches Some(t) && t@ == "interactive"@),
        !stdin_is_terminal ==> r.tty is None,
{
    let cwd = match cwd {
        Some(c) => c,
        None => String::from_str("."),
    };
    let tty = if stdin_is_terminal {
        Some(String::from_str("interactive"))
    } else {
        None
    };
    EnvInfo { cwd, git_root, tty }
}

/// The registration of process `pid` with environment `env`; no summary.
pub fn registration_request(pid: u32, env: EnvInfo) -> (r: RegisterRequest)
    ensures
        r.pid == pid,
        r.cwd == env.cwd,
        r.git_root == env.git_root,
        r.tty == env.tty,
        r.summary is None,
{
    RegisterRequest { pid, cwd: env.cwd, git_root: env.git_root, tty: env.tty, summary: None }
}

/// The listing that looks up a message's sender: machine-wide, on behalf
/// of the receiving session's own peer id `own_id`, so that every other
/// live session, the sender among them, is listed.
pub fn lookup_request(own_id: &str) -> (r: ListPeersRequest)
    ensures
        r.id@ == own_id@,
        r.scope == PeerScope::Machine,
{
    ListPeersRequest { id: String::from_str(own_id), scope: PeerScope::Machine }
}

/// A summary as text: empty when unset.
pub open spec fn summary_text(summary: Option<Seq<char>>) -> Seq<char> {
    match summary {
        Some(s) => s,
        None => Seq::empty(),
    }
}

/// The summary (empty when unset) and working directory of the first peer
/// of `peers` with id `id`; two empty texts when there is none.
pub open spec fn sender_info(peers: Seq<PeerView>, id: Seq<char>) -> (Seq<char>, Seq<char>)
    decreases peers.len(),
{
    if peers.len() == 0 {
        (Seq::empty(), Seq::empty())
    } else if peers[0].id == id {
        (summary_text(peers[0].summary), peers[0].cwd)
    } else {
        sender_info(peers.drop_first(), id)
    }
}

/// The sender's summary and working directory as `sender_info` gives them
/// for the listed `peers`.
pub fn peer_info(peers: &Vec<Peer>, peer_id: &str) -> (r: (String, String))
    ensures
        (r.0@, r.1@) == sender_info(peer_views(peers@), peer_id@),
{
    let ghost pv = peer_views(peers@);
    let n = peers.len();
    let mut i: usize = 0;
    assert(pv.skip(0) =~= pv);
    while i < n
        invariant
            i <= n,
            n == peers@.len(),
            pv == peer_views(peers@),
            sender_info(pv, peer_id@) == sender_info(pv.skip(i as int), peer_id@),
        decreases n - i,
    {
        assert(pv.skip(i as int)[0] == pv[i as int]);
        if crate::text::str_eq(peers[i].id.as_str(), peer_id) {
            let summary = match &peers[i].summary {
                Some(s) => s.clone(),
                None => String::new(),
            };
            return (summary, peers[i].cwd.clone());
        }
        assert(pv.skip(i as int).drop_first() =~= pv.skip(i as int + 1));
        i = i + 1;
    }
    assert(pv.skip(n as int).len() == 0);
    (String::new(), String::new())
}

/// What the session itself knows of its own record in the broker: the
/// working directory it registered with and the summary it last set.
#[derive(Debug, Clone)]
pub struct SessionRecord {
    pub cwd: String,
    pub summary: Option<String>,
}

/// A session's own record, with its strings as character sequences.
pub struct SessionRecordView {
    pub cwd: Seq<char>,
    pub summary: Option<Seq<char>>,
}

impl View for SessionRecord {
    type V = SessionRecordView;

    open spec fn view(&self) -> SessionRecordView {
        SessionRecordView { cwd: self.cwd@, summary: opt_view(self.summary) }
    }
}

/// The record that registering with `req` leaves in the broker.
pub open spec fn registered_record(req: RegisterRequestView) -> SessionRecordView {
    SessionRecordView { cwd: req.cwd, summary: req.summary }
}

impl SessionRecordView {
    /// The record after the session set its summary to `summary`.
    pub open spec fn with_summary(self, summary: Seq<char>) -> SessionRecordView {
        SessionRecordView { summary: Some(summary), ..self }
    }

    /// Whether the record holds what the broker's record `p` holds.
    pub open spec fn agrees_with(self, p: PeerView) -> bool {
        self.cwd == p.cwd && self.summary == p.summary
    }
}

impl SessionRecord {
    /// The session's record once it registered with `req`.
    pub fn registered(req: &RegisterRequest) -> (r: Self)
        ensures
            r@ == registered_record(req@),
    {
        SessionRecord { cwd: req.cwd.clone(), summary: clone_opt_string(&req.summary) }
    }

    /// The session set its summary to `summary`.
    pub fn summary_set(&mut self, summary: &str)
        ensures
            final(self)@ == old(self)@.with_summary(summary@),
    {
        self.summary = Some(String::from_str(summary));
    }
}

/// What the lookup of sender `sender` gives to the session `own_id` whose
/// own record is `own`, from the listing `listed` that it received: its own
/// summary (empty when unset) and working directory when it sent the
/// message itself, since a listing never shows the peer it is made for;
/// otherwise what `sender_info` finds in the listing.
pub open spec fn lookup_result(
    own_id: Seq<char>,
    own: SessionRecordView,
    sender: Seq<char>,
    listed: Seq<PeerView>,
) -> (Seq<char>, Seq<char>) {
    if sender == own_id {
        (summary_text(own.summary), own.cwd)
    } else {
        sender_info(listed, sender)
    }
}

/// The summary and working directory of a message's sender (see
/// `lookup_result`).
pub fn sender_details(own_id: &str, own: &SessionRecord, sender_id: &str, listed: &Vec<Peer>) -> (r:
    (String, String))
    ensures
        (r.0@, r.1@) == lookup_result(own_id@, own@, sender_id@, peer_views(listed@)),
{
    if crate::text::str_eq(sender_id, own_id) {
        let summary = match &own.summary {
            Some(s) => s.clone(),
            None => String::new(),
        };
        (summary, own.cwd.clone())
    } else {
        peer_info(listed, sender_id)
    }
}

/// The session's own record follows the broker's: right after it
/// registers, its record holds what the broker recorded under the answered
/// id; and a record that agrees with the broker's keeps agreeing when the
/// session sets its summary and when it sends a heartbeat.
pub proof fn law_session_record_follows_the_broker(
    v: DbView,
    req: RegisterRequestView,
    cand: Seq<char>,
    now: Seq<char>,
    own: SessionRecordView,
    id: Seq<char>,
    summary: Seq<char>,
)
    requires
        v.wf(),
    ensures
        v.register_outcome(req, cand) matches Some(given) ==> {
            let s1 = v.register_state(req, cand, now);
            &&& has_id(s1.peers, given)
            &&& registered_record(req).agrees_with(s1.peers[id_index(s1.peers, given)])
        },
        has_id(v.peers, id) && own.agrees_with(v.peers[id_index(v.peers, id)]) ==> {
            let s2 = v.summary_state(id, summary);
            let s3 = v.heartbeat_state(id, now);
            &&& has_id(s2.peers, id)
            &&& own.with_summary(summary).agrees_with(s2.peers[id_index(s2.peers, id)])
            &&& has_id(s3.peers, id)
            &&& own.agrees_with(s3.peers[id_index(s3.peers, id)])
        },
{
    if v.register_outcome(req, cand) is Some {
        let s1 = v.register_state(req, cand, now);
        law_registration_is_recorded(v, req, cand, now);
        lemma_register_keeps_wf(v, req, cand, now);
        let i = pid_index(s1.peers, req.pid);
        lemma_unique_id_index(s1, i);
    }
    if has_id(v.peers, id) {
        let i = id_index(v.peers, id);
        lemma_unique_id_index(v, i);
        law_peer_updates_touch_one_peer(v, id, now, summary);
        lemma_unique_id_index(v.summary_state(id, summary), i);
        lemma_unique_id_index(v.heartbeat_state(id, now), i);
    }
}

/// Of peers whose ids are unique, `sender_info` gives the one with `p`'s
/// id: `p` itself.
proof fn lemma_sender_info_of_unique(peers: Seq<PeerView>, p: PeerView)
    requires
        peers.contains(p),
        forall|k: int| 0 <= k < peers.len() && (#[trigger] peers[k]).id == p.id ==> peers[k] == p,
    ensures
        sender_info(peers, p.id) == (summary_text(p.summary), p.cwd),
    decreases peers.len(),
{
    if peers[0].id != p.id {
        let rest = peers.drop_first();
        let x = choose|x: int| 0 <= x < peers.len() && peers[x] == p;
        assert(x != 0);
        assert(rest[x - 1] == p);
        assert forall|k: int| 0 <= k < rest.len() && (#[trigger] rest[k]).id == p.id implies rest[k]
            == p by {
            assert(rest[k] == peers[k + 1]);
        }
        lemma_sender_info_of_unique(rest, p);
    }
}

/// A message's sender is found: when the receiving session, registered
/// under `own` with its own record `record` agreeing with the broker's,
/// lists the peers machine-wide on its own behalf (the request that
/// `lookup_request` builds), the lookup gives the sender's summary (empty
/// when unset) and working directory. For a message that the session sent
/// itself these come from its own record; for another sender, every probe
/// of whose process found it alive, from the listing, whatever the other
/// probes answered.
pub proof fn law_lookup_finds_registered_sender(
    v: DbView,
    own: Seq<char>,
    record: SessionRecordView,
    sender: int,
    alive: Seq<bool>,
)
    requires
        v.wf(),
        has_id(v.peers, own),
        record.agrees_with(v.peers[id_index(v.peers, own)]),
        0 <= sender < v.peers.len(),
        ({
            let me = v.peers[id_index(v.peers, own)];
            let listed = v.listing(PeerScope::Machine, own, me.cwd, me.git_root);
            &&& alive.len() == listed.len()
            &&& forall|k: int|
                0 <= k < listed.len() && (#[trigger] listed[k]).id == v.peers[sender].id
                    ==> alive[k]
        }),
    ensures
        ({
            let me = v.peers[id_index(v.peers, own)];
            let listed = v.listing(PeerScope::Machine, own, me.cwd, me.git_root);
            lookup_result(own, record, v.peers[sender].id, survivors(listed, alive)) == (
                summary_text(v.peers[sender].summary),
                v.peers[sender].cwd,
            )
        }),
{
    let me = v.peers[id_index(v.peers, own)];
    let listed = v.listing(PeerScope::Machine, own, me.cwd, me.git_root);
    let p = v.peers[sender];
    if p.id == own {
        lemma_unique_id_index(v, sender);
    } else {
        let dead = dead_ids(listed, alive);
        let pred = |q: PeerView| !id_listed(dead, q.id);
        let kept = survivors(listed, alive);
        assert(kept == listed.filter(pred));
        law_listing_is_the_scope(v, PeerScope::Machine, own, me.cwd, me.git_root);
        assert(in_scope(p, PeerScope::Machine, own, me.cwd, me.git_root));
        assert(listed.contains(p));
        let k = choose|k: int| 0 <= k < listed.len() && listed[k] == p;
        assert(!id_listed(dead, p.id)) by {
            if id_listed(dead, p.id) {
                lemma_dead_id_has_dead_probe(listed, alive, p.id);
                let m = choose|m: int| 0 <= m < listed.len() && !alive[m] && listed[m].id == p.id;
                assert(alive[m]);
            }
        }
        listed.lemma_filter_contains(pred, k);
        assert forall|m: int| 0 <= m < kept.len() && (#[trigger] kept[m]).id == p.id implies kept[m]
            == p by {
            lemma_filter_member(listed, pred, m);
            let x = choose|x: int| 0 <= x < listed.len() && listed[x] == listed.filter(pred)[m];
            assert(v.peers.contains(listed[x]));
            let y = choose|y: int| 0 <= y < v.peers.len() && v.peers[y] == listed[x];
            if y < sender {
                assert(v.peers[y].id != v.peers[sender].id);
            } else if y > sender {
                assert(v.peers[sender].id != v.peers[y].id);
            }
        }
        lemma_sender_info_of_unique(kept, p);
    }
}

} // verus!
