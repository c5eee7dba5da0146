//! What each route of the broker's HTTP API answers, as a status code and
//! a body, and what it does to the store.

use vstd::prelude::*;

use super::db::{
    has_id, has_pid, heartbeat_outcome, id_index, id_listed, in_scope, is_peer_id,
    law_id_conflict_changes_nothing, law_listing_is_the_scope, law_peer_updates_touch_one_peer,
    law_registration_is_recorded, lemma_register_keeps_wf, lemma_unique_id_index, pending_for,
    pid_index, registration_outcome, sending_outcome, Database, DbError, DbView,
};
use super::readings::{ClockReading, IdDraw};
use super::{
    dead_ids, lemma_dead_id_has_dead_probe, lemma_dead_probe_lists_id, probe_liveness,
    probed_flags, remove_dead_peers,
};
use crate::types::{
    message_views, opt_str_view, peer_views, ErrorResponse, HealthResponse, HeartbeatRequest,
    ListPeersRequest, MessageView, Peer, PeerScope, PeerView, PollMessagesRequest,
    PollMessagesResponse, RegisterRequest, RegisterRequestView, RegisterResponse,
    SendMessageRequest, SetSummaryRequest, UnregisterRequest,
};

verus! {

pub const STATUS_OK: u16 = 200;

pub const STATUS_NOT_FOUND: u16 = 404;

pub const STATUS_INTERNAL_SERVER_ERROR: u16 = 500;

/// The body of an answer.
#[derive(Debug)]
pub enum ResponseBody {
    /// No body.
    Empty,
    Health(HealthResponse),
    Registered(RegisterResponse),
    Peers(Vec<Peer>),
    Messages(PollMessagesResponse),
    Error(ErrorResponse),
    /// The acknowledgement of a shutdown request.
    ShuttingDown,
}

/// An answer of the broker's API.
#[derive(Debug)]
pub struct ApiResponse {
    pub status: u16,
    pub body: ResponseBody,
}

/// Whether `r` is an error answer with status `status` and text `text`.
pub open spec fn is_error(r: ApiResponse, status: u16, text: Seq<char>) -> bool {
    &&& r.status == status
    &&& r.body matches ResponseBody::Error(e) && e.error@ == text
}

/// Whether `r` is a plain success.
pub open spec fn is_empty_ok(r: ApiResponse) -> bool {
    r.status == STATUS_OK && r.body is Empty
}

/// What the register route answers and does, given the id draw `drawn`
/// and the clock reading `stamp` that the registration made: with an id and
/// a time, the request is registered as `register_state` says and answered
/// with its id, or with a 500 when the drawn id collides; without either,
/// the store stays as it was and the answer is a 500.
pub open spec fn registration_answer(
    pre: DbView,
    post: DbView,
    req: RegisterRequestView,
    drawn: Option<Seq<char>>,
    stamp: Option<Seq<char>>,
    r: ApiResponse,
) -> bool {
    match (drawn, stamp) {
        (Some(cand), Some(now)) => {
            &&& post == pre.register_state(req, cand, now)
            &&& match pre.register_outcome(req, cand) {
                Some(id) => r.status == STATUS_OK && (r.body matches ResponseBody::Registered(x)
                    && x.id@ == id),
                None => is_error(r, STATUS_INTERNAL_SERVER_ERROR, "internal error: "@ + "register peer"@),
            }
        },
        _ => post == pre && is_error(
            r,
            STATUS_INTERNAL_SERVER_ERROR,
            "internal error: "@ + "register peer"@,
        ),
    }
}

/// What the heartbeat route answers and does, given the clock reading
/// `stamp` that the heartbeat made: with a time, the peer's last-seen time
/// becomes it and the answer is a plain success, or a 404 for an unknown
/// peer; without one, the store stays as it was and the answer is a 500.
pub open spec fn heartbeat_answer(
    pre: DbView,
    post: DbView,
    id: Seq<char>,
    stamp: Option<Seq<char>>,
    r: ApiResponse,
) -> bool {
    match stamp {
        Some(now) => {
            &&& post == pre.heartbeat_state(id, now)
            &&& has_id(pre.peers, id) ==> is_empty_ok(r)
            &&& !has_id(pre.peers, id) ==> is_error(r, STATUS_NOT_FOUND, "peer not found: "@ + id)
        },
        None => post == pre && is_error(r, STATUS_INTERNAL_SERVER_ERROR, "internal error: "@ + "heartbeat"@),
    }
}

/// What the send route does for a registered recipient, given the clock
/// reading `stamp` that the sending made: with a time and message ids left,
/// the message is queued at that time, whatever its text, and the answer
/// is a plain success; otherwise the store stays as it was and the answer
/// is a 500.
pub open spec fn sending_answer(
    pre: DbView,
    post: DbView,
    from: Seq<char>,
    to: Seq<char>,
    text: Seq<char>,
    stamp: Option<Seq<char>>,
    r: ApiResponse,
) -> bool {
    match stamp {
        Some(now) if pre.last_message_id < i64::MAX => is_empty_ok(r) && post == pre.send_state(
            from,
            to,
            text,
            now,
        ),
        _ => post == pre && is_error(
            r,
            STATUS_INTERNAL_SERVER_ERROR,
            "internal error: "@ + "send message: insert"@,
        ),
    }
}

/// `prefix` followed by `rest`.
fn prefixed(prefix: &str, rest: &str) -> (r: String)
    ensures
        r@ == prefix@ + rest@,
{
    let mut s = String::from_str(prefix);
    s.append(rest);
    s
}

/// A 500 answer naming the operation that failed.
pub fn internal_error(context: &str) -> (r: ApiResponse)
    ensures
        is_error(r, STATUS_INTERNAL_SERVER_ERROR, "internal error: "@ + context@),
{
    ApiResponse {
        status: STATUS_INTERNAL_SERVER_ERROR,
        body: ResponseBody::Error(ErrorResponse { error: prefixed("internal error: ", context) }),
    }
}

/// A 404 answer carrying `detail`.
pub fn not_found_error(detail: &str) -> (r: ApiResponse)
    ensures
        is_error(r, STATUS_NOT_FOUND, detail@),
{
    ApiResponse {
        status: STATUS_NOT_FOUND,
        body: ResponseBody::Error(ErrorResponse { error: String::from_str(detail) }),
    }
}

/// The 404 answer for an unknown peer id.
fn peer_not_found(id: &str) -> (r: ApiResponse)
    ensures
        is_error(r, STATUS_NOT_FOUND, "peer not found: "@ + id@),
{
    let text = prefixed("peer not found: ", id);
    not_found_error(text.as_str())
}

/// `GET /health`: "ok" and the number of registered peers.
pub fn health(db: &Database) -> (r: ApiResponse)
    requires
        db.wf(),
    ensures
        r.status == STATUS_OK,
        r.body matches ResponseBody::Health(h) && h.status@ == "ok"@ && h.peer_count == (
        db@.peers.len() as i64),
{
    match db.get_all_peers() {
        Ok(peers) => {
            #[verifier::truncate]
            let count = peers.len() as i64;
            ApiResponse {
                status: STATUS_OK,
                body: ResponseBody::Health(
                    HealthResponse { status: String::from_str("ok"), peer_count: count },
                ),
            }
        },
        Err(_) => internal_error("health check"),
    }
}

/// `POST /register`: registers the request's process and answers its id.
/// When no id could be drawn or the clock could not be read, the store is
/// left as it was and the answer is a 500.
pub fn register(db: &mut Database, req: &RegisterRequest) -> (r: ApiResponse)
    requires
        old(db).wf(),
    ensures
        final(db).wf(),
        (final(db)@ == old(db)@ && is_error(
            r,
            STATUS_INTERNAL_SERVER_ERROR,
            "internal error: "@ + "register peer"@,
        )) || exists|cand: Seq<char>, now: Seq<char>|
            {
                &&& is_peer_id(cand)
                &&& final(db)@ == old(db)@.register_state(req@, cand, now)
                &&& match old(db)@.register_outcome(req@, cand) {
                    Some(id) => r.status == STATUS_OK && (r.body matches ResponseBody::Registered(
                        x,
                    ) && x.id@ == id),
                    None => is_error(r, STATUS_INTERNAL_SERVER_ERROR, "internal error: "@ + "register peer"@),
                }
            },
        exists|draw: IdDraw, reading: ClockReading|
            {
                &&& (draw.drawn() matches Some(cand) ==> is_peer_id(cand))
                &&& #[trigger] registration_answer(
                    old(db)@,
                    final(db)@,
                    req@,
                    draw.drawn(),
                    reading.stamp(),
                    r,
                )
            },
{
    let ghost pre = db@;
    let res = db.register_peer(req);
    let ghost outcome = res;
    let ghost (draw, reading) = choose|draw: IdDraw, reading: ClockReading|
        (draw.drawn() matches Some(cand) ==> is_peer_id(cand)) && registration_outcome(
            pre,
            db@,
            req@,
            draw.drawn(),
            reading.stamp(),
            outcome,
        );
    let r = match res {
        Ok(id) => ApiResponse {
            status: STATUS_OK,
            body: ResponseBody::Registered(RegisterResponse { id }),
        },
        Err(_) => internal_error("register peer"),
    };
    assert(registration_answer(pre, db@, req@, draw.drawn(), reading.stamp(), r));
    r
}

/// `POST /heartbeat`: renews the peer's last-seen time; 404 for an
/// unknown peer. When the clock could not be read, the store is left as it
/// was and the answer is a 500.
pub fn heartbeat(db: &mut Database, req: &HeartbeatRequest) -> (r: ApiResponse)
    requires
        old(db).wf(),
    ensures
        final(db).wf(),
        (final(db)@ == old(db)@ && is_error(
            r,
            STATUS_INTERNAL_SERVER_ERROR,
            "internal error: "@ + "heartbeat"@,
        )) || {
            &&& exists|now: Seq<char>| final(db)@ == old(db)@.heartbeat_state(req.id@, now)
            &&& has_id(old(db)@.peers, req.id@) ==> is_empty_ok(r)
            &&& !has_id(old(db)@.peers, req.id@) ==> is_error(
                r,
                STATUS_NOT_FOUND,
                "peer not found: "@ + req.id@,
            )
        },
        exists|reading: ClockReading|
            #[trigger] heartbeat_answer(old(db)@, final(db)@, req.id@, reading.stamp(), r),
{
    let ghost pre = db@;
    let res = db.update_heartbeat(&req.id);
    let ghost outcome = res;
    let ghost reading = choose|reading: ClockReading|
        heartbeat_outcome(pre, db@, req.id@, reading.stamp(), outcome);
    let r = match res {
        Ok(()) => ApiResponse { status: STATUS_OK, body: ResponseBody::Empty },
        Err(DbError::PeerNotFound(id)) => peer_not_found(id.as_str()),
        Err(_) => internal_error("heartbeat"),
    };
    assert(heartbeat_answer(pre, db@, req.id@, reading.stamp(), r));
    r
}

/// `POST /set-summary`: sets the peer's summary; 404 for an unknown peer.
pub fn set_summary(db: &mut Database, req: &SetSummaryRequest) -> (r: ApiResponse)
    requires
        old(db).wf(),
    ensures
        final(db).wf(),
        final(db)@ == old(db)@.summary_state(req.id@, req.summary@),
        has_id(old(db)@.peers, req.id@) ==> is_empty_ok(r),
        !has_id(old(db)@.peers, req.id@) ==> is_error(
            r,
            STATUS_NOT_FOUND,
            "peer not found: "@ + req.id@,
        ),
{
    match db.set_summary(&req.id, req.summary.as_str()) {
        Ok(()) => ApiResponse { status: STATUS_OK, body: ResponseBody::Empty },
        Err(DbError::PeerNotFound(id)) => peer_not_found(id.as_str()),
        Err(_) => internal_error("set summary"),
    }
}

/// The peers of a listing that survive the liveness check, and the store
/// without the dead ones.
pub open spec fn survivors(listed: Seq<PeerView>, alive: Seq<bool>) -> Seq<PeerView> {
    listed.filter(|p: PeerView| !id_listed(dead_ids(listed, alive), p.id))
}

/// Whatever the liveness probes answer, the peers that the list route
/// answers are in the requested scope, and the requester is never among
/// them.
pub proof fn law_listed_peers_are_in_scope(
    v: super::db::DbView,
    scope: crate::types::PeerScope,
    requester: Seq<char>,
    cwd: Seq<char>,
    root: Option<Seq<char>>,
    alive: Seq<bool>,
)
    ensures
        forall|i: int|
            0 <= i < survivors(v.listing(scope, requester, cwd, root), alive).len() ==> {
                let p = #[trigger] survivors(v.listing(scope, requester, cwd, root), alive)[i];
                &&& p.id != requester
                &&& super::db::in_scope(p, scope, requester, cwd, root)
                &&& v.peers.contains(p)
            },
{
    let listed = v.listing(scope, requester, cwd, root);
    let pred = |p: PeerView| !id_listed(dead_ids(listed, alive), p.id);
    super::db::law_listing_is_the_scope(v, scope, requester, cwd, root);
    assert forall|i: int| 0 <= i < survivors(listed, alive).len() implies {
        let p = #[trigger] survivors(listed, alive)[i];
        &&& p.id != requester
        &&& super::db::in_scope(p, scope, requester, cwd, root)
        &&& v.peers.contains(p)
    } by {
        super::db::lemma_filter_member(listed, pred, i);
        let x = choose|x: int| 0 <= x < listed.len() && listed[x] == listed.filter(pred)[i];
        assert(listed[x] == survivors(listed, alive)[i]);
    }
}

/// Drops from `listed` and from the store the peers that `alive` marks dead.
pub fn prune_dead_peers(db: &mut Database, listed: Vec<Peer>, alive: &Vec<bool>) -> (r: Vec<Peer>)
    requires
        old(db).wf(),
        alive@.len() == listed@.len(),
    ensures
        final(db).wf(),
        final(db)@ == old(db)@.without_ids(dead_ids(peer_views(listed@), alive@)),
        peer_views(r@) == survivors(peer_views(listed@), alive@),
{
    let dead = super::collect_dead_ids(&listed, alive);
    let _ = remove_dead_peers(db, &listed, alive);
    super::db::retain_unlisted(&listed, dead.as_slice())
}

/// The position of the first peer of `peers` with id `id`.
fn find_peer_index(peers: &Vec<Peer>, id: &String) -> (r: Option<usize>)
    ensures
        match r {
            Some(i) => i < peers@.len() && peers@[i as int].id@ == id@ && forall|j: int|
                0 <= j < i ==> (#[trigger] peers@[j]).id@ != id@,
            None => forall|j: int| 0 <= j < peers@.len() ==> (#[trigger] peers@[j]).id@ != id@,
        },
{
    let n = peers.len();
    let mut i: usize = 0;
    while i < n
        invariant
            i <= n,
            n == peers@.len(),
            forall|j: int| 0 <= j < i ==> (#[trigger] peers@[j]).id@ != id@,
        decreases n - i,
    {
        if peers[i].id == *id {
            return Some(i);
        }
        i = i + 1;
    }
    None
}

/// `POST /list-peers`: the live peers in the requested scope, seen from the
/// requesting peer, which is itself never listed; peers whose process has
/// ended are dropped from the answer and from the store. An unknown
/// requester gets an empty list.
pub fn list_peers(db: &mut Database, req: &ListPeersRequest) -> (r: ApiResponse)
    requires
        old(db).wf(),
    ensures
        final(db).wf(),
        r.status == STATUS_OK,
        r.body is Peers,
        !has_id(old(db)@.peers, req.id@) ==> final(db)@ == old(db)@ && (r.body matches ResponseBody::Peers(v) && v@.len() == 0),
        has_id(old(db)@.peers, req.id@) ==> {
            let me = old(db)@.peers[id_index(old(db)@.peers, req.id@)];
            let listed = old(db)@.listing(req.scope, req.id@, me.cwd, me.git_root);
            exists|alive: Seq<bool>|
                {
                    &&& alive.len() == listed.len()
                    &&& forall|i: int|
                        0 <= i < alive.len() && (#[trigger] listed[i]).pid > i32::MAX as u32
                            ==> !alive[i]
                    &&& probed_flags(listed, alive)
                    &&& final(db)@ == old(db)@.without_ids(dead_ids(listed, alive))
                    &&& r.body matches ResponseBody::Peers(v) && peer_views(v@) == survivors(
                        listed,
                        alive,
                    )
                }
        },
{
    let all_peers = match db.get_all_peers() {
        Ok(p) => p,
        Err(_) => {
            return internal_error("list peers: fetch all");
        },
    };
    let i = match find_peer_index(&all_peers, &req.id) {
        Some(i) => i,
        None => {
            return ApiResponse { status: STATUS_OK, body: ResponseBody::Peers(Vec::new()) };
        },
    };
    proof {
        super::db::lemma_unique_id_index(db@, i as int);
    }
    let me = &all_peers[i];
    let ref_git_root: Option<&str> = match &me.git_root {
        Some(g) => Some(g.as_str()),
        None => None,
    };
    let listed = match db.list_peers(&req.scope, &req.id, me.cwd.as_str(), ref_git_root) {
        Ok(p) => p,
        Err(_) => {
            return internal_error("list peers: filter");
        },
    };
    assert(opt_str_view(ref_git_root) == all_peers@[i as int]@.git_root);
    let alive = probe_liveness(&listed);
    let peers = prune_dead_peers(db, listed, &alive);
    ApiResponse { status: STATUS_OK, body: ResponseBody::Peers(peers) }
}

/// `POST /send-message`: queues the message for its recipient; 404 when
/// the recipient is not registered. When the clock could not be read, the
/// store is left as it was and the answer is a 500.
pub fn send_message(db: &mut Database, req: &SendMessageRequest) -> (r: ApiResponse)
    requires
        old(db).wf(),
    ensures
        final(db).wf(),
        !has_id(old(db)@.peers, req.to_id@) ==> final(db)@ == old(db)@ && is_error(
            r,
            STATUS_NOT_FOUND,
            "peer not found: "@ + req.to_id@,
        ),
        has_id(old(db)@.peers, req.to_id@) && old(db)@.last_message_id < i64::MAX ==> (is_empty_ok(
            r,
        ) && exists|now: Seq<char>|
            final(db)@ == old(db)@.send_state(req.from_id@, req.to_id@, req.text@, now)) || (
        final(db)@ == old(db)@ && is_error(
            r,
            STATUS_INTERNAL_SERVER_ERROR,
            "internal error: "@ + "send message: insert"@,
        )),
        has_id(old(db)@.peers, req.to_id@) && old(db)@.last_message_id == i64::MAX ==> final(db)@
            == old(db)@ && is_error(
            r,
            STATUS_INTERNAL_SERVER_ERROR,
            "internal error: "@ + "send message: insert"@,
        ),
        has_id(old(db)@.peers, req.to_id@) ==> exists|reading: ClockReading|
            #[trigger] sending_answer(
                old(db)@,
                final(db)@,
                req.from_id@,
                req.to_id@,
                req.text@,
                reading.stamp(),
                r,
            ),
{
    match db.peer_exists(&req.to_id) {
        Ok(true) => {},
        Ok(false) => {
            return peer_not_found(req.to_id.as_str());
        },
        Err(_) => {
            return internal_error("send message: check peer");
        },
    }
    let ghost pre = db@;
    let res = db.send_message(req);
    let ghost outcome = res;
    let ghost reading = choose|reading: ClockReading|
        sending_outcome(pre, db@, req.from_id@, req.to_id@, req.text@, reading.stamp(), outcome);
    let r = match res {
        Ok(_) => ApiResponse { status: STATUS_OK, body: ResponseBody::Empty },
        Err(_) => internal_error("send message: insert"),
    };
    assert(sending_answer(pre, db@, req.from_id@, req.to_id@, req.text@, reading.stamp(), r));
    r
}

/// `POST /poll-messages`: hands out the requester's waiting messages and
/// marks them delivered.
pub fn poll_messages(db: &mut Database, req: &PollMessagesRequest) -> (r: ApiResponse)
    requires
        old(db).wf(),
    ensures
        final(db).wf(),
        final(db)@ == old(db)@.after_poll(req.id@),
        r.status == STATUS_OK,
        r.body matches ResponseBody::Messages(m) && message_views(m.messages@) == old(db)@.pending(
            req.id@,
        ),
{
    match db.poll_messages(&req.id) {
        Ok(messages) => ApiResponse {
            status: STATUS_OK,
            body: ResponseBody::Messages(PollMessagesResponse { messages }),
        },
        Err(_) => internal_error("poll messages"),
    }
}

/// `POST /unregister`: removes the peer, known or not.
pub fn unregister(db: &mut Database, req: &UnregisterRequest) -> (r: ApiResponse)
    requires
        old(db).wf(),
    ensures
        final(db).wf(),
        final(db)@ == old(db)@.without_ids(seq![req.id@]),
        is_empty_ok(r),
{
    match db.unregister_peer(&req.id) {
        Ok(()) => ApiResponse { status: STATUS_OK, body: ResponseBody::Empty },
        Err(_) => internal_error("unregister"),
    }
}

/// `POST /shutdown`: acknowledges the request; the server then stops.
pub fn shutdown() -> (r: ApiResponse)
    ensures
        r.status == STATUS_OK,
        r.body is ShuttingDown,
{
    ApiResponse { status: STATUS_OK, body: ResponseBody::ShuttingDown }
}

/// Whatever the scope, a registered peer in the requested scope whose
/// process every probe of the listing found running is in the answer and
/// stays in the store; a listed peer whose probe found its process ended
/// is neither in the answer nor left in the store.
pub proof fn law_list_keeps_live_peers_drops_dead_ones(
    v: DbView,
    scope: PeerScope,
    requester: Seq<char>,
    alive: Seq<bool>,
    j: int,
    k: int,
)
    requires
        v.wf(),
        has_id(v.peers, requester),
        ({
            let me = v.peers[id_index(v.peers, requester)];
            alive.len() == v.listing(scope, requester, me.cwd, me.git_root).len()
        }),
    ensures
        ({
            let me = v.peers[id_index(v.peers, requester)];
            let listed = v.listing(scope, requester, me.cwd, me.git_root);
            let after = v.without_ids(dead_ids(listed, alive));
            &&& 0 <= j < v.peers.len() && in_scope(v.peers[j], scope, requester, me.cwd, me.git_root)
                && (forall|m: int|
                0 <= m < listed.len() && (#[trigger] listed[m]).id == v.peers[j].id ==> alive[m])
                ==> survivors(listed, alive).contains(v.peers[j]) && after.peers.contains(
                v.peers[j],
            )
            &&& 0 <= k < listed.len() && !alive[k] ==> !survivors(listed, alive).contains(listed[k])
                && !after.peers.contains(listed[k])
        }),
{
    let me = v.peers[id_index(v.peers, requester)];
    let listed = v.listing(scope, requester, me.cwd, me.git_root);
    let dead = dead_ids(listed, alive);
    let pred = |q: PeerView| !id_listed(dead, q.id);
    let after = v.without_ids(dead);
    assert(after.peers == v.peers.filter(pred));
    assert(survivors(listed, alive) == listed.filter(pred));
    law_listing_is_the_scope(v, scope, requester, me.cwd, me.git_root);
    if 0 <= j < v.peers.len() && in_scope(v.peers[j], scope, requester, me.cwd, me.git_root) && (
    forall|m: int| 0 <= m < listed.len() && (#[trigger] listed[m]).id == v.peers[j].id ==> alive[m]) {
        let p = v.peers[j];
        assert(listed.contains(p));
        let x = choose|x: int| 0 <= x < listed.len() && listed[x] == p;
        if id_listed(dead, p.id) {
            lemma_dead_id_has_dead_probe(listed, alive, p.id);
            let m = choose|m: int| 0 <= m < listed.len() && !alive[m] && (#[trigger] listed[m]).id == p.id;
            assert(alive[m]);
        }
        listed.lemma_filter_contains(pred, x);
        v.peers.lemma_filter_contains(pred, j);
    }
    if 0 <= k < listed.len() && !alive[k] {
        let q = listed[k];
        lemma_dead_probe_lists_id(listed, alive, k);
        if survivors(listed, alive).contains(q) {
            let i = choose|i: int| 0 <= i < listed.filter(pred).len() && listed.filter(pred)[i] == q;
            listed.lemma_filter_pred(pred, i);
        }
        if after.peers.contains(q) {
            let i = choose|i: int| 0 <= i < v.peers.filter(pred).len() && v.peers.filter(pred)[i] == q;
            v.peers.lemma_filter_pred(pred, i);
        }
    }
}

/// A heartbeat that succeeds renews the peer's last-seen time to the time
/// that its clock reading gave, and changes nothing else of the peer; a
/// heartbeat answered with anything else than success or 404 read no time
/// and changed nothing.
pub proof fn law_heartbeat_stamps_its_reading(
    pre: DbView,
    post: DbView,
    id: Seq<char>,
    stamp: Option<Seq<char>>,
    r: ApiResponse,
)
    requires
        pre.wf(),
        heartbeat_answer(pre, post, id, stamp, r),
    ensures
        r.status == STATUS_OK ==> {
            &&& stamp is Some
            &&& has_id(pre.peers, id)
            &&& has_id(post.peers, id)
            &&& post.peers[id_index(post.peers, id)] == (PeerView {
                last_seen: stamp->0,
                ..pre.peers[id_index(pre.peers, id)]
            })
        },
        r.status == STATUS_INTERNAL_SERVER_ERROR ==> stamp is None && post == pre,
{
    if stamp is Some && has_id(pre.peers, id) {
        let i = id_index(pre.peers, id);
        lemma_unique_id_index(pre, i);
        law_peer_updates_touch_one_peer(pre, id, stamp->0, Seq::empty());
        lemma_unique_id_index(post, i);
    }
}

/// A message to a registered recipient, while message ids remain, is
/// queued, whatever its text: the recipient's next poll hands out what it
/// had waiting and then this message, and the answer is a success. The
/// only other answer is a 500 when the clock could not be read, which
/// leaves the store as it was.
pub proof fn law_message_to_registered_peer_is_queued(
    pre: DbView,
    post: DbView,
    from: Seq<char>,
    to: Seq<char>,
    text: Seq<char>,
    stamp: Option<Seq<char>>,
    r: ApiResponse,
)
    requires
        pre.last_message_id < i64::MAX,
        sending_answer(pre, post, from, to, text, stamp, r),
    ensures
        stamp matches Some(now) ==> is_empty_ok(r) && post.pending(to) == pre.pending(to).push(
            pre.next_message(from, to, text, now),
        ),
        !is_empty_ok(r) ==> stamp is None && post == pre,
{
    if stamp is Some {
        pre.messages.lemma_filter_push(
            pre.next_message(from, to, text, stamp->0),
            |x: MessageView| pending_for(x, to),
        );
    }
}

/// Registration is refused only for want of a drawn id or of a time, or
/// when the drawn id collides with another peer's; whatever the request's
/// details, it is answered with an id otherwise, and under that id the
/// store then holds the request's details.
pub proof fn law_registration_refused_only_for_draw_clock_or_collision(
    pre: DbView,
    post: DbView,
    req: RegisterRequestView,
    drawn: Option<Seq<char>>,
    stamp: Option<Seq<char>>,
    r: ApiResponse,
)
    requires
        pre.wf(),
        registration_answer(pre, post, req, drawn, stamp, r),
    ensures
        r.status == STATUS_OK <==> (drawn matches Some(cand) && stamp is Some && (has_pid(
            pre.peers,
            req.pid,
        ) || !has_id(pre.peers, cand))),
        r.status != STATUS_OK ==> r.status == STATUS_INTERNAL_SERVER_ERROR && post == pre,
        r.body matches ResponseBody::Registered(x) ==> {
            &&& has_id(post.peers, x.id@)
            &&& post.peers[id_index(post.peers, x.id@)].pid == req.pid
            &&& post.peers[id_index(post.peers, x.id@)].cwd == req.cwd
            &&& post.peers[id_index(post.peers, x.id@)].git_root == req.git_root
            &&& post.peers[id_index(post.peers, x.id@)].tty == req.tty
            &&& post.peers[id_index(post.peers, x.id@)].summary == req.summary
        },
{
    if drawn is Some && stamp is Some {
        let cand = drawn->0;
        let now = stamp->0;
        if pre.register_outcome(req, cand) is Some {
            law_registration_is_recorded(pre, req, cand, now);
            lemma_register_keeps_wf(pre, req, cand, now);
            let i = pid_index(post.peers, req.pid);
            lemma_unique_id_index(post, i);
        } else {
            law_id_conflict_changes_nothing(pre, req, cand, now);
        }
    }
}

} // verus!
