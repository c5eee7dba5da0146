//! The broker's store: a table of registered peers and a table of queued
//! messages, with the operations that the routes perform on them.

use vstd::prelude::*;

use super::readings::{draw_peer_id, read_clock, ClockReading, IdDraw};
use crate::text::{str_eq, string_seq_views};
use crate::types::{
    clone_opt_string, message_views, opt_str_view, peer_views, Message, MessageView, Peer, PeerId,
    PeerScope, PeerView, RegisterRequest, RegisterRequestView, SendMessageRequest,
};

verus! {

/// Why a store operation failed.
#[derive(Debug)]
pub enum DbError {
    /// No peer has the given id.
    PeerNotFound(String),
    /// A newly drawn peer id is already taken by another peer.
    IdConflict(String),
    /// The message id space is used up.
    MessageIdsExhausted,
    /// Saved contents that break the store's invariant.
    InvalidContents,
    /// The operating system's randomness source could not seed a generator
    /// for a new peer id.
    RandomnessUnavailable,
    /// The system clock lies outside the range of representable timestamps.
    ClockOutOfRange,
}

// ---- the model ----

/// The contents of the store: peers and messages in the order in which
/// they were added, and the largest message id handed out so far.
pub struct DbView {
    pub peers: Seq<PeerView>,
    pub messages: Seq<MessageView>,
    pub last_message_id: int,
}

pub open spec fn has_id(peers: Seq<PeerView>, id: Seq<char>) -> bool {
    exists|i: int| 0 <= i < peers.len() && (#[trigger] peers[i]).id == id
}

pub open spec fn has_pid(peers: Seq<PeerView>, pid: u32) -> bool {
    exists|i: int| 0 <= i < peers.len() && (#[trigger] peers[i]).pid == pid
}

/// The position of the peer with id `id` (meaningful when there is one).
pub open spec fn id_index(peers: Seq<PeerView>, id: Seq<char>) -> int {
    choose|i: int| 0 <= i < peers.len() && (#[trigger] peers[i]).id == id
}

/// The position of the peer with process id `pid` (meaningful when there is one).
pub open spec fn pid_index(peers: Seq<PeerView>, pid: u32) -> int {
    choose|i: int| 0 <= i < peers.len() && (#[trigger] peers[i]).pid == pid
}

/// A registration renewed by a new request from the same process.
pub open spec fn refreshed(p: PeerView, req: RegisterRequestView, now: Seq<char>) -> PeerView {
    PeerView {
        cwd: req.cwd,
        git_root: req.git_root,
        tty: req.tty,
        summary: req.summary,
        last_seen: now,
        ..p
    }
}

/// A first registration of a process.
pub open spec fn fresh_peer(id: Seq<char>, req: RegisterRequestView, now: Seq<char>) -> PeerView {
    PeerView {
        id: id,
        pid: req.pid,
        cwd: req.cwd,
        git_root: req.git_root,
        tty: req.tty,
        summary: req.summary,
        registered_at: now,
        last_seen: now,
    }
}

/// Whether peer `p` belongs to a listing by `scope` on behalf of the peer
/// `exclude`, whose working directory is `cwd` and git root is `root`.
pub open spec fn in_scope(
    p: PeerView,
    scope: PeerScope,
    exclude: Seq<char>,
    cwd: Seq<char>,
    root: Option<Seq<char>>,
) -> bool {
    &&& p.id != exclude
    &&& match scope {
        PeerScope::Machine => true,
        PeerScope::Directory => p.cwd == cwd,
        PeerScope::Repo => match root {
            Some(r) => p.git_root == Some(r),
            None => false,
        },
    }
}

/// A message that waits for delivery to `to`.
pub open spec fn pending_for(m: MessageView, to: Seq<char>) -> bool {
    m.to_id == to && !m.delivered
}

/// `m` after a poll by `to`.
pub open spec fn delivered_to(m: MessageView, to: Seq<char>) -> MessageView {
    if pending_for(m, to) {
        MessageView { delivered: true, ..m }
    } else {
        m
    }
}

/// Whether `id` is among `ids`.
pub open spec fn id_listed(ids: Seq<Seq<char>>, id: Seq<char>) -> bool {
    exists|k: int| 0 <= k < ids.len() && ids[k] == id
}

impl DbView {
    pub open spec fn empty() -> DbView {
        DbView { peers: Seq::empty(), messages: Seq::empty(), last_message_id: 0 }
    }

    /// Peer ids are unique (a primary key), so are process ids (a process
    /// registers once), and message ids increase in the order of sending
    /// and never exceed the last one handed out.
    pub open spec fn wf(self) -> bool {
        &&& forall|i: int, j: int|
            0 <= i < j < self.peers.len() ==> (#[trigger] self.peers[i]).id != (
            #[trigger] self.peers[j]).id
        &&& forall|i: int, j: int|
            0 <= i < j < self.peers.len() ==> (#[trigger] self.peers[i]).pid != (
            #[trigger] self.peers[j]).pid
        &&& 0 <= self.last_message_id <= i64::MAX
        &&& forall|i: int|
            0 <= i < self.messages.len() ==> 0 < (#[trigger] self.messages[i]).id
                <= self.last_message_id
        &&& forall|i: int, j: int|
            0 <= i < j < self.messages.len() ==> (#[trigger] self.messages[i]).id < (
            #[trigger] self.messages[j]).id
    }

    /// The store after `req` is registered with the drawn id `cand` at time `now`.
    pub open spec fn register_state(
        self,
        req: RegisterRequestView,
        cand: Seq<char>,
        now: Seq<char>,
    ) -> DbView {
        if has_pid(self.peers, req.pid) {
            let i = pid_index(self.peers, req.pid);
            DbView { peers: self.peers.update(i, refreshed(self.peers[i], req, now)), ..self }
        } else if has_id(self.peers, cand) {
            self
        } else {
            DbView { peers: self.peers.push(fresh_peer(cand, req, now)), ..self }
        }
    }

    /// The id that registering `req` with the drawn id `cand` answers, or
    /// `None` when `cand` collides with another peer's id.
    pub open spec fn register_outcome(self, req: RegisterRequestView, cand: Seq<char>) -> Option<
        Seq<char>,
    > {
        if has_pid(self.peers, req.pid) {
            Some(self.peers[pid_index(self.peers, req.pid)].id)
        } else if has_id(self.peers, cand) {
            None
        } else {
            Some(cand)
        }
    }

    /// The store after a heartbeat of `id` at time `now`.
    pub open spec fn heartbeat_state(self, id: Seq<char>, now: Seq<char>) -> DbView {
        if has_id(self.peers, id) {
            let i = id_index(self.peers, id);
            DbView { peers: self.peers.update(i, PeerView { last_seen: now, ..self.peers[i] }), ..self }
        } else {
            self
        }
    }

    /// The store after the peer `id` sets its summary to `summary`.
    pub open spec fn summary_state(self, id: Seq<char>, summary: Seq<char>) -> DbView {
        if has_id(self.peers, id) {
            let i = id_index(self.peers, id);
            DbView {
                peers: self.peers.update(i, PeerView { summary: Some(summary), ..self.peers[i] }),
                ..self
            }
        } else {
            self
        }
    }

    /// The store without the peers whose ids are listed in `ids`.
    pub open spec fn without_ids(self, ids: Seq<Seq<char>>) -> DbView {
        DbView { peers: self.peers.filter(|p: PeerView| !id_listed(ids, p.id)), ..self }
    }

    /// The peers that a listing by `scope` shows to `exclude`.
    pub open spec fn listing(
        self,
        scope: PeerScope,
        exclude: Seq<char>,
        cwd: Seq<char>,
        root: Option<Seq<char>>,
    ) -> Seq<PeerView> {
        self.peers.filter(|p: PeerView| in_scope(p, scope, exclude, cwd, root))
    }

    /// The message that sending `text` from `from` to `to` at `now` queues.
    pub open spec fn next_message(
        self,
        from: Seq<char>,
        to: Seq<char>,
        text: Seq<char>,
        now: Seq<char>,
    ) -> MessageView {
        MessageView {
            id: (self.last_message_id + 1) as i64,
            from_id: from,
            to_id: to,
            text: text,
            sent_at: now,
            delivered: false,
        }
    }

    /// The store after that message is queued.
    pub open spec fn send_state(
        self,
        from: Seq<char>,
        to: Seq<char>,
        text: Seq<char>,
        now: Seq<char>,
    ) -> DbView {
        DbView {
            messages: self.messages.push(self.next_message(from, to, text, now)),
            last_message_id: self.last_message_id + 1,
            ..self
        }
    }

    /// The messages that a poll by `to` hands out, in the order of sending.
    pub open spec fn pending(self, to: Seq<char>) -> Seq<MessageView> {
        self.messages.filter(|m: MessageView| pending_for(m, to))
    }

    /// The store after a poll by `to`: its pending messages are delivered.
    pub open spec fn after_poll(self, to: Seq<char>) -> DbView {
        DbView { messages: self.messages.map_values(|m: MessageView| delivered_to(m, to)), ..self }
    }
}

// ---- what the operations that read the clock or draw an id do ----

/// What registering `req` does to the store `pre`, leaving `post` and
/// answering `r`, given the id draw `drawn` and the clock reading `stamp`:
/// without a drawn id or a time the store stays as it was and the answer
/// names what was missing; otherwise the request is registered as
/// `register_state` says and answered as `register_outcome` says.
pub open spec fn registration_outcome(
    pre: DbView,
    post: DbView,
    req: RegisterRequestView,
    drawn: Option<Seq<char>>,
    stamp: Option<Seq<char>>,
    r: Result<PeerId, DbError>,
) -> bool {
    match drawn {
        None => post == pre && r matches Err(DbError::RandomnessUnavailable),
        Some(cand) => match stamp {
            None => post == pre && r matches Err(DbError::ClockOutOfRange),
            Some(now) => post == pre.register_state(req, cand, now) && match r {
                Ok(id) => pre.register_outcome(req, cand) == Some(id@),
                Err(e) => pre.register_outcome(req, cand) is None && (e matches DbError::IdConflict(
                    c,
                ) && c@ == cand),
            },
        },
    }
}

/// What a heartbeat of peer `id` does, given the clock reading `stamp`:
/// without a time the store stays as it was; otherwise the peer's
/// last-seen time becomes that time, and an unknown peer is answered
/// `PeerNotFound`.
pub open spec fn heartbeat_outcome(
    pre: DbView,
    post: DbView,
    id: Seq<char>,
    stamp: Option<Seq<char>>,
    r: Result<(), DbError>,
) -> bool {
    match stamp {
        None => post == pre && r matches Err(DbError::ClockOutOfRange),
        Some(now) => {
            &&& post == pre.heartbeat_state(id, now)
            &&& r is Ok <==> has_id(pre.peers, id)
            &&& r matches Err(e) ==> (e matches DbError::PeerNotFound(x) && x@ == id)
        },
    }
}

/// What sending `text` from `from` to `to` does, given the clock reading
/// `stamp`: without a time the store stays as it was; otherwise, while
/// message ids remain, the message is queued under the next id at that
/// time, whatever the text.
pub open spec fn sending_outcome(
    pre: DbView,
    post: DbView,
    from: Seq<char>,
    to: Seq<char>,
    text: Seq<char>,
    stamp: Option<Seq<char>>,
    r: Result<i64, DbError>,
) -> bool {
    match stamp {
        None => post == pre && r matches Err(DbError::ClockOutOfRange),
        Some(now) => if pre.last_message_id < i64::MAX {
            r == Ok::<i64, DbError>((pre.last_message_id + 1) as i64) && post == pre.send_state(
                from,
                to,
                text,
                now,
            )
        } else {
            post == pre && r matches Err(DbError::MessageIdsExhausted)
        },
    }
}

// ---- outside calls ----

#[verifier::external_type_specification]
#[verifier::external_body]
pub struct ExStdRng(rand::rngs::StdRng);

#[verifier::external_type_specification]
#[verifier::external_body]
pub struct ExSystemTime(std::time::SystemTime);

/// `StdRng::try_from_os_rng()`: a generator seeded once from the operating
/// system's randomness source, and never reseeded; `None` when that source
/// fails. Nothing is claimed of the seed.
#[verifier::external_body]
fn seeded_rng() -> Option<rand::rngs::StdRng> {
    match <rand::rngs::StdRng as rand::SeedableRng>::try_from_os_rng() {
        Ok(rng) => Some(rng),
        Err(_) => None,
    }
}

/// `Rng::random_range(0..bound)` on a generator that is not reseeded: some
/// value below `bound`. The range must be non-empty, else the call panics;
/// which value comes is left to chance.
#[verifier::external_body]
fn random_below(rng: &mut rand::rngs::StdRng, bound: usize) -> (r: usize)
    requires
        bound > 0,
    ensures
        r < bound,
{
    rand::Rng::random_range(rng, 0..bound)
}

/// `std::time::SystemTime::now()`: the system clock's current time. What it
/// holds depends on the clock, so nothing is claimed of it.
#[verifier::external_body]
fn system_now() -> std::time::SystemTime {
    std::time::SystemTime::now()
}

/// `jiff::Timestamp::try_from(time)`, written in its standard text form;
/// `None` when `time` lies outside the range that jiff supports. Which text
/// comes depends on the clock's reading, so nothing more is claimed.
#[verifier::external_body]
fn timestamp_text(time: std::time::SystemTime) -> Option<String> {
    match jiff::Timestamp::try_from(time) {
        Ok(ts) => Some(ts.to_string()),
        Err(_) => None,
    }
}

/// The current time as a timestamp text; `None` when the clock cannot be
/// represented.
pub(crate) fn now_timestamp() -> Option<String> {
    timestamp_text(system_now())
}

// ---- peer ids ----

pub open spec fn is_id_char(c: char) -> bool {
    ('a' <= c && c <= 'z') || ('0' <= c && c <= '9')
}

/// Eight characters, each a lowercase ASCII letter or a decimal digit.
pub open spec fn is_peer_id(s: Seq<char>) -> bool {
    &&& s.len() == 8
    &&& forall|i: int| 0 <= i < s.len() ==> is_id_char(#[trigger] s[i])
}

/// Draws a random 8-character alphanumeric peer id; `None` when no
/// generator could be seeded.
pub(crate) fn generate_peer_id() -> (r: Option<PeerId>)
    ensures
        r matches Some(id) ==> is_peer_id(id@),
{
    let chars = "abcdefghijklmnopqrstuvwxyz0123456789";
    proof {
        reveal_strlit("abcdefghijklmnopqrstuvwxyz0123456789");
    }
    let n = chars.unicode_len();
    assert(n == 36);
    assert(forall|k: int| 0 <= k < 36 ==> is_id_char(#[trigger] chars@[k]));
    let mut rng = match seeded_rng() {
        Some(rng) => rng,
        None => {
            return None;
        },
    };
    let mut id = String::new();
    let mut k: usize = 0;
    while k < 8
        invariant
            k <= 8,
            id@.len() == k,
            n == chars@.len(),
            n == 36,
            forall|j: int| 0 <= j < 36 ==> is_id_char(#[trigger] chars@[j]),
            forall|j: int| 0 <= j < k ==> is_id_char(#[trigger] id@[j]),
        decreases 8 - k,
    {
        let i = random_below(&mut rng, n);
        let piece = chars.substring_char(i, i + 1);
        let ghost before = id@;
        id.append(piece);
        assert(id@ =~= before.push(chars@[i as int]));
        k = k + 1;
    }
    Some(id)
}

// ---- the store ----

/// The broker's in-memory store.
pub struct Database {
    peers: Vec<Peer>,
    messages: Vec<Message>,
    last_message_id: i64,
}

impl View for Database {
    type V = DbView;

    closed spec fn view(&self) -> DbView {
        DbView {
            peers: peer_views(self.peers@),
            messages: message_views(self.messages@),
            last_message_id: self.last_message_id as int,
        }
    }
}

proof fn lemma_id_index(peers: Seq<PeerView>, i: int)
    requires
        0 <= i < peers.len(),
        forall|a: int, b: int|
            0 <= a < b < peers.len() ==> (#[trigger] peers[a]).id != (#[trigger] peers[b]).id,
    ensures
        has_id(peers, peers[i].id),
        id_index(peers, peers[i].id) == i,
{
    assert(0 <= i < peers.len() && peers[i].id == peers[i].id);
    let j = id_index(peers, peers[i].id);
    if j < i {
        assert(peers[j].id != peers[i].id);
    } else if j > i {
        assert(peers[i].id != peers[j].id);
    }
}

proof fn lemma_pid_index(peers: Seq<PeerView>, i: int)
    requires
        0 <= i < peers.len(),
        forall|a: int, b: int|
            0 <= a < b < peers.len() ==> (#[trigger] peers[a]).pid != (#[trigger] peers[b]).pid,
    ensures
        has_pid(peers, peers[i].pid),
        pid_index(peers, peers[i].pid) == i,
{
    assert(0 <= i < peers.len() && peers[i].pid == peers[i].pid);
    let j = pid_index(peers, peers[i].pid);
    if j < i {
        assert(peers[j].pid != peers[i].pid);
    } else if j > i {
        assert(peers[i].pid != peers[j].pid);
    }
}

proof fn lemma_update_keeps_wf(v: DbView, i: int, p: PeerView)
    requires
        v.wf(),
        0 <= i < v.peers.len(),
        p.id == v.peers[i].id,
        p.pid == v.peers[i].pid,
    ensures
        (DbView { peers: v.peers.update(i, p), ..v }).wf(),
{
    let ps = v.peers.update(i, p);
    assert forall|a: int, b: int| 0 <= a < b < ps.len() implies (#[trigger] ps[a]).id != (
    #[trigger] ps[b]).id && ps[a].pid != ps[b].pid by {
        assert(v.peers[a].id != v.peers[b].id && v.peers[a].pid != v.peers[b].pid);
    }
}

proof fn lemma_filter_keeps_wf(v: DbView, pred: spec_fn(PeerView) -> bool)
    requires
        v.wf(),
    ensures
        (DbView { peers: v.peers.filter(pred), ..v }).wf(),
{
    let ps = v.peers.filter(pred);
    assert forall|a: int, b: int| 0 <= a < b < ps.len() implies (#[trigger] ps[a]).id != (
    #[trigger] ps[b]).id && ps[a].pid != ps[b].pid by {
        lemma_filter_keeps_order(v.peers, pred, a, b);
        let (x, y) = choose|x: int, y: int|
            0 <= x < y < v.peers.len() && v.peers[x] == ps[a] && v.peers[y] == ps[b];
        assert(v.peers[x].id != v.peers[y].id && v.peers[x].pid != v.peers[y].pid);
    }
}

/// Ids that increase from each message to the next increase along the
/// whole sequence.
proof fn lemma_increasing(ms: Seq<MessageView>, a: int, b: int)
    requires
        0 <= a < b < ms.len(),
        forall|k: int| 0 < k < ms.len() ==> ms[k - 1].id < (#[trigger] ms[k]).id,
    ensures
        ms[a].id < ms[b].id,
    decreases b - a,
{
    if b - a > 1 {
        lemma_increasing(ms, a, b - 1);
    }
    assert(ms[b - 1].id < ms[b].id);
}

/// In a well-formed store, the peer at position `i` is the one that its
/// id designates.
pub proof fn lemma_unique_id_index(v: DbView, i: int)
    requires
        v.wf(),
        0 <= i < v.peers.len(),
    ensures
        has_id(v.peers, v.peers[i].id),
        id_index(v.peers, v.peers[i].id) == i,
{
    lemma_id_index(v.peers, i);
}

impl Database {
    /// The store's invariant (see `DbView::wf`).
    pub open spec fn wf(&self) -> bool {
        self@.wf()
    }

    /// An empty store.
    pub fn new_in_memory() -> (r: Result<Self, DbError>)
        ensures
            r matches Ok(db) && db.wf() && db@ == DbView::empty(),
    {
        let db = Database { peers: Vec::new(), messages: Vec::new(), last_message_id: 0 };
        assert(db@.peers =~= Seq::<PeerView>::empty());
        assert(db@.messages =~= Seq::<MessageView>::empty());
        Ok(db)
    }

    /// A store holding `peers`, `messages` and the last message id handed
    /// out, as saved from an earlier store; refused unless they keep the
    /// store's invariant.
    pub fn from_parts(peers: Vec<Peer>, messages: Vec<Message>, last_message_id: i64) -> (r: Result<
        Self,
        DbError,
    >)
        ensures
            (DbView {
                peers: peer_views(peers@),
                messages: message_views(messages@),
                last_message_id: last_message_id as int,
            }).wf() ==> (r matches Ok(db) && db@ == (DbView {
                peers: peer_views(peers@),
                messages: message_views(messages@),
                last_message_id: last_message_id as int,
            })),
            !(DbView {
                peers: peer_views(peers@),
                messages: message_views(messages@),
                last_message_id: last_message_id as int,
            }).wf() ==> (r matches Err(DbError::InvalidContents)),
    {
        let ghost v = DbView {
            peers: peer_views(peers@),
            messages: message_views(messages@),
            last_message_id: last_message_id as int,
        };
        if last_message_id < 0 {
            return Err(DbError::InvalidContents);
        }
        let n = peers.len();
        let mut i: usize = 0;
        while i < n
            invariant
                i <= n,
                n == peers@.len(),
                v == (DbView {
                    peers: peer_views(peers@),
                    messages: message_views(messages@),
                    last_message_id: last_message_id as int,
                }),
                forall|a: int, b: int|
                    0 <= a < b < n && a < i ==> (#[trigger] v.peers[a]).id != (
                    #[trigger] v.peers[b]).id && v.peers[a].pid != v.peers[b].pid,
            decreases n - i,
        {
            let mut j: usize = i + 1;
            while j < n
                invariant
                    i < n,
                    i + 1 <= j <= n,
                    n == peers@.len(),
                    v == (DbView {
                        peers: peer_views(peers@),
                        messages: message_views(messages@),
                        last_message_id: last_message_id as int,
                    }),
                    forall|b: int|
                        i < b < j ==> v.peers[i as int].id != (#[trigger] v.peers[b]).id
                            && v.peers[i as int].pid != v.peers[b].pid,
                decreases n - j,
            {
                if peers[i].id == peers[j].id || peers[i].pid == peers[j].pid {
                    assert(!v.wf()) by {
                        assert(v.peers[i as int].id == v.peers[j as int].id || v.peers[i as int].pid
                            == v.peers[j as int].pid);
                    }
                    return Err(DbError::InvalidContents);
                }
                j = j + 1;
            }
            i = i + 1;
        }
        let m = messages.len();
        let mut k: usize = 0;
        while k < m
            invariant
                k <= m,
                m == messages@.len(),
                v == (DbView {
                    peers: peer_views(peers@),
                    messages: message_views(messages@),
                    last_message_id: last_message_id as int,
                }),
                0 <= v.last_message_id,
                forall|a: int| 0 <= a < k ==> 0 < (#[trigger] v.messages[a]).id <= v.last_message_id,
                forall|a: int| 0 < a < k ==> v.messages[a - 1].id < (#[trigger] v.messages[a]).id,
            decreases m - k,
        {
            let id = messages[k].id;
            if id <= 0 || id > last_message_id || (k > 0 && messages[k - 1].id >= id) {
                assert(!v.wf()) by {
                    assert(v.messages[k as int].id == id);
                    if k > 0 && v.messages[k - 1].id >= id {
                        assert(v.messages[k - 1].id >= v.messages[k as int].id);
                    }
                }
                return Err(DbError::InvalidContents);
            }
            k = k + 1;
        }
        proof {
            assert forall|a: int, b: int| 0 <= a < b < m implies (#[trigger] v.messages[a]).id < (
            #[trigger] v.messages[b]).id by {
                lemma_increasing(v.messages, a, b);
            }
        }
        let db = Database { peers, messages, last_message_id };
        assert(db@ == v);
        Ok(db)
    }

    /// The store's contents: its peers, its messages and the last message
    /// id handed out, as `from_parts` takes them back.
    pub fn to_parts(&self) -> (r: (Vec<Peer>, Vec<Message>, i64))
        ensures
            peer_views(r.0@) == self@.peers,
            message_views(r.1@) == self@.messages,
            r.2 as int == self@.last_message_id,
    {
        (self.peers.clone(), self.messages.clone(), self.last_message_id)
    }

    /// The position of the peer with id `id`.
    fn index_of_id(&self, id: &str) -> (r: Option<usize>)
        requires
            self.wf(),
        ensures
            match r {
                Some(i) => i < self@.peers.len() && self@.peers[i as int].id == id@ && has_id(
                    self@.peers,
                    id@,
                ) && id_index(self@.peers, id@) == i,
                None => !has_id(self@.peers, id@),
            },
    {
        let n = self.peers.len();
        let mut i: usize = 0;
        while i < n
            invariant
                i <= n,
                n == self.peers@.len(),
                self.wf(),
                forall|j: int| 0 <= j < i ==> (#[trigger] self@.peers[j]).id != id@,
            decreases n - i,
        {
            if str_eq(self.peers[i].id.as_str(), id) {
                proof {
                    lemma_id_index(self@.peers, i as int);
                }
                return Some(i);
            }
            i = i + 1;
        }
        None
    }

    /// The position of the peer registered by process `pid`.
    fn index_of_pid(&self, pid: u32) -> (r: Option<usize>)
        requires
            self.wf(),
        ensures
            match r {
                Some(i) => i < self@.peers.len() && self@.peers[i as int].pid == pid && has_pid(
                    self@.peers,
                    pid,
                ) && pid_index(self@.peers, pid) == i,
                None => !has_pid(self@.peers, pid),
            },
    {
        let n = self.peers.len();
        let mut i: usize = 0;
        while i < n
            invariant
                i <= n,
                n == self.peers@.len(),
                self.wf(),
                forall|j: int| 0 <= j < i ==> (#[trigger] self@.peers[j]).pid != pid,
            decreases n - i,
        {
            if self.peers[i].pid == pid {
                proof {
                    lemma_pid_index(self@.peers, i as int);
                }
                return Some(i);
            }
            i = i + 1;
        }
        None
    }

    // ---- peer operations ----

    /// Registers `req`, drawing `candidate` as the new id and stamping `now`:
    /// a process that is already registered keeps its id and has its
    /// details and last-seen time renewed; otherwise a new peer is added
    /// under `candidate`, unless another peer already has that id.
    pub fn register_peer_at(&mut self, req: &RegisterRequest, candidate: PeerId, now: String) -> (r:
        Result<PeerId, DbError>)
        requires
            old(self).wf(),
        ensures
            final(self).wf(),
            final(self)@ == old(self)@.register_state(req@, candidate@, now@),
            match r {
                Ok(id) => old(self)@.register_outcome(req@, candidate@) == Some(id@),
                Err(e) => old(self)@.register_outcome(req@, candidate@) is None && e
                    == DbError::IdConflict(candidate),
            },
    {
        let ghost pre = self@;
        match self.index_of_pid(req.pid) {
            Some(i) => {
                let id = self.peers[i].id.clone();
                let updated = Peer {
                    id: self.peers[i].id.clone(),
                    pid: self.peers[i].pid,
                    cwd: req.cwd.clone(),
                    git_root: clone_opt_string(&req.git_root),
                    tty: clone_opt_string(&req.tty),
                    summary: clone_opt_string(&req.summary),
                    registered_at: self.peers[i].registered_at.clone(),
                    last_seen: now,
                };
                assert(updated@ == refreshed(pre.peers[i as int], req@, now@));
                self.peers.set(i, updated);
                assert(self@.peers =~= pre.peers.update(i as int, updated@));
                proof {
                    lemma_update_keeps_wf(pre, i as int, updated@);
                }
                assert(self.wf());
                Ok(id)
            },
            None => {
                match self.index_of_id(candidate.as_str()) {
                    Some(_) => Err(DbError::IdConflict(candidate)),
                    None => {
                        let id = candidate.clone();
                        let stamp = now.clone();
                        let peer = Peer {
                            id: candidate,
                            pid: req.pid,
                            cwd: req.cwd.clone(),
                            git_root: clone_opt_string(&req.git_root),
                            tty: clone_opt_string(&req.tty),
                            summary: clone_opt_string(&req.summary),
                            registered_at: stamp,
                            last_seen: now,
                        };
                        assert(peer@ == fresh_peer(id@, req@, now@));
                        self.peers.push(peer);
                        assert(self@.peers =~= pre.peers.push(peer@));
                        proof {
                            let ps = self@.peers;
                            assert forall|a: int, b: int| 0 <= a < b < ps.len() implies (
                            #[trigger] ps[a]).id != (#[trigger] ps[b]).id && ps[a].pid
                                != ps[b].pid by {
                                if b == ps.len() - 1 {
                                    assert(pre.peers[a] == ps[a]);
                                    if ps[a].id == ps[b].id {
                                        assert(has_id(pre.peers, id@));
                                    }
                                    if ps[a].pid == ps[b].pid {
                                        assert(has_pid(pre.peers, req.pid));
                                    }
                                } else {
                                    assert(pre.peers[a] == ps[a] && pre.peers[b] == ps[b]);
                                }
                            }
                        }
                        assert(self@ == DbView { peers: pre.peers.push(peer@), ..pre });
                        assert(self.wf());
                        Ok(id)
                    },
                }
            },
        }
    }

    /// Registers `req` under a freshly drawn id at the current time (see
    /// `register_peer_at`). When no id can be drawn or the clock cannot be
    /// read, the store is left as it was.
    pub fn register_peer(&mut self, req: &RegisterRequest) -> (r: Result<PeerId, DbError>)
        requires
            old(self).wf(),
        ensures
            final(self).wf(),
            r matches Err(DbError::RandomnessUnavailable) ==> final(self)@ == old(self)@,
            r matches Err(DbError::ClockOutOfRange) ==> final(self)@ == old(self)@,
            !(r matches Err(DbError::RandomnessUnavailable)) && !(r matches Err(
                DbError::ClockOutOfRange,
            )) ==> exists|cand: Seq<char>, now: Seq<char>|
                {
                    &&& is_peer_id(cand)
                    &&& final(self)@ == old(self)@.register_state(req@, cand, now)
                    &&& match r {
                        Ok(id) => old(self)@.register_outcome(req@, cand) == Some(id@),
                        Err(e) => old(self)@.register_outcome(req@, cand) is None && (
                        e matches DbError::IdConflict(c) && c@ == cand),
                    }
                },
            exists|draw: IdDraw, reading: ClockReading|
                {
                    &&& (draw.drawn() matches Some(cand) ==> is_peer_id(cand))
                    &&& #[trigger] registration_outcome(
                        old(self)@,
                        final(self)@,
                        req@,
                        draw.drawn(),
                        reading.stamp(),
                        r,
                    )
                },
    {
        let draw = draw_peer_id();
        let reading = read_clock();
        let candidate = match draw.drawn_id() {
            Some(id) => id,
            None => {
                assert(registration_outcome(
                    old(self)@,
                    self@,
                    req@,
                    draw.drawn(),
                    reading.stamp(),
                    Err(DbError::RandomnessUnavailable),
                ));
                return Err(DbError::RandomnessUnavailable);
            },
        };
        let now = match reading.stamp_text() {
            Some(t) => t,
            None => {
                assert(registration_outcome(
                    old(self)@,
                    self@,
                    req@,
                    draw.drawn(),
                    reading.stamp(),
                    Err(DbError::ClockOutOfRange),
                ));
                return Err(DbError::ClockOutOfRange);
            },
        };
        let ghost cand = candidate@;
        let ghost stamp = now@;
        let r = self.register_peer_at(req, candidate, now);
        assert(final(self)@ == old(self)@.register_state(req@, cand, stamp));
        assert(registration_outcome(old(self)@, self@, req@, draw.drawn(), reading.stamp(), r));
        r
    }

    /// Stamps `now` as the last-seen time of peer `id`.
    pub fn update_heartbeat_at(&mut self, id: &PeerId, now: String) -> (r: Result<(), DbError>)
        requires
            old(self).wf(),
        ensures
            final(self).wf(),
            final(self)@ == old(self)@.heartbeat_state(id@, now@),
            r is Ok <==> has_id(old(self)@.peers, id@),
            r matches Err(e) ==> e == DbError::PeerNotFound(*id),
    {
        let ghost pre = self@;
        match self.index_of_id(id.as_str()) {
            Some(i) => {
                let updated = Peer {
                    id: self.peers[i].id.clone(),
                    pid: self.peers[i].pid,
                    cwd: self.peers[i].cwd.clone(),
                    git_root: clone_opt_string(&self.peers[i].git_root),
                    tty: clone_opt_string(&self.peers[i].tty),
                    summary: clone_opt_string(&self.peers[i].summary),
                    registered_at: self.peers[i].registered_at.clone(),
                    last_seen: now,
                };
                self.peers.set(i, updated);
                assert(self@.peers =~= pre.peers.update(
                    i as int,
                    PeerView { last_seen: now@, ..pre.peers[i as int] },
                ));
                proof {
                    lemma_update_keeps_wf(
                        pre,
                        i as int,
                        PeerView { last_seen: now@, ..pre.peers[i as int] },
                    );
                }
                Ok(())
            },
            None => Err(DbError::PeerNotFound(id.clone())),
        }
    }

    /// Stamps the current time as the last-seen time of peer `id`. When the
    /// clock cannot be read, the store is left as it was.
    pub fn update_heartbeat(&mut self, id: &PeerId) -> (r: Result<(), DbError>)
        requires
            old(self).wf(),
        ensures
            final(self).wf(),
            r matches Err(DbError::ClockOutOfRange) ==> final(self)@ == old(self)@,
            !(r matches Err(DbError::ClockOutOfRange)) ==> {
                &&& exists|now: Seq<char>| final(self)@ == old(self)@.heartbeat_state(id@, now)
                &&& r is Ok <==> has_id(old(self)@.peers, id@)
                &&& r matches Err(e) ==> e == DbError::PeerNotFound(*id)
            },
            exists|reading: ClockReading|
                #[trigger] heartbeat_outcome(old(self)@, final(self)@, id@, reading.stamp(), r),
    {
        let reading = read_clock();
        let now = match reading.stamp_text() {
            Some(t) => t,
            None => {
                assert(heartbeat_outcome(
                    old(self)@,
                    self@,
                    id@,
                    reading.stamp(),
                    Err(DbError::ClockOutOfRange),
                ));
                return Err(DbError::ClockOutOfRange);
            },
        };
        let ghost stamp = now@;
        let r = self.update_heartbeat_at(id, now);
        assert(heartbeat_outcome(old(self)@, self@, id@, reading.stamp(), r));
        assert(final(self)@ == old(self)@.heartbeat_state(id@, stamp));
        r
    }

    /// Removes the peer `id`, if there is one.
    pub fn unregister_peer(&mut self, id: &PeerId) -> (r: Result<(), DbError>)
        requires
            old(self).wf(),
        ensures
            final(self).wf(),
            final(self)@ == old(self)@.without_ids(seq![id@]),
            r is Ok,
    {
        let ids = vec![id.clone()];
        assert(string_seq_views(ids@) =~= seq![id@]);
        self.remove_peers(ids.as_slice())
    }

    /// The peer registered by process `pid`, if any.
    pub fn find_peer_by_pid(&self, pid: u32) -> (r: Result<Option<Peer>, DbError>)
        requires
            self.wf(),
        ensures
            match r {
                Ok(Some(p)) => has_pid(self@.peers, pid) && p@ == self@.peers[pid_index(
                    self@.peers,
                    pid,
                )],
                Ok(None) => !has_pid(self@.peers, pid),
                Err(_) => false,
            },
    {
        match self.index_of_pid(pid) {
            Some(i) => Ok(Some(self.peers[i].clone())),
            None => Ok(None),
        }
    }

    /// Sets the summary of peer `id`.
    pub fn set_summary(&mut self, id: &PeerId, summary: &str) -> (r: Result<(), DbError>)
        requires
            old(self).wf(),
        ensures
            final(self).wf(),
            final(self)@ == old(self)@.summary_state(id@, summary@),
            r is Ok <==> has_id(old(self)@.peers, id@),
            r matches Err(e) ==> e == DbError::PeerNotFound(*id),
    {
        let ghost pre = self@;
        match self.index_of_id(id.as_str()) {
            Some(i) => {
                let updated = Peer {
                    id: self.peers[i].id.clone(),
                    pid: self.peers[i].pid,
                    cwd: self.peers[i].cwd.clone(),
                    git_root: clone_opt_string(&self.peers[i].git_root),
                    tty: clone_opt_string(&self.peers[i].tty),
                    summary: Some(String::from_str(summary)),
                    registered_at: self.peers[i].registered_at.clone(),
                    last_seen: self.peers[i].last_seen.clone(),
                };
                self.peers.set(i, updated);
                assert(self@.peers =~= pre.peers.update(
                    i as int,
                    PeerView { summary: Some(summary@), ..pre.peers[i as int] },
                ));
                proof {
                    lemma_update_keeps_wf(
                        pre,
                        i as int,
                        PeerView { summary: Some(summary@), ..pre.peers[i as int] },
                    );
                }
                Ok(())
            },
            None => Err(DbError::PeerNotFound(id.clone())),
        }
    }

    /// Every peer, in the order of registration.
    pub fn get_all_peers(&self) -> (r: Result<Vec<Peer>, DbError>)
        requires
            self.wf(),
        ensures
            r matches Ok(v) && peer_views(v@) == self@.peers,
    {
        Ok(self.peers.clone())
    }

    /// Removes every peer whose id is listed in `ids`.
    pub fn remove_peers(&mut self, ids: &[PeerId]) -> (r: Result<(), DbError>)
        requires
            old(self).wf(),
        ensures
            final(self).wf(),
            final(self)@ == old(self)@.without_ids(string_seq_views(ids@)),
            r is Ok,
    {
        let ghost pre = self@;
        let kept = retain_unlisted(&self.peers, ids);
        self.peers = kept;
        proof {
            lemma_filter_keeps_wf(pre, |p: PeerView| !id_listed(string_seq_views(ids@), p.id));
        }
        Ok(())
    }

    /// The peers that a listing by `scope` shows to `exclude_id`, whose
    /// working directory is `reference_cwd` and git root is
    /// `reference_git_root`, in the order of registration. A repo listing
    /// for a peer without a git root is empty.
    pub fn list_peers(
        &self,
        scope: &PeerScope,
        exclude_id: &PeerId,
        reference_cwd: &str,
        reference_git_root: Option<&str>,
    ) -> (r: Result<Vec<Peer>, DbError>)
        requires
            self.wf(),
        ensures
            r matches Ok(v) && peer_views(v@) == self@.listing(
                *scope,
                exclude_id@,
                reference_cwd@,
                opt_str_view(reference_git_root),
            ),
    {
        let ghost pred = |p: PeerView|
            in_scope(p, *scope, exclude_id@, reference_cwd@, opt_str_view(reference_git_root));
        let mut out: Vec<Peer> = Vec::new();
        let n = self.peers.len();
        let mut i: usize = 0;
        while i < n
            invariant
                i <= n,
                n == self.peers@.len(),
                pred == (|p: PeerView|
                    in_scope(p, *scope, exclude_id@, reference_cwd@, opt_str_view(reference_git_root))),
                peer_views(out@) == self@.peers.take(i as int).filter(pred),
            decreases n - i,
        {
            let p = &self.peers[i];
            let other = !(p.id == *exclude_id);
            let matches_scope = match scope {
                PeerScope::Machine => true,
                PeerScope::Directory => str_eq(p.cwd.as_str(), reference_cwd),
                PeerScope::Repo => match (&p.git_root, reference_git_root) {
                    (Some(g), Some(root)) => str_eq(g.as_str(), root),
                    _ => false,
                },
            };
            assert((other && matches_scope) == pred(self@.peers[i as int]));
            proof {
                self@.peers.take(i as int).lemma_filter_push(self@.peers[i as int], pred);
                assert(self@.peers.take(i as int + 1) =~= self@.peers.take(i as int).push(
                    self@.peers[i as int],
                ));
            }
            if other && matches_scope {
                let ghost before = out@;
                out.push(p.clone());
                assert(peer_views(out@) =~= peer_views(before).push(self@.peers[i as int]));
            }
            i = i + 1;
        }
        assert(self@.peers.take(n as int) =~= self@.peers);
        Ok(out)
    }

    // ---- message operations ----

    /// Queues `msg` stamped `now` under the next message id, which it
    /// answers; fails when the message id space is used up.
    pub fn send_message_at(&mut self, msg: &SendMessageRequest, now: String) -> (r: Result<
        i64,
        DbError,
    >)
        requires
            old(self).wf(),
        ensures
            final(self).wf(),
            old(self)@.last_message_id < i64::MAX ==> r == Ok::<i64, DbError>(
                (old(self)@.last_message_id + 1) as i64,
            ) && final(self)@ == old(self)@.send_state(msg.from_id@, msg.to_id@, msg.text@, now@),
            old(self)@.last_message_id == i64::MAX ==> (r matches Err(DbError::MessageIdsExhausted))
                && final(self)@ == old(self)@,
    {
        let ghost pre = self@;
        if self.last_message_id == i64::MAX {
            return Err(DbError::MessageIdsExhausted);
        }
        let id = self.last_message_id + 1;
        let m = Message {
            id: id,
            from_id: msg.from_id.clone(),
            to_id: msg.to_id.clone(),
            text: msg.text.clone(),
            sent_at: now,
            delivered: false,
        };
        assert(m@ == pre.next_message(msg.from_id@, msg.to_id@, msg.text@, now@));
        self.messages.push(m);
        self.last_message_id = id;
        assert(self@.messages =~= pre.messages.push(m@));
        assert(self@ == pre.send_state(msg.from_id@, msg.to_id@, msg.text@, now@));
        Ok(id)
    }

    /// Queues `msg` stamped with the current time (see `send_message_at`).
    /// When the clock cannot be read, the store is left as it was.
    pub fn send_message(&mut self, msg: &SendMessageRequest) -> (r: Result<i64, DbError>)
        requires
            old(self).wf(),
        ensures
            final(self).wf(),
            r matches Err(DbError::ClockOutOfRange) ==> final(self)@ == old(self)@,
            !(r matches Err(DbError::ClockOutOfRange)) ==> {
                &&& old(self)@.last_message_id < i64::MAX ==> r == Ok::<i64, DbError>(
                    (old(self)@.last_message_id + 1) as i64,
                ) && exists|now: Seq<char>|
                    final(self)@ == old(self)@.send_state(msg.from_id@, msg.to_id@, msg.text@, now)
                &&& old(self)@.last_message_id == i64::MAX ==> (r matches Err(
                    DbError::MessageIdsExhausted,
                )) && final(self)@ == old(self)@
            },
            exists|reading: ClockReading|
                #[trigger] sending_outcome(
                    old(self)@,
                    final(self)@,
                    msg.from_id@,
                    msg.to_id@,
                    msg.text@,
                    reading.stamp(),
                    r,
                ),
    {
        let reading = read_clock();
        let now = match reading.stamp_text() {
            Some(t) => t,
            None => {
                assert(sending_outcome(
                    old(self)@,
                    self@,
                    msg.from_id@,
                    msg.to_id@,
                    msg.text@,
                    reading.stamp(),
                    Err(DbError::ClockOutOfRange),
                ));
                return Err(DbError::ClockOutOfRange);
            },
        };
        let ghost stamp = now@;
        let r = self.send_message_at(msg, now);
        assert(old(self)@.last_message_id < i64::MAX ==> final(self)@ == old(self)@.send_state(
            msg.from_id@,
            msg.to_id@,
            msg.text@,
            stamp,
        ));
        assert(sending_outcome(
            old(self)@,
            self@,
            msg.from_id@,
            msg.to_id@,
            msg.text@,
            reading.stamp(),
            r,
        ));
        r
    }

    /// Hands out the messages waiting for `peer_id`, in the order in which
    /// they were sent, and marks them delivered.
    pub fn poll_messages(&mut self, peer_id: &PeerId) -> (r: Result<Vec<Message>, DbError>)
        requires
            old(self).wf(),
        ensures
            final(self).wf(),
            r matches Ok(v) && message_views(v@) == old(self)@.pending(peer_id@),
            final(self)@ == old(self)@.after_poll(peer_id@),
    {
        let ghost pre = self@;
        let ghost to = peer_id@;
        let ghost pred = |m: MessageView| pending_for(m, to);
        let ghost f = |m: MessageView| delivered_to(m, to);
        let mut out: Vec<Message> = Vec::new();
        let mut updated: Vec<Message> = Vec::new();
        let n = self.messages.len();
        let mut i: usize = 0;
        while i < n
            invariant
                i <= n,
                n == self.messages@.len(),
                pre == self@,
                to == peer_id@,
                pred == (|m: MessageView| pending_for(m, to)),
                f == (|m: MessageView| delivered_to(m, to)),
                message_views(out@) == pre.messages.take(i as int).filter(pred),
                message_views(updated@) == pre.messages.take(i as int).map_values(f),
            decreases n - i,
        {
            let m = &self.messages[i];
            let waiting = m.to_id == *peer_id && !m.delivered;
            assert(waiting == pred(pre.messages[i as int]));
            proof {
                pre.messages.take(i as int).lemma_filter_push(pre.messages[i as int], pred);
                assert(pre.messages.take(i as int + 1) =~= pre.messages.take(i as int).push(
                    pre.messages[i as int],
                ));
            }
            let ghost before_out = out@;
            let ghost before_upd = updated@;
            if waiting {
                out.push(m.clone());
                assert(message_views(out@) =~= message_views(before_out).push(
                    pre.messages[i as int],
                ));
                let mut d = m.clone();
                d.delivered = true;
                updated.push(d);
            } else {
                updated.push(m.clone());
            }
            assert(message_views(updated@) =~= message_views(before_upd).push(
                f(pre.messages[i as int]),
            ));
            assert(pre.messages.take(i as int + 1).map_values(f) =~= pre.messages.take(
                i as int,
            ).map_values(f).push(f(pre.messages[i as int])));
            i = i + 1;
        }
        assert(pre.messages.take(n as int) =~= pre.messages);
        self.messages = updated;
        assert(self@ == pre.after_poll(to));
        assert(self.wf()) by {
            let ms = self@.messages;
            assert forall|a: int| 0 <= a < ms.len() implies ms[a].id == pre.messages[a].id by {}
        }
        Ok(out)
    }

    /// Whether a peer has id `id`.
    pub fn peer_exists(&self, id: &PeerId) -> (r: Result<bool, DbError>)
        requires
            self.wf(),
        ensures
            r matches Ok(b) && b == has_id(self@.peers, id@),
    {
        match self.index_of_id(id.as_str()) {
            Some(_) => Ok(true),
            None => Ok(false),
        }
    }
}

/// Filtering keeps the relative order of what it keeps; kept elements come
/// from the filtered sequence.
proof fn lemma_filter_keeps_order(s: Seq<PeerView>, pred: spec_fn(PeerView) -> bool, a: int, b: int)
    requires
        0 <= a < b < s.filter(pred).len(),
    ensures
        exists|x: int, y: int|
            0 <= x < y < s.len() && s[x] == s.filter(pred)[a] && s[y] == s.filter(pred)[b],
    decreases s.len(),
{
    reveal(Seq::filter);
    let t = s.drop_last();
    if pred(s.last()) {
        assert(s.filter(pred) == t.filter(pred).push(s.last()));
        if b == s.filter(pred).len() - 1 {
            t.lemma_filter_len(pred);
            lemma_filter_member(t, pred, a);
            let x = choose|x: int| 0 <= x < t.len() && t[x] == t.filter(pred)[a];
            assert(s[x] == t[x]);
            assert(s[s.len() - 1] == s.filter(pred)[b]);
        } else {
            lemma_filter_keeps_order(t, pred, a, b);
            let (x, y) = choose|x: int, y: int|
                0 <= x < y < t.len() && t[x] == t.filter(pred)[a] && t[y] == t.filter(pred)[b];
            assert(s[x] == t[x] && s[y] == t[y]);
        }
    } else {
        assert(s.filter(pred) == t.filter(pred));
        lemma_filter_keeps_order(t, pred, a, b);
        let (x, y) = choose|x: int, y: int|
            0 <= x < y < t.len() && t[x] == t.filter(pred)[a] && t[y] == t.filter(pred)[b];
        assert(s[x] == t[x] && s[y] == t[y]);
    }
}

/// Each kept element comes from the filtered sequence.
pub proof fn lemma_filter_member(s: Seq<PeerView>, pred: spec_fn(PeerView) -> bool, a: int)
    requires
        0 <= a < s.filter(pred).len(),
    ensures
        exists|x: int| 0 <= x < s.len() && s[x] == s.filter(pred)[a],
    decreases s.len(),
{
    reveal(Seq::filter);
    let t = s.drop_last();
    if pred(s.last()) && a == s.filter(pred).len() - 1 {
        assert(s[s.len() - 1] == s.filter(pred)[a]);
    } else {
        lemma_filter_member(t, pred, a);
        let x = choose|x: int| 0 <= x < t.len() && t[x] == t.filter(pred)[a];
        assert(s[x] == t[x]);
    }
}

/// The peers of `peers` whose ids are not listed in `ids`, in order.
pub fn retain_unlisted(peers: &Vec<Peer>, ids: &[PeerId]) -> (r: Vec<Peer>)
    ensures
        peer_views(r@) == peer_views(peers@).filter(
            |p: PeerView| !id_listed(string_seq_views(ids@), p.id),
        ),
{
    let ghost pv = peer_views(peers@);
    let ghost idv = string_seq_views(ids@);
    let ghost pred = |p: PeerView| !id_listed(idv, p.id);
    let mut kept: Vec<Peer> = Vec::new();
    let n = peers.len();
    let mut i: usize = 0;
    while i < n
        invariant
            i <= n,
            n == peers@.len(),
            pv == peer_views(peers@),
            idv == string_seq_views(ids@),
            pred == (|p: PeerView| !id_listed(idv, p.id)),
            peer_views(kept@) == pv.take(i as int).filter(pred),
        decreases n - i,
    {
        let mut listed = false;
        let m = ids.len();
        let mut k: usize = 0;
        while k < m
            invariant
                k <= m,
                m == ids@.len(),
                idv == string_seq_views(ids@),
                i < peers@.len(),
                pv == peer_views(peers@),
                listed <==> exists|q: int| 0 <= q < k && idv[q] == pv[i as int].id,
            decreases m - k,
        {
            if ids[k] == peers[i].id {
                assert(idv[k as int] == pv[i as int].id);
                listed = true;
            }
            k = k + 1;
        }
        assert(listed == id_listed(idv, pv[i as int].id));
        proof {
            pv.take(i as int).lemma_filter_push(pv[i as int], pred);
            assert(pv.take(i as int + 1) =~= pv.take(i as int).push(pv[i as int]));
        }
        if !listed {
            let ghost before = kept@;
            kept.push(peers[i].clone());
            assert(peer_views(kept@) =~= peer_views(before).push(pv[i as int]));
        }
        i = i + 1;
    }
    assert(pv.take(n as int) =~= pv);
    kept
}

/// Removing no ids leaves the store as it was.
pub proof fn lemma_without_nothing(v: DbView)
    ensures
        v.without_ids(Seq::empty()) == v,
{
    lemma_filter_all(v.peers, |p: PeerView| !id_listed(Seq::<Seq<char>>::empty(), p.id));
}

/// Filtering by a predicate that everything satisfies changes nothing.
proof fn lemma_filter_all<A>(s: Seq<A>, pred: spec_fn(A) -> bool)
    requires
        forall|i: int| 0 <= i < s.len() ==> pred(#[trigger] s[i]),
    ensures
        s.filter(pred) == s,
    decreases s.len(),
{
    reveal(Seq::filter);
    if s.len() > 0 {
        let t = s.drop_last();
        assert forall|i: int| 0 <= i < t.len() implies pred(#[trigger] t[i]) by {
            assert(t[i] == s[i]);
        }
        lemma_filter_all(t, pred);
        assert(pred(s[s.len() - 1]));
        assert(t.push(s.last()) =~= s);
    }
}

// ---- laws of the store ----

/// Filtering a sequence in which nothing satisfies the predicate gives the
/// empty sequence.
proof fn lemma_filter_none<A>(s: Seq<A>, pred: spec_fn(A) -> bool)
    requires
        forall|i: int| 0 <= i < s.len() ==> !pred(#[trigger] s[i]),
    ensures
        s.filter(pred) == Seq::<A>::empty(),
    decreases s.len(),
{
    reveal(Seq::filter);
    if s.len() > 0 {
        let t = s.drop_last();
        assert forall|i: int| 0 <= i < t.len() implies !pred(#[trigger] t[i]) by {
            assert(t[i] == s[i]);
        }
        lemma_filter_none(t, pred);
        assert(!pred(s[s.len() - 1]));
    }
}

/// Marking `to`'s messages delivered changes no message that waits for
/// another peer, so the other peers' queues read the same.
proof fn lemma_poll_keeps_other_queue(s: Seq<MessageView>, to: Seq<char>, other: Seq<char>)
    requires
        to != other,
    ensures
        s.map_values(|m: MessageView| delivered_to(m, to)).filter(
            |m: MessageView| pending_for(m, other),
        ) == s.filter(|m: MessageView| pending_for(m, other)),
    decreases s.len(),
{
    reveal(Seq::filter);
    let f = |m: MessageView| delivered_to(m, to);
    let p = |m: MessageView| pending_for(m, other);
    if s.len() > 0 {
        let t = s.drop_last();
        lemma_poll_keeps_other_queue(t, to, other);
        assert(s.map_values(f).drop_last() =~= t.map_values(f));
        assert(s.map_values(f).last() == f(s.last()));
        if p(s.last()) {
            assert(f(s.last()) == s.last());
        } else {
            assert(!p(f(s.last())));
        }
    } else {
        assert(s.map_values(f) =~= s);
    }
}

/// Registration keeps the store's invariant.
pub proof fn lemma_register_keeps_wf(
    v: DbView,
    req: RegisterRequestView,
    cand: Seq<char>,
    now: Seq<char>,
)
    requires
        v.wf(),
    ensures
        v.register_state(req, cand, now).wf(),
{
    if has_pid(v.peers, req.pid) {
        let i = pid_index(v.peers, req.pid);
        lemma_update_keeps_wf(v, i, refreshed(v.peers[i], req, now));
    } else if !has_id(v.peers, cand) {
        let ps = v.peers.push(fresh_peer(cand, req, now));
        assert forall|a: int, b: int| 0 <= a < b < ps.len() implies (#[trigger] ps[a]).id != (
        #[trigger] ps[b]).id && ps[a].pid != ps[b].pid by {
            assert(ps[a] == v.peers[a]);
            if b < ps.len() - 1 {
                assert(ps[b] == v.peers[b]);
            }
        }
    }
}

/// After a process registers, it is registered, under the id that the
/// registration answered.
proof fn lemma_registered_at(
    v: DbView,
    req: RegisterRequestView,
    cand: Seq<char>,
    now: Seq<char>,
) -> (i: int)
    requires
        v.wf(),
        v.register_outcome(req, cand) is Some,
    ensures
        0 <= i < v.register_state(req, cand, now).peers.len(),
        v.register_state(req, cand, now).peers[i].pid == req.pid,
        Some(v.register_state(req, cand, now).peers[i].id) == v.register_outcome(req, cand),
        has_pid(v.register_state(req, cand, now).peers, req.pid),
        pid_index(v.register_state(req, cand, now).peers, req.pid) == i,
{
    lemma_register_keeps_wf(v, req, cand, now);
    let s1 = v.register_state(req, cand, now);
    let i = if has_pid(v.peers, req.pid) {
        pid_index(v.peers, req.pid)
    } else {
        v.peers.len() as int
    };
    lemma_pid_index(s1.peers, i);
    i
}

/// A process that registers again keeps the id it was given the first
/// time, whatever its new details, its new drawn id or the time.
pub proof fn law_reregistration_keeps_id(
    v: DbView,
    first: RegisterRequestView,
    again: RegisterRequestView,
    cand1: Seq<char>,
    cand2: Seq<char>,
    now1: Seq<char>,
    now2: Seq<char>,
)
    requires
        v.wf(),
        first.pid == again.pid,
        v.register_outcome(first, cand1) is Some,
    ensures
        v.register_state(first, cand1, now1).register_outcome(again, cand2) == v.register_outcome(
            first,
            cand1,
        ),
{
    let i = lemma_registered_at(v, first, cand1, now1);
}

/// Two different processes that both register get two different ids.
pub proof fn law_distinct_processes_get_distinct_ids(
    v: DbView,
    first: RegisterRequestView,
    second: RegisterRequestView,
    cand1: Seq<char>,
    cand2: Seq<char>,
    now1: Seq<char>,
    now2: Seq<char>,
)
    requires
        v.wf(),
        first.pid != second.pid,
        v.register_outcome(first, cand1) is Some,
        v.register_state(first, cand1, now1).register_outcome(second, cand2) is Some,
    ensures
        v.register_outcome(first, cand1) != v.register_state(first, cand1, now1).register_outcome(
            second,
            cand2,
        ),
{
    let i = lemma_registered_at(v, first, cand1, now1);
    let s1 = v.register_state(first, cand1, now1);
    lemma_register_keeps_wf(v, first, cand1, now1);
    if has_pid(s1.peers, second.pid) {
        let j = pid_index(s1.peers, second.pid);
        assert(j != i);
        if i < j {
            assert(s1.peers[i].id != s1.peers[j].id);
        } else {
            assert(s1.peers[j].id != s1.peers[i].id);
        }
    } else {
        assert(!has_id(s1.peers, cand2));
        assert(s1.peers[i].id != cand2);
    }
}

/// A registration shows the request's details under the answered id.
pub proof fn law_registration_is_recorded(
    v: DbView,
    req: RegisterRequestView,
    cand: Seq<char>,
    now: Seq<char>,
)
    requires
        v.wf(),
        v.register_outcome(req, cand) is Some,
    ensures
        ({
            let s1 = v.register_state(req, cand, now);
            let p = s1.peers[pid_index(s1.peers, req.pid)];
            &&& has_pid(s1.peers, req.pid)
            &&& Some(p.id) == v.register_outcome(req, cand)
            &&& p.cwd == req.cwd
            &&& p.git_root == req.git_root
            &&& p.tty == req.tty
            &&& p.summary == req.summary
            &&& p.last_seen == now
        }),
{
    let i = lemma_registered_at(v, req, cand, now);
}

/// A drawn id that collides with another peer's leaves the store as it was.
pub proof fn law_id_conflict_changes_nothing(
    v: DbView,
    req: RegisterRequestView,
    cand: Seq<char>,
    now: Seq<char>,
)
    requires
        v.register_outcome(req, cand) is None,
    ensures
        v.register_state(req, cand, now) == v,
{
}

/// A heartbeat or a summary for an unknown peer changes nothing; for a
/// known peer it changes only that peer's last-seen time or summary.
pub proof fn law_peer_updates_touch_one_peer(
    v: DbView,
    id: Seq<char>,
    now: Seq<char>,
    summary: Seq<char>,
)
    requires
        v.wf(),
    ensures
        !has_id(v.peers, id) ==> v.heartbeat_state(id, now) == v && v.summary_state(id, summary)
            == v,
        has_id(v.peers, id) ==> {
            let i = id_index(v.peers, id);
            &&& v.heartbeat_state(id, now).peers[i] == (PeerView { last_seen: now, ..v.peers[i] })
            &&& v.summary_state(id, summary).peers[i] == (PeerView {
                summary: Some(summary),
                ..v.peers[i]
            })
            &&& forall|j: int|
                0 <= j < v.peers.len() && j != i ==> v.heartbeat_state(id, now).peers[j]
                    == v.peers[j] && v.summary_state(id, summary).peers[j] == v.peers[j]
            &&& v.heartbeat_state(id, now).peers.len() == v.peers.len()
            &&& v.summary_state(id, summary).peers.len() == v.peers.len()
            &&& v.heartbeat_state(id, now).wf()
            &&& v.summary_state(id, summary).wf()
        },
{
    if has_id(v.peers, id) {
        let i = id_index(v.peers, id);
        lemma_update_keeps_wf(v, i, PeerView { last_seen: now, ..v.peers[i] });
        lemma_update_keeps_wf(v, i, PeerView { summary: Some(summary), ..v.peers[i] });
    }
}

/// After removing a peer, no peer has its id; every other peer stays.
pub proof fn law_removed_peer_is_gone(v: DbView, ids: Seq<Seq<char>>, id: Seq<char>)
    requires
        id_listed(ids, id),
    ensures
        !has_id(v.without_ids(ids).peers, id),
        forall|i: int|
            0 <= i < v.peers.len() && !id_listed(ids, v.peers[i].id) ==> v.without_ids(
                ids,
            ).peers.contains(#[trigger] v.peers[i]),
{
    let pred = |p: PeerView| !id_listed(ids, p.id);
    let ps = v.without_ids(ids).peers;
    assert forall|i: int| 0 <= i < ps.len() implies (#[trigger] ps[i]).id != id by {
        v.peers.lemma_filter_pred(pred, i);
    }
    assert forall|i: int| 0 <= i < v.peers.len() && !id_listed(ids, v.peers[i].id) implies ps.contains(
        #[trigger] v.peers[i],
    ) by {
        v.peers.lemma_filter_contains(pred, i);
    }
}

/// A listing never shows the peer it is made for, shows only peers in the
/// scope, and shows every peer in the scope.
pub proof fn law_listing_is_the_scope(
    v: DbView,
    scope: PeerScope,
    exclude: Seq<char>,
    cwd: Seq<char>,
    root: Option<Seq<char>>,
)
    ensures
        forall|i: int|
            0 <= i < v.listing(scope, exclude, cwd, root).len() ==> {
                let p = #[trigger] v.listing(scope, exclude, cwd, root)[i];
                &&& p.id != exclude
                &&& in_scope(p, scope, exclude, cwd, root)
                &&& v.peers.contains(p)
            },
        forall|i: int|
            0 <= i < v.peers.len() && in_scope(v.peers[i], scope, exclude, cwd, root)
                ==> v.listing(scope, exclude, cwd, root).contains(#[trigger] v.peers[i]),
        scope == PeerScope::Repo && root is None ==> v.listing(scope, exclude, cwd, root)
            == Seq::<PeerView>::empty(),
{
    let pred = |p: PeerView| in_scope(p, scope, exclude, cwd, root);
    let l = v.listing(scope, exclude, cwd, root);
    assert forall|i: int| 0 <= i < l.len() implies {
        let p = #[trigger] l[i];
        &&& p.id != exclude
        &&& in_scope(p, scope, exclude, cwd, root)
        &&& v.peers.contains(p)
    } by {
        v.peers.lemma_filter_pred(pred, i);
        lemma_filter_member(v.peers, pred, i);
    }
    assert forall|i: int| 0 <= i < v.peers.len() && in_scope(v.peers[i], scope, exclude, cwd, root)
        implies l.contains(#[trigger] v.peers[i]) by {
        v.peers.lemma_filter_contains(pred, i);
    }
    if scope == PeerScope::Repo && root is None {
        lemma_filter_none(v.peers, pred);
    }
}

/// A poll hands out each waiting message once: polling again right after
/// hands out nothing.
pub proof fn law_second_poll_is_empty(v: DbView, to: Seq<char>)
    ensures
        v.after_poll(to).pending(to) == Seq::<MessageView>::empty(),
{
    let ms = v.after_poll(to).messages;
    assert forall|i: int| 0 <= i < ms.len() implies !pending_for(#[trigger] ms[i], to) by {}
    lemma_filter_none(ms, |m: MessageView| pending_for(m, to));
}

/// A poll by one peer leaves every other peer's waiting messages as they were.
pub proof fn law_poll_leaves_other_queues(v: DbView, to: Seq<char>, other: Seq<char>)
    requires
        to != other,
    ensures
        v.after_poll(to).pending(other) == v.pending(other),
{
    lemma_poll_keeps_other_queue(v.messages, to, other);
}

/// A sent message waits for its recipient, after the ones sent before it,
/// and for nobody else.
pub proof fn law_sent_message_reaches_recipient_only(
    v: DbView,
    from: Seq<char>,
    to: Seq<char>,
    text: Seq<char>,
    now: Seq<char>,
    other: Seq<char>,
)
    requires
        other != to,
    ensures
        v.send_state(from, to, text, now).pending(to) == v.pending(to).push(
            v.next_message(from, to, text, now),
        ),
        v.send_state(from, to, text, now).pending(other) == v.pending(other),
        v.send_state(from, to, text, now).peers == v.peers,
{
    let m = v.next_message(from, to, text, now);
    v.messages.lemma_filter_push(m, |x: MessageView| pending_for(x, to));
    v.messages.lemma_filter_push(m, |x: MessageView| pending_for(x, other));
}

/// Sending keeps the store's invariant while the id space lasts, and the
/// new message's id is larger than every id handed out before.
pub proof fn law_message_ids_increase(
    v: DbView,
    from: Seq<char>,
    to: Seq<char>,
    text: Seq<char>,
    now: Seq<char>,
)
    requires
        v.wf(),
        v.last_message_id < i64::MAX,
    ensures
        v.send_state(from, to, text, now).wf(),
        forall|i: int|
            0 <= i < v.messages.len() ==> (#[trigger] v.messages[i]).id < v.next_message(
                from,
                to,
                text,
                now,
            ).id,
{
}

} // verus!
