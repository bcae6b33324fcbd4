//! The reverse-proxy core: route matching, the bearer token, the upstream
//! membership state, and the identity-update sequence.
//!
//! The HTTP plumbing outside this crate hands the request path and the
//! authorization header to these functions, drives the update state machine,
//! and performs the network calls; every decision — which requests trigger
//! an update, what is read, whether and what to write back — is made and
//! proved here against the modeled upstream state.

use crate::assoc::{
    find_key, find_key_from, keys_distinct, lemma_find_key, lemma_find_key_update,
    lemma_push_distinct,
};
use crate::coordinator::{acquire_granted, acquire_state, release_state, UpdateLocks};
use crate::member_event::{
    apply_fronter, clone_event, diff_changed, lemma_rewrite_idempotent, member_diff,
    MemberEventContent, MemberEventV,
};
use crate::resolver::{decision_view, resolve, resolve_cache_spec, resolve_spec, Decision, TokenCache};
use crate::store::{opt_view, Member, MemberV, Store};
use crate::strutil::{contains_char, find_char, find_char_spec, has_prefix, str_eq, str_has_prefix};
use crate::synapse::SynapseDb;
use vstd::prelude::*;
use vstd::string::StringExecFns;

verus! {

/// The captures of the message-send route.
#[derive(Debug, Clone, PartialEq, Eq)]
pub struct SendPath {
    pub version: String,
    pub room_id: String,
    pub event_type: String,
    pub txn_id: String,
}

/// Mathematical image of the route captures.
#[verifier::ext_equal]
pub struct SendPathV {
    pub version: Seq<char>,
    pub room_id: Seq<char>,
    pub event_type: Seq<char>,
    pub txn_id: Seq<char>,
}

impl View for SendPath {
    type V = SendPathV;

    open spec fn view(&self) -> SendPathV {
        SendPathV {
            version: self.version@,
            room_id: self.room_id@,
            event_type: self.event_type@,
            txn_id: self.txn_id@,
        }
    }
}

/// The message-send route:
/// `/_matrix/client/{version}/rooms/{room_id}/send/{event_type}/{txn_id}`,
/// each capture a single nonempty segment; the version segment is captured
/// but not constrained.
pub open spec fn parse_send_path_spec(p: Seq<char>) -> Option<SendPathV> {
    let pre = "/_matrix/client/"@;
    if !has_prefix(p, pre) {
        None
    } else {
        match find_char_spec(p, '/', pre.len() as int) {
            None => None,
            Some(i1) => if i1 == pre.len() {
                None
            } else {
                match find_char_spec(p, '/', i1 + 1) {
                    None => None,
                    Some(i2) => if p.subrange(i1 + 1, i2) != "rooms"@ {
                        None
                    } else {
                        match find_char_spec(p, '/', i2 + 1) {
                            None => None,
                            Some(i3) => if i3 == i2 + 1 {
                                None
                            } else {
                                match find_char_spec(p, '/', i3 + 1) {
                                    None => None,
                                    Some(i4) => if p.subrange(i3 + 1, i4) != "send"@ {
                                        None
                                    } else {
                                        match find_char_spec(p, '/', i4 + 1) {
                                            None => None,
                                            Some(i5) => if i5 == i4 + 1 || i5 + 1 >= p.len()
                                                || find_char_spec(p, '/', i5 + 1) is Some {
                                                None
                                            } else {
                                                Some(SendPathV {
                                                    version: p.subrange(pre.len() as int, i1),
                                                    room_id: p.subrange(i2 + 1, i3),
                                                    event_type: p.subrange(i4 + 1, i5),
                                                    txn_id: p.subrange(i5 + 1, p.len() as int),
                                                })
                                            },
                                        }
                                    },
                                }
                            },
                        }
                    },
                }
            },
        }
    }
}

/// A matched path is exactly the route segments glued with slashes, and no
/// capture is empty or contains a slash.
#[verifier::rlimit(60)]
pub proof fn lemma_send_path_shape(p: Seq<char>)
    requires
        parse_send_path_spec(p) is Some,
    ensures
        ({
            let sp = parse_send_path_spec(p) -> 0;
            &&& p =~= "/_matrix/client/"@ + sp.version + "/"@ + "rooms"@ + "/"@ + sp.room_id
                + "/"@ + "send"@ + "/"@ + sp.event_type + "/"@ + sp.txn_id
            &&& sp.version.len() > 0 && !contains_char(sp.version, '/')
            &&& sp.room_id.len() > 0 && !contains_char(sp.room_id, '/')
            &&& sp.event_type.len() > 0 && !contains_char(sp.event_type, '/')
            &&& sp.txn_id.len() > 0 && !contains_char(sp.txn_id, '/')
        }),
{
    let pre = "/_matrix/client/"@;
    let i1 = find_char_spec(p, '/', pre.len() as int) -> 0;
    let i2 = find_char_spec(p, '/', i1 + 1) -> 0;
    let i3 = find_char_spec(p, '/', i2 + 1) -> 0;
    let i4 = find_char_spec(p, '/', i3 + 1) -> 0;
    let i5 = find_char_spec(p, '/', i4 + 1) -> 0;
    crate::strutil::lemma_find_char_spec(p, '/', pre.len() as int);
    crate::strutil::lemma_find_char_spec(p, '/', i1 + 1);
    crate::strutil::lemma_find_char_spec(p, '/', i2 + 1);
    crate::strutil::lemma_find_char_spec(p, '/', i3 + 1);
    crate::strutil::lemma_find_char_spec(p, '/', i4 + 1);
    crate::strutil::lemma_find_char_spec(p, '/', i5 + 1);
    reveal_strlit("/");
    let sp = parse_send_path_spec(p) -> 0;
    assert(p[i1] == '/' && p[i2] == '/' && p[i3] == '/' && p[i4] == '/' && p[i5] == '/');
    assert(p.subrange(0, pre.len() as int) == pre);
    assert(p.subrange(i1, i1 + 1) =~= "/"@);
    assert(p.subrange(i2, i2 + 1) =~= "/"@);
    assert(p.subrange(i3, i3 + 1) =~= "/"@);
    assert(p.subrange(i4, i4 + 1) =~= "/"@);
    assert(p.subrange(i5, i5 + 1) =~= "/"@);
    assert(p =~= p.subrange(0, pre.len() as int) + p.subrange(pre.len() as int, i1) + p.subrange(
        i1,
        i1 + 1,
    ) + p.subrange(i1 + 1, i2) + p.subrange(i2, i2 + 1) + p.subrange(i2 + 1, i3) + p.subrange(
        i3,
        i3 + 1,
    ) + p.subrange(i3 + 1, i4) + p.subrange(i4, i4 + 1) + p.subrange(i4 + 1, i5) + p.subrange(
        i5,
        i5 + 1,
    ) + p.subrange(i5 + 1, p.len() as int));
    assert forall|j: int| 0 <= j < sp.version.len() implies sp.version[j] != '/' by {
        assert(sp.version[j] == p[pre.len() + j]);
    }
    assert forall|j: int| 0 <= j < sp.room_id.len() implies sp.room_id[j] != '/' by {
        assert(sp.room_id[j] == p[i2 + 1 + j]);
    }
    assert forall|j: int| 0 <= j < sp.event_type.len() implies sp.event_type[j] != '/' by {
        assert(sp.event_type[j] == p[i4 + 1 + j]);
    }
    assert forall|j: int| 0 <= j < sp.txn_id.len() implies sp.txn_id[j] != '/' by {
        assert(sp.txn_id[j] == p[i5 + 1 + j]);
    }
}

pub fn parse_send_path(path: &str) -> (r: Option<SendPath>)
    ensures
        match r {
            Some(sp) => parse_send_path_spec(path@) == Some(sp@),
            None => parse_send_path_spec(path@) is None,
        },
{
    let pre = "/_matrix/client/";
    let len = path.unicode_len();
    if !str_has_prefix(path, pre) {
        return None;
    }
    let plen = pre.unicode_len();
    proof {
        crate::strutil::lemma_find_char_spec(path@, '/', plen as int);
    }
    let i1 = match find_char(path, '/', plen) {
        Some(i) => i,
        None => {
            return None;
        },
    };
    if i1 == plen {
        return None;
    }
    proof {
        crate::strutil::lemma_find_char_spec(path@, '/', i1 + 1 as int);
    }
    let i2 = match find_char(path, '/', i1 + 1) {
        Some(i) => i,
        None => {
            return None;
        },
    };
    if !str_eq(path.substring_char(i1 + 1, i2), "rooms") {
        return None;
    }
    proof {
        crate::strutil::lemma_find_char_spec(path@, '/', i2 + 1 as int);
    }
    let i3 = match find_char(path, '/', i2 + 1) {
        Some(i) => i,
        None => {
            return None;
        },
    };
    if i3 == i2 + 1 {
        return None;
    }
    proof {
        crate::strutil::lemma_find_char_spec(path@, '/', i3 + 1 as int);
    }
    let i4 = match find_char(path, '/', i3 + 1) {
        Some(i) => i,
        None => {
            return None;
        },
    };
    if !str_eq(path.substring_char(i3 + 1, i4), "send") {
        return None;
    }
    proof {
        crate::strutil::lemma_find_char_spec(path@, '/', i4 + 1 as int);
    }
    let i5 = match find_char(path, '/', i4 + 1) {
        Some(i) => i,
        None => {
            return None;
        },
    };
    proof {
        crate::strutil::lemma_find_char_spec(path@, '/', i5 + 1 as int);
    }
    if i5 == i4 + 1 || i5 + 1 >= len {
        return None;
    }
    if find_char(path, '/', i5 + 1).is_some() {
        return None;
    }
    let sp = SendPath {
        version: path.substring_char(plen, i1).to_owned(),
        room_id: path.substring_char(i2 + 1, i3).to_owned(),
        event_type: path.substring_char(i4 + 1, i5).to_owned(),
        txn_id: path.substring_char(i5 + 1, len).to_owned(),
    };
    proof {
        assert(sp@ =~= parse_send_path_spec(path@) -> 0);
    }
    Some(sp)
}

/// The bearer token of an authorization header value, if it carries one.
pub open spec fn parse_bearer_spec(h: Seq<char>) -> Option<Seq<char>> {
    let pre = "Bearer "@;
    if has_prefix(h, pre) {
        Some(h.subrange(pre.len() as int, h.len() as int))
    } else {
        None
    }
}

/// Extract the bearer token from an authorization header value.
pub fn parse_bearer(header: &str) -> (r: Option<String>)
    ensures
        opt_view(r) == parse_bearer_spec(header@),
{
    let pre = "Bearer ";
    if str_has_prefix(header, pre) {
        Some(header.substring_char(pre.unicode_len(), header.unicode_len()).to_owned())
    } else {
        None
    }
}

/// The target of a pass-through: the upstream host followed by the original
/// path and query.
pub fn passthrough_uri(host: &str, path_query: &str) -> (r: String)
    ensures
        r@ == host@ + path_query@,
{
    let mut r = host.to_owned();
    r.append(path_query);
    r
}

/// One per-room per-user membership state event held upstream.
pub struct RoomStateRow {
    pub room_id: String,
    pub user_id: String,
    pub content: MemberEventContent,
}

/// Mathematical image of an upstream state row.
#[verifier::ext_equal]
pub struct RoomStateV {
    pub room_id: Seq<char>,
    pub user_id: Seq<char>,
    pub content: MemberEventV,
}

impl View for RoomStateRow {
    type V = RoomStateV;

    open spec fn view(&self) -> RoomStateV {
        RoomStateV { room_id: self.room_id@, user_id: self.user_id@, content: self.content@ }
    }
}

/// Key of an upstream state row.
pub open spec fn state_kf() -> spec_fn(RoomStateV) -> (Seq<char>, Seq<char>) {
    |r: RoomStateV| (r.room_id, r.user_id)
}

/// The membership event of `(room, user)`, if any.
pub open spec fn state_lookup(st: Seq<RoomStateV>, room: Seq<char>, user: Seq<char>) -> Option<
    MemberEventV,
> {
    match find_key(st, state_kf(), (room, user)) {
        Some(i) => Some(st[i].content),
        None => None,
    }
}

/// Upsert the membership event of `(room, user)`.
pub open spec fn put_state_spec(
    st: Seq<RoomStateV>,
    room: Seq<char>,
    user: Seq<char>,
    c: MemberEventV,
) -> Seq<RoomStateV> {
    let row = RoomStateV { room_id: room, user_id: user, content: c };
    match find_key(st, state_kf(), (room, user)) {
        Some(i) => st.update(i, row),
        None => st.push(row),
    }
}

/// The upstream homeserver's per-room membership state, as the proxy's
/// contracts see it.
pub struct Upstream {
    states: Vec<RoomStateRow>,
}

impl View for Upstream {
    type V = Seq<RoomStateV>;

    closed spec fn view(&self) -> Seq<RoomStateV> {
        self.states@.map_values(|r: RoomStateRow| r@)
    }
}

impl Upstream {
    /// Pairwise-distinct `(room, user)` keys.
    pub open spec fn inv(&self) -> bool {
        keys_distinct(self@, state_kf())
    }

    /// An upstream with no membership state.
    pub fn new() -> (u: Upstream)
        ensures
            u.inv(),
            u@ == Seq::<RoomStateV>::empty(),
    {
        let u = Upstream { states: Vec::new() };
        proof {
            assert(u@ =~= Seq::<RoomStateV>::empty());
        }
        u
    }

    fn find_idx(&self, room_id: &str, user_id: &str) -> (r: Option<usize>)
        ensures
            match r {
                Some(i) => i < self@.len() && Some(i as int) == find_key(
                    self@,
                    state_kf(),
                    (room_id@, user_id@),
                ),
                None => find_key(self@, state_kf(), (room_id@, user_id@)) is None,
            },
    {
        let n = self.states.len();
        let mut i: usize = 0;
        while i < n
            invariant
                i <= n,
                n == self.states@.len(),
                find_key(self@, state_kf(), (room_id@, user_id@)) == find_key_from(
                    self@,
                    state_kf(),
                    (room_id@, user_id@),
                    i as int,
                ),
            decreases n - i,
        {
            if str_eq(self.states[i].room_id.as_str(), room_id) && str_eq(
                self.states[i].user_id.as_str(),
                user_id,
            ) {
                assert(state_kf()(self@[i as int]) == (room_id@, user_id@));
                return Some(i);
            }
            assert(state_kf()(self@[i as int]) != (room_id@, user_id@));
            i += 1;
        }
        None
    }

    /// The membership event of `(room_id, user_id)`, if any.
    pub fn get_state(&self, room_id: &str, user_id: &str) -> (r: Option<MemberEventContent>)
        ensures
            match r {
                Some(c) => state_lookup(self@, room_id@, user_id@) == Some(c@),
                None => state_lookup(self@, room_id@, user_id@) is None,
            },
    {
        match self.find_idx(room_id, user_id) {
            Some(i) => Some(clone_event(&self.states[i].content)),
            None => None,
        }
    }

    /// Write the membership event of `(room_id, user_id)`.
    pub fn put_state(&mut self, room_id: &str, user_id: &str, content: MemberEventContent)
        requires
            old(self).inv(),
        ensures
            final(self).inv(),
            final(self)@ == put_state_spec(old(self)@, room_id@, user_id@, content@),
    {
        let ghost prev = self@;
        let ghost rowv = RoomStateV { room_id: room_id@, user_id: user_id@, content: content@ };
        match self.find_idx(room_id, user_id) {
            Some(i) => {
                proof {
                    lemma_find_key(prev, state_kf(), (room_id@, user_id@));
                }
                self.states.set(
                    i,
                    RoomStateRow { room_id: room_id.to_owned(), user_id: user_id.to_owned(), content },
                );
                proof {
                    assert(self@ =~= prev.update(i as int, rowv));
                    crate::assoc::lemma_update_distinct(prev, state_kf(), i as int, rowv);
                }
            },
            None => {
                self.states.push(RoomStateRow {
                    room_id: room_id.to_owned(),
                    user_id: user_id.to_owned(),
                    content,
                });
                proof {
                    assert(self@ =~= prev.push(rowv));
                    lemma_push_distinct(prev, state_kf(), rowv);
                }
            },
        }
    }
}

/// What one identity-update sequence reports.
pub struct UpdateOutcome {
    /// The membership state was read (the decision was a rewrite).
    pub fetched: bool,
    /// The event content written back, when the diff was nonempty.
    pub put: Option<MemberEventContent>,
}

/// The upstream state after one identity-update sequence.
pub open spec fn identity_update_spec(
    st: Seq<RoomStateV>,
    dec: Option<(Seq<char>, MemberV)>,
    room: Seq<char>,
) -> Seq<RoomStateV> {
    match dec {
        None => st,
        Some((u, f)) => match state_lookup(st, room, u) {
            None => st,
            Some(c) => if diff_changed(f, c) {
                put_state_spec(st, room, u, apply_fronter(f, c))
            } else {
                st
            },
        },
    }
}

/// The write one identity-update sequence issues: the rewritten event
/// exactly when a fronter field differs from the current state.
pub open spec fn identity_update_put(
    st: Seq<RoomStateV>,
    dec: Option<(Seq<char>, MemberV)>,
    room: Seq<char>,
) -> Option<MemberEventV> {
    match dec {
        None => None,
        Some((u, f)) => match state_lookup(st, room, u) {
            None => None,
            Some(c) => if diff_changed(f, c) {
                Some(apply_fronter(f, c))
            } else {
                None
            },
        },
    }
}

/// View of the written content of an outcome.
pub open spec fn outcome_put_view(r: UpdateOutcome) -> Option<MemberEventV> {
    match r.put {
        Some(c) => Some(c@),
        None => None,
    }
}

/// One identity-update sequence: resolve the sender, and under the sender's
/// update lock read the membership state, diff it against the fronter, and
/// write it back only when a field changed. The lock set is left as it was
/// found; a skip decision reads and writes nothing.
pub fn update_identity(
    store: &Store,
    synapse: &SynapseDb,
    cache: &mut TokenCache,
    locks: &mut UpdateLocks,
    upstream: &mut Upstream,
    room_id: &str,
    token: &str,
) -> (r: UpdateOutcome)
    requires
        old(cache).inv(),
        old(locks).inv(),
        old(upstream).inv(),
        match resolve_spec(old(cache)@, synapse@.tokens, store@, token@, room_id@) {
            Some((u, _)) => !old(locks)@.contains(u),
            None => true,
        },
    ensures
        final(cache).inv(),
        final(locks).inv(),
        final(upstream).inv(),
        final(cache)@ == resolve_cache_spec(old(cache)@, synapse@.tokens, token@),
        final(locks)@ == old(locks)@,
        ({
            let dec = resolve_spec(old(cache)@, synapse@.tokens, store@, token@, room_id@);
            &&& r.fetched == (dec is Some)
            &&& final(upstream)@ == identity_update_spec(old(upstream)@, dec, room_id@)
            &&& outcome_put_view(r) == identity_update_put(old(upstream)@, dec, room_id@)
        }),
{
    let decision = resolve(cache, synapse, store, token, room_id);
    match decision {
        Decision::Skip => UpdateOutcome { fetched: false, put: None },
        Decision::Rewrite { user_id, fronter } => {
            let granted = locks.try_acquire(user_id.as_str());
            assert(granted);
            let outcome = match upstream.get_state(room_id, user_id.as_str()) {
                None => UpdateOutcome { fetched: true, put: None },
                Some(current) => {
                    let (new_content, changed) = member_diff(&fronter, &current);
                    if changed {
                        upstream.put_state(room_id, user_id.as_str(), clone_event(&new_content));
                        UpdateOutcome { fetched: true, put: Some(new_content) }
                    } else {
                        UpdateOutcome { fetched: true, put: None }
                    }
                },
            };
            locks.release(user_id.as_str());
            proof {
                crate::coordinator::lemma_acquire_release_round_trip(old(locks)@, user_id@);
            }
            outcome
        },
    }
}

/// Two serialized sends write at most once: after an identity-update
/// sequence, a second sequence with the same decision finds nothing left to
/// change and issues no write.
pub proof fn lemma_second_send_no_put(
    st: Seq<RoomStateV>,
    dec: Option<(Seq<char>, MemberV)>,
    room: Seq<char>,
)
    requires
        keys_distinct(st, state_kf()),
    ensures
        identity_update_put(identity_update_spec(st, dec, room), dec, room) is None,
{
    match dec {
        None => {},
        Some((u, f)) => {
            match state_lookup(st, room, u) {
                None => {},
                Some(c) => {
                    if diff_changed(f, c) {
                        let i = find_key(st, state_kf(), (room, u)) -> 0;
                        lemma_find_key(st, state_kf(), (room, u));
                        let row = RoomStateV {
                            room_id: room,
                            user_id: u,
                            content: apply_fronter(f, c),
                        };
                        lemma_find_key_update(st, state_kf(), (room, u), i, row);
                        assert(state_lookup(st.update(i, row), room, u) == Some(
                            apply_fronter(f, c),
                        ));
                        lemma_rewrite_idempotent(f, c);
                    } else {
                        lemma_rewrite_idempotent(f, c);
                        assert(!diff_changed(f, c));
                    }
                },
            }
        },
    }
}


/// The phases of one identity-update sequence, re-entered per request. The
/// design's transient diffing state collapses into the transition out of
/// `Locked`, since the diff is pure computation.
pub enum UpdatePhase {
    /// Nothing in flight.
    Idle,
    /// Resolved to a rewrite; the sender's update lock is being acquired.
    Decided { user_id: String, fronter: Member },
    /// Holding the lock; the membership state is being read.
    Locked { user_id: String, fronter: Member },
    /// Holding the lock; the rewritten state is being written back.
    Writing { user_id: String },
}

/// What the surrounding request handler observed.
pub enum UpdateEvent {
    /// The resolver produced its decision.
    Resolved(Decision),
    /// The sender's update lock was acquired.
    LockAcquired,
    /// The membership state was fetched.
    StateFetched(MemberEventContent),
    /// The membership write was acknowledged.
    PutAcked,
    /// A step failed; the sequence is abandoned best-effort.
    Failed,
}

/// What the surrounding request handler must do next.
pub enum UpdateAction {
    /// Acquire this user's update lock.
    AcquireLock(String),
    /// Fetch this user's membership state in the room.
    FetchState(String),
    /// Write this event content back for this user.
    SendPut(String, MemberEventContent),
    /// Release this user's update lock; the sequence is over.
    Release(String),
    /// The sequence is over; no lock is held.
    Finish,
}

/// One transition of the identity-update sequence. A fetch is requested
/// only while the lock is held, and a write is requested exactly when a
/// fronter field differs from the fetched state.
pub fn update_step(phase: UpdatePhase, event: UpdateEvent) -> (r: (UpdatePhase, UpdateAction))
    ensures
        match (phase, event) {
            (UpdatePhase::Idle, UpdateEvent::Resolved(d)) => match d {
                Decision::Skip => r.0 is Idle && r.1 is Finish,
                Decision::Rewrite { user_id: u, fronter: f } => {
                    &&& r.0 matches UpdatePhase::Decided { user_id: u2, fronter: f2 } && u2@ == u@
                        && f2@ == f@
                    &&& r.1 matches UpdateAction::AcquireLock(u3) && u3@ == u@
                },
            },
            (UpdatePhase::Decided { user_id: u, fronter: f }, UpdateEvent::LockAcquired) => {
                &&& r.0 matches UpdatePhase::Locked { user_id: u2, fronter: f2 } && u2@ == u@ && f2@
                    == f@
                &&& r.1 matches UpdateAction::FetchState(u3) && u3@ == u@
            },
            (UpdatePhase::Locked { user_id: u, fronter: f }, UpdateEvent::StateFetched(c)) => {
                if diff_changed(f@, c@) {
                    &&& r.0 matches UpdatePhase::Writing { user_id: u2 } && u2@ == u@
                    &&& r.1 matches UpdateAction::SendPut(u3, nc) && u3@ == u@ && nc@
                        == apply_fronter(f@, c@)
                } else {
                    r.0 is Idle && (r.1 matches UpdateAction::Release(u3) && u3@ == u@)
                }
            },
            (UpdatePhase::Writing { user_id: u }, UpdateEvent::PutAcked) => r.0 is Idle && (
            r.1 matches UpdateAction::Release(u3) && u3@ == u@),
            (UpdatePhase::Decided { .. }, UpdateEvent::Failed) => r.0 is Idle && r.1 is Finish,
            (UpdatePhase::Locked { user_id: u, .. }, UpdateEvent::Failed) => r.0 is Idle && (
            r.1 matches UpdateAction::Release(u3) && u3@ == u@),
            (UpdatePhase::Writing { user_id: u }, UpdateEvent::Failed) => r.0 is Idle && (
            r.1 matches UpdateAction::Release(u3) && u3@ == u@),
            _ => r.0 is Idle && r.1 is Finish,
        },
{
    match (phase, event) {
        (UpdatePhase::Idle, UpdateEvent::Resolved(d)) => match d {
            Decision::Skip => (UpdatePhase::Idle, UpdateAction::Finish),
            Decision::Rewrite { user_id, fronter } => {
                let u = user_id.clone();
                (UpdatePhase::Decided { user_id, fronter }, UpdateAction::AcquireLock(u))
            },
        },
        (UpdatePhase::Decided { user_id, fronter }, UpdateEvent::LockAcquired) => {
            let u = user_id.clone();
            (UpdatePhase::Locked { user_id, fronter }, UpdateAction::FetchState(u))
        },
        (UpdatePhase::Locked { user_id, fronter }, UpdateEvent::StateFetched(c)) => {
            let (new_content, changed) = member_diff(&fronter, &c);
            if changed {
                let u = user_id.clone();
                (UpdatePhase::Writing { user_id }, UpdateAction::SendPut(u, new_content))
            } else {
                (UpdatePhase::Idle, UpdateAction::Release(user_id))
            }
        },
        (UpdatePhase::Writing { user_id }, UpdateEvent::PutAcked) => (
            UpdatePhase::Idle,
            UpdateAction::Release(user_id),
        ),
        (UpdatePhase::Decided { .. }, UpdateEvent::Failed) => (
            UpdatePhase::Idle,
            UpdateAction::Finish,
        ),
        (UpdatePhase::Locked { user_id, .. }, UpdateEvent::Failed) => (
            UpdatePhase::Idle,
            UpdateAction::Release(user_id),
        ),
        (UpdatePhase::Writing { user_id }, UpdateEvent::Failed) => (
            UpdatePhase::Idle,
            UpdateAction::Release(user_id),
        ),
        _ => (UpdatePhase::Idle, UpdateAction::Finish),
    }
}


/// The membership write is issued exactly when at least one of the
/// fronter's set fields differs from the current event, and what is written
/// is the rewritten event.
pub proof fn lemma_put_iff_diff(st: Seq<RoomStateV>, u: Seq<char>, f: MemberV, room: Seq<char>)
    requires
        state_lookup(st, room, u) is Some,
    ensures
        ({
            let c = state_lookup(st, room, u) -> 0;
            identity_update_put(st, Some((u, f)), room) == (if diff_changed(f, c) {
                Some(apply_fronter(f, c))
            } else {
                None
            })
        }),
{
}

} // verus!
