//! The identity store: users, members, the current-fronter pointer,
//! activators, ignored rooms, and the read-message deduplication table.
//!
//! The store holds each table as a vector of rows with pairwise-distinct
//! keys. Every operation's contract pins the whole new state through a spec
//! transition function, and the laws at the bottom of this file are proved
//! from those transitions alone.

use crate::assoc::{
    find_key, find_key_from, get_by_key, has_key, keys_distinct, lemma_find_key,
    lemma_find_key_push, lemma_find_key_update, lemma_get_by_key_remove, lemma_push_distinct,
    lemma_update_distinct,
};
use crate::strutil::str_eq;
use crate::StoreError;
use vstd::pervasive::VecAdditionalExecFns;
use vstd::prelude::*;

verus! {

/// One configured identity of a user.
#[derive(Debug, Clone, PartialEq, Eq)]
pub struct Member {
    pub mxid: String,
    pub name: String,
    pub display_name: Option<String>,
    pub avatar: Option<String>,
    pub activators: Vec<String>,
    pub track_account: bool,
}

/// The account profile mirrored onto tracking members: empty strings stand
/// for unset upstream fields.
#[derive(Debug, Clone, PartialEq, Eq)]
pub struct ProfileInfo {
    pub display_name: String,
    pub avatar: String,
}

/// View of an `Option<String>` as an optional character sequence.
pub open spec fn opt_view(o: Option<String>) -> Option<Seq<char>> {
    match o {
        Some(s) => Some(s@),
        None => None,
    }
}

/// Mathematical image of a member row.
#[verifier::ext_equal]
pub struct MemberV {
    pub mxid: Seq<char>,
    pub name: Seq<char>,
    pub display_name: Option<Seq<char>>,
    pub avatar: Option<Seq<char>>,
    pub activators: Seq<Seq<char>>,
    pub track_account: bool,
}

impl View for Member {
    type V = MemberV;

    open spec fn view(&self) -> MemberV {
        MemberV {
            mxid: self.mxid@,
            name: self.name@,
            display_name: opt_view(self.display_name),
            avatar: opt_view(self.avatar),
            activators: self.activators.deep_view(),
            track_account: self.track_account,
        }
    }
}

/// Mathematical image of a profile row.
#[verifier::ext_equal]
pub struct ProfileV {
    pub display_name: Seq<char>,
    pub avatar: Seq<char>,
}

impl View for ProfileInfo {
    type V = ProfileV;

    open spec fn view(&self) -> ProfileV {
        ProfileV { display_name: self.display_name@, avatar: self.avatar@ }
    }
}

/// One user row: the key and the nullable current-fronter pointer.
pub struct UserRow {
    pub mxid: String,
    pub current_fronter: Option<String>,
}

/// Mathematical image of a user row.
#[verifier::ext_equal]
pub struct UserV {
    pub mxid: Seq<char>,
    pub fronter: Option<Seq<char>>,
}

impl View for UserRow {
    type V = UserV;

    open spec fn view(&self) -> UserV {
        UserV { mxid: self.mxid@, fronter: opt_view(self.current_fronter) }
    }
}

/// One ignored-room row.
pub struct IgnoredRow {
    pub mxid: String,
    pub room_id: String,
}

/// Mathematical image of an ignored-room row.
#[verifier::ext_equal]
pub struct IgnoredV {
    pub mxid: Seq<char>,
    pub room_id: Seq<char>,
}

impl View for IgnoredRow {
    type V = IgnoredV;

    open spec fn view(&self) -> IgnoredV {
        IgnoredV { mxid: self.mxid@, room_id: self.room_id@ }
    }
}

/// One read-message row: the room key and the last processed event.
pub struct ReadRow {
    pub room_id: String,
    pub event_id: String,
}

/// Mathematical image of a read-message row.
#[verifier::ext_equal]
pub struct ReadV {
    pub room_id: Seq<char>,
    pub event_id: Seq<char>,
}

impl View for ReadRow {
    type V = ReadV;

    open spec fn view(&self) -> ReadV {
        ReadV { room_id: self.room_id@, event_id: self.event_id@ }
    }
}

/// The whole store state, as row sequences.
#[verifier::ext_equal]
pub struct StoreV {
    pub users: Seq<UserV>,
    pub members: Seq<MemberV>,
    pub ignored: Seq<IgnoredV>,
    pub read: Seq<ReadV>,
}

/// Key of a user row.
pub open spec fn user_kf() -> spec_fn(UserV) -> Seq<char> {
    |r: UserV| r.mxid
}

/// Key of a member row.
pub open spec fn member_kf() -> spec_fn(MemberV) -> (Seq<char>, Seq<char>) {
    |m: MemberV| (m.mxid, m.name)
}

/// Key of an ignored-room row.
pub open spec fn ignored_kf() -> spec_fn(IgnoredV) -> (Seq<char>, Seq<char>) {
    |r: IgnoredV| (r.mxid, r.room_id)
}

/// Key of a read-message row.
pub open spec fn read_kf() -> spec_fn(ReadV) -> Seq<char> {
    |r: ReadV| r.room_id
}

/// The user row keyed `u`, if any.
pub open spec fn user_lookup(us: Seq<UserV>, u: Seq<char>) -> Option<UserV> {
    get_by_key(us, user_kf(), u)
}

/// A user row keyed `u` exists.
pub open spec fn has_user(us: Seq<UserV>, u: Seq<char>) -> bool {
    has_key(us, user_kf(), u)
}

/// The member row keyed `(u, n)`, if any.
pub open spec fn member_lookup(ms: Seq<MemberV>, u: Seq<char>, n: Seq<char>) -> Option<MemberV> {
    get_by_key(ms, member_kf(), (u, n))
}

/// A member row keyed `(u, n)` exists.
pub open spec fn has_member(ms: Seq<MemberV>, u: Seq<char>, n: Seq<char>) -> bool {
    has_key(ms, member_kf(), (u, n))
}

/// The room `r` is in user `u`'s ignored set.
pub open spec fn is_ignored(igs: Seq<IgnoredV>, u: Seq<char>, r: Seq<char>) -> bool {
    has_key(igs, ignored_kf(), (u, r))
}

/// The last event recorded for room `r`, if any.
pub open spec fn read_lookup(rs: Seq<ReadV>, r: Seq<char>) -> Option<Seq<char>> {
    match get_by_key(rs, read_kf(), r) {
        Some(row) => Some(row.event_id),
        None => None,
    }
}

/// Well-formedness: every table has pairwise-distinct keys.
pub open spec fn store_wf(s: StoreV) -> bool {
    &&& keys_distinct(s.users, user_kf())
    &&& keys_distinct(s.members, member_kf())
    &&& keys_distinct(s.ignored, ignored_kf())
    &&& keys_distinct(s.read, read_kf())
}

/// The identity store.
pub struct Store {
    users: Vec<UserRow>,
    members: Vec<Member>,
    ignored: Vec<IgnoredRow>,
    read: Vec<ReadRow>,
}

impl View for Store {
    type V = StoreV;

    closed spec fn view(&self) -> StoreV {
        StoreV {
            users: self.users@.map_values(|r: UserRow| r@),
            members: self.members@.map_values(|m: Member| m@),
            ignored: self.ignored@.map_values(|r: IgnoredRow| r@),
            read: self.read@.map_values(|r: ReadRow| r@),
        }
    }
}

// Spec transitions.
/// `create_user`: insert the user row if it is new; idempotent.
pub open spec fn create_user_spec(s: StoreV, u: Seq<char>) -> StoreV {
    if has_user(s.users, u) {
        s
    } else {
        StoreV { users: s.users.push(UserV { mxid: u, fronter: None }), ..s }
    }
}

/// `ignore_room`: insert the pair if it is new; idempotent.
pub open spec fn ignore_room_spec(s: StoreV, u: Seq<char>, r: Seq<char>) -> StoreV {
    if is_ignored(s.ignored, u, r) {
        s
    } else {
        StoreV { ignored: s.ignored.push(IgnoredV { mxid: u, room_id: r }), ..s }
    }
}

/// `unignore_room`: delete the pair if present; idempotent.
pub open spec fn unignore_room_spec(s: StoreV, u: Seq<char>, r: Seq<char>) -> StoreV {
    match find_key(s.ignored, ignored_kf(), (u, r)) {
        Some(i) => StoreV { ignored: s.ignored.remove(i), ..s },
        None => s,
    }
}

/// `read_msgs`: record `e` as the last event of room `r`.
pub open spec fn read_msgs_spec(s: StoreV, r: Seq<char>, e: Seq<char>) -> StoreV {
    match find_key(s.read, read_kf(), r) {
        Some(i) => StoreV { read: s.read.update(i, ReadV { room_id: r, event_id: e }), ..s },
        None => StoreV { read: s.read.push(ReadV { room_id: r, event_id: e }), ..s },
    }
}

/// What `read_msgs` reports: the pair was already recorded.
pub open spec fn read_msgs_seen(s: StoreV, r: Seq<char>, e: Seq<char>) -> bool {
    read_lookup(s.read, r) == Some(e)
}

impl Store {
    /// Pairwise-distinct keys in every table; established by `new` and
    /// preserved by every operation.
    pub open spec fn inv(&self) -> bool {
        store_wf(self@)
    }

    /// An empty store.
    pub fn new() -> (s: Store)
        ensures
            s.inv(),
            s@.users == Seq::<UserV>::empty(),
            s@.members == Seq::<MemberV>::empty(),
            s@.ignored == Seq::<IgnoredV>::empty(),
            s@.read == Seq::<ReadV>::empty(),
    {
        let s = Store { users: Vec::new(), members: Vec::new(), ignored: Vec::new(), read: Vec::new() };
        proof {
            assert(s@.users =~= Seq::<UserV>::empty());
            assert(s@.members =~= Seq::<MemberV>::empty());
            assert(s@.ignored =~= Seq::<IgnoredV>::empty());
            assert(s@.read =~= Seq::<ReadV>::empty());
        }
        s
    }

    /// Index of the user row keyed `mxid`.
    fn find_user_idx(&self, mxid: &str) -> (r: Option<usize>)
        ensures
            match r {
                Some(i) => i < self.users@.len() && Some(i as int) == find_key(
                    self@.users,
                    user_kf(),
                    mxid@,
                ),
                None => find_key(self@.users, user_kf(), mxid@) is None,
            },
    {
        let n = self.users.len();
        let mut i: usize = 0;
        while i < n
            invariant
                i <= n,
                n == self.users@.len(),
                find_key(self@.users, user_kf(), mxid@) == find_key_from(
                    self@.users,
                    user_kf(),
                    mxid@,
                    i as int,
                ),
            decreases n - i,
        {
            if str_eq(self.users[i].mxid.as_str(), mxid) {
                assert(user_kf()(self@.users[i as int]) == mxid@);
                return Some(i);
            }
            assert(user_kf()(self@.users[i as int]) != mxid@);
            i += 1;
        }
        None
    }

    /// Index of the ignored-room row keyed `(mxid, room_id)`.
    fn find_ignored_idx(&self, mxid: &str, room_id: &str) -> (r: Option<usize>)
        ensures
            match r {
                Some(i) => i < self.ignored@.len() && Some(i as int) == find_key(
                    self@.ignored,
                    ignored_kf(),
                    (mxid@, room_id@),
                ),
                None => find_key(self@.ignored, ignored_kf(), (mxid@, room_id@)) is None,
            },
    {
        let n = self.ignored.len();
        let mut i: usize = 0;
        while i < n
            invariant
                i <= n,
                n == self.ignored@.len(),
                find_key(self@.ignored, ignored_kf(), (mxid@, room_id@)) == find_key_from(
                    self@.ignored,
                    ignored_kf(),
                    (mxid@, room_id@),
                    i as int,
                ),
            decreases n - i,
        {
            if str_eq(self.ignored[i].mxid.as_str(), mxid) && str_eq(
                self.ignored[i].room_id.as_str(),
                room_id,
            ) {
                assert(ignored_kf()(self@.ignored[i as int]) == (mxid@, room_id@));
                return Some(i);
            }
            assert(ignored_kf()(self@.ignored[i as int]) != (mxid@, room_id@));
            i += 1;
        }
        None
    }

    /// Index of the read-message row keyed `room_id`.
    fn find_read_idx(&self, room_id: &str) -> (r: Option<usize>)
        ensures
            match r {
                Some(i) => i < self.read@.len() && Some(i as int) == find_key(
                    self@.read,
                    read_kf(),
                    room_id@,
                ),
                None => find_key(self@.read, read_kf(), room_id@) is None,
            },
    {
        let n = self.read.len();
        let mut i: usize = 0;
        while i < n
            invariant
                i <= n,
                n == self.read@.len(),
                find_key(self@.read, read_kf(), room_id@) == find_key_from(
                    self@.read,
                    read_kf(),
                    room_id@,
                    i as int,
                ),
            decreases n - i,
        {
            if str_eq(self.read[i].room_id.as_str(), room_id) {
                assert(read_kf()(self@.read[i as int]) == room_id@);
                return Some(i);
            }
            assert(read_kf()(self@.read[i as int]) != room_id@);
            i += 1;
        }
        None
    }

    /// Idempotent user insert; reports whether a new row was created.
    pub fn create_user(&mut self, mxid: &str) -> (created: bool)
        requires
            old(self).inv(),
        ensures
            final(self).inv(),
            final(self)@ == create_user_spec(old(self)@, mxid@),
            created == !has_user(old(self)@.users, mxid@),
    {
        match self.find_user_idx(mxid) {
            Some(_) => false,
            None => {
                let ghost prev = self@;
                self.users.push(UserRow { mxid: mxid.to_owned(), current_fronter: None });
                proof {
                    assert(self@.users =~= prev.users.push(UserV { mxid: mxid@, fronter: None }));
                    assert(self@ =~= create_user_spec(prev, mxid@));
                    lemma_push_distinct(prev.users, user_kf(), UserV { mxid: mxid@, fronter: None });
                }
                true
            },
        }
    }

    /// All user ids, in row order.
    pub fn get_users(&self) -> (r: Vec<String>)
        ensures
            r.deep_view() == self@.users.map_values(|u: UserV| u.mxid),
    {
        let mut r: Vec<String> = Vec::new();
        let n = self.users.len();
        let mut i: usize = 0;
        while i < n
            invariant
                i <= n,
                n == self.users@.len(),
                r.deep_view() == self@.users.take(i as int).map_values(|u: UserV| u.mxid),
            decreases n - i,
        {
            let ghost prev = r.deep_view();
            r.push(self.users[i].mxid.clone());
            proof {
                assert(r.deep_view() =~= prev.push(self.users@[i as int].mxid@));
                assert(self@.users.take(i + 1).map_values(|u: UserV| u.mxid) =~= self@.users.take(
                    i as int,
                ).map_values(|u: UserV| u.mxid).push(self@.users[i as int].mxid));
            }
            i += 1;
        }
        proof {
            assert(self@.users.take(n as int) =~= self@.users);
        }
        r
    }

    /// Is `room_id` in `mxid`'s ignored set?
    pub fn is_room_ignored(&self, mxid: &str, room_id: &str) -> (r: bool)
        ensures
            r == is_ignored(self@.ignored, mxid@, room_id@),
    {
        self.find_ignored_idx(mxid, room_id).is_some()
    }

    /// Add `room_id` to `mxid`'s ignored set; idempotent.
    pub fn ignore_room(&mut self, mxid: &str, room_id: &str)
        requires
            old(self).inv(),
        ensures
            final(self).inv(),
            final(self)@ == ignore_room_spec(old(self)@, mxid@, room_id@),
    {
        match self.find_ignored_idx(mxid, room_id) {
            Some(_) => {},
            None => {
                let ghost prev = self@;
                self.ignored.push(IgnoredRow { mxid: mxid.to_owned(), room_id: room_id.to_owned() });
                proof {
                    let row = IgnoredV { mxid: mxid@, room_id: room_id@ };
                    assert(self@.ignored =~= prev.ignored.push(row));
                    assert(self@ =~= ignore_room_spec(prev, mxid@, room_id@));
                    lemma_push_distinct(prev.ignored, ignored_kf(), row);
                }
            },
        }
    }

    /// Remove `room_id` from `mxid`'s ignored set; idempotent.
    pub fn unignore_room(&mut self, mxid: &str, room_id: &str)
        requires
            old(self).inv(),
        ensures
            final(self).inv(),
            final(self)@ == unignore_room_spec(old(self)@, mxid@, room_id@),
    {
        match self.find_ignored_idx(mxid, room_id) {
            Some(i) => {
                let ghost prev = self@;
                self.ignored.remove(i);
                proof {
                    assert(self@.ignored =~= prev.ignored.remove(i as int));
                    assert(self@ =~= unignore_room_spec(prev, mxid@, room_id@));
                    lemma_get_by_key_remove(prev.ignored, ignored_kf(), i as int, (mxid@, room_id@));
                }
            },
            None => {},
        }
    }

    /// Flip the ignored state of `room_id` for `mxid`; reports the new state.
    pub fn toggle_ignored(&mut self, mxid: &str, room_id: &str) -> (now_ignored: bool)
        requires
            old(self).inv(),
        ensures
            final(self).inv(),
            now_ignored == !is_ignored(old(self)@.ignored, mxid@, room_id@),
            final(self)@ == if is_ignored(old(self)@.ignored, mxid@, room_id@) {
                unignore_room_spec(old(self)@, mxid@, room_id@)
            } else {
                ignore_room_spec(old(self)@, mxid@, room_id@)
            },
    {
        if self.is_room_ignored(mxid, room_id) {
            self.unignore_room(mxid, room_id);
            false
        } else {
            self.ignore_room(mxid, room_id);
            true
        }
    }

    /// Room ids of `mxid`'s ignored rooms, in row order.
    pub fn list_ignored(&self, mxid: &str) -> (r: Vec<String>)
        ensures
            r.deep_view() == ignored_rooms_of(self@.ignored, mxid@),
    {
        let mut r: Vec<String> = Vec::new();
        let n = self.ignored.len();
        let mut i: usize = 0;
        while i < n
            invariant
                i <= n,
                n == self.ignored@.len(),
                r.deep_view() == ignored_rooms_of(self@.ignored.take(i as int), mxid@),
            decreases n - i,
        {
            proof {
                assert(self@.ignored.take(i + 1).drop_last() =~= self@.ignored.take(i as int));
                assert(self@.ignored.take(i + 1).last() == self@.ignored[i as int]);
            }
            if str_eq(self.ignored[i].mxid.as_str(), mxid) {
                let ghost prev = r.deep_view();
                r.push(self.ignored[i].room_id.clone());
                proof {
                    assert(r.deep_view() =~= prev.push(self@.ignored[i as int].room_id));
                }
            }
            i += 1;
        }
        proof {
            assert(self@.ignored.take(n as int) =~= self@.ignored);
        }
        r
    }

    /// Record that event `event_id` of room `room_id` is being processed;
    /// reports whether that exact pair had already been recorded.
    pub fn read_msgs(&mut self, room_id: &str, event_id: &str) -> (already_seen: bool)
        requires
            old(self).inv(),
        ensures
            final(self).inv(),
            already_seen == read_msgs_seen(old(self)@, room_id@, event_id@),
            final(self)@ == if already_seen {
                old(self)@
            } else {
                read_msgs_spec(old(self)@, room_id@, event_id@)
            },
    {
        match self.find_read_idx(room_id) {
            Some(i) => {
                if str_eq(self.read[i].event_id.as_str(), event_id) {
                    true
                } else {
                    let ghost prev = self@;
                    self.read.set(i, ReadRow { room_id: room_id.to_owned(), event_id: event_id.to_owned() });
                    proof {
                        let row = ReadV { room_id: room_id@, event_id: event_id@ };
                        lemma_find_key(prev.read, read_kf(), room_id@);
                        assert(read_kf()(prev.read[i as int]) == room_id@);
                        assert(self@.read =~= prev.read.update(i as int, row));
                        assert(self@ =~= read_msgs_spec(prev, room_id@, event_id@));
                        lemma_update_distinct(prev.read, read_kf(), i as int, row);
                    }
                    false
                }
            },
            None => {
                let ghost prev = self@;
                self.read.push(ReadRow { room_id: room_id.to_owned(), event_id: event_id.to_owned() });
                proof {
                    let row = ReadV { room_id: room_id@, event_id: event_id@ };
                    assert(self@.read =~= prev.read.push(row));
                    assert(self@ =~= read_msgs_spec(prev, room_id@, event_id@));
                    lemma_push_distinct(prev.read, read_kf(), row);
                }
                false
            },
        }
    }
}

/// Room ids of `u`'s ignored rooms, in row order.
pub open spec fn ignored_rooms_of(igs: Seq<IgnoredV>, u: Seq<char>) -> Seq<Seq<char>>
    decreases igs.len(),
{
    if igs.len() == 0 {
        Seq::empty()
    } else if igs.last().mxid == u {
        ignored_rooms_of(igs.drop_last(), u).push(igs.last().room_id)
    } else {
        ignored_rooms_of(igs.drop_last(), u)
    }
}

/// Names of `u`'s members, in row order.
pub open spec fn member_names_of(ms: Seq<MemberV>, u: Seq<char>) -> Seq<Seq<char>>
    decreases ms.len(),
{
    if ms.len() == 0 {
        Seq::empty()
    } else if ms.last().mxid == u {
        member_names_of(ms.drop_last(), u).push(ms.last().name)
    } else {
        member_names_of(ms.drop_last(), u)
    }
}

/// A member row with nothing configured yet.
pub open spec fn blank_member(u: Seq<char>, n: Seq<char>) -> MemberV {
    MemberV {
        mxid: u,
        name: n,
        display_name: None,
        avatar: None,
        activators: Seq::empty(),
        track_account: false,
    }
}

/// `create_member`: insert a blank row, refused when the name is taken.
pub open spec fn create_member_spec(s: StoreV, u: Seq<char>, n: Seq<char>) -> StoreV {
    if has_member(s.members, u, n) {
        s
    } else {
        StoreV { members: s.members.push(blank_member(u, n)), ..s }
    }
}

/// Null the current-fronter pointer of `u` where it equals `n`.
pub open spec fn clear_fronter_if(us: Seq<UserV>, u: Seq<char>, n: Seq<char>) -> Seq<UserV> {
    match find_key(us, user_kf(), u) {
        Some(i) => if us[i].fronter == Some(n) {
            us.update(i, UserV { mxid: u, fronter: None })
        } else {
            us
        },
        None => us,
    }
}

/// `remove_member`: delete the row and null a fronter pointer naming it, in
/// the same logical operation.
pub open spec fn remove_member_spec(s: StoreV, u: Seq<char>, n: Seq<char>) -> StoreV {
    let ms = match find_key(s.members, member_kf(), (u, n)) {
        Some(i) => s.members.remove(i),
        None => s.members,
    };
    StoreV { members: ms, users: clear_fronter_if(s.users, u, n), ..s }
}

/// Re-point the current-fronter pointer of `u` from `old_n` to `new_n`
/// where it names `old_n`.
pub open spec fn repoint_fronter(
    us: Seq<UserV>,
    u: Seq<char>,
    old_n: Seq<char>,
    new_n: Seq<char>,
) -> Seq<UserV> {
    match find_key(us, user_kf(), u) {
        Some(i) => if us[i].fronter == Some(old_n) {
            us.update(i, UserV { mxid: u, fronter: Some(new_n) })
        } else {
            us
        },
        None => us,
    }
}

/// `rename_member`: re-key a row, carrying a current-fronter pointer that
/// named the old name along to the new one, in the same logical operation;
/// a no-op when the old name is absent.
pub open spec fn rename_member_spec(s: StoreV, u: Seq<char>, old_n: Seq<char>, new_n: Seq<char>) -> StoreV {
    match find_key(s.members, member_kf(), (u, old_n)) {
        Some(i) => if old_n == new_n {
            s
        } else {
            StoreV {
                members: s.members.remove(i).push(MemberV { name: new_n, ..s.members[i] }),
                users: repoint_fronter(s.users, u, old_n, new_n),
                ..s
            }
        },
        None => s,
    }
}

/// When `rename_member` succeeds: always, except when the new name is taken
/// by another row of the same user.
pub open spec fn rename_member_ok(s: StoreV, u: Seq<char>, old_n: Seq<char>, new_n: Seq<char>) -> bool {
    old_n == new_n || !has_member(s.members, u, old_n) || !has_member(s.members, u, new_n)
}

/// Update the first row keyed `(u, n)` by `f`; a no-op when absent.
pub open spec fn update_member_spec(
    s: StoreV,
    u: Seq<char>,
    n: Seq<char>,
    f: spec_fn(MemberV) -> MemberV,
) -> StoreV {
    match find_key(s.members, member_kf(), (u, n)) {
        Some(i) => StoreV { members: s.members.update(i, f(s.members[i])), ..s },
        None => s,
    }
}

/// Drop every occurrence of `x`.
pub open spec fn remove_all(xs: Seq<Seq<char>>, x: Seq<char>) -> Seq<Seq<char>>
    decreases xs.len(),
{
    if xs.len() == 0 {
        xs
    } else if xs.last() == x {
        remove_all(xs.drop_last(), x)
    } else {
        remove_all(xs.drop_last(), x).push(xs.last())
    }
}

/// `set_current_fronter`: point `u` at `n` (or clear it); a no-op when the
/// user row is absent.
pub open spec fn set_current_fronter_spec(s: StoreV, u: Seq<char>, n: Option<Seq<char>>) -> StoreV {
    match find_key(s.users, user_kf(), u) {
        Some(i) => StoreV { users: s.users.update(i, UserV { mxid: u, fronter: n }), ..s },
        None => s,
    }
}

/// What `get_current_fronter` reports: the join of the fronter pointer with
/// the member table; absent when the pointer is null or broken.
pub open spec fn current_fronter_spec(s: StoreV, u: Seq<char>) -> Option<MemberV> {
    match user_lookup(s.users, u) {
        Some(row) => match row.fronter {
            Some(n) => member_lookup(s.members, u, n),
            None => None,
        },
        None => None,
    }
}

/// Index of the first member of `u` whose activators contain `a`, at or
/// after `i`.
pub open spec fn activator_match_from(ms: Seq<MemberV>, u: Seq<char>, a: Seq<char>, i: int) -> Option<int>
    decreases ms.len() - i,
{
    if i < 0 || i >= ms.len() {
        None
    } else if ms[i].mxid == u && ms[i].activators.contains(a) {
        Some(i)
    } else {
        activator_match_from(ms, u, a, i + 1)
    }
}

/// Index of the first member of `u` whose activators contain `a`.
pub open spec fn activator_match(ms: Seq<MemberV>, u: Seq<char>, a: Seq<char>) -> Option<int> {
    activator_match_from(ms, u, a, 0)
}

/// What `set_fronter_from_activator` reports: the matched member's name,
/// provided the user row exists.
pub open spec fn saf_result(s: StoreV, u: Seq<char>, a: Seq<char>) -> Option<Seq<char>> {
    if has_user(s.users, u) {
        match activator_match(s.members, u, a) {
            Some(i) => Some(s.members[i].name),
            None => None,
        }
    } else {
        None
    }
}

/// `set_fronter_from_activator`: atomically point the fronter at the matched
/// member; a no-op when nothing matches.
pub open spec fn saf_spec(s: StoreV, u: Seq<char>, a: Seq<char>) -> StoreV {
    match saf_result(s, u, a) {
        Some(n) => set_current_fronter_spec(s, u, Some(n)),
        None => s,
    }
}

/// The overwrite `update_tracking_member` applies to one row.
pub open spec fn track_update(m: MemberV, u: Seq<char>, p: ProfileV) -> MemberV {
    if m.mxid == u && m.track_account {
        MemberV { display_name: Some(p.display_name), avatar: Some(p.avatar), ..m }
    } else {
        m
    }
}

/// `update_tracking_member`: overwrite every tracking member of `u` with the
/// account profile.
pub open spec fn update_tracking_spec(s: StoreV, u: Seq<char>, p: ProfileV) -> StoreV {
    StoreV { members: s.members.map_values(|m: MemberV| track_update(m, u, p)), ..s }
}

pub(crate) fn clone_opt_string(o: &Option<String>) -> (r: Option<String>)
    ensures
        r == *o,
{
    match o {
        Some(s) => Some(s.clone()),
        None => None,
    }
}

fn clone_string_vec(v: &Vec<String>) -> (r: Vec<String>)
    ensures
        r@ == v@,
{
    let mut r: Vec<String> = Vec::new();
    let n = v.len();
    let mut i: usize = 0;
    while i < n
        invariant
            i <= n,
            n == v@.len(),
            r@ == v@.take(i as int),
        decreases n - i,
    {
        r.push(v[i].clone());
        proof {
            assert(r@ =~= v@.take(i + 1));
        }
        i += 1;
    }
    proof {
        assert(v@.take(n as int) =~= v@);
    }
    r
}

/// An owned copy of a member row, with the same view.
pub(crate) fn clone_member(m: &Member) -> (r: Member)
    ensures
        r@ == m@,
{
    let r = Member {
        mxid: m.mxid.clone(),
        name: m.name.clone(),
        display_name: clone_opt_string(&m.display_name),
        avatar: clone_opt_string(&m.avatar),
        activators: clone_string_vec(&m.activators),
        track_account: m.track_account,
    };
    proof {
        assert(r@ =~= m@);
    }
    r
}

fn vec_contains_str(v: &Vec<String>, x: &str) -> (r: bool)
    ensures
        r == v.deep_view().contains(x@),
{
    let n = v.len();
    let mut i: usize = 0;
    while i < n
        invariant
            i <= n,
            n == v@.len(),
            forall|j: int| 0 <= j < i ==> v.deep_view()[j] != x@,
        decreases n - i,
    {
        if str_eq(v[i].as_str(), x) {
            assert(v.deep_view()[i as int] == x@);
            return true;
        }
        assert(v.deep_view()[i as int] != x@);
        i += 1;
    }
    assert(!v.deep_view().contains(x@));
    false
}

impl Store {
    /// Index of the member row keyed `(mxid, name)`.
    fn find_member_idx(&self, mxid: &str, name: &str) -> (r: Option<usize>)
        ensures
            match r {
                Some(i) => i < self.members@.len() && Some(i as int) == find_key(
                    self@.members,
                    member_kf(),
                    (mxid@, name@),
                ),
                None => find_key(self@.members, member_kf(), (mxid@, name@)) is None,
            },
    {
        let n = self.members.len();
        let mut i: usize = 0;
        while i < n
            invariant
                i <= n,
                n == self.members@.len(),
                find_key(self@.members, member_kf(), (mxid@, name@)) == find_key_from(
                    self@.members,
                    member_kf(),
                    (mxid@, name@),
                    i as int,
                ),
            decreases n - i,
        {
            if str_eq(self.members[i].mxid.as_str(), mxid) && str_eq(
                self.members[i].name.as_str(),
                name,
            ) {
                assert(member_kf()(self@.members[i as int]) == (mxid@, name@));
                return Some(i);
            }
            assert(member_kf()(self@.members[i as int]) != (mxid@, name@));
            i += 1;
        }
        None
    }

    /// Create a blank member; fails with `UniqueViolation` when the name is
    /// already taken for that user.
    pub fn create_member(&mut self, mxid: &str, name: &str) -> (r: Result<(), StoreError>)
        requires
            old(self).inv(),
        ensures
            final(self).inv(),
            final(self)@ == create_member_spec(old(self)@, mxid@, name@),
            r is Ok <==> !has_member(old(self)@.members, mxid@, name@),
            r is Err ==> r == Err::<(), StoreError>(StoreError::UniqueViolation),
    {
        match self.find_member_idx(mxid, name) {
            Some(_) => Err(StoreError::UniqueViolation),
            None => {
                let ghost prev = self@;
                self.members.push(Member {
                    mxid: mxid.to_owned(),
                    name: name.to_owned(),
                    display_name: None,
                    avatar: None,
                    activators: Vec::new(),
                    track_account: false,
                });
                proof {
                    assert(self.members@.last()@ =~= blank_member(mxid@, name@));
                    assert(self@.members =~= prev.members.push(blank_member(mxid@, name@)));
                    assert(self@ =~= create_member_spec(prev, mxid@, name@));
                    lemma_push_distinct(prev.members, member_kf(), blank_member(mxid@, name@));
                }
                Ok(())
            },
        }
    }

    /// Does the member `(mxid, name)` exist?
    pub fn member_exists(&self, mxid: &str, name: &str) -> (r: bool)
        ensures
            r == has_member(self@.members, mxid@, name@),
    {
        self.find_member_idx(mxid, name).is_some()
    }

    /// An owned copy of the member `(mxid, name)`.
    pub fn get_member(&self, mxid: &str, name: &str) -> (r: Result<Member, StoreError>)
        ensures
            match r {
                Ok(m) => member_lookup(self@.members, mxid@, name@) == Some(m@),
                Err(e) => member_lookup(self@.members, mxid@, name@) is None && e
                    == StoreError::NotFound,
            },
    {
        match self.find_member_idx(mxid, name) {
            Some(i) => Ok(clone_member(&self.members[i])),
            None => Err(StoreError::NotFound),
        }
    }

    /// Names of `mxid`'s members, in row order.
    pub fn list_members(&self, mxid: &str) -> (r: Vec<String>)
        ensures
            r.deep_view() == member_names_of(self@.members, mxid@),
    {
        let mut r: Vec<String> = Vec::new();
        let n = self.members.len();
        let mut i: usize = 0;
        while i < n
            invariant
                i <= n,
                n == self.members@.len(),
                r.deep_view() == member_names_of(self@.members.take(i as int), mxid@),
            decreases n - i,
        {
            proof {
                assert(self@.members.take(i + 1).drop_last() =~= self@.members.take(i as int));
                assert(self@.members.take(i + 1).last() == self@.members[i as int]);
            }
            if str_eq(self.members[i].mxid.as_str(), mxid) {
                let ghost prev = r.deep_view();
                r.push(self.members[i].name.clone());
                proof {
                    assert(r.deep_view() =~= prev.push(self@.members[i as int].name));
                }
            }
            i += 1;
        }
        proof {
            assert(self@.members.take(n as int) =~= self@.members);
        }
        r
    }

    /// Delete the member and null any fronter pointer naming it.
    pub fn remove_member(&mut self, mxid: &str, name: &str)
        requires
            old(self).inv(),
        ensures
            final(self).inv(),
            final(self)@ == remove_member_spec(old(self)@, mxid@, name@),
    {
        let ghost prev = self@;
        match self.find_member_idx(mxid, name) {
            Some(i) => {
                self.members.remove(i);
                proof {
                    assert(self@.members =~= prev.members.remove(i as int));
                    lemma_get_by_key_remove(prev.members, member_kf(), i as int, (mxid@, name@));
                }
            },
            None => {},
        }
        let ghost mid = self@;
        match self.find_user_idx(mxid) {
            Some(j) => {
                let clear = match &self.users[j].current_fronter {
                    Some(f) => str_eq(f.as_str(), name),
                    None => false,
                };
                if clear {
                    let row = UserRow { mxid: self.users[j].mxid.clone(), current_fronter: None };
                    proof {
                        lemma_find_key(mid.users, user_kf(), mxid@);
                    }
                    self.users.set(j, row);
                    proof {
                        assert(self@.users =~= mid.users.update(
                            j as int,
                            UserV { mxid: mxid@, fronter: None },
                        ));
                        lemma_update_distinct(
                            mid.users,
                            user_kf(),
                            j as int,
                            UserV { mxid: mxid@, fronter: None },
                        );
                    }
                }
            },
            None => {},
        }
        proof {
            assert(self@.users =~= clear_fronter_if(prev.users, mxid@, name@));
            assert(self@ =~= remove_member_spec(prev, mxid@, name@));
        }
    }

    /// Re-key a member, re-pointing a current-fronter pointer that named the
    /// old name at the new one; a no-op when the old name is absent, refused
    /// when the new name is taken. The renamed row moves to the end of the
    /// scan order.
    pub fn rename_member(&mut self, mxid: &str, old_name: &str, new_name: &str) -> (r: Result<
        (),
        StoreError,
    >)
        requires
            old(self).inv(),
        ensures
            final(self).inv(),
            r is Ok <==> rename_member_ok(old(self)@, mxid@, old_name@, new_name@),
            r is Ok ==> final(self)@ == rename_member_spec(old(self)@, mxid@, old_name@, new_name@),
            r is Err ==> final(self)@ == old(self)@ && r == Err::<(), StoreError>(
                StoreError::UniqueViolation,
            ),
    {
        let ghost prev = self@;
        match self.find_member_idx(mxid, old_name) {
            None => Ok(()),
            Some(i) => {
                if str_eq(old_name, new_name) {
                    return Ok(());
                }
                match self.find_member_idx(mxid, new_name) {
                    Some(_) => Err(StoreError::UniqueViolation),
                    None => {
                        let mut row = clone_member(&self.members[i]);
                        row.name = new_name.to_owned();
                        self.members.remove(i);
                        let ghost mid = self@;
                        proof {
                            lemma_get_by_key_remove(prev.members, member_kf(), i as int, (mxid@, new_name@));
                            assert(mid.members =~= prev.members.remove(i as int));
                            assert(!has_key(mid.members, member_kf(), (mxid@, new_name@)));
                        }
                        self.members.push(row);
                        proof {
                            lemma_find_key(prev.members, member_kf(), (mxid@, old_name@));
                            assert(member_kf()(prev.members[i as int]) == (mxid@, old_name@));
                            assert(prev.members[i as int].mxid == mxid@);
                            assert(row@ =~= MemberV { name: new_name@, ..prev.members[i as int] });
                            assert(member_kf()(row@) == (mxid@, new_name@));
                            assert(self@.members =~= mid.members.push(row@));
                            lemma_push_distinct(mid.members, member_kf(), row@);
                        }
                        let ghost mid2 = self@;
                        match self.find_user_idx(mxid) {
                            Some(j) => {
                                let repoint = match &self.users[j].current_fronter {
                                    Some(f) => str_eq(f.as_str(), old_name),
                                    None => false,
                                };
                                if repoint {
                                    let urow = UserRow {
                                        mxid: self.users[j].mxid.clone(),
                                        current_fronter: Some(new_name.to_owned()),
                                    };
                                    proof {
                                        lemma_find_key(mid2.users, user_kf(), mxid@);
                                    }
                                    self.users.set(j, urow);
                                    proof {
                                        let uv = UserV { mxid: mxid@, fronter: Some(new_name@) };
                                        assert(self@.users =~= mid2.users.update(j as int, uv));
                                        lemma_update_distinct(mid2.users, user_kf(), j as int, uv);
                                    }
                                }
                            },
                            None => {},
                        }
                        proof {
                            assert(self@.users =~= repoint_fronter(prev.users, mxid@, old_name@, new_name@));
                            assert(self@ =~= rename_member_spec(prev, mxid@, old_name@, new_name@));
                        }
                        Ok(())
                    },
                }
            },
        }
    }
}


impl Store {
    /// Set the display name of a member; a no-op when the member is absent.
    pub fn add_display_name(&mut self, mxid: &str, name: &str, display_name: &str)
        requires
            old(self).inv(),
        ensures
            final(self).inv(),
            final(self)@ == update_member_spec(
                old(self)@,
                mxid@,
                name@,
                |m: MemberV| MemberV { display_name: Some(display_name@), ..m },
            ),
    {
        match self.find_member_idx(mxid, name) {
            None => {},
            Some(i) => {
                let ghost prev = self@;
                let mut row = clone_member(&self.members[i]);
                row.display_name = Some(display_name.to_owned());
                proof {
                    lemma_find_key(prev.members, member_kf(), (mxid@, name@));
                }
                self.members.set(i, row);
                proof {
                    let f = |m: MemberV| MemberV { display_name: Some(display_name@), ..m };
                    assert(self.members@[i as int]@ =~= f(prev.members[i as int]));
                    assert(self@.members =~= prev.members.update(i as int, f(prev.members[i as int])));
                    assert(self@ =~= update_member_spec(prev, mxid@, name@, f));
                    lemma_update_distinct(prev.members, member_kf(), i as int, f(prev.members[i as int]));
                }
            },
        }
    }

    /// Clear the display name of a member; a no-op when the member is absent.
    pub fn remove_display_name(&mut self, mxid: &str, name: &str)
        requires
            old(self).inv(),
        ensures
            final(self).inv(),
            final(self)@ == update_member_spec(
                old(self)@,
                mxid@,
                name@,
                |m: MemberV| MemberV { display_name: None, ..m },
            ),
    {
        match self.find_member_idx(mxid, name) {
            None => {},
            Some(i) => {
                let ghost prev = self@;
                let mut row = clone_member(&self.members[i]);
                row.display_name = None;
                proof {
                    lemma_find_key(prev.members, member_kf(), (mxid@, name@));
                }
                self.members.set(i, row);
                proof {
                    let f = |m: MemberV| MemberV { display_name: None, ..m };
                    assert(self.members@[i as int]@ =~= f(prev.members[i as int]));
                    assert(self@.members =~= prev.members.update(i as int, f(prev.members[i as int])));
                    assert(self@ =~= update_member_spec(prev, mxid@, name@, f));
                    lemma_update_distinct(prev.members, member_kf(), i as int, f(prev.members[i as int]));
                }
            },
        }
    }

    /// Set the avatar of a member; a no-op when the member is absent.
    pub fn add_avatar(&mut self, mxid: &str, name: &str, avatar: &str)
        requires
            old(self).inv(),
        ensures
            final(self).inv(),
            final(self)@ == update_member_spec(
                old(self)@,
                mxid@,
                name@,
                |m: MemberV| MemberV { avatar: Some(avatar@), ..m },
            ),
    {
        match self.find_member_idx(mxid, name) {
            None => {},
            Some(i) => {
                let ghost prev = self@;
                let mut row = clone_member(&self.members[i]);
                row.avatar = Some(avatar.to_owned());
                proof {
                    lemma_find_key(prev.members, member_kf(), (mxid@, name@));
                }
                self.members.set(i, row);
                proof {
                    let f = |m: MemberV| MemberV { avatar: Some(avatar@), ..m };
                    assert(self.members@[i as int]@ =~= f(prev.members[i as int]));
                    assert(self@.members =~= prev.members.update(i as int, f(prev.members[i as int])));
                    assert(self@ =~= update_member_spec(prev, mxid@, name@, f));
                    lemma_update_distinct(prev.members, member_kf(), i as int, f(prev.members[i as int]));
                }
            },
        }
    }

    /// Clear the avatar of a member; a no-op when the member is absent.
    pub fn remove_avatar(&mut self, mxid: &str, name: &str)
        requires
            old(self).inv(),
        ensures
            final(self).inv(),
            final(self)@ == update_member_spec(
                old(self)@,
                mxid@,
                name@,
                |m: MemberV| MemberV { avatar: None, ..m },
            ),
    {
        match self.find_member_idx(mxid, name) {
            None => {},
            Some(i) => {
                let ghost prev = self@;
                let mut row = clone_member(&self.members[i]);
                row.avatar = None;
                proof {
                    lemma_find_key(prev.members, member_kf(), (mxid@, name@));
                }
                self.members.set(i, row);
                proof {
                    let f = |m: MemberV| MemberV { avatar: None, ..m };
                    assert(self.members@[i as int]@ =~= f(prev.members[i as int]));
                    assert(self@.members =~= prev.members.update(i as int, f(prev.members[i as int])));
                    assert(self@ =~= update_member_spec(prev, mxid@, name@, f));
                    lemma_update_distinct(prev.members, member_kf(), i as int, f(prev.members[i as int]));
                }
            },
        }
    }

    /// Append an activator to a member; a no-op when the member is absent.
    /// Duplicates are kept, as the array append of the backing table does.
    pub fn add_activator(&mut self, mxid: &str, name: &str, activator: &str)
        requires
            old(self).inv(),
        ensures
            final(self).inv(),
            final(self)@ == update_member_spec(
                old(self)@,
                mxid@,
                name@,
                |m: MemberV| MemberV { activators: m.activators.push(activator@), ..m },
            ),
    {
        match self.find_member_idx(mxid, name) {
            None => {},
            Some(i) => {
                let ghost prev = self@;
                let mut row = clone_member(&self.members[i]);
                row.activators.push(activator.to_owned());
                proof {
                    lemma_find_key(prev.members, member_kf(), (mxid@, name@));
                }
                self.members.set(i, row);
                proof {
                    let f = |m: MemberV| MemberV { activators: m.activators.push(activator@), ..m };
                    assert(self.members@[i as int]@.activators =~= prev.members[i as int].activators.push(activator@));
                    assert(self.members@[i as int]@ =~= f(prev.members[i as int]));
                    assert(self@.members =~= prev.members.update(i as int, f(prev.members[i as int])));
                    assert(self@ =~= update_member_spec(prev, mxid@, name@, f));
                    lemma_update_distinct(prev.members, member_kf(), i as int, f(prev.members[i as int]));
                }
            },
        }
    }

    /// Remove every occurrence of an activator from a member; a no-op when
    /// the member is absent.
    pub fn remove_activator(&mut self, mxid: &str, name: &str, activator: &str)
        requires
            old(self).inv(),
        ensures
            final(self).inv(),
            final(self)@ == update_member_spec(
                old(self)@,
                mxid@,
                name@,
                |m: MemberV| MemberV { activators: remove_all(m.activators, activator@), ..m },
            ),
    {
        match self.find_member_idx(mxid, name) {
            None => {},
            Some(i) => {
                let ghost prev = self@;
                let mut row = clone_member(&self.members[i]);
                let kept = filter_out_str(&row.activators, activator);
                row.activators = kept;
                proof {
                    lemma_find_key(prev.members, member_kf(), (mxid@, name@));
                }
                self.members.set(i, row);
                proof {
                    let f = |m: MemberV| MemberV {
                        activators: remove_all(m.activators, activator@),
                        ..m
                    };
                    assert(self.members@[i as int]@ =~= f(prev.members[i as int]));
                    assert(self@.members =~= prev.members.update(i as int, f(prev.members[i as int])));
                    assert(self@ =~= update_member_spec(prev, mxid@, name@, f));
                    lemma_update_distinct(prev.members, member_kf(), i as int, f(prev.members[i as int]));
                }
            },
        }
    }

    /// Flip `track_account`; fails with `NotFound` when the member is absent.
    /// Reports the new value.
    pub fn toggle_tracking(&mut self, mxid: &str, name: &str) -> (r: Result<bool, StoreError>)
        requires
            old(self).inv(),
        ensures
            final(self).inv(),
            r is Ok <==> has_member(old(self)@.members, mxid@, name@),
            r is Err ==> r == Err::<bool, StoreError>(StoreError::NotFound) && final(self)@ == old(
                self,
            )@,
            r matches Ok(v) ==> {
                &&& member_lookup(old(self)@.members, mxid@, name@) matches Some(m) && v
                    == !m.track_account
                &&& final(self)@ == update_member_spec(
                    old(self)@,
                    mxid@,
                    name@,
                    |m: MemberV| MemberV { track_account: !m.track_account, ..m },
                )
            },
    {
        match self.find_member_idx(mxid, name) {
            None => Err(StoreError::NotFound),
            Some(i) => {
                let ghost prev = self@;
                let mut row = clone_member(&self.members[i]);
                let new_state = !row.track_account;
                row.track_account = new_state;
                proof {
                    lemma_find_key(prev.members, member_kf(), (mxid@, name@));
                }
                self.members.set(i, row);
                proof {
                    let f = |m: MemberV| MemberV { track_account: !m.track_account, ..m };
                    assert(self.members@[i as int]@ =~= f(prev.members[i as int]));
                    assert(self@.members =~= prev.members.update(i as int, f(prev.members[i as int])));
                    assert(self@ =~= update_member_spec(prev, mxid@, name@, f));
                    lemma_update_distinct(prev.members, member_kf(), i as int, f(prev.members[i as int]));
                }
                Ok(new_state)
            },
        }
    }

    /// Point `mxid`'s fronter at `name`, or clear it; a no-op when the user
    /// row is absent. The name is not validated against the member table
    /// (the backing UPDATE has no such check); a pointer to a missing
    /// member reads as absent through `get_current_fronter`.
    pub fn set_current_fronter(&mut self, mxid: &str, name: Option<&str>)
        requires
            old(self).inv(),
        ensures
            final(self).inv(),
            final(self)@ == set_current_fronter_spec(
                old(self)@,
                mxid@,
                match name {
                    Some(n) => Some(n@),
                    None => None,
                },
            ),
    {
        match self.find_user_idx(mxid) {
            None => {},
            Some(j) => {
                let ghost prev = self@;
                let fr: Option<String> = match name {
                    Some(n) => Some(n.to_owned()),
                    None => None,
                };
                let row = UserRow { mxid: mxid.to_owned(), current_fronter: fr };
                proof {
                    lemma_find_key(prev.users, user_kf(), mxid@);
                }
                self.users.set(j, row);
                proof {
                    let ghost nv: Option<Seq<char>> = match name {
                        Some(n) => Some(n@),
                        None => None,
                    };
                    assert(self@.users =~= prev.users.update(j as int, UserV { mxid: mxid@, fronter: nv }));
                    assert(self@ =~= set_current_fronter_spec(prev, mxid@, nv));
                    lemma_update_distinct(prev.users, user_kf(), j as int, UserV { mxid: mxid@, fronter: nv });
                }
            },
        }
    }

    /// The member the fronter pointer names, absent when the pointer is null
    /// or broken.
    pub fn get_current_fronter(&self, mxid: &str) -> (r: Option<Member>)
        ensures
            match r {
                Some(m) => current_fronter_spec(self@, mxid@) == Some(m@),
                None => current_fronter_spec(self@, mxid@) is None,
            },
    {
        match self.find_user_idx(mxid) {
            None => None,
            Some(j) => {
                proof {
                    lemma_find_key(self@.users, user_kf(), mxid@);
                }
                let fr = clone_opt_string(&self.users[j].current_fronter);
                match fr {
                    None => None,
                    Some(n) => match self.find_member_idx(mxid, n.as_str()) {
                        Some(i) => Some(clone_member(&self.members[i])),
                        None => None,
                    },
                }
            },
        }
    }

    /// Atomically find the first member of `mxid` whose activators contain
    /// `activator`, point the fronter at it, and report its name; a no-op
    /// reporting absent when nothing matches or the user row is missing.
    pub fn set_fronter_from_activator(&mut self, mxid: &str, activator: &str) -> (r: Option<String>)
        requires
            old(self).inv(),
        ensures
            final(self).inv(),
            opt_view(r) == saf_result(old(self)@, mxid@, activator@),
            final(self)@ == saf_spec(old(self)@, mxid@, activator@),
    {
        let ghost prev = self@;
        let n = self.members.len();
        let mut i: usize = 0;
        while i < n
            invariant
                i <= n,
                n == self.members@.len(),
                self@ == prev,
                self.inv(),
                old(self)@ == prev,
                activator_match(prev.members, mxid@, activator@) == activator_match_from(
                    prev.members,
                    mxid@,
                    activator@,
                    i as int,
                ),
            decreases n - i,
        {
            if str_eq(self.members[i].mxid.as_str(), mxid) && vec_contains_str(
                &self.members[i].activators,
                activator,
            ) {
                assert(prev.members[i as int].mxid == mxid@ && prev.members[i as int].activators.contains(activator@));
                let name = self.members[i].name.clone();
                match self.find_user_idx(mxid) {
                    None => {
                        return None;
                    },
                    Some(j) => {
                        proof {
                            lemma_find_key(prev.users, user_kf(), mxid@);
                        }
                        let row = UserRow {
                            mxid: mxid.to_owned(),
                            current_fronter: Some(name.clone()),
                        };
                        self.users.set(j, row);
                        proof {
                            let nv = Some(prev.members[i as int].name);
                            assert(self@.users =~= prev.users.update(j as int, UserV { mxid: mxid@, fronter: nv }));
                            assert(self@ =~= saf_spec(prev, mxid@, activator@));
                            lemma_update_distinct(prev.users, user_kf(), j as int, UserV { mxid: mxid@, fronter: nv });
                        }
                        return Some(name);
                    },
                }
            }
            assert(!(prev.members[i as int].mxid == mxid@ && prev.members[i as int].activators.contains(activator@)));
            i += 1;
        }
        None
    }

    /// Overwrite display name and avatar of every tracking member of `mxid`
    /// with the account profile.
    pub fn update_tracking_member(&mut self, mxid: &str, profile: &ProfileInfo)
        requires
            old(self).inv(),
        ensures
            final(self).inv(),
            final(self)@ == update_tracking_spec(old(self)@, mxid@, profile@),
    {
        let ghost prev = self@;
        let n = self.members.len();
        let mut i: usize = 0;
        while i < n
            invariant
                i <= n,
                n == self.members@.len(),
                n == prev.members.len(),
                old(self)@ == prev,
                self@.users == prev.users,
                self@.ignored == prev.ignored,
                self@.read == prev.read,
                forall|j: int|
                    0 <= j < i ==> self@.members[j] == track_update(prev.members[j], mxid@, profile@),
                forall|j: int| i <= j < n ==> self@.members[j] == prev.members[j],
                keys_distinct(self@.members, member_kf()),
            decreases n - i,
        {
            let ghost cur = self@;
            let tracked_row = self.members[i].track_account;
            if tracked_row && str_eq(self.members[i].mxid.as_str(), mxid) {
                let mut row = clone_member(&self.members[i]);
                row.display_name = Some(profile.display_name.clone());
                row.avatar = Some(profile.avatar.clone());
                self.members.set(i, row);
                proof {
                    assert(self.members@[i as int]@ =~= track_update(prev.members[i as int], mxid@, profile@));
                    assert(forall|j: int|
                        0 <= j < n && j != i ==> self@.members[j] == cur.members[j]);
                    assert forall|j: int| 0 <= j < i + 1 implies self@.members[j] == track_update(
                        prev.members[j],
                        mxid@,
                        profile@,
                    ) by {
                        if j < i {
                            assert(self@.members[j] == cur.members[j]);
                        }
                    }
                    assert(self@.users =~= cur.users);
                    assert(self@.ignored =~= cur.ignored);
                    assert(self@.read =~= cur.read);
                    assert forall|j: int, l: int| 0 <= j < l < n implies member_kf()(
                        self@.members[j],
                    ) != member_kf()(self@.members[l]) by {
                        assert(member_kf()(self@.members[j]) == member_kf()(cur.members[j]));
                        assert(member_kf()(self@.members[l]) == member_kf()(cur.members[l]));
                    }
                }
            } else {
                proof {
                    assert(self@.members[i as int] == track_update(prev.members[i as int], mxid@, profile@));
                }
            }
            i += 1;
        }
        proof {
            assert(self@.members =~= prev.members.map_values(
                |m: MemberV| track_update(m, mxid@, profile@),
            ));
            assert(self@ =~= update_tracking_spec(prev, mxid@, profile@));
        }
    }
}

/// The kept activators after removing every occurrence of `x`.
fn filter_out_str(v: &Vec<String>, x: &str) -> (r: Vec<String>)
    ensures
        r.deep_view() == remove_all(v.deep_view(), x@),
{
    let mut r: Vec<String> = Vec::new();
    let n = v.len();
    let mut i: usize = 0;
    while i < n
        invariant
            i <= n,
            n == v@.len(),
            r.deep_view() == remove_all(v.deep_view().take(i as int), x@),
        decreases n - i,
    {
        proof {
            assert(v.deep_view().take(i + 1).drop_last() =~= v.deep_view().take(i as int));
            assert(v.deep_view().take(i + 1).last() == v.deep_view()[i as int]);
        }
        if !str_eq(v[i].as_str(), x) {
            let ghost prevd = r.deep_view();
            r.push(v[i].clone());
            proof {
                assert(r.deep_view() =~= prevd.push(v.deep_view()[i as int]));
            }
        }
        i += 1;
    }
    proof {
        assert(v.deep_view().take(n as int) =~= v.deep_view());
    }
    r
}


// Laws of the store, proved from the spec transitions that the operations'
// contracts pin down.
/// `activator_match_from` returns the least matching index at or after `i`.
pub proof fn lemma_activator_match_from(ms: Seq<MemberV>, u: Seq<char>, a: Seq<char>, i: int)
    requires
        0 <= i <= ms.len(),
    ensures
        match activator_match_from(ms, u, a, i) {
            Some(j) => i <= j < ms.len() && ms[j].mxid == u && ms[j].activators.contains(a)
                && forall|l: int|
                i <= l < j ==> !(ms[l].mxid == u && ms[l].activators.contains(a)),
            None => forall|l: int|
                i <= l < ms.len() ==> !(ms[l].mxid == u && ms[l].activators.contains(a)),
        },
    decreases ms.len() - i,
{
    if i < ms.len() && !(ms[i].mxid == u && ms[i].activators.contains(a)) {
        lemma_activator_match_from(ms, u, a, i + 1);
    }
}

/// Recording a pair makes exactly that room's entry the recorded event and
/// leaves every other room's entry alone. Hence of two consecutive
/// `read_msgs` calls with the same pair, the second always reports the pair
/// as already seen: the pair is reported fresh at most once until another
/// event is recorded for the same room.
pub proof fn lemma_read_msgs_at_most_once(s: StoreV, r: Seq<char>, e: Seq<char>, r2: Seq<char>)
    requires
        store_wf(s),
    ensures
        read_msgs_seen(read_msgs_spec(s, r, e), r, e),
        r2 != r ==> read_lookup(read_msgs_spec(s, r, e).read, r2) == read_lookup(s.read, r2),
{
    let s2 = read_msgs_spec(s, r, e);
    let row = ReadV { room_id: r, event_id: e };
    match find_key(s.read, read_kf(), r) {
        Some(i) => {
            lemma_find_key(s.read, read_kf(), r);
            lemma_find_key_update(s.read, read_kf(), r, i, row);
            lemma_find_key_update(s.read, read_kf(), r2, i, row);
            lemma_find_key(s.read, read_kf(), r2);
            lemma_find_key(s.read.update(i, row), read_kf(), r2);
        },
        None => {
            lemma_find_key_push(s.read, read_kf(), r, row);
            lemma_find_key_push(s.read, read_kf(), r2, row);
            lemma_find_key(s.read, read_kf(), r2);
            lemma_find_key(s.read.push(row), read_kf(), r2);
        },
    }
}

/// Removing a member never leaves it reported as the current fronter.
pub proof fn lemma_remove_member_clears_fronter(s: StoreV, u: Seq<char>, m: Seq<char>)
    requires
        store_wf(s),
    ensures
        match current_fronter_spec(remove_member_spec(s, u, m), u) {
            Some(f) => f.name != m,
            None => true,
        },
{
    let s2 = remove_member_spec(s, u, m);
    lemma_find_key(s.users, user_kf(), u);
    match find_key(s.users, user_kf(), u) {
        None => {
            assert(s2.users == s.users);
            lemma_find_key(s2.users, user_kf(), u);
        },
        Some(j) => {
            if s.users[j].fronter == Some(m) {
                let row = UserV { mxid: u, fronter: None };
                lemma_find_key_update(s.users, user_kf(), u, j, row);
                assert(user_lookup(s2.users, u) == Some(row));
            } else {
                assert(s2.users == s.users);
                match s.users[j].fronter {
                    Some(n) => {
                        assert(n != m);
                        match current_fronter_spec(s2, u) {
                            Some(f) => {
                                lemma_find_key(s2.members, member_kf(), (u, n));
                                match find_key(s2.members, member_kf(), (u, n)) {
                                    Some(l) => {
                                        assert(member_kf()(s2.members[l]) == (u, n));
                                        assert(f.name == n);
                                    },
                                    None => {},
                                }
                            },
                            None => {},
                        }
                    },
                    None => {},
                }
            }
        },
    }
}

/// The name `set_fronter_from_activator` reports is the one
/// `get_current_fronter` subsequently joins to; with no match the store is
/// untouched.
pub proof fn lemma_activator_switch_reports_fronter(s: StoreV, u: Seq<char>, a: Seq<char>)
    requires
        store_wf(s),
    ensures
        match saf_result(s, u, a) {
            Some(n) => current_fronter_spec(saf_spec(s, u, a), u) matches Some(f) && f.name == n,
            None => saf_spec(s, u, a) == s,
        },
{
    match saf_result(s, u, a) {
        None => {},
        Some(n) => {
            let i = activator_match(s.members, u, a) -> 0;
            lemma_activator_match_from(s.members, u, a, 0);
            assert(s.members[i].mxid == u && s.members[i].name == n);
            lemma_find_key(s.users, user_kf(), u);
            let j = find_key(s.users, user_kf(), u) -> 0;
            let row = UserV { mxid: u, fronter: Some(n) };
            let s2 = saf_spec(s, u, a);
            lemma_find_key_update(s.users, user_kf(), u, j, row);
            assert(user_lookup(s2.users, u) == Some(row));
            lemma_find_key(s2.members, member_kf(), (u, n));
            match find_key(s2.members, member_kf(), (u, n)) {
                Some(l) => {
                    assert(member_kf()(s2.members[l]) == (u, n));
                    assert(current_fronter_spec(s2, u) matches Some(f) && f.name == n);
                },
                None => {
                    assert(member_kf()(s2.members[i]) == (u, n));
                    assert(false);
                },
            }
        },
    }
}

/// Ignoring a room makes it ignored, un-ignoring makes it not ignored, and
/// both operations are idempotent.
pub proof fn lemma_ignore_round_trip(s: StoreV, u: Seq<char>, r: Seq<char>)
    requires
        store_wf(s),
    ensures
        is_ignored(ignore_room_spec(s, u, r).ignored, u, r),
        !is_ignored(unignore_room_spec(s, u, r).ignored, u, r),
        ignore_room_spec(ignore_room_spec(s, u, r), u, r) == ignore_room_spec(s, u, r),
        unignore_room_spec(unignore_room_spec(s, u, r), u, r) == unignore_room_spec(s, u, r),
{
    let row = IgnoredV { mxid: u, room_id: r };
    if !is_ignored(s.ignored, u, r) {
        lemma_find_key_push(s.ignored, ignored_kf(), (u, r), row);
        assert(ignored_kf()(row) == (u, r));
    }
    match find_key(s.ignored, ignored_kf(), (u, r)) {
        Some(i) => {
            lemma_find_key(s.ignored, ignored_kf(), (u, r));
            lemma_get_by_key_remove(s.ignored, ignored_kf(), i, (u, r));
        },
        None => {},
    }
}

/// Toggling tracking twice restores the store exactly, so the second toggle
/// reports the original value.
pub proof fn lemma_toggle_tracking_twice(s: StoreV, u: Seq<char>, n: Seq<char>)
    requires
        store_wf(s),
        has_member(s.members, u, n),
    ensures
        update_member_spec(
            update_member_spec(s, u, n, |m: MemberV| MemberV { track_account: !m.track_account, ..m }),
            u,
            n,
            |m: MemberV| MemberV { track_account: !m.track_account, ..m },
        ) == s,
        match member_lookup(
            update_member_spec(s, u, n, |m: MemberV| MemberV { track_account: !m.track_account, ..m }).members,
            u,
            n,
        ) {
            Some(m1) => member_lookup(s.members, u, n) matches Some(m0) && m1.track_account
                == !m0.track_account,
            None => false,
        },
{
    let f = |m: MemberV| MemberV { track_account: !m.track_account, ..m };
    let i = find_key(s.members, member_kf(), (u, n)) -> 0;
    lemma_find_key(s.members, member_kf(), (u, n));
    let m0 = s.members[i];
    let s1 = update_member_spec(s, u, n, f);
    lemma_find_key_update(s.members, member_kf(), (u, n), i, f(m0));
    assert(s1.members == s.members.update(i, f(m0)));
    assert(member_lookup(s1.members, u, n) == Some(f(m0)));
    let s2 = update_member_spec(s1, u, n, f);
    assert(s2.members == s1.members.update(i, f(f(m0))));
    assert(f(f(m0)) =~= m0);
    assert(s2.members =~= s.members);
    assert(s2 =~= s);
}


/// Renaming a member never leaves the current-fronter pointer dangling on
/// the old name: after a successful rename the fronter never reads the old
/// name, and a fronter that named the renamed member before now reads it
/// under the new name with its other fields kept.
pub proof fn lemma_rename_member_repoints_fronter(
    s: StoreV,
    u: Seq<char>,
    old_n: Seq<char>,
    new_n: Seq<char>,
)
    requires
        store_wf(s),
        rename_member_ok(s, u, old_n, new_n),
    ensures
        ({
            let s2 = rename_member_spec(s, u, old_n, new_n);
            &&& old_n != new_n ==> (match current_fronter_spec(s2, u) {
                Some(f) => f.name != old_n,
                None => true,
            })
            &&& match current_fronter_spec(s, u) {
                Some(f0) => f0.name == old_n ==> match current_fronter_spec(s2, u) {
                    Some(f) => {
                        &&& f.name == if old_n == new_n {
                            old_n
                        } else {
                            new_n
                        }
                        &&& f.display_name == f0.display_name
                        &&& f.avatar == f0.avatar
                        &&& f.activators == f0.activators
                        &&& f.track_account == f0.track_account
                    },
                    None => false,
                },
                None => true,
            }
        }),
{
    let s2 = rename_member_spec(s, u, old_n, new_n);
    lemma_find_key(s.members, member_kf(), (u, old_n));
    lemma_find_key(s.users, user_kf(), u);
    match find_key(s.members, member_kf(), (u, old_n)) {
        None => {
            match user_lookup(s.users, u) {
                Some(urow) => match urow.fronter {
                    Some(n) => {
                        lemma_find_key(s.members, member_kf(), (u, n));
                        match find_key(s.members, member_kf(), (u, n)) {
                            Some(l) => {
                                assert(member_kf()(s.members[l]) == (u, n));
                            },
                            None => {},
                        }
                    },
                    None => {},
                },
                None => {},
            }
        },
        Some(i) => {
            if old_n != new_n {
                let m0 = s.members[i];
                assert(member_kf()(m0) == (u, old_n));
                let row = MemberV { name: new_n, ..m0 };
                let mid = s.members.remove(i);
                lemma_get_by_key_remove(s.members, member_kf(), i, (u, new_n));
                lemma_find_key_push(mid, member_kf(), (u, new_n), row);
                assert(member_kf()(row) == (u, new_n));
                lemma_find_key(mid, member_kf(), (u, new_n));
                assert(member_lookup(s2.members, u, new_n) == Some(row));
                match find_key(s.users, user_kf(), u) {
                    None => {
                    },
                    Some(j) => {
                        assert(user_kf()(s.users[j]) == u);
                        if s.users[j].fronter == Some(old_n) {
                            let uv = UserV { mxid: u, fronter: Some(new_n) };
                            lemma_find_key_update(s.users, user_kf(), u, j, uv);
                            assert(user_lookup(s2.users, u) == Some(uv));
                            assert(current_fronter_spec(s, u) == member_lookup(
                                s.members,
                                u,
                                old_n,
                            ));
                            assert(current_fronter_spec(s, u) == Some(m0));
                        } else {
                            assert(s2.users == s.users);
                            match s.users[j].fronter {
                                Some(n) => {
                                    assert(n != old_n);
                                    lemma_get_by_key_remove(s.members, member_kf(), i, (u, n));
                                    lemma_find_key_push(mid, member_kf(), (u, n), row);
                                    lemma_find_key(mid, member_kf(), (u, n));
                                    lemma_find_key(s2.members, member_kf(), (u, n));
                                    match find_key(s2.members, member_kf(), (u, n)) {
                                        Some(l) => {
                                            assert(member_kf()(s2.members[l]) == (u, n));
                                        },
                                        None => {},
                                    }
                                },
                                None => {},
                            }
                        }
                    },
                }
            } else {
                match user_lookup(s.users, u) {
                    Some(urow) => match urow.fronter {
                        Some(n) => {
                            lemma_find_key(s.members, member_kf(), (u, n));
                            match find_key(s.members, member_kf(), (u, n)) {
                                Some(l) => {
                                    assert(member_kf()(s.members[l]) == (u, n));
                                },
                                None => {},
                            }
                        },
                        None => {},
                    },
                    None => {},
                }
            }
        },
    }
}

} // verus!
