//! Identity resolution: access token to user, then the rewrite decision.
//!
//! The resolver owns the token-to-user cache. On a miss it consults the
//! homeserver directory and fills the cache; entries are never evicted. The
//! decision is `Skip` when the token cannot be resolved, the room is in the
//! sender's ignored set, or the sender has no current fronter; otherwise it
//! names the user and the fronter to rewrite with.

use crate::assoc::{find_key, find_key_from, has_key, keys_distinct, lemma_push_distinct};
use crate::store::{
    clone_member, current_fronter_spec, is_ignored, Member, MemberV, Store, StoreV,
};
use crate::strutil::str_eq;
use crate::synapse::{token_kf, token_lookup, SynapseDb, TokenRow, TokenV};
use vstd::prelude::*;

verus! {

/// What the proxy should do with a message send.
pub enum Decision {
    /// Forward without touching membership state.
    Skip,
    /// Rewrite the sender's membership state with this fronter first.
    Rewrite { user_id: String, fronter: Member },
}

/// Mathematical image of a decision: the user and fronter to rewrite with,
/// or nothing.
pub open spec fn decision_view(d: Decision) -> Option<(Seq<char>, MemberV)> {
    match d {
        Decision::Skip => None,
        Decision::Rewrite { user_id, fronter } => Some((user_id@, fronter@)),
    }
}

/// The process-local token-to-user cache.
pub struct TokenCache {
    entries: Vec<TokenRow>,
}

impl View for TokenCache {
    type V = Seq<TokenV>;

    closed spec fn view(&self) -> Seq<TokenV> {
        self.entries@.map_values(|r: TokenRow| r@)
    }
}

/// The user the token resolves to: the cache first, then the directory.
pub open spec fn resolved_user(cache: Seq<TokenV>, dir: Seq<TokenV>, t: Seq<char>) -> Option<
    Seq<char>,
> {
    match token_lookup(cache, t) {
        Some(u) => Some(u),
        None => token_lookup(dir, t),
    }
}

/// The cache after a resolution: filled on a successful miss, otherwise
/// untouched.
pub open spec fn resolve_cache_spec(cache: Seq<TokenV>, dir: Seq<TokenV>, t: Seq<char>) -> Seq<
    TokenV,
> {
    match token_lookup(cache, t) {
        Some(_) => cache,
        None => match token_lookup(dir, t) {
            Some(u) => cache.push(TokenV { token: t, user_id: u }),
            None => cache,
        },
    }
}

/// The decision: absent (skip) when the token is unknown, the room is
/// ignored, or there is no current fronter.
pub open spec fn resolve_spec(
    cache: Seq<TokenV>,
    dir: Seq<TokenV>,
    s: StoreV,
    t: Seq<char>,
    room: Seq<char>,
) -> Option<(Seq<char>, MemberV)> {
    match resolved_user(cache, dir, t) {
        Some(u) => if is_ignored(s.ignored, u, room) {
            None
        } else {
            match current_fronter_spec(s, u) {
                Some(m) => Some((u, m)),
                None => None,
            }
        },
        None => None,
    }
}

/// A user with no current fronter, or a room in the user's ignored set,
/// always resolves to a skip — so a message send from that user to that
/// room leads to no membership read or write at all.
pub proof fn lemma_no_rewrite_without_fronter(
    cache: Seq<TokenV>,
    dir: Seq<TokenV>,
    s: StoreV,
    t: Seq<char>,
    room: Seq<char>,
)
    requires
        match resolved_user(cache, dir, t) {
            Some(u) => current_fronter_spec(s, u) is None || is_ignored(s.ignored, u, room),
            None => true,
        },
    ensures
        resolve_spec(cache, dir, s, t, room) is None,
{
}

impl TokenCache {
    /// Pairwise-distinct tokens.
    pub open spec fn inv(&self) -> bool {
        keys_distinct(self@, token_kf())
    }

    /// An empty cache.
    pub fn new() -> (c: TokenCache)
        ensures
            c.inv(),
            c@ == Seq::<TokenV>::empty(),
    {
        let c = TokenCache { entries: Vec::new() };
        proof {
            assert(c@ =~= Seq::<TokenV>::empty());
        }
        c
    }

    fn find_idx(&self, token: &str) -> (r: Option<usize>)
        ensures
            match r {
                Some(i) => i < self@.len() && Some(i as int) == find_key(self@, token_kf(), token@),
                None => find_key(self@, token_kf(), token@) is None,
            },
    {
        let n = self.entries.len();
        let mut i: usize = 0;
        while i < n
            invariant
                i <= n,
                n == self.entries@.len(),
                find_key(self@, token_kf(), token@) == find_key_from(
                    self@,
                    token_kf(),
                    token@,
                    i as int,
                ),
            decreases n - i,
        {
            if str_eq(self.entries[i].token.as_str(), token) {
                assert(token_kf()(self@[i as int]) == token@);
                return Some(i);
            }
            assert(token_kf()(self@[i as int]) != token@);
            i += 1;
        }
        None
    }

    /// The cached user id for `token`, if any.
    pub fn get(&self, token: &str) -> (r: Option<String>)
        ensures
            crate::store::opt_view(r) == token_lookup(self@, token@),
    {
        match self.find_idx(token) {
            Some(i) => Some(self.entries[i].user_id.clone()),
            None => None,
        }
    }

    /// Bind `token` to `user_id`; a no-op when the token is already bound,
    /// so racing writers resolve to the one stored value.
    pub fn insert(&mut self, token: &str, user_id: &str)
        requires
            old(self).inv(),
        ensures
            final(self).inv(),
            final(self)@ == if has_key(old(self)@, token_kf(), token@) {
                old(self)@
            } else {
                old(self)@.push(TokenV { token: token@, user_id: user_id@ })
            },
    {
        if self.find_idx(token).is_none() {
            let ghost prev = self@;
            self.entries.push(TokenRow { token: token.to_owned(), user_id: user_id.to_owned() });
            proof {
                let row = TokenV { token: token@, user_id: user_id@ };
                assert(self@ =~= prev.push(row));
                lemma_push_distinct(prev, token_kf(), row);
            }
        }
    }
}

/// Resolve a message send: token to user (filling the cache on a miss),
/// then the ignore check, then the current fronter.
pub fn resolve(
    cache: &mut TokenCache,
    synapse: &SynapseDb,
    store: &Store,
    token: &str,
    room_id: &str,
) -> (d: Decision)
    requires
        old(cache).inv(),
    ensures
        final(cache).inv(),
        final(cache)@ == resolve_cache_spec(old(cache)@, synapse@.tokens, token@),
        decision_view(d) == resolve_spec(old(cache)@, synapse@.tokens, store@, token@, room_id@),
{
    let user_id: String = match cache.get(token) {
        Some(u) => u,
        None => {
            match synapse.get_synapse_user(token) {
                Some(u) => {
                    cache.insert(token, u.as_str());
                    u
                },
                None => {
                    return Decision::Skip;
                },
            }
        },
    };
    if store.is_room_ignored(user_id.as_str(), room_id) {
        return Decision::Skip;
    }
    match store.get_current_fronter(user_id.as_str()) {
        Some(fronter) => Decision::Rewrite { user_id, fronter },
        None => Decision::Skip,
    }
}

} // verus!
