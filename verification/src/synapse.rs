//! The homeserver's own database, as the read-only directory the core
//! consults: access-token resolution, account profiles, and room aliases.
//!
//! The deployed system reads these from the homeserver's tables; the proxy
//! and bot logic is verified against this model of their contents, and the
//! database adapter outside this crate answers the same queries.

use crate::assoc::{find_key, find_key_from, has_key, keys_distinct, lemma_push_distinct};
use crate::store::{ProfileInfo, ProfileV};
use crate::strutil::str_eq;
use vstd::prelude::*;

verus! {

/// One access-token row.
pub struct TokenRow {
    pub token: String,
    pub user_id: String,
}

/// Mathematical image of an access-token row.
#[verifier::ext_equal]
pub struct TokenV {
    pub token: Seq<char>,
    pub user_id: Seq<char>,
}

impl View for TokenRow {
    type V = TokenV;

    open spec fn view(&self) -> TokenV {
        TokenV { token: self.token@, user_id: self.user_id@ }
    }
}

/// One profile row; null columns are already coalesced to empty strings.
pub struct ProfileRow {
    pub mxid: String,
    pub profile: ProfileInfo,
}

/// Mathematical image of a profile row.
#[verifier::ext_equal]
pub struct ProfileRowV {
    pub mxid: Seq<char>,
    pub profile: ProfileV,
}

impl View for ProfileRow {
    type V = ProfileRowV;

    open spec fn view(&self) -> ProfileRowV {
        ProfileRowV { mxid: self.mxid@, profile: self.profile@ }
    }
}

/// One room-alias row.
pub struct AliasRow {
    pub room_id: String,
    pub alias: String,
}

/// Mathematical image of a room-alias row.
#[verifier::ext_equal]
pub struct AliasV {
    pub room_id: Seq<char>,
    pub alias: Seq<char>,
}

impl View for AliasRow {
    type V = AliasV;

    open spec fn view(&self) -> AliasV {
        AliasV { room_id: self.room_id@, alias: self.alias@ }
    }
}

/// The directory contents, as row sequences.
#[verifier::ext_equal]
pub struct SynapseDbV {
    pub tokens: Seq<TokenV>,
    pub profiles: Seq<ProfileRowV>,
    pub aliases: Seq<AliasV>,
}

/// Key of an access-token row.
pub open spec fn token_kf() -> spec_fn(TokenV) -> Seq<char> {
    |r: TokenV| r.token
}

/// Key of a profile row.
pub open spec fn profile_kf() -> spec_fn(ProfileRowV) -> Seq<char> {
    |r: ProfileRowV| r.mxid
}

/// Key of a room-alias row.
pub open spec fn alias_kf() -> spec_fn(AliasV) -> Seq<char> {
    |r: AliasV| r.room_id
}

/// The user id bound to `t`, if any.
pub open spec fn token_lookup(ts: Seq<TokenV>, t: Seq<char>) -> Option<Seq<char>> {
    match find_key(ts, token_kf(), t) {
        Some(i) => Some(ts[i].user_id),
        None => None,
    }
}

/// The profile of `u`, if any.
pub open spec fn profile_lookup(ps: Seq<ProfileRowV>, u: Seq<char>) -> Option<ProfileV> {
    match find_key(ps, profile_kf(), u) {
        Some(i) => Some(ps[i].profile),
        None => None,
    }
}

/// The canonical alias of room `r`, if any.
pub open spec fn alias_lookup(als: Seq<AliasV>, r: Seq<char>) -> Option<Seq<char>> {
    match find_key(als, alias_kf(), r) {
        Some(i) => Some(als[i].alias),
        None => None,
    }
}

/// The homeserver directory.
pub struct SynapseDb {
    tokens: Vec<TokenRow>,
    profiles: Vec<ProfileRow>,
    aliases: Vec<AliasRow>,
}

impl View for SynapseDb {
    type V = SynapseDbV;

    closed spec fn view(&self) -> SynapseDbV {
        SynapseDbV {
            tokens: self.tokens@.map_values(|r: TokenRow| r@),
            profiles: self.profiles@.map_values(|r: ProfileRow| r@),
            aliases: self.aliases@.map_values(|r: AliasRow| r@),
        }
    }
}

impl SynapseDb {
    /// Pairwise-distinct keys in every table.
    pub open spec fn inv(&self) -> bool {
        &&& keys_distinct(self@.tokens, token_kf())
        &&& keys_distinct(self@.profiles, profile_kf())
        &&& keys_distinct(self@.aliases, alias_kf())
    }

    /// An empty directory.
    pub fn new() -> (s: SynapseDb)
        ensures
            s.inv(),
            s@.tokens == Seq::<TokenV>::empty(),
            s@.profiles == Seq::<ProfileRowV>::empty(),
            s@.aliases == Seq::<AliasV>::empty(),
    {
        let s = SynapseDb { tokens: Vec::new(), profiles: Vec::new(), aliases: Vec::new() };
        proof {
            assert(s@.tokens =~= Seq::<TokenV>::empty());
            assert(s@.profiles =~= Seq::<ProfileRowV>::empty());
            assert(s@.aliases =~= Seq::<AliasV>::empty());
        }
        s
    }

    /// Bind an access token; a no-op when the token is already bound.
    pub fn add_token(&mut self, token: &str, user_id: &str)
        requires
            old(self).inv(),
        ensures
            final(self).inv(),
            final(self)@ == if has_key(old(self)@.tokens, token_kf(), token@) {
                old(self)@
            } else {
                SynapseDbV {
                    tokens: old(self)@.tokens.push(TokenV { token: token@, user_id: user_id@ }),
                    ..old(self)@
                }
            },
    {
        if self.find_token_idx(token).is_none() {
            let ghost prev = self@;
            self.tokens.push(TokenRow { token: token.to_owned(), user_id: user_id.to_owned() });
            proof {
                let row = TokenV { token: token@, user_id: user_id@ };
                assert(self@.tokens =~= prev.tokens.push(row));
                assert(self@ =~= SynapseDbV { tokens: prev.tokens.push(row), ..prev });
                lemma_push_distinct(prev.tokens, token_kf(), row);
            }
        }
    }

    /// Set a profile row; a no-op when the user already has one.
    pub fn add_profile(&mut self, mxid: &str, profile: ProfileInfo)
        requires
            old(self).inv(),
        ensures
            final(self).inv(),
            final(self)@ == if has_key(old(self)@.profiles, profile_kf(), mxid@) {
                old(self)@
            } else {
                SynapseDbV {
                    profiles: old(self)@.profiles.push(
                        ProfileRowV { mxid: mxid@, profile: profile@ },
                    ),
                    ..old(self)@
                }
            },
    {
        if self.find_profile_idx(mxid).is_none() {
            let ghost prev = self@;
            let ghost rowv = ProfileRowV { mxid: mxid@, profile: profile@ };
            self.profiles.push(ProfileRow { mxid: mxid.to_owned(), profile });
            proof {
                assert(self@.profiles =~= prev.profiles.push(rowv));
                assert(self@ =~= SynapseDbV { profiles: prev.profiles.push(rowv), ..prev });
                lemma_push_distinct(prev.profiles, profile_kf(), rowv);
            }
        }
    }

    /// Set a room alias; a no-op when the room already has one.
    pub fn add_alias(&mut self, room_id: &str, alias: &str)
        requires
            old(self).inv(),
        ensures
            final(self).inv(),
            final(self)@ == if has_key(old(self)@.aliases, alias_kf(), room_id@) {
                old(self)@
            } else {
                SynapseDbV {
                    aliases: old(self)@.aliases.push(AliasV { room_id: room_id@, alias: alias@ }),
                    ..old(self)@
                }
            },
    {
        if self.find_alias_idx(room_id).is_none() {
            let ghost prev = self@;
            self.aliases.push(AliasRow { room_id: room_id.to_owned(), alias: alias.to_owned() });
            proof {
                let row = AliasV { room_id: room_id@, alias: alias@ };
                assert(self@.aliases =~= prev.aliases.push(row));
                assert(self@ =~= SynapseDbV { aliases: prev.aliases.push(row), ..prev });
                lemma_push_distinct(prev.aliases, alias_kf(), row);
            }
        }
    }

    fn find_token_idx(&self, token: &str) -> (r: Option<usize>)
        ensures
            match r {
                Some(i) => i < self@.tokens.len() && Some(i as int) == find_key(
                    self@.tokens,
                    token_kf(),
                    token@,
                ),
                None => find_key(self@.tokens, token_kf(), token@) is None,
            },
    {
        let n = self.tokens.len();
        let mut i: usize = 0;
        while i < n
            invariant
                i <= n,
                n == self.tokens@.len(),
                find_key(self@.tokens, token_kf(), token@) == find_key_from(
                    self@.tokens,
                    token_kf(),
                    token@,
                    i as int,
                ),
            decreases n - i,
        {
            if str_eq(self.tokens[i].token.as_str(), token) {
                assert(token_kf()(self@.tokens[i as int]) == token@);
                return Some(i);
            }
            assert(token_kf()(self@.tokens[i as int]) != token@);
            i += 1;
        }
        None
    }

    fn find_profile_idx(&self, mxid: &str) -> (r: Option<usize>)
        ensures
            match r {
                Some(i) => i < self@.profiles.len() && Some(i as int) == find_key(
                    self@.profiles,
                    profile_kf(),
                    mxid@,
                ),
                None => find_key(self@.profiles, profile_kf(), mxid@) is None,
            },
    {
        let n = self.profiles.len();
        let mut i: usize = 0;
        while i < n
            invariant
                i <= n,
                n == self.profiles@.len(),
                find_key(self@.profiles, profile_kf(), mxid@) == find_key_from(
                    self@.profiles,
                    profile_kf(),
                    mxid@,
                    i as int,
                ),
            decreases n - i,
        {
            if str_eq(self.profiles[i].mxid.as_str(), mxid) {
                assert(profile_kf()(self@.profiles[i as int]) == mxid@);
                return Some(i);
            }
            assert(profile_kf()(self@.profiles[i as int]) != mxid@);
            i += 1;
        }
        None
    }

    fn find_alias_idx(&self, room_id: &str) -> (r: Option<usize>)
        ensures
            match r {
                Some(i) => i < self@.aliases.len() && Some(i as int) == find_key(
                    self@.aliases,
                    alias_kf(),
                    room_id@,
                ),
                None => find_key(self@.aliases, alias_kf(), room_id@) is None,
            },
    {
        let n = self.aliases.len();
        let mut i: usize = 0;
        while i < n
            invariant
                i <= n,
                n == self.aliases@.len(),
                find_key(self@.aliases, alias_kf(), room_id@) == find_key_from(
                    self@.aliases,
                    alias_kf(),
                    room_id@,
                    i as int,
                ),
            decreases n - i,
        {
            if str_eq(self.aliases[i].room_id.as_str(), room_id) {
                assert(alias_kf()(self@.aliases[i as int]) == room_id@);
                return Some(i);
            }
            assert(alias_kf()(self@.aliases[i as int]) != room_id@);
            i += 1;
        }
        None
    }

    /// The user id the access token belongs to, reconstructed from the
    /// token table; absent for an unknown token.
    pub fn get_synapse_user(&self, access_token: &str) -> (r: Option<String>)
        ensures
            crate::store::opt_view(r) == token_lookup(self@.tokens, access_token@),
    {
        match self.find_token_idx(access_token) {
            Some(i) => Some(self.tokens[i].user_id.clone()),
            None => None,
        }
    }

    /// The display name and avatar of `mxid`; absent for an unknown user.
    pub fn get_synapse_profile(&self, mxid: &str) -> (r: Option<ProfileInfo>)
        ensures
            match r {
                Some(p) => profile_lookup(self@.profiles, mxid@) == Some(p@),
                None => profile_lookup(self@.profiles, mxid@) is None,
            },
    {
        match self.find_profile_idx(mxid) {
            Some(i) => Some(ProfileInfo {
                display_name: self.profiles[i].profile.display_name.clone(),
                avatar: self.profiles[i].profile.avatar.clone(),
            }),
            None => None,
        }
    }

    /// The canonical alias of `room_id`; absent for an unknown room.
    pub fn room_alias(&self, room_id: &str) -> (r: Option<String>)
        ensures
            crate::store::opt_view(r) == alias_lookup(self@.aliases, room_id@),
    {
        match self.find_alias_idx(room_id) {
            Some(i) => Some(self.aliases[i].alias.clone()),
            None => None,
        }
    }
}

} // verus!
