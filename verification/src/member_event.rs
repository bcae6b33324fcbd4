//! Room-membership event content and the partial rewrite the proxy applies.
//!
//! The proxy reads the sender's membership state, overwrites `displayname`
//! and `avatar_url` with the fronter's fields where the fronter has them
//! set, and writes the event back only when something actually changed. An
//! unset fronter field means "do not touch".

use crate::store::{clone_opt_string, opt_view, Member, MemberV};
use crate::strutil::str_eq;
use vstd::prelude::*;

verus! {

/// The membership event content the proxy reads and rewrites. `membership`
/// stays untouched (it must remain the joined state); fields this crate
/// does not read are carried by the HTTP layer outside of it.
#[derive(Debug, Clone, PartialEq, Eq)]
pub struct MemberEventContent {
    pub membership: String,
    pub displayname: Option<String>,
    pub avatar_url: Option<String>,
}

/// Mathematical image of a membership event content.
#[verifier::ext_equal]
pub struct MemberEventV {
    pub membership: Seq<char>,
    pub displayname: Option<Seq<char>>,
    pub avatar_url: Option<Seq<char>>,
}

impl View for MemberEventContent {
    type V = MemberEventV;

    open spec fn view(&self) -> MemberEventV {
        MemberEventV {
            membership: self.membership@,
            displayname: opt_view(self.displayname),
            avatar_url: opt_view(self.avatar_url),
        }
    }
}

/// A membership write is due: a fronter field is set and differs from the
/// current event (a missing current field counts as different).
pub open spec fn diff_changed(f: MemberV, c: MemberEventV) -> bool {
    ||| (f.display_name is Some && c.displayname != f.display_name)
    ||| (f.avatar is Some && c.avatar_url != f.avatar)
}

/// The rewritten event: fronter fields overwrite where set, everything else
/// stays.
pub open spec fn apply_fronter(f: MemberV, c: MemberEventV) -> MemberEventV {
    MemberEventV {
        membership: c.membership,
        displayname: if f.display_name is Some {
            f.display_name
        } else {
            c.displayname
        },
        avatar_url: if f.avatar is Some {
            f.avatar
        } else {
            c.avatar_url
        },
    }
}

/// An owned copy of an event content, with the same view.
pub fn clone_event(c: &MemberEventContent) -> (r: MemberEventContent)
    ensures
        r@ == c@,
{
    let r = MemberEventContent {
        membership: c.membership.clone(),
        displayname: clone_opt_string(&c.displayname),
        avatar_url: clone_opt_string(&c.avatar_url),
    };
    proof {
        assert(r@ =~= c@);
    }
    r
}

/// Compute the rewritten event and whether anything changed.
pub fn member_diff(fronter: &Member, current: &MemberEventContent) -> (r: (MemberEventContent, bool))
    ensures
        r.0@ == apply_fronter(fronter@, current@),
        r.1 == diff_changed(fronter@, current@),
{
    let mut changed = false;
    let displayname: Option<String> = match (&fronter.display_name, &current.displayname) {
        (Some(d), Some(c)) => {
            if !str_eq(d.as_str(), c.as_str()) {
                changed = true;
            }
            Some(d.clone())
        },
        (Some(d), None) => {
            changed = true;
            Some(d.clone())
        },
        (None, c) => clone_opt_string(c),
    };
    let avatar_url: Option<String> = match (&fronter.avatar, &current.avatar_url) {
        (Some(a), Some(c)) => {
            if !str_eq(a.as_str(), c.as_str()) {
                changed = true;
            }
            Some(a.clone())
        },
        (Some(a), None) => {
            changed = true;
            Some(a.clone())
        },
        (None, c) => clone_opt_string(c),
    };
    let r = MemberEventContent { membership: current.membership.clone(), displayname, avatar_url };
    proof {
        assert(r@ =~= apply_fronter(fronter@, current@));
    }
    (r, changed)
}

/// Rewriting is idempotent: once the fronter's fields are applied, a second
/// look at the same event finds nothing left to change. This is why two
/// serialized sends from the same user produce at most one membership write.
pub proof fn lemma_rewrite_idempotent(f: MemberV, c: MemberEventV)
    ensures
        !diff_changed(f, apply_fronter(f, c)),
{
}

} // verus!
