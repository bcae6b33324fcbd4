//! The chat bot's decision core.
//!
//! The event-loop plumbing (sync, receipts, reactions, replies) lives
//! outside this crate. What is decided here: the read-message gate that
//! makes command processing at-most-once, tokenizing the message, telling
//! commands from activator words, switching the fronter by activator, the
//! activator and avatar argument rules, and mirroring account profiles onto
//! tracking members.

use crate::parser::{parse_html_spec, parse_plain_text_spec, Cmd, CmdPart, CmdPartV, ParseError};
use crate::store::{
    read_msgs_seen, read_msgs_spec, saf_result, saf_spec, update_tracking_spec, Store, StoreV,
};
use crate::strutil::{has_prefix, lower_of, lowercase, str_eq, str_has_prefix};
use crate::synapse::{profile_lookup, SynapseDb, SynapseDbV};
use vstd::prelude::*;
use vstd::string::StringExecFns;

verus! {

/// Which command a leading `!`-word names.
#[derive(Debug, PartialEq, Eq, Structural)]
pub enum CommandKind {
    Member,
    System,
    Ignore,
    Clear,
    Help,
    Unknown,
}

/// The command a word names, by its long or short form.
pub open spec fn command_kind_spec(w: Seq<char>) -> CommandKind {
    if w == "!member"@ || w == "!m"@ {
        CommandKind::Member
    } else if w == "!system"@ || w == "!s"@ {
        CommandKind::System
    } else if w == "!ignore"@ || w == "!i"@ {
        CommandKind::Ignore
    } else if w == "!clear"@ || w == "!cl"@ {
        CommandKind::Clear
    } else if w == "!help"@ || w == "!h"@ {
        CommandKind::Help
    } else {
        CommandKind::Unknown
    }
}

/// Map a `!`-word to the command it names.
pub fn dispatch_command(word: &str) -> (r: CommandKind)
    ensures
        r == command_kind_spec(word@),
{
    if str_eq(word, "!member") || str_eq(word, "!m") {
        CommandKind::Member
    } else if str_eq(word, "!system") || str_eq(word, "!s") {
        CommandKind::System
    } else if str_eq(word, "!ignore") || str_eq(word, "!i") {
        CommandKind::Ignore
    } else if str_eq(word, "!clear") || str_eq(word, "!cl") {
        CommandKind::Clear
    } else if str_eq(word, "!help") || str_eq(word, "!h") {
        CommandKind::Help
    } else {
        CommandKind::Unknown
    }
}

/// Activators are stored in lowercase canonical form and may not begin
/// with the command sigil. The canonical form of an accepted argument, or
/// nothing when the lowercased argument starts with `!`.
pub fn normalize_activator(word: &str) -> (r: Option<String>)
    ensures
        match r {
            Some(a) => a@ == lower_of(word@) && !(a@.len() > 0 && a@[0] == '!'),
            None => lower_of(word@).len() > 0 && lower_of(word@)[0] == '!',
        },
{
    let lower = lowercase(word);
    if str_has_prefix(lower.as_str(), "!") {
        proof {
            reveal_strlit("!");
            assert(lower@.subrange(0, 1)[0] == lower@[0]);
            assert(lower@[0] == '!');
        }
        None
    } else {
        proof {
            reveal_strlit("!");
            if lower@.len() > 0 && lower@[0] == '!' {
                assert(lower@.subrange(0, 1) =~= "!"@);
            }
        }
        Some(lower)
    }
}

/// How an avatar argument is read.
#[derive(Debug, PartialEq, Eq, Structural)]
pub enum AvatarArg {
    /// `!clear`: unset the avatar.
    Clear,
    /// `!acc`: mirror the account's avatar.
    Account,
    /// A literal media URI.
    Mxc,
    /// Anything else is refused.
    Invalid,
}

/// How an avatar argument word is classified.
pub open spec fn avatar_arg_spec(w: Seq<char>) -> AvatarArg {
    if w == "!clear"@ {
        AvatarArg::Clear
    } else if w == "!acc"@ {
        AvatarArg::Account
    } else if has_prefix(w, "mxc://"@) {
        AvatarArg::Mxc
    } else {
        AvatarArg::Invalid
    }
}

/// Classify an avatar argument word.
pub fn avatar_arg_kind(word: &str) -> (r: AvatarArg)
    ensures
        r == avatar_arg_spec(word@),
{
    if str_eq(word, "!clear") {
        AvatarArg::Clear
    } else if str_eq(word, "!acc") {
        AvatarArg::Account
    } else if str_has_prefix(word, "mxc://") {
        AvatarArg::Mxc
    } else {
        AvatarArg::Invalid
    }
}


/// The direct-message gate: a message is processed only when it was not
/// sent by the bot itself and the room is a direct chat, detected as
/// exactly two joined members. The detection is approximate and is not a
/// security boundary.
pub fn should_process_dm(sender: &str, bot_user: &str, joined_members: usize) -> (r: bool)
    ensures
        r == (sender@ != bot_user@ && joined_members == 2),
{
    !str_eq(sender, bot_user) && joined_members == 2
}

/// The bot-account profile rule: a configured field is written upstream
/// exactly when it is set and differs from the account's current value.
pub fn account_update_needed(configured: &Option<String>, current: &Option<String>) -> (r: bool)
    ensures
        r == (configured is Some && crate::store::opt_view(*configured) != crate::store::opt_view(
            *current,
        )),
{
    match (configured, current) {
        (Some(c), Some(d)) => !str_eq(c.as_str(), d.as_str()),
        (Some(_), None) => true,
        (None, _) => false,
    }
}

/// What handling one direct message decides.
pub enum DmOutcome {
    /// This (room, event) pair was already processed: do nothing more.
    AlreadySeen,
    /// The message does not begin with a word token: do nothing.
    NoWord,
    /// A `!`-command and the cursor holding its arguments; the command
    /// layer outside this crate executes it.
    Command(String, Cmd),
    /// The word was an activator: the fronter was switched to the named
    /// member and this notice reports it.
    FronterSet(String, String),
    /// Neither a command nor a known activator: the caller replies with
    /// the help text.
    Unknown,
}

/// Handle one direct message: record it in the read-message table (and stop
/// if it was already recorded), tokenize it, hand a `!`-command to the
/// command layer, and otherwise treat the first word, lowercased, as an
/// activator that switches the fronter.
pub fn dm_handler(
    store: &mut Store,
    sender: &str,
    room_id: &str,
    event_id: &str,
    body: &str,
    formatted_html: Option<&str>,
) -> (r: Result<DmOutcome, ParseError>)
    requires
        old(store).inv(),
    ensures
        final(store).inv(),
        ({
            let seen = read_msgs_seen(old(store)@, room_id@, event_id@);
            let s1 = if seen {
                old(store)@
            } else {
                read_msgs_spec(old(store)@, room_id@, event_id@)
            };
            let toks = match formatted_html {
                Some(h) => parse_html_spec(h@),
                None => Some(parse_plain_text_spec(body@)),
            };
            match r {
                Ok(DmOutcome::AlreadySeen) => seen && final(store)@ == s1,
                Err(_) => !seen && final(store)@ == s1 && toks is None,
                Ok(DmOutcome::NoWord) => {
                    &&& !seen
                    &&& final(store)@ == s1
                    &&& toks matches Some(ts) && (ts.len() == 0 || !(ts[0] is Word))
                },
                Ok(DmOutcome::Command(w, c)) => {
                    &&& !seen
                    &&& final(store)@ == s1
                    &&& toks matches Some(ts) && ts.len() > 0 && ts[0] == CmdPartV::Word(w@)
                    &&& w@.len() > 0 && w@[0] == '!'
                    &&& c.inv() && c@.parts == (toks -> 0) && c@.pointer == 1
                },
                Ok(DmOutcome::FronterSet(name, reply)) => {
                    &&& !seen
                    &&& toks matches Some(ts) && ts.len() > 0 && (ts[0] matches CmdPartV::Word(w)
                        && !(w.len() > 0 && w[0] == '!') && saf_result(s1, sender@, lower_of(w))
                        == Some(name@) && final(store)@ == saf_spec(s1, sender@, lower_of(w)))
                    &&& reply@ == "Current fronter set to **"@ + name@ + "**"@
                },
                Ok(DmOutcome::Unknown) => {
                    &&& !seen
                    &&& final(store)@ == s1
                    &&& toks matches Some(ts) && ts.len() > 0 && (ts[0] matches CmdPartV::Word(w)
                        && !(w.len() > 0 && w[0] == '!') && (saf_result(s1, sender@, lower_of(w))
                        is None))
                },
            }
        }),
{
    if store.read_msgs(room_id, event_id) {
        return Ok(DmOutcome::AlreadySeen);
    }
    let mut cmd = match Cmd::parse(body, formatted_html) {
        Ok(c) => c,
        Err(e) => {
            return Err(e);
        },
    };
    match cmd.pop() {
        Some(CmdPart::Word(word)) => {
            if str_has_prefix(word.as_str(), "!") {
                proof {
                    reveal_strlit("!");
                    assert(word@.subrange(0, 1)[0] == word@[0]);
                    assert(word@[0] == '!');
                }
                Ok(DmOutcome::Command(word, cmd))
            } else {
                proof {
                    reveal_strlit("!");
                    if word@.len() > 0 && word@[0] == '!' {
                        assert(word@.subrange(0, 1) =~= "!"@);
                    }
                }
                let lower = lowercase(word.as_str());
                match store.set_fronter_from_activator(sender, lower.as_str()) {
                    Some(name) => {
                        let mut reply = "Current fronter set to **".to_owned();
                        reply.append(name.as_str());
                        reply.append("**");
                        Ok(DmOutcome::FronterSet(name, reply))
                    },
                    None => Ok(DmOutcome::Unknown),
                }
            }
        },
        _ => Ok(DmOutcome::NoWord),
    }
}

/// The store after mirroring the account profile of each listed user onto
/// that user's tracking members; users without a profile row are skipped.
pub open spec fn update_all_tracking(s: StoreV, syn: SynapseDbV, users: Seq<Seq<char>>) -> StoreV
    decreases users.len(),
{
    if users.len() == 0 {
        s
    } else {
        let s1 = match profile_lookup(syn.profiles, users[0]) {
            Some(p) => update_tracking_spec(s, users[0], p),
            None => s,
        };
        update_all_tracking(s1, syn, users.drop_first())
    }
}

/// The listed users whose profile lookup fails, in order.
pub open spec fn users_without_profile(syn: SynapseDbV, users: Seq<Seq<char>>) -> Seq<Seq<char>>
    decreases users.len(),
{
    if users.len() == 0 {
        Seq::empty()
    } else if profile_lookup(syn.profiles, users.last()) is None {
        users_without_profile(syn, users.drop_last()).push(users.last())
    } else {
        users_without_profile(syn, users.drop_last())
    }
}

/// Mirror the account profile onto one user's tracking members; fails when
/// the directory has no profile row for the user.
pub fn update_user_tracking_members(store: &mut Store, synapse: &SynapseDb, mxid: &str) -> (r:
    Result<(), crate::StoreError>)
    requires
        old(store).inv(),
    ensures
        final(store).inv(),
        match r {
            Ok(_) => profile_lookup(synapse@.profiles, mxid@) matches Some(p) && final(store)@
                == update_tracking_spec(old(store)@, mxid@, p),
            Err(_) => profile_lookup(synapse@.profiles, mxid@) is None && final(store)@ == old(
                store,
            )@,
        },
{
    match synapse.get_synapse_profile(mxid) {
        Some(profile) => {
            store.update_tracking_member(mxid, &profile);
            Ok(())
        },
        None => Err(crate::StoreError::NotFound),
    }
}

/// Mirror account profiles onto the tracking members of every known user;
/// reports the users whose profile could not be found.
pub fn update_tracking_members(store: &mut Store, synapse: &SynapseDb) -> (failed: Vec<String>)
    requires
        old(store).inv(),
    ensures
        final(store).inv(),
        final(store)@ == update_all_tracking(
            old(store)@,
            synapse@,
            old(store)@.users.map_values(|u: crate::store::UserV| u.mxid),
        ),
        failed.deep_view() == users_without_profile(
            synapse@,
            old(store)@.users.map_values(|u: crate::store::UserV| u.mxid),
        ),
{
    let users = store.get_users();
    let ghost uv = old(store)@.users.map_values(|u: crate::store::UserV| u.mxid);
    let ghost target = update_all_tracking(old(store)@, synapse@, uv);
    let mut failed: Vec<String> = Vec::new();
    let n = users.len();
    let mut i: usize = 0;
    proof {
        assert(users.deep_view() == uv);
        assert(uv.skip(0) =~= uv);
        assert(failed.deep_view() =~= users_without_profile(synapse@, uv.take(0)));
    }
    while i < n
        invariant
            i <= n,
            n == users@.len(),
            users.deep_view() == uv,
            store.inv(),
            update_all_tracking(store@, synapse@, uv.skip(i as int)) == target,
            failed.deep_view() == users_without_profile(synapse@, uv.take(i as int)),
        decreases n - i,
    {
        let ghost pre = store@;
        let ghost fpre = failed.deep_view();
        let res = update_user_tracking_members(store, synapse, users[i].as_str());
        if res.is_err() {
            failed.push(users[i].clone());
        }
        proof {
            assert(users@[i as int]@ == uv[i as int]);
            assert(uv.skip(i as int).drop_first() =~= uv.skip(i + 1));
            assert(uv.skip(i as int)[0] == uv[i as int]);
            assert(uv.take(i + 1).drop_last() =~= uv.take(i as int));
            assert(uv.take(i + 1).last() == uv[i as int]);
            match res {
                Ok(_) => {
                    assert(failed.deep_view() =~= users_without_profile(
                        synapse@,
                        uv.take(i + 1),
                    ));
                },
                Err(_) => {
                    assert(failed.deep_view() =~= fpre.push(uv[i as int]));
                    assert(failed.deep_view() =~= users_without_profile(
                        synapse@,
                        uv.take(i + 1),
                    ));
                },
            }
        }
        i += 1;
    }
    proof {
        assert(uv.skip(n as int) =~= Seq::<Seq<char>>::empty());
        assert(uv.take(n as int) =~= uv);
    }
    failed
}

} // verus!
