use plural_kitty::coordinator::UpdateLocks;
use plural_kitty::member_event::{member_diff, MemberEventContent};
use plural_kitty::proxy::{
    parse_bearer, parse_send_path, passthrough_uri, update_identity, update_step, UpdateAction,
    UpdateEvent, UpdatePhase, Upstream,
};
use plural_kitty::resolver::{resolve, Decision, TokenCache};
use plural_kitty::store::Store;
use plural_kitty::synapse::SynapseDb;

const ALICE: &str = "@alice:example.org";
const ROOM: &str = "!abc:ex";
const TOKEN: &str = "SECRET-REDACTED";

fn alice_world() -> (Store, SynapseDb) {
    let mut store = Store::new();
    store.create_user(ALICE);
    store.create_member(ALICE, "Red").unwrap();
    store.add_display_name(ALICE, "Red", "Red \u{1f534}");
    store.add_avatar(ALICE, "Red", "mxc://ex/red");
    store.set_current_fronter(ALICE, Some("Red"));
    let mut synapse = SynapseDb::new();
    synapse.add_token(TOKEN, ALICE);
    (store, synapse)
}

fn upstream_with_alice() -> Upstream {
    let mut upstream = Upstream::new();
    upstream.put_state(ROOM, ALICE, MemberEventContent {
        membership: "join".to_owned(),
        displayname: Some("Alice".to_owned()),
        avatar_url: None,
    });
    upstream
}

#[test]
fn route_matches_send_path() {
    let sp = parse_send_path("/_matrix/client/v3/rooms/!abc:ex/send/m.room.message/tx1").unwrap();
    assert_eq!(sp.version, "v3");
    assert_eq!(sp.room_id, "!abc:ex");
    assert_eq!(sp.event_type, "m.room.message");
    assert_eq!(sp.txn_id, "tx1");
    // the version segment is captured but not constrained
    let sp = parse_send_path("/_matrix/client/r0/rooms/!r:ex/send/m.room.message/t").unwrap();
    assert_eq!(sp.version, "r0");
}

#[test]
fn route_rejects_other_paths() {
    assert!(parse_send_path("/_matrix/client/v3/rooms/!abc:ex/state/m.room.member/@a:ex").is_none());
    assert!(parse_send_path("/_matrix/client/v3/rooms/!abc:ex/send/m.room.message").is_none());
    assert!(parse_send_path("/_matrix/client/v3/rooms/!abc:ex/send/m.room.message/t/extra").is_none());
    assert!(parse_send_path("/_matrix/client/v3/rooms//send/m.room.message/t").is_none());
    assert!(parse_send_path("/other").is_none());
}

#[test]
fn bearer_token_extraction() {
    assert_eq!(parse_bearer("Bearer abc123").as_deref(), Some("abc123"));
    assert_eq!(parse_bearer("Basic abc123"), None);
}

#[test]
fn passthrough_uri_concatenates() {
    assert_eq!(
        passthrough_uri("http://synapse:8008", "/_matrix/client/versions?x=1"),
        "http://synapse:8008/_matrix/client/versions?x=1"
    );
}

#[test]
fn diff_rewrites_only_set_fields() {
    let fronter = {
        let (store, _) = alice_world();
        store.get_current_fronter(ALICE).unwrap()
    };
    let current = MemberEventContent {
        membership: "join".to_owned(),
        displayname: Some("Alice".to_owned()),
        avatar_url: None,
    };
    let (new_content, changed) = member_diff(&fronter, &current);
    assert!(changed);
    assert_eq!(new_content.membership, "join");
    assert_eq!(new_content.displayname.as_deref(), Some("Red \u{1f534}"));
    assert_eq!(new_content.avatar_url.as_deref(), Some("mxc://ex/red"));
}

#[test]
fn diff_leaves_unset_fields_alone() {
    let mut store = Store::new();
    store.create_user(ALICE);
    store.create_member(ALICE, "Red").unwrap();
    store.add_avatar(ALICE, "Red", "mxc://ex/red");
    store.set_current_fronter(ALICE, Some("Red"));
    let fronter = store.get_current_fronter(ALICE).unwrap();
    let current = MemberEventContent {
        membership: "join".to_owned(),
        displayname: Some("Alice".to_owned()),
        avatar_url: Some("mxc://ex/old".to_owned()),
    };
    let (new_content, changed) = member_diff(&fronter, &current);
    assert!(changed);
    // display name is unset on the fronter: do not touch
    assert_eq!(new_content.displayname.as_deref(), Some("Alice"));
    assert_eq!(new_content.avatar_url.as_deref(), Some("mxc://ex/red"));
}

#[test]
fn diff_no_change_when_equal() {
    let (store, _) = alice_world();
    let fronter = store.get_current_fronter(ALICE).unwrap();
    let current = MemberEventContent {
        membership: "join".to_owned(),
        displayname: Some("Red \u{1f534}".to_owned()),
        avatar_url: Some("mxc://ex/red".to_owned()),
    };
    let (_, changed) = member_diff(&fronter, &current);
    assert!(!changed);
}

#[test]
fn resolver_decides_and_fills_cache() {
    let (store, synapse) = alice_world();
    let mut cache = TokenCache::new();
    match resolve(&mut cache, &synapse, &store, TOKEN, ROOM) {
        Decision::Rewrite { user_id, fronter } => {
            assert_eq!(user_id, ALICE);
            assert_eq!(fronter.name, "Red");
        },
        Decision::Skip => panic!("expected a rewrite decision"),
    }
    // the cache now answers without the directory
    assert_eq!(cache.get(TOKEN).as_deref(), Some(ALICE));
    // an unknown token is a skip, not an error
    assert!(matches!(
        resolve(&mut cache, &synapse, &store, "unknown", ROOM),
        Decision::Skip
    ));
}

#[test]
fn resolver_skips_without_fronter_or_when_ignored() {
    let (mut store, synapse) = alice_world();
    let mut cache = TokenCache::new();
    store.set_current_fronter(ALICE, None);
    assert!(matches!(resolve(&mut cache, &synapse, &store, TOKEN, ROOM), Decision::Skip));
    store.set_current_fronter(ALICE, Some("Red"));
    store.ignore_room(ALICE, ROOM);
    assert!(matches!(resolve(&mut cache, &synapse, &store, TOKEN, ROOM), Decision::Skip));
}

#[test]
fn rewrite_on_first_send() {
    let (store, synapse) = alice_world();
    let mut cache = TokenCache::new();
    let mut locks = UpdateLocks::new();
    let mut upstream = upstream_with_alice();
    let outcome = update_identity(&store, &synapse, &mut cache, &mut locks, &mut upstream, ROOM, TOKEN);
    assert!(outcome.fetched);
    let put = outcome.put.expect("one membership write");
    assert_eq!(put.membership, "join");
    assert_eq!(put.displayname.as_deref(), Some("Red \u{1f534}"));
    assert_eq!(put.avatar_url.as_deref(), Some("mxc://ex/red"));
    let now = upstream.get_state(ROOM, ALICE).unwrap();
    assert_eq!(now.displayname.as_deref(), Some("Red \u{1f534}"));
    assert!(!locks.is_held(ALICE));
}

#[test]
fn no_rewrite_when_upstream_unchanged() {
    let (store, synapse) = alice_world();
    let mut cache = TokenCache::new();
    let mut locks = UpdateLocks::new();
    let mut upstream = Upstream::new();
    upstream.put_state(ROOM, ALICE, MemberEventContent {
        membership: "join".to_owned(),
        displayname: Some("Red \u{1f534}".to_owned()),
        avatar_url: Some("mxc://ex/red".to_owned()),
    });
    let outcome = update_identity(&store, &synapse, &mut cache, &mut locks, &mut upstream, ROOM, TOKEN);
    assert!(outcome.fetched);
    assert!(outcome.put.is_none());
}

#[test]
fn ignored_room_skips_state_traffic() {
    let (mut store, synapse) = alice_world();
    store.ignore_room(ALICE, ROOM);
    let mut cache = TokenCache::new();
    let mut locks = UpdateLocks::new();
    let mut upstream = upstream_with_alice();
    let outcome = update_identity(&store, &synapse, &mut cache, &mut locks, &mut upstream, ROOM, TOKEN);
    assert!(!outcome.fetched);
    assert!(outcome.put.is_none());
    let unchanged = upstream.get_state(ROOM, ALICE).unwrap();
    assert_eq!(unchanged.displayname.as_deref(), Some("Alice"));
}

#[test]
fn no_fronter_skips_state_traffic() {
    let (mut store, synapse) = alice_world();
    store.set_current_fronter(ALICE, None);
    let mut cache = TokenCache::new();
    let mut locks = UpdateLocks::new();
    let mut upstream = upstream_with_alice();
    let outcome = update_identity(&store, &synapse, &mut cache, &mut locks, &mut upstream, ROOM, TOKEN);
    assert!(!outcome.fetched);
    assert!(outcome.put.is_none());
}

#[test]
fn serialized_sends_write_once() {
    let (store, synapse) = alice_world();
    let mut cache = TokenCache::new();
    let mut locks = UpdateLocks::new();
    let mut upstream = upstream_with_alice();
    let first = update_identity(&store, &synapse, &mut cache, &mut locks, &mut upstream, ROOM, TOKEN);
    assert!(first.put.is_some());
    let second = update_identity(&store, &synapse, &mut cache, &mut locks, &mut upstream, ROOM, TOKEN);
    assert!(second.fetched);
    assert!(second.put.is_none(), "the second send observes the updated state");
}

#[test]
fn per_user_lock_excludes_and_releases() {
    let mut locks = UpdateLocks::new();
    assert!(locks.try_acquire(ALICE));
    assert!(!locks.try_acquire(ALICE));
    // another user is never blocked
    assert!(locks.try_acquire("@bob:example.org"));
    locks.release(ALICE);
    assert!(!locks.is_held(ALICE));
    assert!(locks.try_acquire(ALICE));
}

#[test]
fn update_machine_happy_path() {
    let (store, _) = alice_world();
    let fronter = store.get_current_fronter(ALICE).unwrap();
    let decision = Decision::Rewrite { user_id: ALICE.to_owned(), fronter };
    let (phase, action) = update_step(UpdatePhase::Idle, UpdateEvent::Resolved(decision));
    assert!(matches!(&action, UpdateAction::AcquireLock(u) if u == ALICE));
    let (phase, action) = update_step(phase, UpdateEvent::LockAcquired);
    assert!(matches!(&action, UpdateAction::FetchState(u) if u == ALICE));
    let current = MemberEventContent {
        membership: "join".to_owned(),
        displayname: Some("Alice".to_owned()),
        avatar_url: None,
    };
    let (phase, action) = update_step(phase, UpdateEvent::StateFetched(current));
    match &action {
        UpdateAction::SendPut(u, c) => {
            assert_eq!(u, ALICE);
            assert_eq!(c.displayname.as_deref(), Some("Red \u{1f534}"));
        },
        _ => panic!("expected a membership write"),
    }
    let (_, action) = update_step(phase, UpdateEvent::PutAcked);
    assert!(matches!(&action, UpdateAction::Release(u) if u == ALICE));
}

#[test]
fn update_machine_skip_and_failure() {
    let (phase, action) = update_step(UpdatePhase::Idle, UpdateEvent::Resolved(Decision::Skip));
    assert!(matches!(phase, UpdatePhase::Idle));
    assert!(matches!(action, UpdateAction::Finish));

    let (store, _) = alice_world();
    let fronter = store.get_current_fronter(ALICE).unwrap();
    let decision = Decision::Rewrite { user_id: ALICE.to_owned(), fronter };
    let (phase, _) = update_step(UpdatePhase::Idle, UpdateEvent::Resolved(decision));
    // a failure before the lock is held just finishes
    let (phase2, action2) = update_step(phase, UpdateEvent::Failed);
    assert!(matches!(phase2, UpdatePhase::Idle));
    assert!(matches!(action2, UpdateAction::Finish));
}

#[test]
fn update_machine_unchanged_releases() {
    let (store, _) = alice_world();
    let fronter = store.get_current_fronter(ALICE).unwrap();
    let decision = Decision::Rewrite { user_id: ALICE.to_owned(), fronter };
    let (phase, _) = update_step(UpdatePhase::Idle, UpdateEvent::Resolved(decision));
    let (phase, _) = update_step(phase, UpdateEvent::LockAcquired);
    let current = MemberEventContent {
        membership: "join".to_owned(),
        displayname: Some("Red \u{1f534}".to_owned()),
        avatar_url: Some("mxc://ex/red".to_owned()),
    };
    let (phase, action) = update_step(phase, UpdateEvent::StateFetched(current));
    assert!(matches!(phase, UpdatePhase::Idle));
    assert!(matches!(&action, UpdateAction::Release(u) if u == ALICE));
}

#[test]
fn rewrite_proceeds_while_another_user_holds_a_lock() {
    let (store, synapse) = alice_world();
    let mut cache = TokenCache::new();
    let mut locks = UpdateLocks::new();
    assert!(locks.try_acquire("@bob:example.org"));
    let mut upstream = upstream_with_alice();
    let outcome = update_identity(&store, &synapse, &mut cache, &mut locks, &mut upstream, ROOM, TOKEN);
    assert!(outcome.put.is_some());
    assert!(locks.is_held("@bob:example.org"), "the other user's lock is untouched");
    assert!(!locks.is_held(ALICE));
}
