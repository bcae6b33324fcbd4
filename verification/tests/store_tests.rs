use plural_kitty::bot::{update_tracking_members, update_user_tracking_members};
use plural_kitty::store::{ProfileInfo, Store};
use plural_kitty::synapse::SynapseDb;
use plural_kitty::StoreError;

const ALICE: &str = "@alice:example.org";

#[test]
fn create_user_is_idempotent() {
    let mut s = Store::new();
    assert!(s.create_user(ALICE));
    assert!(!s.create_user(ALICE));
    assert_eq!(s.get_users(), vec![ALICE.to_owned()]);
}

#[test]
fn create_member_duplicate_is_unique_violation() {
    let mut s = Store::new();
    s.create_user(ALICE);
    assert_eq!(s.create_member(ALICE, "Red"), Ok(()));
    assert_eq!(s.create_member(ALICE, "Red"), Err(StoreError::UniqueViolation));
    assert!(s.member_exists(ALICE, "Red"));
    assert!(!s.member_exists(ALICE, "Blue"));
}

#[test]
fn get_member_missing_is_not_found() {
    let s = Store::new();
    assert_eq!(s.get_member(ALICE, "Red"), Err(StoreError::NotFound));
}

#[test]
fn member_fields_set_and_clear() {
    let mut s = Store::new();
    s.create_user(ALICE);
    s.create_member(ALICE, "Red").unwrap();
    s.add_display_name(ALICE, "Red", "Red \u{1f534}");
    s.add_avatar(ALICE, "Red", "mxc://ex/red");
    let m = s.get_member(ALICE, "Red").unwrap();
    assert_eq!(m.display_name.as_deref(), Some("Red \u{1f534}"));
    assert_eq!(m.avatar.as_deref(), Some("mxc://ex/red"));
    s.remove_display_name(ALICE, "Red");
    s.remove_avatar(ALICE, "Red");
    let m = s.get_member(ALICE, "Red").unwrap();
    assert_eq!(m.display_name, None);
    assert_eq!(m.avatar, None);
    // setters are no-ops for a missing member, not errors
    s.add_display_name(ALICE, "Ghost", "x");
    assert!(!s.member_exists(ALICE, "Ghost"));
}

#[test]
fn activators_append_and_remove_all() {
    let mut s = Store::new();
    s.create_user(ALICE);
    s.create_member(ALICE, "Red").unwrap();
    s.add_activator(ALICE, "Red", "r");
    s.add_activator(ALICE, "Red", "rr");
    s.add_activator(ALICE, "Red", "r");
    let m = s.get_member(ALICE, "Red").unwrap();
    assert_eq!(m.activators, vec!["r".to_owned(), "rr".to_owned(), "r".to_owned()]);
    s.remove_activator(ALICE, "Red", "r");
    let m = s.get_member(ALICE, "Red").unwrap();
    assert_eq!(m.activators, vec!["rr".to_owned()]);
}

#[test]
fn rename_member_moves_and_collides() {
    let mut s = Store::new();
    s.create_user(ALICE);
    s.create_member(ALICE, "Red").unwrap();
    s.create_member(ALICE, "Blue").unwrap();
    assert_eq!(s.rename_member(ALICE, "Red", "Blue"), Err(StoreError::UniqueViolation));
    assert_eq!(s.rename_member(ALICE, "Red", "Crimson"), Ok(()));
    assert!(s.member_exists(ALICE, "Crimson"));
    assert!(!s.member_exists(ALICE, "Red"));
    // renaming a missing member is a quiet no-op
    assert_eq!(s.rename_member(ALICE, "Ghost", "Spirit"), Ok(()));
}

#[test]
fn rename_member_repoints_fronter() {
    let mut s = Store::new();
    s.create_user(ALICE);
    s.create_member(ALICE, "Red").unwrap();
    s.add_display_name(ALICE, "Red", "Red \u{1f534}");
    s.set_current_fronter(ALICE, Some("Red"));
    assert_eq!(s.rename_member(ALICE, "Red", "Crimson"), Ok(()));
    let fronter = s.get_current_fronter(ALICE).expect("the pointer must follow the rename");
    assert_eq!(fronter.name, "Crimson");
    assert_eq!(fronter.display_name.as_deref(), Some("Red \u{1f534}"));
    // someone else's fronter pointer is untouched
    let mut t = Store::new();
    t.create_user(ALICE);
    t.create_user("@bob:example.org");
    t.create_member(ALICE, "Red").unwrap();
    t.create_member("@bob:example.org", "Red").unwrap();
    t.set_current_fronter("@bob:example.org", Some("Red"));
    t.rename_member(ALICE, "Red", "Crimson").unwrap();
    assert_eq!(t.get_current_fronter("@bob:example.org").unwrap().name, "Red");
}

#[test]
fn list_members_in_order() {
    let mut s = Store::new();
    s.create_user(ALICE);
    s.create_member(ALICE, "Red").unwrap();
    s.create_member(ALICE, "Blue").unwrap();
    s.create_member("@bob:example.org", "Green").unwrap();
    assert_eq!(s.list_members(ALICE), vec!["Red".to_owned(), "Blue".to_owned()]);
}

#[test]
fn fronter_set_get_and_clear() {
    let mut s = Store::new();
    s.create_user(ALICE);
    s.create_member(ALICE, "Red").unwrap();
    s.set_current_fronter(ALICE, Some("Red"));
    assert_eq!(s.get_current_fronter(ALICE).unwrap().name, "Red");
    s.set_current_fronter(ALICE, None);
    assert!(s.get_current_fronter(ALICE).is_none());
    // a pointer to a missing member is reported as absent
    s.set_current_fronter(ALICE, Some("Ghost"));
    assert!(s.get_current_fronter(ALICE).is_none());
}

#[test]
fn member_deletion_nulls_fronter() {
    let mut s = Store::new();
    s.create_user(ALICE);
    s.create_member(ALICE, "Red").unwrap();
    s.set_current_fronter(ALICE, Some("Red"));
    assert_eq!(s.get_current_fronter(ALICE).unwrap().name, "Red");
    s.remove_member(ALICE, "Red");
    assert!(s.get_current_fronter(ALICE).is_none());
}

#[test]
fn activator_switch_matches_fronter() {
    let mut s = Store::new();
    s.create_user(ALICE);
    s.create_member(ALICE, "Red").unwrap();
    s.create_member(ALICE, "Blue").unwrap();
    s.add_activator(ALICE, "Red", "r");
    s.add_activator(ALICE, "Blue", "b");
    let name = s.set_fronter_from_activator(ALICE, "b").unwrap();
    assert_eq!(name, "Blue");
    assert_eq!(s.get_current_fronter(ALICE).unwrap().name, name);
    // no match: nothing changes, absent is reported
    assert_eq!(s.set_fronter_from_activator(ALICE, "zzz"), None);
    assert_eq!(s.get_current_fronter(ALICE).unwrap().name, "Blue");
    // without a user row the switch is refused
    let mut t = Store::new();
    t.create_member("@eve:example.org", "X").unwrap();
    t.add_activator("@eve:example.org", "X", "x");
    assert_eq!(t.set_fronter_from_activator("@eve:example.org", "x"), None);
}

#[test]
fn first_activator_match_wins() {
    let mut s = Store::new();
    s.create_user(ALICE);
    s.create_member(ALICE, "Red").unwrap();
    s.create_member(ALICE, "Blue").unwrap();
    s.add_activator(ALICE, "Red", "x");
    s.add_activator(ALICE, "Blue", "x");
    assert_eq!(s.set_fronter_from_activator(ALICE, "x").unwrap(), "Red");
}

#[test]
fn toggle_tracking_twice_restores() {
    let mut s = Store::new();
    s.create_user(ALICE);
    s.create_member(ALICE, "Red").unwrap();
    let original = s.get_member(ALICE, "Red").unwrap().track_account;
    let once = s.toggle_tracking(ALICE, "Red").unwrap();
    assert_eq!(once, !original);
    let twice = s.toggle_tracking(ALICE, "Red").unwrap();
    assert_eq!(twice, original);
    assert_eq!(s.toggle_tracking(ALICE, "Ghost"), Err(StoreError::NotFound));
}

#[test]
fn ignore_round_trip_and_idempotence() {
    let mut s = Store::new();
    let room = "!abc:ex";
    s.ignore_room(ALICE, room);
    assert!(s.is_room_ignored(ALICE, room));
    s.ignore_room(ALICE, room);
    assert!(s.is_room_ignored(ALICE, room));
    assert_eq!(s.list_ignored(ALICE), vec![room.to_owned()]);
    s.unignore_room(ALICE, room);
    assert!(!s.is_room_ignored(ALICE, room));
    s.unignore_room(ALICE, room);
    assert!(!s.is_room_ignored(ALICE, room));
    assert_eq!(s.list_ignored(ALICE), Vec::<String>::new());
}

#[test]
fn toggle_ignored_flips() {
    let mut s = Store::new();
    assert!(s.toggle_ignored(ALICE, "!abc:ex"));
    assert!(s.is_room_ignored(ALICE, "!abc:ex"));
    assert!(!s.toggle_ignored(ALICE, "!abc:ex"));
    assert!(!s.is_room_ignored(ALICE, "!abc:ex"));
}

#[test]
fn read_msgs_reports_fresh_pair_once() {
    let mut s = Store::new();
    assert!(!s.read_msgs("!r:ex", "$e1"));
    assert!(s.read_msgs("!r:ex", "$e1"));
    assert!(s.read_msgs("!r:ex", "$e1"));
    // a different event for the same room is fresh again
    assert!(!s.read_msgs("!r:ex", "$e2"));
    assert!(s.read_msgs("!r:ex", "$e2"));
    // rooms do not interfere
    assert!(!s.read_msgs("!other:ex", "$e1"));
}

#[test]
fn synapse_directory_lookups() {
    let mut db = SynapseDb::new();
    db.add_token("tok1", ALICE);
    db.add_profile(ALICE, ProfileInfo { display_name: "Alice".to_owned(), avatar: "".to_owned() });
    db.add_alias("!abc:ex", "#general:ex");
    assert_eq!(db.get_synapse_user("tok1").as_deref(), Some(ALICE));
    assert_eq!(db.get_synapse_user("nope"), None);
    let p = db.get_synapse_profile(ALICE).unwrap();
    assert_eq!(p.display_name, "Alice");
    assert_eq!(p.avatar, "");
    assert_eq!(db.get_synapse_profile("@x:ex"), None);
    assert_eq!(db.room_alias("!abc:ex").as_deref(), Some("#general:ex"));
    assert_eq!(db.room_alias("!zzz:ex"), None);
}

#[test]
fn tracking_members_mirror_profile() {
    let mut s = Store::new();
    s.create_user(ALICE);
    s.create_member(ALICE, "Red").unwrap();
    s.create_member(ALICE, "Blue").unwrap();
    s.toggle_tracking(ALICE, "Red").unwrap();
    let mut db = SynapseDb::new();
    db.add_profile(ALICE, ProfileInfo {
        display_name: "Alice A".to_owned(),
        avatar: "mxc://ex/a".to_owned(),
    });
    update_user_tracking_members(&mut s, &db, ALICE).unwrap();
    let red = s.get_member(ALICE, "Red").unwrap();
    assert_eq!(red.display_name.as_deref(), Some("Alice A"));
    assert_eq!(red.avatar.as_deref(), Some("mxc://ex/a"));
    // the non-tracking member is untouched
    let blue = s.get_member(ALICE, "Blue").unwrap();
    assert_eq!(blue.display_name, None);
}

#[test]
fn tracking_sweep_reports_missing_profiles() {
    let mut s = Store::new();
    s.create_user(ALICE);
    s.create_user("@bob:example.org");
    let mut db = SynapseDb::new();
    db.add_profile(ALICE, ProfileInfo { display_name: "A".to_owned(), avatar: "".to_owned() });
    let failed = update_tracking_members(&mut s, &db);
    assert_eq!(failed, vec!["@bob:example.org".to_owned()]);
}
