use plural_kitty::bot::{
    account_update_needed, avatar_arg_kind, dispatch_command, dm_handler, normalize_activator,
    should_process_dm, AvatarArg, CommandKind, DmOutcome,
};
use plural_kitty::config::{BotInfo, DbInfo};
use plural_kitty::daemon::{supervise_failure, DaemonVerdict, ALLOWED_FAILURES};
use plural_kitty::store::Store;

const ALICE: &str = "@alice:example.org";
const DM_ROOM: &str = "!dm:example.org";

fn alice_store() -> Store {
    let mut s = Store::new();
    s.create_user(ALICE);
    s.create_member(ALICE, "Red").unwrap();
    s.add_activator(ALICE, "Red", "r");
    s.create_member(ALICE, "Blue").unwrap();
    s.add_activator(ALICE, "Blue", "b");
    s
}

#[test]
fn fronter_switch_by_activator() {
    let mut s = alice_store();
    let outcome = dm_handler(&mut s, ALICE, DM_ROOM, "$e1", "r", None).unwrap();
    match outcome {
        DmOutcome::FronterSet(name, reply) => {
            assert_eq!(name, "Red");
            assert_eq!(reply, "Current fronter set to **Red**");
        },
        _ => panic!("expected the fronter to switch"),
    }
    assert_eq!(s.get_current_fronter(ALICE).unwrap().name, "Red");
}

#[test]
fn activator_matching_is_case_insensitive() {
    // If the case-folding wrapper handed its argument back unchanged, "R"
    // would match no stored activator.
    let mut s = alice_store();
    let outcome = dm_handler(&mut s, ALICE, DM_ROOM, "$e1", "R", None).unwrap();
    assert!(matches!(outcome, DmOutcome::FronterSet(name, _) if name == "Red"));
}

#[test]
fn duplicate_event_is_processed_once() {
    let mut s = alice_store();
    let first = dm_handler(&mut s, ALICE, DM_ROOM, "$e1", "b", None).unwrap();
    assert!(matches!(first, DmOutcome::FronterSet(..)));
    s.set_current_fronter(ALICE, None);
    let again = dm_handler(&mut s, ALICE, DM_ROOM, "$e1", "b", None).unwrap();
    assert!(matches!(again, DmOutcome::AlreadySeen));
    assert!(s.get_current_fronter(ALICE).is_none(), "the duplicate must not act");
}

#[test]
fn unknown_activator_reports_unknown() {
    let mut s = alice_store();
    let outcome = dm_handler(&mut s, ALICE, DM_ROOM, "$e1", "zzz", None).unwrap();
    assert!(matches!(outcome, DmOutcome::Unknown));
    assert!(s.get_current_fronter(ALICE).is_none());
}

#[test]
fn command_word_is_handed_over() {
    let mut s = alice_store();
    let outcome = dm_handler(&mut s, ALICE, DM_ROOM, "$e1", "!member new Green", None).unwrap();
    match outcome {
        DmOutcome::Command(word, mut rest) => {
            assert_eq!(word, "!member");
            assert_eq!(dispatch_command(&word), CommandKind::Member);
            assert_eq!(rest.pop_word().as_deref(), Some("new"));
            assert_eq!(rest.pop_word().as_deref(), Some("Green"));
        },
        _ => panic!("expected a command hand-over"),
    }
}

#[test]
fn empty_message_has_no_word() {
    let mut s = alice_store();
    let outcome = dm_handler(&mut s, ALICE, DM_ROOM, "$e1", "", None).unwrap();
    assert!(matches!(outcome, DmOutcome::NoWord));
}

#[test]
fn html_body_is_used_when_present() {
    let mut s = alice_store();
    let outcome = dm_handler(&mut s, ALICE, DM_ROOM, "$e1", "ignored", Some("b")).unwrap();
    assert!(matches!(outcome, DmOutcome::FronterSet(name, _) if name == "Blue"));
}

#[test]
fn command_words_dispatch() {
    assert_eq!(dispatch_command("!member"), CommandKind::Member);
    assert_eq!(dispatch_command("!m"), CommandKind::Member);
    assert_eq!(dispatch_command("!system"), CommandKind::System);
    assert_eq!(dispatch_command("!s"), CommandKind::System);
    assert_eq!(dispatch_command("!ignore"), CommandKind::Ignore);
    assert_eq!(dispatch_command("!i"), CommandKind::Ignore);
    assert_eq!(dispatch_command("!clear"), CommandKind::Clear);
    assert_eq!(dispatch_command("!cl"), CommandKind::Clear);
    assert_eq!(dispatch_command("!help"), CommandKind::Help);
    assert_eq!(dispatch_command("!h"), CommandKind::Help);
    assert_eq!(dispatch_command("!nope"), CommandKind::Unknown);
}

#[test]
fn activators_are_normalized_to_lowercase() {
    assert_eq!(normalize_activator("RoAr").as_deref(), Some("roar"));
    assert_eq!(normalize_activator("!bad"), None);
}

#[test]
fn avatar_arguments_classify() {
    assert_eq!(avatar_arg_kind("!clear"), AvatarArg::Clear);
    assert_eq!(avatar_arg_kind("!acc"), AvatarArg::Account);
    assert_eq!(avatar_arg_kind("mxc://ex/pic"), AvatarArg::Mxc);
    assert_eq!(avatar_arg_kind("http://ex/pic"), AvatarArg::Invalid);
}

#[test]
fn supervisor_restart_policy() {
    assert_eq!(supervise_failure(false, 0).0, DaemonVerdict::FatalStartFailure);
    assert_eq!(supervise_failure(true, 0), (DaemonVerdict::Restart, 1));
    assert_eq!(supervise_failure(true, ALLOWED_FAILURES), (DaemonVerdict::Restart, ALLOWED_FAILURES + 1));
    assert_eq!(
        supervise_failure(true, ALLOWED_FAILURES + 1).0,
        DaemonVerdict::FatalTooManyFailures
    );
}

fn db_info() -> DbInfo {
    DbInfo {
        user: "kitty".to_owned(),
        password: None,
        password_file: None,
        host: "localhost".to_owned(),
        database: "kitty".to_owned(),
    }
}

#[test]
fn bot_homeserver_url_defaults_to_user_server() {
    let bot = BotInfo {
        user: "@kitty:example.org".to_owned(),
        homeserver_url: None,
        state_store: "/var/lib/kitty".to_owned(),
        secret_file: None,
        password_file: None,
        db: db_info(),
        display_name: None,
        avatar: None,
    };
    assert_eq!(bot.homeserver_url(), "https://example.org");
    assert_eq!(bot.session_file_path(), "/var/lib/kitty/session.json");
    let explicit = BotInfo {
        homeserver_url: Some("http://synapse:8008".to_owned()),
        secret_file: Some("/etc/kitty/secret".to_owned()),
        ..bot
    };
    assert_eq!(explicit.homeserver_url(), "http://synapse:8008");
    assert_eq!(explicit.session_file_path(), "/etc/kitty/secret");
}

#[test]
fn dm_gate_checks_sender_and_room_size() {
    let bot = "@kitty:example.org";
    assert!(should_process_dm(ALICE, bot, 2));
    assert!(!should_process_dm(bot, bot, 2), "the bot's own messages are skipped");
    assert!(!should_process_dm(ALICE, bot, 3), "only a two-member room is a direct chat");
}

#[test]
fn account_profile_written_only_when_set_and_different() {
    let configured = Some("Kitty".to_owned());
    assert!(account_update_needed(&configured, &None));
    assert!(account_update_needed(&configured, &Some("Old".to_owned())));
    assert!(!account_update_needed(&configured, &Some("Kitty".to_owned())));
    assert!(!account_update_needed(&None, &Some("Old".to_owned())));
}
