//! End-to-end behaviour of the dialogue engine against the in-process
//! store: the add and remove workflows, alias recall, command overrides,
//! and the isolation of conversation scopes.

use stickerbot::commands::Command;
use stickerbot::db::{DialogueStorage, RedisConnection, RedisStorageError, StickerStorage};
use stickerbot::dialogue::{DialogueState, Effect, UnsupportedType, UserInput};

const CHAT: i64 = 100;
const USER: Option<i64> = Some(1);

fn text(s: &str) -> UserInput {
    UserInput::Text(s.to_string())
}

fn sticker(s: &str) -> UserInput {
    UserInput::StickerInput(s.to_string())
}

fn cmd(c: Command) -> UserInput {
    UserInput::Command(c)
}

fn texts(effects: &[Effect]) -> Vec<String> {
    effects
        .iter()
        .map(|e| match e {
            Effect::ReplyText(t) => format!("text:{}", t),
            Effect::ReplySticker(s) => format!("sticker:{}", s),
        })
        .collect()
}

#[test]
fn never_written_scope_reads_back_absent() {
    let mut db = RedisConnection::new();
    let got = db.get_dialogue(CHAT, USER).expect("get never fails here");
    assert!(got.is_none());
    // A step in another scope leaves this scope's record absent.
    let mut db = RedisConnection::new();
    db.handle_message(CHAT + 1, USER, &cmd(Command::Add)).unwrap();
    assert!(db.get_dialogue(CHAT, USER).unwrap().is_none());
}

#[test]
fn put_then_get_round_trip() {
    let mut db = RedisConnection::new();
    db.set_alias(CHAT, "cry", "STK1").unwrap();
    let got = db.get_sticker_id(CHAT, "cry").unwrap();
    assert_eq!(got, Some("STK1".to_string()));
}

#[test]
fn add_flow_overwrites_instead_of_union() {
    let mut db = RedisConnection::new();
    for target in ["STK1", "STK2"] {
        db.handle_message(CHAT, USER, &cmd(Command::Add)).unwrap();
        db.handle_message(CHAT, USER, &sticker(target)).unwrap();
        db.handle_message(CHAT, USER, &text("cry")).unwrap();
    }
    let got = db.get_sticker_id(CHAT, "cry").unwrap();
    assert_eq!(got, Some("STK2".to_string()));
}

#[test]
fn recall_scanning_emits_only_bound_aliases() {
    let mut db = RedisConnection::new();
    db.set_alias(CHAT, "cry", "STK1").unwrap();
    let effects = db
        .handle_message(CHAT, USER, &text("hi :cry: there :nope:"))
        .unwrap();
    assert_eq!(texts(&effects), vec!["sticker:STK1"]);
}

#[test]
fn removal_batch_reports_failures() {
    let mut db = RedisConnection::new();
    db.set_alias(CHAT, "a", "STK1").unwrap();
    db.handle_message(CHAT, USER, &cmd(Command::Remove)).unwrap();
    let effects = db.handle_message(CHAT, USER, &text("a a b")).unwrap();
    assert_eq!(
        texts(&effects),
        vec![
            "text:Removed 1/2 (duplicates are omitted)",
            "text:Aliases that were not removed: b ",
        ]
    );
    assert!(db.get_sticker_id(CHAT, "a").unwrap().is_none());
    // The removal flow stays open until cancelled.
    let record = db.get_dialogue(CHAT, USER).unwrap();
    assert!(matches!(record, Some(DialogueState::AwaitingRemovalNames)));
}

#[test]
fn full_add_scenario() {
    let mut db = RedisConnection::new();
    let effects = db.handle_message(CHAT, USER, &cmd(Command::Add)).unwrap();
    assert_eq!(
        texts(&effects),
        vec!["text:Send a sticker you want to assign alias to."]
    );
    let record = db.get_dialogue(CHAT, USER).unwrap();
    assert!(matches!(record, Some(DialogueState::AwaitingSticker)));

    let effects = db.handle_message(CHAT, USER, &sticker("S")).unwrap();
    assert_eq!(
        texts(&effects),
        vec![
            "text:Great! Now specify aliases for the sticker separated by spaces (without colons!)."
        ]
    );
    match db.get_dialogue(CHAT, USER).unwrap() {
        Some(DialogueState::AwaitingNames(s)) => assert_eq!(s, "S"),
        other => panic!("unexpected record: {:?}", other.is_some()),
    }

    let effects = db.handle_message(CHAT, USER, &text("cat kitty")).unwrap();
    assert_eq!(texts(&effects), vec!["text:Aliases are set successfully!"]);
    assert!(db.get_dialogue(CHAT, USER).unwrap().is_none());
    assert_eq!(db.get_sticker_id(CHAT, "cat").unwrap(), Some("S".to_string()));
    assert_eq!(
        db.get_sticker_id(CHAT, "kitty").unwrap(),
        Some("S".to_string())
    );
}

#[test]
fn cancel_in_default_state_is_a_noop() {
    let mut db = RedisConnection::new();
    let effects = db.handle_message(CHAT, USER, &cmd(Command::Cancel)).unwrap();
    assert!(effects.is_empty());
    assert!(db.get_dialogue(CHAT, USER).unwrap().is_none());
}

#[test]
fn cancel_leaves_an_open_flow() {
    let mut db = RedisConnection::new();
    db.handle_message(CHAT, USER, &cmd(Command::Add)).unwrap();
    let effects = db.handle_message(CHAT, USER, &cmd(Command::Cancel)).unwrap();
    assert_eq!(texts(&effects), vec!["text:Cancelled alias addition."]);
    assert!(db.get_dialogue(CHAT, USER).unwrap().is_none());
}

#[test]
fn concurrent_add_flows_in_different_chats_stay_isolated() {
    let mut db = RedisConnection::new();
    let chat_a = 100;
    let chat_b = 200;
    db.handle_message(chat_a, USER, &cmd(Command::Add)).unwrap();
    db.handle_message(chat_b, USER, &cmd(Command::Add)).unwrap();
    // Chat A advances; chat B's record must not move.
    db.handle_message(chat_a, USER, &sticker("SA")).unwrap();
    assert!(matches!(
        db.get_dialogue(chat_a, USER).unwrap(),
        Some(DialogueState::AwaitingNames(_))
    ));
    assert!(matches!(
        db.get_dialogue(chat_b, USER).unwrap(),
        Some(DialogueState::AwaitingSticker)
    ));
    // Finish both; aliases land in their own chats.
    db.handle_message(chat_a, USER, &text("cat")).unwrap();
    db.handle_message(chat_b, USER, &sticker("SB")).unwrap();
    db.handle_message(chat_b, USER, &text("cat")).unwrap();
    assert_eq!(
        db.get_sticker_id(chat_a, "cat").unwrap(),
        Some("SA".to_string())
    );
    assert_eq!(
        db.get_sticker_id(chat_b, "cat").unwrap(),
        Some("SB".to_string())
    );
}

#[test]
fn same_chat_users_have_their_own_dialogues() {
    let mut db = RedisConnection::new();
    db.handle_message(CHAT, Some(1), &cmd(Command::Add)).unwrap();
    db.handle_message(CHAT, Some(2), &cmd(Command::Remove)).unwrap();
    db.handle_message(CHAT, None, &cmd(Command::Add)).unwrap();
    assert!(matches!(
        db.get_dialogue(CHAT, Some(1)).unwrap(),
        Some(DialogueState::AwaitingSticker)
    ));
    assert!(matches!(
        db.get_dialogue(CHAT, Some(2)).unwrap(),
        Some(DialogueState::AwaitingRemovalNames)
    ));
    assert!(matches!(
        db.get_dialogue(CHAT, None).unwrap(),
        Some(DialogueState::AwaitingSticker)
    ));
}

#[test]
fn add_is_refused_inside_flows() {
    let mut db = RedisConnection::new();
    db.handle_message(CHAT, USER, &cmd(Command::Add)).unwrap();
    let effects = db.handle_message(CHAT, USER, &cmd(Command::Add)).unwrap();
    assert_eq!(texts(&effects), vec!["text:Already adding new aliases."]);
    let effects = db.handle_message(CHAT, USER, &cmd(Command::Remove)).unwrap();
    assert_eq!(
        texts(&effects),
        vec!["text:To remove aliases /cancel addition first."]
    );
    assert!(matches!(
        db.get_dialogue(CHAT, USER).unwrap(),
        Some(DialogueState::AwaitingSticker)
    ));
}

#[test]
fn list_command_lists_aliases() {
    let mut db = RedisConnection::new();
    let effects = db.handle_message(CHAT, USER, &cmd(Command::List)).unwrap();
    assert_eq!(texts(&effects), vec!["text:No aliases were found."]);
    db.set_alias(CHAT, "cry", "STK1").unwrap();
    let effects = db.handle_message(CHAT, USER, &cmd(Command::List)).unwrap();
    let only = &texts(&effects)[0];
    assert!(only.contains("Currently assigned aliases:"));
    assert!(only.contains("> cry \n"));
}

#[test]
fn stray_inputs_keep_the_state() {
    let mut db = RedisConnection::new();
    // A sticker in the default state is ignored.
    let effects = db.handle_message(CHAT, USER, &sticker("S")).unwrap();
    assert!(effects.is_empty());
    assert!(db.get_dialogue(CHAT, USER).unwrap().is_none());
    // Text while a sticker is awaited only prompts again.
    db.handle_message(CHAT, USER, &cmd(Command::Add)).unwrap();
    let effects = db.handle_message(CHAT, USER, &text("not a sticker")).unwrap();
    assert_eq!(
        texts(&effects),
        vec!["text:Send sticker to assign aliases to or use /cancel."]
    );
    // Unsupported media does nothing.
    let effects = db
        .handle_message(CHAT, USER, &UserInput::Unsupported("poll".to_string()))
        .unwrap();
    assert!(effects.is_empty());
    assert!(matches!(
        db.get_dialogue(CHAT, USER).unwrap(),
        Some(DialogueState::AwaitingSticker)
    ));
}

#[test]
fn store_errors_distinguish_not_found() {
    let mut db = RedisConnection::new();
    assert_eq!(
        db.remove_alias(CHAT, "missing"),
        Err(RedisStorageError::AliasNotFound)
    );
    assert_eq!(
        db.remove_dialogue(CHAT, USER),
        Err(RedisStorageError::DialogueNotFound)
    );
    db.set_alias(CHAT, "a", "S").unwrap();
    assert_eq!(db.remove_alias(CHAT, "a"), Ok(()));
}

#[test]
fn classifier_on_plain_values() {
    let input = UserInput::parse(Some("S".to_string()), None, String::new(), "bot").unwrap();
    assert!(matches!(input, UserInput::StickerInput(s) if s == "S"));
    let input = UserInput::parse(None, Some("/add".to_string()), String::new(), "bot").unwrap();
    assert!(matches!(input, UserInput::Command(Command::Add)));
    let input = UserInput::parse(None, Some("hello".to_string()), String::new(), "bot").unwrap();
    assert!(matches!(input, UserInput::Text(t) if t == "hello"));
    let err = UserInput::parse(None, None, "Poll".to_string(), "bot");
    assert!(matches!(err, Err(UnsupportedType(d)) if d == "Poll"));
}

#[test]
fn get_aliases_groups_by_sticker() {
    let mut db = RedisConnection::new();
    assert_eq!(db.get_aliases(CHAT).unwrap(), None);
    db.set_alias(CHAT, "cat", "S1").unwrap();
    db.set_alias(CHAT, "kitty", "S1").unwrap();
    db.set_alias(CHAT, "cry", "S2").unwrap();
    db.set_alias(999, "other", "S3").unwrap();
    let groups = db.get_aliases(CHAT).unwrap().unwrap();
    assert_eq!(groups.len(), 2);
    let mut all: Vec<(String, String)> = Vec::new();
    for (sticker_id, aliases) in groups {
        assert!(!aliases.is_empty());
        for a in aliases {
            all.push((a, sticker_id.clone()));
        }
    }
    all.sort();
    assert_eq!(
        all,
        vec![
            ("cat".to_string(), "S1".to_string()),
            ("cry".to_string(), "S2".to_string()),
            ("kitty".to_string(), "S1".to_string()),
        ]
    );
}

#[test]
fn recall_repeats_are_not_deduplicated() {
    let mut db = RedisConnection::new();
    db.set_alias(CHAT, "a", "S").unwrap();
    let effects = db.handle_message(CHAT, USER, &text(":a: and :a:")).unwrap();
    assert_eq!(texts(&effects), vec!["sticker:S", "sticker:S"]);
}

#[test]
fn removal_batch_of_only_whitespace_reports_zero() {
    let mut db = RedisConnection::new();
    db.handle_message(CHAT, USER, &cmd(Command::Remove)).unwrap();
    let effects = db.handle_message(CHAT, USER, &text("   ")).unwrap();
    assert_eq!(
        texts(&effects),
        vec!["text:Removed 0/0 (duplicates are omitted)"]
    );
}

#[test]
fn removal_flow_prompts_and_cancels() {
    let mut db = RedisConnection::new();
    let effects = db.handle_message(CHAT, USER, &cmd(Command::Remove)).unwrap();
    assert_eq!(
        texts(&effects),
        vec!["text:Send aliases you want to remove separated by spaces."]
    );
    let effects = db.handle_message(CHAT, USER, &sticker("S")).unwrap();
    assert_eq!(
        texts(&effects),
        vec!["text:Write aliases you want to remove separated by space or use /cancel to stop."]
    );
    let effects = db.handle_message(CHAT, USER, &cmd(Command::Cancel)).unwrap();
    assert_eq!(texts(&effects), vec!["text:Cancelled alias removal."]);
    assert!(db.get_dialogue(CHAT, USER).unwrap().is_none());
}

#[test]
fn sticker_while_awaiting_names_keeps_the_capture() {
    let mut db = RedisConnection::new();
    db.handle_message(CHAT, USER, &cmd(Command::Add)).unwrap();
    db.handle_message(CHAT, USER, &sticker("S1")).unwrap();
    let effects = db.handle_message(CHAT, USER, &sticker("S2")).unwrap();
    assert_eq!(
        texts(&effects),
        vec![
            "text:Sticker was already specified.Write aliases separated by space or use /cancel to stop adding them."
        ]
    );
    match db.get_dialogue(CHAT, USER).unwrap() {
        Some(DialogueState::AwaitingNames(s)) => assert_eq!(s, "S1"),
        _ => panic!("capture lost"),
    }
}
