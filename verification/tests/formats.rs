//! Text-level behaviour: alias scanning, the command grammar, the durable
//! state encoding, keys, rendering, and argument parsing.

use stickerbot::commands::Command;
use stickerbot::commands::{help_message, render_alias_list, start_message};
use stickerbot::config::{parse_args, Config};
use stickerbot::db::{RedisConnection, RedisStorageError};
use stickerbot::dialogue::{decode_dialogue, encode_dialogue, DialogueState};
use stickerbot::engine::{extract_aliases, split_tokens, dedup_strings};
use stickerbot::logs::{format_id, format_log_chat, format_log_time, get_time};
use stickerbot::text::{i64_to_string, usize_to_string};

#[test]
fn test_extract_aliases() {
    let cases = vec![(":cry:", vec!["cry"]),
            ("inside:cry:text", vec!["cry"]),
            ("inside :cry: text", vec!["cry"]),
            (":cry::not_cry:", vec!["cry", "not_cry"]),
            ("::", vec![]),
            (":ğŸ˜­:", vec!["ğŸ˜­"]),
            (":ğ“¬ğ“»ğ”‚:", vec!["ğ“¬ğ“»ğ”‚"]),];
    for (source, target) in cases {
        let want: Vec<String> = target.iter().map(|s| s.to_string()).collect();
        assert_eq!(extract_aliases(source), want);
    }
}

#[test]
fn test_parse_args() {
    let args = vec!["asdsad".to_owned()];
    assert_eq!(
        parse_args(args),
        Config {
            redis_ip: "redis://127.0.0.1/".to_owned()
        }
    );

    let args = vec!["asdsad".to_owned(), "192.168.88.123".to_owned()];
    assert_eq!(
        parse_args(args),
        Config {
            redis_ip: format!("redis://{}/", "192.168.88.123").to_owned()
        }
    );
}

#[test]
fn extract_aliases_needs_closing_colon() {
    assert_eq!(extract_aliases(":a b:c:"), vec!["c".to_string()]);
    assert_eq!(extract_aliases("no aliases here"), Vec::<String>::new());
    assert_eq!(extract_aliases(":a:b:"), vec!["a".to_string()]);
}

#[test]
fn split_tokens_on_whitespace() {
    assert_eq!(split_tokens("a a b"), vec!["a", "a", "b"]);
    assert_eq!(split_tokens("  cat\tkitty\n"), vec!["cat", "kitty"]);
    assert_eq!(split_tokens("   "), Vec::<String>::new());
    assert_eq!(split_tokens(""), Vec::<String>::new());
}

#[test]
fn dedup_keeps_first_occurrences() {
    let toks = split_tokens("a b a c b");
    assert_eq!(dedup_strings(&toks), vec!["a", "b", "c"]);
}

#[test]
fn command_grammar() {
    assert_eq!(Command::parse("/add", "bot"), Some(Command::Add));
    assert_eq!(Command::parse("/ADD", "bot"), Some(Command::Add));
    assert_eq!(Command::parse("/add@bot", "bot"), Some(Command::Add));
    assert_eq!(Command::parse("/add@BOT", "bot"), Some(Command::Add));
    assert_eq!(Command::parse("/add@other", "bot"), None);
    assert_eq!(Command::parse("/addx", "bot"), None);
    assert_eq!(Command::parse("add", "bot"), None);
    assert_eq!(Command::parse("/add stuff", "bot"), None);
    assert_eq!(Command::parse("", "bot"), None);
    assert_eq!(Command::parse("/start", "bot"), Some(Command::Start));
    assert_eq!(Command::parse("/help", "bot"), Some(Command::Help));
    assert_eq!(Command::parse("/list", "bot"), Some(Command::List));
    assert_eq!(Command::parse("/remove", "bot"), Some(Command::Remove));
    assert_eq!(Command::parse("/Cancel", "bot"), Some(Command::Cancel));
}

#[test]
fn dialogue_codec_round_trip() {
    let states = vec![
        DialogueState::Replacing,
        DialogueState::AwaitingSticker,
        DialogueState::AwaitingNames("STK1".to_string()),
        DialogueState::AwaitingNames(String::new()),
        DialogueState::AwaitingNames("1r :odd: data".to_string()),
        DialogueState::AwaitingRemovalNames,
    ];
    for st in states {
        let encoded = encode_dialogue(&st);
        let back = decode_dialogue(encoded.as_str()).expect("well-formed record");
        assert_eq!(encode_dialogue(&back), encoded);
    }
    assert_eq!(encode_dialogue(&DialogueState::Replacing), "1r");
    assert_eq!(
        encode_dialogue(&DialogueState::AwaitingNames("S".to_string())),
        "1nS"
    );
}

#[test]
fn dialogue_codec_rejects_malformed_records() {
    assert!(decode_dialogue("").is_none());
    assert!(decode_dialogue("1").is_none());
    assert!(decode_dialogue("2r").is_none());
    assert!(decode_dialogue("1x").is_none());
    assert!(decode_dialogue("1r0").is_none());
    assert!(decode_dialogue("1m ").is_none());
}

#[test]
fn storage_keys() {
    assert_eq!(RedisConnection::get_chat_key(42), "chat:42");
    assert_eq!(RedisConnection::get_chat_key(-7), "chat:-7");
    assert_eq!(RedisConnection::get_aliases_key(42), "chat:42aliases");
    assert_eq!(RedisConnection::get_dialogues_key(42), "chat:42dialogues");
    assert_eq!(RedisConnection::get_from_field(Some(5)), "5");
    assert_eq!(RedisConnection::get_from_field(None), "NO_ID");
}

#[test]
fn decimal_rendering() {
    assert_eq!(i64_to_string(0), "0");
    assert_eq!(i64_to_string(907), "907");
    assert_eq!(i64_to_string(-5), "-5");
    assert_eq!(i64_to_string(i64::MIN), "-9223372036854775808");
    assert_eq!(usize_to_string(10), "10");
}

#[test]
fn log_prefixes() {
    let t = get_time();
    assert_eq!(t.chars().count(), 10);
    assert!(t.starts_with('['));
    assert!(t.ends_with(']'));
    assert_eq!(format_id(7), "CHAT 7:");
    let line = format_log_chat("hello", 7);
    assert_eq!(&line[10..], "CHAT 7:hello");
    let line = format_log_time("hello");
    assert_eq!(&line[10..], "hello");
}

#[test]
fn alias_list_rendering() {
    assert_eq!(render_alias_list(&Vec::new()), "No aliases were found.");
    let groups = vec![
        ("S1".to_string(), vec!["cat".to_string(), "kitty".to_string()]),
        ("S2".to_string(), vec!["cry".to_string()]),
    ];
    let want = format!(
        "Aliases for each sticker are \
        in separate lines starting with \
        \">\". Currently assigned aliases:\n> cat kitty \n> cry \n"
    );
    assert_eq!(render_alias_list(&groups), want);
}

#[test]
fn informational_messages_mention_commands() {
    let start = start_message();
    assert!(start.contains("/add"));
    assert!(start.contains("/help"));
    let help = help_message();
    assert!(help.contains("/add - add new alias to sticker"));
    assert!(help.contains("/list - list assigned aliases"));
}

#[test]
fn storage_error_messages() {
    assert_eq!(RedisStorageError::SerdeError.message(), "SerdeError");
    assert_eq!(RedisStorageError::RedisError.message(), "RedisError");
    assert_eq!(
        RedisStorageError::DialogueNotFound.message(),
        "DialogueNotFound"
    );
    assert_eq!(RedisStorageError::AliasNotFound.message(), "AliasNotFound");
}
