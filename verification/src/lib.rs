//! Core of a chat bot that binds short text aliases to stickers.
//!
//! Members of a chat teach the bot aliases for stickers through a multi-step
//! add/remove workflow and later recall a sticker by embedding `:alias:`
//! tokens in a message.  This crate holds the verified core: the
//! per-conversation dialogue state machine, the key-value storage contracts
//! it depends on, and the text processing (command grammar, alias scanning,
//! message rendering) around them.  Transport and network plumbing live
//! outside the crate and talk to it through plain values.

pub mod commands;
pub mod config;
pub mod db;
pub mod dialogue;
pub mod engine;
pub mod laws;
pub mod logs;
pub mod text;
