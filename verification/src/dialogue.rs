//! Dialogue data model.
//!
//! The typed input one inbound chat event is classified into, the
//! per-conversation dialogue state, the effects the engine hands back to
//! the transport, and a durable text encoding of the dialogue state.

use vstd::prelude::*;
use vstd::string::StrSliceExecFns;

use crate::commands::{spec_parse_command, Command};
use crate::text::{chars_of, chars_to_string};

verus! {

/// One inbound message, classified.
pub enum UserInput {
    /// Plain text that is not a command.
    Text(String),
    /// A sticker, by its reference.
    StickerInput(String),
    /// A recognised command.
    Command(Command),
    /// Media the workflow does not understand; holds a description.
    Unsupported(String),
}

/// The view of a classified input.
pub enum InputView {
    Text(Seq<char>),
    StickerInput(Seq<char>),
    Command(Command),
    Unsupported(Seq<char>),
}

impl View for UserInput {
    type V = InputView;

    open spec fn view(&self) -> InputView {
        match self {
            UserInput::Text(t) => InputView::Text(t@),
            UserInput::StickerInput(s) => InputView::StickerInput(s@),
            UserInput::Command(c) => InputView::Command(*c),
            UserInput::Unsupported(d) => InputView::Unsupported(d@),
        }
    }
}

/// The description of a message that cannot be classified.
#[derive(Debug)]
pub struct UnsupportedType(pub String);

impl UserInput {
    /// Classify one inbound message given as plain values: a sticker
    /// reference if the message carried a sticker, otherwise its text, if
    /// any.  Text matching the command grammar becomes a command; a message
    /// with neither sticker nor text is unsupported and is described by
    /// `kind`.
    pub fn parse(sticker: Option<String>, text: Option<String>, kind: String, bot_name: &str) -> (r:
        Result<UserInput, UnsupportedType>)
        ensures
            r == UserInput::spec_parse(sticker, text, kind, bot_name@),
    {
        match sticker {
            Some(s) => Ok(UserInput::StickerInput(s)),
            None => match text {
                Some(t) => match Command::parse(t.as_str(), bot_name) {
                    Some(c) => Ok(UserInput::Command(c)),
                    None => Ok(UserInput::Text(t)),
                },
                None => Err(UnsupportedType(kind)),
            },
        }
    }

    /// What `parse` classifies a message into.
    pub open spec fn spec_parse(
        sticker: Option<String>,
        text: Option<String>,
        kind: String,
        bot: Seq<char>,
    ) -> Result<UserInput, UnsupportedType> {
        match sticker {
            Some(s) => Ok(UserInput::StickerInput(s)),
            None => match text {
                Some(t) => match spec_parse_command(t@, bot) {
                    Some(c) => Ok(UserInput::Command(c)),
                    None => Ok(UserInput::Text(t)),
                },
                None => Err(UnsupportedType(kind)),
            },
        }
    }
}

/// The position of one conversation within the add/remove workflow.
///
/// The default is `Replacing`: listening for alias recalls.  A conversation
/// whose record is absent from storage is in the default state.
pub enum DialogueState {
    /// Idle: scanning messages for `:alias:` recalls.
    Replacing,
    /// An add flow waits for the sticker.
    AwaitingSticker,
    /// An add flow captured a sticker and waits for its alias words.
    AwaitingNames(String),
    /// A removal flow waits for batches of alias words.
    AwaitingRemovalNames,
}

/// The view of a dialogue state.
pub enum StateView {
    Replacing,
    AwaitingSticker,
    AwaitingNames(Seq<char>),
    AwaitingRemovalNames,
}

impl View for DialogueState {
    type V = StateView;

    open spec fn view(&self) -> StateView {
        match self {
            DialogueState::Replacing => StateView::Replacing,
            DialogueState::AwaitingSticker => StateView::AwaitingSticker,
            DialogueState::AwaitingNames(s) => StateView::AwaitingNames(s@),
            DialogueState::AwaitingRemovalNames => StateView::AwaitingRemovalNames,
        }
    }
}

impl DialogueState {
    /// A copy of the state.
    pub fn duplicate(&self) -> (r: DialogueState)
        ensures
            r@ == self@,
    {
        match self {
            DialogueState::Replacing => DialogueState::Replacing,
            DialogueState::AwaitingSticker => DialogueState::AwaitingSticker,
            DialogueState::AwaitingNames(s) => DialogueState::AwaitingNames(s.clone()),
            DialogueState::AwaitingRemovalNames => DialogueState::AwaitingRemovalNames,
        }
    }
}

impl Default for DialogueState {
    /// The default state: listening for alias recalls.
    fn default() -> (r: DialogueState)
        ensures
            r@ == StateView::Replacing,
    {
        DialogueState::Replacing
    }
}

/// One outbound action for the transport to perform.
pub enum Effect {
    /// Send a text reply.
    ReplyText(String),
    /// Send the sticker with the given reference.
    ReplySticker(String),
}

/// The view of an effect.
pub enum EffectView {
    ReplyText(Seq<char>),
    ReplySticker(Seq<char>),
}

impl View for Effect {
    type V = EffectView;

    open spec fn view(&self) -> EffectView {
        match self {
            Effect::ReplyText(t) => EffectView::ReplyText(t@),
            Effect::ReplySticker(s) => EffectView::ReplySticker(s@),
        }
    }
}

/// The views of a list of effects.
pub open spec fn effects_view(s: Seq<Effect>) -> Seq<EffectView> {
    s.map_values(|e: Effect| e@)
}

/// The durable encoding of a dialogue state: a schema version tag (`1`),
/// a variant tag, and, for a captured sticker, its reference.
pub open spec fn spec_encode_state(s: StateView) -> Seq<char> {
    match s {
        StateView::Replacing => seq!['1', 'r'],
        StateView::AwaitingSticker => seq!['1', 's'],
        StateView::AwaitingNames(st) => seq!['1', 'n'] + st,
        StateView::AwaitingRemovalNames => seq!['1', 'm'],
    }
}

/// What a stored record decodes to, if it is well-formed.
pub open spec fn spec_decode_state(t: Seq<char>) -> Option<StateView> {
    if t.len() < 2 || t[0] != '1' {
        None
    } else if t[1] == 'r' {
        if t.len() == 2 {
            Some(StateView::Replacing)
        } else {
            None
        }
    } else if t[1] == 's' {
        if t.len() == 2 {
            Some(StateView::AwaitingSticker)
        } else {
            None
        }
    } else if t[1] == 'm' {
        if t.len() == 2 {
            Some(StateView::AwaitingRemovalNames)
        } else {
            None
        }
    } else if t[1] == 'n' {
        Some(StateView::AwaitingNames(t.skip(2)))
    } else {
        None
    }
}

/// The view of a decoded record.
pub open spec fn opt_state_view(r: Option<DialogueState>) -> Option<StateView> {
    match r {
        Some(d) => Some(d@),
        None => None,
    }
}

/// Encode a dialogue state for durable storage.
pub fn encode_dialogue(d: &DialogueState) -> (r: String)
    ensures
        r@ == spec_encode_state(d@),
{
    let mut v: Vec<char> = Vec::new();
    v.push('1');
    match d {
        DialogueState::Replacing => {
            v.push('r');
        },
        DialogueState::AwaitingSticker => {
            v.push('s');
        },
        DialogueState::AwaitingNames(s) => {
            v.push('n');
            let mut body = chars_of(s.as_str());
            v.append(&mut body);
            proof {
                assert(v@ =~= seq!['1', 'n'] + s@);
            }
        },
        DialogueState::AwaitingRemovalNames => {
            v.push('m');
        },
    }
    proof {
        assert(v@ =~= spec_encode_state(d@));
    }
    chars_to_string(&v)
}

/// Decode a stored record, if it is well-formed.
pub fn decode_dialogue(s: &str) -> (r: Option<DialogueState>)
    ensures
        opt_state_view(r) == spec_decode_state(s@),
{
    let v = chars_of(s);
    if v.len() < 2 || v[0] != '1' {
        return None;
    }
    let tag = v[1];
    if tag == 'r' {
        if v.len() == 2 {
            Some(DialogueState::Replacing)
        } else {
            None
        }
    } else if tag == 's' {
        if v.len() == 2 {
            Some(DialogueState::AwaitingSticker)
        } else {
            None
        }
    } else if tag == 'm' {
        if v.len() == 2 {
            Some(DialogueState::AwaitingRemovalNames)
        } else {
            None
        }
    } else if tag == 'n' {
        let mut body: Vec<char> = Vec::new();
        let mut i: usize = 2;
        while i < v.len()
            invariant
                2 <= i <= v@.len(),
                v@.len() >= 2,
                body@ == v@.subrange(2, i as int),
            decreases v@.len() - i,
        {
            body.push(v[i]);
            proof {
                assert(v@.subrange(2, i as int + 1) =~= v@.subrange(2, i as int).push(
                    v@[i as int],
                ));
            }
            i = i + 1;
        }
        proof {
            assert(body@ =~= v@.skip(2));
        }
        Some(DialogueState::AwaitingNames(chars_to_string(&body)))
    } else {
        None
    }
}

/// Law: decoding an encoded state gives the state back, for every state.
pub proof fn lemma_dialogue_codec_round_trip(s: StateView)
    ensures
        spec_decode_state(spec_encode_state(s)) == Some(s),
{
    let t = spec_encode_state(s);
    match s {
        StateView::Replacing => {},
        StateView::AwaitingSticker => {},
        StateView::AwaitingRemovalNames => {},
        StateView::AwaitingNames(st) => {
            assert(t.len() >= 2 && t[0] == '1' && t[1] == 'n');
            assert(t.skip(2) =~= st);
        },
    }
}

} // verus!
