//! The dialogue engine.
//!
//! One exhaustive transition function drives the alias add/remove workflow:
//! given the current dialogue state and one classified input it computes the
//! next state, the effects to send back, and the alias store updates.  The
//! orchestration around it loads the state before and persists it after.

use vstd::prelude::*;
use vstd::string::{StrSliceExecFns, StringExecFns};

use crate::commands::{
    help_message, spec_render_alias_list, start_message, Command,
};
use crate::db::{
    lists_aliases, DialogueStorage, RedisConnection, RedisStorageError, StickerStorage,
};
use crate::dialogue::{
    effects_view, DialogueState, Effect, EffectView, InputView, StateView, UserInput,
};
use crate::text::{
    chars_of, chars_to_string, is_space, is_space_char, strs_view, sub_chars, usize_to_string,
    spec_dec_nat,
};

verus! {

/// The first position at or after `k` holding whitespace, or the text's end.
pub open spec fn token_end(t: Seq<char>, k: int) -> int
    decreases t.len() - k when 0 <= k <= t.len()
{
    if k >= t.len() {
        t.len() as int
    } else if is_space_char(t[k]) {
        k
    } else {
        token_end(t, k + 1)
    }
}

pub proof fn lemma_token_end_bounds(t: Seq<char>, k: int)
    requires
        0 <= k <= t.len(),
    ensures
        k <= token_end(t, k) <= t.len(),
    decreases t.len() - k,
{
    if k < t.len() && !is_space_char(t[k]) {
        lemma_token_end_bounds(t, k + 1);
    }
}

/// The whitespace-separated tokens of `t` at or after position `i`.
pub open spec fn split_from(t: Seq<char>, i: int) -> Seq<Seq<char>>
    decreases t.len() - i when 0 <= i <= t.len() via split_from_dec
{
    if i >= t.len() {
        Seq::empty()
    } else if is_space_char(t[i]) {
        split_from(t, i + 1)
    } else {
        seq![t.subrange(i, token_end(t, i + 1))] + split_from(t, token_end(t, i + 1))
    }
}

#[via_fn]
proof fn split_from_dec(t: Seq<char>, i: int) {
    if 0 <= i < t.len() && !is_space_char(t[i]) {
        lemma_token_end_bounds(t, i + 1);
    }
}

/// The whitespace-separated tokens of `t`, in order, duplicates kept.
pub open spec fn split_ws(t: Seq<char>) -> Seq<Seq<char>> {
    split_from(t, 0)
}

/// The first position at or after `k` holding a colon or whitespace, or the
/// text's end.
pub open spec fn token_close(t: Seq<char>, k: int) -> int
    decreases t.len() - k when 0 <= k <= t.len()
{
    if k >= t.len() {
        t.len() as int
    } else if t[k] == ':' || is_space_char(t[k]) {
        k
    } else {
        token_close(t, k + 1)
    }
}

pub proof fn lemma_token_close_bounds(t: Seq<char>, k: int)
    requires
        0 <= k <= t.len(),
    ensures
        k <= token_close(t, k) <= t.len(),
    decreases t.len() - k,
{
    if k < t.len() && !(t[k] == ':' || is_space_char(t[k])) {
        lemma_token_close_bounds(t, k + 1);
    }
}

/// The aliases recalled by `t` at or after position `i`: for every
/// non-overlapping `:word:` pattern, in order, the word between the colons.
/// A word is one or more characters that are neither colons nor whitespace.
pub open spec fn scan_from(t: Seq<char>, i: int) -> Seq<Seq<char>>
    decreases t.len() - i when 0 <= i <= t.len() via scan_from_dec
{
    if i >= t.len() {
        Seq::empty()
    } else if t[i] == ':' {
        let j = token_close(t, i + 1);
        if j < t.len() && t[j] == ':' && j > i + 1 {
            seq![t.subrange(i + 1, j)] + scan_from(t, j + 1)
        } else {
            scan_from(t, i + 1)
        }
    } else {
        scan_from(t, i + 1)
    }
}

#[via_fn]
proof fn scan_from_dec(t: Seq<char>, i: int) {
    if 0 <= i < t.len() && t[i] == ':' {
        lemma_token_close_bounds(t, i + 1);
    }
}

/// The aliases recalled by the whole of `t`.
pub open spec fn spec_extract_aliases(t: Seq<char>) -> Seq<Seq<char>> {
    scan_from(t, 0)
}

/// Extract recalled aliases from given text: every non-overlapping
/// `:alias:` pattern, left to right, duplicates kept.
pub fn extract_aliases(text: &str) -> (r: Vec<String>)
    ensures
        strs_view(r@) == spec_extract_aliases(text@),
{
    let v = chars_of(text);
    let n = v.len();
    let mut out: Vec<String> = Vec::new();
    let mut i: usize = 0;
    while i < n
        invariant
            i <= n,
            n == v@.len(),
            v@ == text@,
            spec_extract_aliases(text@) == strs_view(out@) + scan_from(text@, i as int),
        decreases n - i,
    {
        if v[i] == ':' {
            let mut jx: usize = i + 1;
            while jx < n && v[jx] != ':' && !is_space(v[jx])
                invariant
                    i + 1 <= jx <= n,
                    n == v@.len(),
                    v@ == text@,
                    token_close(text@, i as int + 1) == token_close(text@, jx as int),
                decreases n - jx,
            {
                jx = jx + 1;
            }
            proof {
                assert(token_close(text@, jx as int) == jx as int);
            }
            if jx < n && v[jx] == ':' && jx > i + 1 {
                let tok = sub_chars(&v, i + 1, jx);
                let ghost out0 = strs_view(out@);
                out.push(chars_to_string(&tok));
                proof {
                    assert(strs_view(out@) =~= out0.push(text@.subrange(
                        i as int + 1,
                        jx as int,
                    )));
                    assert(scan_from(text@, i as int) == seq![text@.subrange(
                        i as int + 1,
                        jx as int,
                    )] + scan_from(text@, jx as int + 1));
                    assert(out0 + scan_from(text@, i as int) =~= strs_view(out@) + scan_from(
                        text@,
                        jx as int + 1,
                    ));
                }
                i = jx + 1;
            } else {
                proof {
                    assert(scan_from(text@, i as int) == scan_from(text@, i as int + 1));
                }
                i = i + 1;
            }
        } else {
            i = i + 1;
        }
    }
    proof {
        assert(scan_from(text@, n as int) =~= Seq::<Seq<char>>::empty());
        assert(strs_view(out@) + Seq::<Seq<char>>::empty() =~= strs_view(out@));
    }
    out
}

/// Split given text on whitespace into its tokens, in order, duplicates
/// kept.
pub fn split_tokens(text: &str) -> (r: Vec<String>)
    ensures
        strs_view(r@) == split_ws(text@),
{
    let v = chars_of(text);
    let n = v.len();
    let mut out: Vec<String> = Vec::new();
    let mut i: usize = 0;
    while i < n
        invariant
            i <= n,
            n == v@.len(),
            v@ == text@,
            split_ws(text@) == strs_view(out@) + split_from(text@, i as int),
        decreases n - i,
    {
        if is_space(v[i]) {
            proof {
                assert(split_from(text@, i as int) == split_from(text@, i as int + 1));
            }
            i = i + 1;
        } else {
            let mut jx: usize = i + 1;
            while jx < n && !is_space(v[jx])
                invariant
                    i + 1 <= jx <= n,
                    n == v@.len(),
                    v@ == text@,
                    token_end(text@, i as int + 1) == token_end(text@, jx as int),
                decreases n - jx,
            {
                jx = jx + 1;
            }
            proof {
                assert(token_end(text@, jx as int) == jx as int);
            }
            let tok = sub_chars(&v, i, jx);
            let ghost out0 = strs_view(out@);
            out.push(chars_to_string(&tok));
            proof {
                assert(strs_view(out@) =~= out0.push(text@.subrange(i as int, jx as int)));
                assert(split_from(text@, i as int) == seq![text@.subrange(i as int, jx as int)]
                    + split_from(text@, jx as int));
                assert(out0 + split_from(text@, i as int) =~= strs_view(out@) + split_from(
                    text@,
                    jx as int,
                ));
            }
            i = jx;
        }
    }
    proof {
        assert(split_from(text@, n as int) =~= Seq::<Seq<char>>::empty());
        assert(strs_view(out@) + Seq::<Seq<char>>::empty() =~= strs_view(out@));
    }
    out
}

/// The tokens of `toks` with repeats collapsed: each token's first
/// occurrence, in order.
pub open spec fn dedup_tokens(toks: Seq<Seq<char>>) -> Seq<Seq<char>>
    decreases toks.len(),
{
    if toks.len() == 0 {
        Seq::empty()
    } else if toks.drop_last().contains(toks.last()) {
        dedup_tokens(toks.drop_last())
    } else {
        dedup_tokens(toks.drop_last()).push(toks.last())
    }
}

/// Whether `s` stands among the first `upto` of `toks`.
fn contains_upto(toks: &Vec<String>, upto: usize, s: &String) -> (b: bool)
    requires
        upto <= toks@.len(),
    ensures
        b == strs_view(toks@).take(upto as int).contains(s@),
{
    let mut x: usize = 0;
    while x < upto
        invariant
            x <= upto <= toks@.len(),
            forall|y: int| 0 <= y < x ==> strs_view(toks@)[y] != s@,
        decreases upto - x,
    {
        if toks[x].eq(s) {
            proof {
                assert(strs_view(toks@).take(upto as int)[x as int] == s@);
            }
            return true;
        }
        x = x + 1;
    }
    proof {
        assert forall|y: int|
            0 <= y < upto implies strs_view(toks@).take(upto as int)[y] != s@ by {
            assert(strs_view(toks@)[y] != s@);
        }
    }
    false
}

/// Collapse repeated tokens, keeping each first occurrence, in order.  The
/// result holds no token twice, and only tokens of the input.
pub fn dedup_strings(toks: &Vec<String>) -> (r: Vec<String>)
    ensures
        strs_view(r@) == dedup_tokens(strs_view(toks@)),
        forall|i: int, j: int|
            0 <= i < j < r@.len() ==> #[trigger] strs_view(r@)[i] != #[trigger] strs_view(r@)[j],
{
    let mut out: Vec<String> = Vec::new();
    let mut i: usize = 0;
    while i < toks.len()
        invariant
            i <= toks@.len(),
            strs_view(out@) == dedup_tokens(strs_view(toks@).take(i as int)),
            forall|x: int|
                0 <= x < out@.len() ==> strs_view(toks@).take(i as int).contains(
                    #[trigger] strs_view(out@)[x],
                ),
            forall|x: int, y: int|
                0 <= x < y < out@.len() ==> #[trigger] strs_view(out@)[x]
                    != #[trigger] strs_view(out@)[y],
        decreases toks@.len() - i,
    {
        let ghost pre = strs_view(toks@).take(i as int);
        let ghost out0 = strs_view(out@);
        let seen = contains_upto(toks, i, &toks[i]);
        if !seen {
            out.push(toks[i].clone());
            proof {
                assert(strs_view(out@) =~= out0.push(strs_view(toks@)[i as int]));
            }
        }
        proof {
            let nxt = strs_view(toks@).take(i as int + 1);
            assert(nxt.drop_last() =~= pre);
            assert(nxt.last() == strs_view(toks@)[i as int]);
            if seen {
                assert(dedup_tokens(nxt) == dedup_tokens(pre));
            } else {
                assert(dedup_tokens(nxt) == dedup_tokens(pre).push(strs_view(toks@)[i as int]));
                assert forall|x: int|
                    0 <= x < out@.len() implies nxt.contains(
                    #[trigger] strs_view(out@)[x],
                ) by {
                    if x < out0.len() {
                        let w = choose|w: int| 0 <= w < pre.len() && pre[w] == out0[x];
                        assert(nxt[w] == strs_view(out@)[x]);
                    } else {
                        assert(nxt[i as int] == strs_view(out@)[x]);
                    }
                }
                assert forall|x: int, y: int|
                    0 <= x < y < out@.len() implies #[trigger] strs_view(out@)[x]
                        != #[trigger] strs_view(out@)[y] by {
                    if y == out0.len() {
                        let w = choose|w: int| 0 <= w < pre.len() && pre[w] == out0[x];
                        assert(pre[w] == strs_view(out@)[x]);
                    }
                }
            }
            if seen {
                assert forall|x: int|
                    0 <= x < out@.len() implies nxt.contains(
                    #[trigger] strs_view(out@)[x],
                ) by {
                    let w = choose|w: int| 0 <= w < pre.len() && pre[w] == out0[x];
                    assert(nxt[w] == strs_view(out@)[x]);
                }
            }
        }
        i = i + 1;
    }
    proof {
        assert(strs_view(toks@).take(toks@.len() as int) =~= strs_view(toks@));
    }
    out
}


/// The state after one input, as the transition table gives it.  Commands
/// `add` and `remove` open their flows from the default state and are
/// refused elsewhere; `cancel` always returns to the default; a sticker
/// advances an open add flow; text closes an add flow that awaits alias
/// words.  Everything else keeps the state.
pub open spec fn spec_next_state(s: StateView, i: InputView) -> StateView {
    match i {
        InputView::Command(c) => match c {
            Command::Add => if s is Replacing {
                StateView::AwaitingSticker
            } else {
                s
            },
            Command::Remove => if s is Replacing {
                StateView::AwaitingRemovalNames
            } else {
                s
            },
            Command::Cancel => StateView::Replacing,
            _ => s,
        },
        InputView::StickerInput(st) => match s {
            StateView::AwaitingSticker => StateView::AwaitingNames(st),
            _ => s,
        },
        InputView::Text(_) => match s {
            StateView::AwaitingNames(_) => StateView::Replacing,
            _ => s,
        },
        InputView::Unsupported(_) => s,
    }
}

/// The alias map after binding every token to `st` in `chat`, in order.
pub open spec fn put_all(
    m: Map<(i64, Seq<char>), Seq<char>>,
    chat: i64,
    toks: Seq<Seq<char>>,
    st: Seq<char>,
) -> Map<(i64, Seq<char>), Seq<char>>
    decreases toks.len(),
{
    if toks.len() == 0 {
        m
    } else {
        put_all(m, chat, toks.drop_last(), st).insert((chat, toks.last()), st)
    }
}

/// The alias map after unbinding every token in `chat`, in order.
pub open spec fn remove_all(
    m: Map<(i64, Seq<char>), Seq<char>>,
    chat: i64,
    toks: Seq<Seq<char>>,
) -> Map<(i64, Seq<char>), Seq<char>>
    decreases toks.len(),
{
    if toks.len() == 0 {
        m
    } else {
        remove_all(m, chat, toks.drop_last()).remove((chat, toks.last()))
    }
}

/// A key of another token, or of another chat, is not touched.
pub proof fn lemma_remove_all_frame(
    m: Map<(i64, Seq<char>), Seq<char>>,
    chat: i64,
    toks: Seq<Seq<char>>,
    k: (i64, Seq<char>),
)
    requires
        k.0 != chat || !toks.contains(k.1),
    ensures
        remove_all(m, chat, toks).contains_key(k) == m.contains_key(k),
        m.contains_key(k) ==> remove_all(m, chat, toks)[k] == m[k],
    decreases toks.len(),
{
    if toks.len() > 0 {
        assert(toks.contains(toks.last()));
        if k.0 == chat {
            assert forall|x: int| 0 <= x < toks.drop_last().len() && toks.drop_last()[x]
                == k.1 implies false by {
                assert(toks[x] == k.1);
            }
        }
        lemma_remove_all_frame(m, chat, toks.drop_last(), k);
    }
}

/// How many of the tokens are bound in `chat` under `m`.
pub open spec fn count_bound(
    m: Map<(i64, Seq<char>), Seq<char>>,
    chat: i64,
    toks: Seq<Seq<char>>,
) -> int
    decreases toks.len(),
{
    if toks.len() == 0 {
        0
    } else {
        count_bound(m, chat, toks.drop_last()) + if m.contains_key((chat, toks.last())) {
            1int
        } else {
            0int
        }
    }
}

/// The tokens not bound in `chat` under `m`, in order.
pub open spec fn unbound_tokens(
    m: Map<(i64, Seq<char>), Seq<char>>,
    chat: i64,
    toks: Seq<Seq<char>>,
) -> Seq<Seq<char>>
    decreases toks.len(),
{
    if toks.len() == 0 {
        Seq::empty()
    } else if m.contains_key((chat, toks.last())) {
        unbound_tokens(m, chat, toks.drop_last())
    } else {
        unbound_tokens(m, chat, toks.drop_last()).push(toks.last())
    }
}

/// The number of bound tokens never exceeds the number of tokens.
pub proof fn lemma_count_bound_le(
    m: Map<(i64, Seq<char>), Seq<char>>,
    chat: i64,
    toks: Seq<Seq<char>>,
)
    ensures
        0 <= count_bound(m, chat, toks) <= toks.len(),
    decreases toks.len(),
{
    if toks.len() > 0 {
        lemma_count_bound_le(m, chat, toks.drop_last());
    }
}

/// The alias map after one input: text in an open add flow binds every
/// token to the captured sticker; text in the removal flow unbinds every
/// distinct token; nothing else writes.
pub open spec fn spec_aliases_after(
    m: Map<(i64, Seq<char>), Seq<char>>,
    chat: i64,
    s: StateView,
    i: InputView,
) -> Map<(i64, Seq<char>), Seq<char>> {
    match (s, i) {
        (StateView::AwaitingNames(st), InputView::Text(t)) => put_all(m, chat, split_ws(t), st),
        (StateView::AwaitingRemovalNames, InputView::Text(t)) => remove_all(
            m,
            chat,
            dedup_tokens(split_ws(t)),
        ),
        _ => m,
    }
}

/// The stickers bound to the given aliases in `chat`, in order; unbound
/// aliases are skipped.
pub open spec fn recall_ids(
    m: Map<(i64, Seq<char>), Seq<char>>,
    chat: i64,
    toks: Seq<Seq<char>>,
) -> Seq<Seq<char>>
    decreases toks.len(),
{
    if toks.len() == 0 {
        Seq::empty()
    } else if m.contains_key((chat, toks.last())) {
        recall_ids(m, chat, toks.drop_last()).push(m[(chat, toks.last())])
    } else {
        recall_ids(m, chat, toks.drop_last())
    }
}

/// Sticker-send effects for the given sticker references, in order.
pub open spec fn wrap_stickers(ids: Seq<Seq<char>>) -> Seq<EffectView> {
    ids.map_values(|s: Seq<char>| EffectView::ReplySticker(s))
}

/// The report of one removal batch: how many of the distinct tokens were
/// unbound, and, if any was not bound, which ones.
pub open spec fn spec_removal_report(
    m: Map<(i64, Seq<char>), Seq<char>>,
    chat: i64,
    toks: Seq<Seq<char>>,
) -> Seq<EffectView> {
    let removed = count_bound(m, chat, toks);
    let first = EffectView::ReplyText(
        "Removed "@ + spec_dec_nat(removed as nat) + "/"@ + spec_dec_nat(toks.len())
            + " (duplicates are omitted)"@,
    );
    if removed < toks.len() {
        seq![
            first,
            EffectView::ReplyText(
                "Aliases that were not removed: "@ + crate::commands::spec_line_tail(
                    unbound_tokens(m, chat, toks),
                ),
            ),
        ]
    } else {
        seq![first]
    }
}

/// The replies to a command, by state.  The `list` command is not covered
/// here: its reply depends on the alias store.
pub open spec fn spec_command_effects(s: StateView, c: Command) -> Seq<EffectView> {
    match c {
        Command::Start => seq![EffectView::ReplyText(crate::commands::start_text())],
        Command::Help => seq![EffectView::ReplyText(crate::commands::help_text())],
        Command::List => Seq::empty(),
        Command::Cancel => match s {
            StateView::Replacing => Seq::empty(),
            StateView::AwaitingSticker => seq![
                EffectView::ReplyText("Cancelled alias addition."@),
            ],
            StateView::AwaitingNames(_) => seq![
                EffectView::ReplyText("Cancelled alias addition."@),
            ],
            StateView::AwaitingRemovalNames => seq![
                EffectView::ReplyText("Cancelled alias removal."@),
            ],
        },
        Command::Add => match s {
            StateView::Replacing => seq![
                EffectView::ReplyText("Send a sticker you want to assign alias to."@),
            ],
            StateView::AwaitingSticker => seq![
                EffectView::ReplyText("Already adding new aliases."@),
            ],
            StateView::AwaitingNames(_) => seq![EffectView::ReplyText("Already adding aliases."@)],
            StateView::AwaitingRemovalNames => seq![
                EffectView::ReplyText("To add new aliases /cancel removal first."@),
            ],
        },
        Command::Remove => match s {
            StateView::Replacing => seq![
                EffectView::ReplyText("Send aliases you want to remove separated by spaces."@),
            ],
            StateView::AwaitingSticker => seq![
                EffectView::ReplyText("To remove aliases /cancel addition first."@),
            ],
            StateView::AwaitingNames(_) => seq![
                EffectView::ReplyText("To remove aliases /cancel addition first."@),
            ],
            StateView::AwaitingRemovalNames => seq![
                EffectView::ReplyText("Already removing aliases. Type them separated by spaces."@),
            ],
        },
    }
}

/// The reply to a sticker, by state.
pub open spec fn spec_sticker_effects(s: StateView) -> Seq<EffectView> {
    match s {
        StateView::Replacing => Seq::empty(),
        StateView::AwaitingSticker => seq![
            EffectView::ReplyText(
                "Great! Now specify aliases for the sticker separated by spaces (without colons!)."@,
            ),
        ],
        StateView::AwaitingNames(_) => seq![
            EffectView::ReplyText(
                "Sticker was already specified.Write aliases separated by space or use /cancel to stop adding them."@,
            ),
        ],
        StateView::AwaitingRemovalNames => seq![
            EffectView::ReplyText(
                "Write aliases you want to remove separated by space or use /cancel to stop."@,
            ),
        ],
    }
}

/// Whether the input is the `list` command, whose reply the alias store
/// decides.
pub open spec fn is_list_input(i: InputView) -> bool {
    match i {
        InputView::Command(c) => c is List,
        _ => false,
    }
}

/// The effects of one input other than the `list` command.
pub open spec fn spec_effects(
    m: Map<(i64, Seq<char>), Seq<char>>,
    chat: i64,
    s: StateView,
    i: InputView,
) -> Seq<EffectView> {
    match i {
        InputView::Command(c) => spec_command_effects(s, c),
        InputView::StickerInput(_) => spec_sticker_effects(s),
        InputView::Text(t) => match s {
            StateView::Replacing => wrap_stickers(recall_ids(m, chat, spec_extract_aliases(t))),
            StateView::AwaitingSticker => seq![
                EffectView::ReplyText("Send sticker to assign aliases to or use /cancel."@),
            ],
            StateView::AwaitingNames(_) => seq![
                EffectView::ReplyText("Aliases are set successfully!"@),
            ],
            StateView::AwaitingRemovalNames => spec_removal_report(
                m,
                chat,
                dedup_tokens(split_ws(t)),
            ),
        },
        InputView::Unsupported(_) => Seq::empty(),
    }
}

/// A text reply effect.
fn reply(text: &str) -> (e: Effect)
    ensures
        e@ == EffectView::ReplyText(text@),
{
    Effect::ReplyText(String::from_str(text))
}


/// Answer a command in the given state.  Only the `list` command touches
/// the alias store; every other command's replies are fixed by the state.
fn respond_command<S: StickerStorage>(
    db: &mut S,
    chat_id: i64,
    state: &DialogueState,
    cmd: Command,
) -> (r: Result<Vec<Effect>, RedisStorageError>)
    ensures
        final(db).stickers() == old(db).stickers(),
        !(cmd is List) ==> r is Ok,
        r is Ok && !(cmd is List) ==> effects_view((r->Ok_0)@) == spec_command_effects(
            state@,
            cmd,
        ),
        r is Ok && cmd is List ==> exists|groups: Seq<(Seq<char>, Seq<Seq<char>>)>|
            lists_aliases(old(db).stickers(), chat_id, groups) && effects_view((r->Ok_0)@)
                == seq![EffectView::ReplyText(spec_render_alias_list(groups))],
        old(db).infallible() ==> r is Ok,
{
    let mut effects: Vec<Effect> = Vec::new();
    match cmd {
        Command::Start => {
            effects.push(Effect::ReplyText(start_message()));
        },
        Command::Help => {
            effects.push(Effect::ReplyText(help_message()));
        },
        Command::List => {
            let groups = match db.get_aliases(chat_id) {
                Ok(Some(g)) => g,
                Ok(None) => Vec::new(),
                Err(e) => {
                    return Err(e);
                },
            };
            let msg = crate::commands::render_alias_list(&groups);
            effects.push(Effect::ReplyText(msg));
            proof {
                assert(effects_view(effects@) =~= seq![
                    EffectView::ReplyText(spec_render_alias_list(
                        crate::commands::groups_view(groups@),
                    )),
                ]);
            }
            return Ok(effects);
        },
        Command::Cancel => {
            match state {
                DialogueState::Replacing => {},
                DialogueState::AwaitingSticker => {
                    effects.push(reply("Cancelled alias addition."));
                },
                DialogueState::AwaitingNames(_) => {
                    effects.push(reply("Cancelled alias addition."));
                },
                DialogueState::AwaitingRemovalNames => {
                    effects.push(reply("Cancelled alias removal."));
                },
            }
        },
        Command::Add => {
            match state {
                DialogueState::Replacing => {
                    effects.push(reply("Send a sticker you want to assign alias to."));
                },
                DialogueState::AwaitingSticker => {
                    effects.push(reply("Already adding new aliases."));
                },
                DialogueState::AwaitingNames(_) => {
                    effects.push(reply("Already adding aliases."));
                },
                DialogueState::AwaitingRemovalNames => {
                    effects.push(reply("To add new aliases /cancel removal first."));
                },
            }
        },
        Command::Remove => {
            match state {
                DialogueState::Replacing => {
                    effects.push(reply("Send aliases you want to remove separated by spaces."));
                },
                DialogueState::AwaitingSticker => {
                    effects.push(reply("To remove aliases /cancel addition first."));
                },
                DialogueState::AwaitingNames(_) => {
                    effects.push(reply("To remove aliases /cancel addition first."));
                },
                DialogueState::AwaitingRemovalNames => {
                    effects.push(reply("Already removing aliases. Type them separated by spaces."));
                },
            }
        },
    }
    proof {
        assert(effects_view(effects@) =~= spec_command_effects(state@, cmd));
    }
    Ok(effects)
}

/// Bind every whitespace-separated token of `text` to `sticker_id` in
/// `chat_id`, in order.
fn save_aliases<S: StickerStorage>(
    db: &mut S,
    chat_id: i64,
    text: &str,
    sticker_id: &str,
) -> (r: Result<(), RedisStorageError>)
    ensures
        r is Ok ==> final(db).stickers() == put_all(
            old(db).stickers(),
            chat_id,
            split_ws(text@),
            sticker_id@,
        ),
        r is Err ==> exists|k: int|
            0 <= k <= split_ws(text@).len() && final(db).stickers() == put_all(
                old(db).stickers(),
                chat_id,
                #[trigger] split_ws(text@).take(k),
                sticker_id@,
            ),
        split_ws(text@).len() == 0 ==> r is Ok,
        old(db).infallible() ==> r is Ok,
{
    let toks = split_tokens(text);
    let ghost m0 = db.stickers();
    let ghost tv = strs_view(toks@);
    let mut k: usize = 0;
    proof {
        assert(tv.take(0) =~= Seq::<Seq<char>>::empty());
    }
    while k < toks.len()
        invariant
            k <= toks@.len(),
            tv == strs_view(toks@),
            tv == split_ws(text@),
            m0 == old(db).stickers(),
            db.stickers() == put_all(m0, chat_id, tv.take(k as int), sticker_id@),
            db.infallible() == old(db).infallible(),
        decreases toks@.len() - k,
    {
        let res = db.set_alias(chat_id, toks[k].as_str(), sticker_id);
        proof {
            assert(tv.take(k as int + 1).drop_last() =~= tv.take(k as int));
            assert(tv.take(k as int + 1).last() == tv[k as int]);
        }
        match res {
            Ok(()) => {},
            Err(e) => {
                proof {
                    assert(db.stickers() == put_all(
                        m0,
                        chat_id,
                        split_ws(text@).take(k as int),
                        sticker_id@,
                    ));
                }
                return Err(e);
            },
        }
        k = k + 1;
    }
    proof {
        assert(tv.take(toks@.len() as int) =~= tv);
    }
    Ok(())
}

/// Unbind every distinct whitespace-separated token of `text` in `chat_id`
/// and report how many were bound, naming those that were not.
fn remove_aliases<S: StickerStorage>(db: &mut S, chat_id: i64, text: &str) -> (r: Result<
    Vec<Effect>,
    RedisStorageError,
>)
    ensures
        r is Ok ==> final(db).stickers() == remove_all(
            old(db).stickers(),
            chat_id,
            dedup_tokens(split_ws(text@)),
        ) && effects_view((r->Ok_0)@) == spec_removal_report(
            old(db).stickers(),
            chat_id,
            dedup_tokens(split_ws(text@)),
        ),
        r is Err ==> exists|k: int|
            0 <= k <= dedup_tokens(split_ws(text@)).len() && final(db).stickers() == remove_all(
                old(db).stickers(),
                chat_id,
                #[trigger] dedup_tokens(split_ws(text@)).take(k),
            ),
        dedup_tokens(split_ws(text@)).len() == 0 ==> r is Ok,
        old(db).infallible() ==> r is Ok,
{
    let toks = split_tokens(text);
    let d = dedup_strings(&toks);
    let ghost m0 = db.stickers();
    let ghost dv = strs_view(d@);
    let mut n_removed: usize = 0;
    let mut fails: Vec<String> = Vec::new();
    let mut k: usize = 0;
    proof {
        assert(dv.take(0) =~= Seq::<Seq<char>>::empty());
        assert(strs_view(fails@) =~= Seq::<Seq<char>>::empty());
    }
    while k < d.len()
        invariant
            k <= d@.len(),
            dv == strs_view(d@),
            dv == dedup_tokens(split_ws(text@)),
            forall|i: int, j: int| 0 <= i < j < dv.len() ==> #[trigger] dv[i] != #[trigger] dv[j],
            m0 == old(db).stickers(),
            db.stickers() == remove_all(m0, chat_id, dv.take(k as int)),
            n_removed == count_bound(m0, chat_id, dv.take(k as int)),
            strs_view(fails@) == unbound_tokens(m0, chat_id, dv.take(k as int)),
            n_removed <= k,
            db.infallible() == old(db).infallible(),
        decreases d@.len() - k,
    {
        let ghost kk = k as int;
        proof {
            assert(dv.take(kk + 1).drop_last() =~= dv.take(kk));
            assert(dv.take(kk + 1).last() == dv[kk]);
            assert forall|x: int| 0 <= x < kk && dv.take(kk)[x] == dv[kk] implies false by {
                assert(dv[x] == dv[kk]);
            }
            assert(!dv.take(kk).contains(dv[kk]));
            lemma_remove_all_frame(m0, chat_id, dv.take(kk), (chat_id, dv[kk]));
        }
        let res = db.remove_alias(chat_id, d[k].as_str());
        match res {
            Ok(()) => {
                n_removed = n_removed + 1;
            },
            Err(RedisStorageError::AliasNotFound) => {
                let ghost f0 = strs_view(fails@);
                fails.push(d[k].clone());
                proof {
                    assert(strs_view(fails@) =~= f0.push(dv[kk]));
                    assert(db.stickers() =~= db.stickers().remove((chat_id, dv[kk])));
                }
            },
            Err(e) => {
                proof {
                    assert(db.stickers() == remove_all(
                        m0,
                        chat_id,
                        dedup_tokens(split_ws(text@)).take(kk),
                    ));
                }
                return Err(e);
            },
        }
        k = k + 1;
    }
    proof {
        assert(dv.take(d@.len() as int) =~= dv);
        lemma_count_bound_le(m0, chat_id, dv);
    }
    let total = d.len();
    let mut msg = String::from_str("Removed ");
    let removed_str = usize_to_string(n_removed);
    msg.append(removed_str.as_str());
    msg.append("/");
    let total_str = usize_to_string(total);
    msg.append(total_str.as_str());
    msg.append(" (duplicates are omitted)");
    let mut effects: Vec<Effect> = Vec::new();
    effects.push(Effect::ReplyText(msg));
    if n_removed < total {
        let mut fails_str = String::from_str("Aliases that were not removed: ");
        let ghost fhead = fails_str@;
        let ghost fv = strs_view(fails@);
        let mut x: usize = 0;
        proof {
            assert(fv.take(0) =~= Seq::<Seq<char>>::empty());
            assert(crate::commands::spec_line_tail(fv.take(0)) =~= Seq::<char>::empty());
            assert(fails_str@ =~= fhead + crate::commands::spec_line_tail(fv.take(0)));
        }
        while x < fails.len()
            invariant
                x <= fails@.len(),
                fv == strs_view(fails@),
                fails_str@ == fhead + crate::commands::spec_line_tail(fv.take(x as int)),
            decreases fails@.len() - x,
        {
            fails_str.append(fails[x].as_str());
            fails_str.push(' ');
            proof {
                reveal_strlit(" ");
                assert(fv.take(x as int + 1).drop_last() =~= fv.take(x as int));
                assert(fv.take(x as int + 1).last() == fv[x as int]);
                assert(fails_str@ =~= fhead + crate::commands::spec_line_tail(
                    fv.take(x as int + 1),
                ));
            }
            x = x + 1;
        }
        proof {
            assert(fv.take(fails@.len() as int) =~= fv);
        }
        effects.push(Effect::ReplyText(fails_str));
        proof {
            assert(effects_view(effects@) =~= spec_removal_report(m0, chat_id, dv));
        }
    } else {
        proof {
            assert(effects_view(effects@) =~= spec_removal_report(m0, chat_id, dv));
        }
    }
    Ok(effects)
}

/// The sticker references recalled by `:alias:` patterns in `text`, in
/// order of the patterns; aliases bound to no sticker are skipped.
fn extract_stickers<S: StickerStorage>(db: &mut S, chat_id: i64, text: &str) -> (r: Result<
    Vec<String>,
    RedisStorageError,
>)
    ensures
        final(db).stickers() == old(db).stickers(),
        r is Ok ==> strs_view((r->Ok_0)@) == recall_ids(
            old(db).stickers(),
            chat_id,
            spec_extract_aliases(text@),
        ),
        spec_extract_aliases(text@).len() == 0 ==> r is Ok,
        old(db).infallible() ==> r is Ok,
{
    let aliases = extract_aliases(text);
    let ghost m0 = db.stickers();
    let ghost av = strs_view(aliases@);
    let mut ids: Vec<String> = Vec::new();
    let mut k: usize = 0;
    proof {
        assert(av.take(0) =~= Seq::<Seq<char>>::empty());
        assert(strs_view(ids@) =~= Seq::<Seq<char>>::empty());
    }
    while k < aliases.len()
        invariant
            k <= aliases@.len(),
            av == strs_view(aliases@),
            av == spec_extract_aliases(text@),
            m0 == old(db).stickers(),
            db.stickers() == m0,
            db.infallible() == old(db).infallible(),
            strs_view(ids@) == recall_ids(m0, chat_id, av.take(k as int)),
        decreases aliases@.len() - k,
    {
        let ghost ids0 = strs_view(ids@);
        let res = db.get_sticker_id(chat_id, aliases[k].as_str());
        proof {
            assert(av.take(k as int + 1).drop_last() =~= av.take(k as int));
            assert(av.take(k as int + 1).last() == av[k as int]);
        }
        match res {
            Ok(Some(sticker)) => {
                ids.push(sticker);
                proof {
                    assert(strs_view(ids@) =~= ids0.push(m0[(chat_id, av[k as int])]));
                }
            },
            Ok(None) => {},
            Err(e) => {
                return Err(e);
            },
        }
        k = k + 1;
    }
    proof {
        assert(av.take(aliases@.len() as int) =~= av);
    }
    Ok(ids)
}

/// The effects of plain text in the default state: send the sticker of
/// every bound `:alias:` recall, in order.
fn handle_replace<S: StickerStorage>(db: &mut S, chat_id: i64, text: &str) -> (r: Result<
    Vec<Effect>,
    RedisStorageError,
>)
    ensures
        final(db).stickers() == old(db).stickers(),
        r is Ok ==> effects_view((r->Ok_0)@) == wrap_stickers(
            recall_ids(old(db).stickers(), chat_id, spec_extract_aliases(text@)),
        ),
        spec_extract_aliases(text@).len() == 0 ==> r is Ok,
        old(db).infallible() ==> r is Ok,
{
    let ids = match extract_stickers(db, chat_id, text) {
        Ok(ids) => ids,
        Err(e) => {
            return Err(e);
        },
    };
    let mut effects: Vec<Effect> = Vec::new();
    let mut k: usize = 0;
    while k < ids.len()
        invariant
            k <= ids@.len(),
            strs_view(ids@) == recall_ids(old(db).stickers(), chat_id, spec_extract_aliases(text@)),
            effects_view(effects@) == wrap_stickers(strs_view(ids@).take(k as int)),
        decreases ids@.len() - k,
    {
        let ghost e0 = effects_view(effects@);
        effects.push(Effect::ReplySticker(ids[k].clone()));
        proof {
            assert(effects_view(effects@) =~= e0.push(EffectView::ReplySticker(
                strs_view(ids@)[k as int],
            )));
            assert(wrap_stickers(strs_view(ids@).take(k as int + 1)) =~= wrap_stickers(
                strs_view(ids@).take(k as int),
            ).push(EffectView::ReplySticker(strs_view(ids@)[k as int])));
        }
        k = k + 1;
    }
    proof {
        assert(strs_view(ids@).take(ids@.len() as int) =~= strs_view(ids@));
        assert(effects_view(effects@) =~= wrap_stickers(strs_view(ids@)));
    }
    Ok(effects)
}


/// What may have happened to the alias map when a store call failed and the
/// engine aborted: for text in an open add flow, a prefix of the tokens was
/// bound; for text in the removal flow, a prefix of the distinct tokens was
/// unbound; in every other case nothing changed.
pub open spec fn err_frame(
    m0: Map<(i64, Seq<char>), Seq<char>>,
    m1: Map<(i64, Seq<char>), Seq<char>>,
    chat: i64,
    s: StateView,
    i: InputView,
) -> bool {
    if s is AwaitingNames && i is Text {
        exists|k: int|
            0 <= k <= split_ws(i->Text_0).len() && m1 == put_all(
                m0,
                chat,
                #[trigger] split_ws(i->Text_0).take(k),
                s->AwaitingNames_0,
            )
    } else if s is AwaitingRemovalNames && i is Text {
        exists|k: int|
            0 <= k <= dedup_tokens(split_ws(i->Text_0)).len() && m1 == remove_all(
                m0,
                chat,
                #[trigger] dedup_tokens(split_ws(i->Text_0)).take(k),
            )
    } else {
        m1 == m0
    }
}

/// One step of the dialogue engine: from the current state and one
/// classified input, the next state and the effects to send back, reading
/// and writing the alias store as the workflow asks.  The caller persists
/// the next state.  The step succeeds on every input that needs no store
/// call, and always on a store that never fails; a store error aborts it:
/// the error is handed back unmasked and no effects are emitted.
pub fn handle<S: StickerStorage>(
    db: &mut S,
    chat_id: i64,
    state: &DialogueState,
    input: &UserInput,
) -> (r: Result<(DialogueState, Vec<Effect>), RedisStorageError>)
    ensures
        r is Ok ==> (r->Ok_0).0@ == spec_next_state(state@, input@),
        r is Ok ==> final(db).stickers() == spec_aliases_after(
            old(db).stickers(),
            chat_id,
            state@,
            input@,
        ),
        r is Ok && !is_list_input(input@) ==> effects_view((r->Ok_0).1@) == spec_effects(
            old(db).stickers(),
            chat_id,
            state@,
            input@,
        ),
        r is Ok && is_list_input(input@) ==> exists|groups: Seq<(Seq<char>, Seq<Seq<char>>)>|
            lists_aliases(old(db).stickers(), chat_id, groups) && effects_view((r->Ok_0).1@)
                == seq![EffectView::ReplyText(spec_render_alias_list(groups))],
        r is Err ==> err_frame(old(db).stickers(), final(db).stickers(), chat_id, state@, input@),
        input@ is StickerInput ==> r is Ok,
        input@ is Unsupported ==> r is Ok,
        input@ is Command && !is_list_input(input@) ==> r is Ok,
        state@ is AwaitingSticker && input@ is Text ==> r is Ok,
        old(db).infallible() ==> r is Ok,
{
    match input {
        UserInput::Command(cmd) => {
            let c = *cmd;
            let effects = match respond_command(db, chat_id, state, c) {
                Ok(e) => e,
                Err(e) => {
                    return Err(e);
                },
            };
            let next = match c {
                Command::Add => match state {
                    DialogueState::Replacing => DialogueState::AwaitingSticker,
                    _ => state.duplicate(),
                },
                Command::Remove => match state {
                    DialogueState::Replacing => DialogueState::AwaitingRemovalNames,
                    _ => state.duplicate(),
                },
                Command::Cancel => DialogueState::Replacing,
                _ => state.duplicate(),
            };
            Ok((next, effects))
        },
        UserInput::StickerInput(sticker) => {
            let mut effects: Vec<Effect> = Vec::new();
            match state {
                DialogueState::Replacing => {
                    proof {
                        assert(effects_view(effects@) =~= spec_sticker_effects(state@));
                    }
                    Ok((DialogueState::Replacing, effects))
                },
                DialogueState::AwaitingSticker => {
                    effects.push(
                        reply(
                            "Great! Now specify aliases for the sticker separated by spaces (without colons!).",
                        ),
                    );
                    proof {
                        assert(effects_view(effects@) =~= spec_sticker_effects(state@));
                    }
                    Ok((DialogueState::AwaitingNames(sticker.clone()), effects))
                },
                DialogueState::AwaitingNames(s) => {
                    effects.push(
                        reply(
                            "Sticker was already specified.Write aliases separated by space or use /cancel to stop adding them.",
                        ),
                    );
                    proof {
                        assert(effects_view(effects@) =~= spec_sticker_effects(state@));
                    }
                    Ok((DialogueState::AwaitingNames(s.clone()), effects))
                },
                DialogueState::AwaitingRemovalNames => {
                    effects.push(
                        reply(
                            "Write aliases you want to remove separated by space or use /cancel to stop.",
                        ),
                    );
                    proof {
                        assert(effects_view(effects@) =~= spec_sticker_effects(state@));
                    }
                    Ok((DialogueState::AwaitingRemovalNames, effects))
                },
            }
        },
        UserInput::Text(t) => {
            match state {
                DialogueState::Replacing => {
                    let effects = match handle_replace(db, chat_id, t.as_str()) {
                        Ok(e) => e,
                        Err(e) => {
                            return Err(e);
                        },
                    };
                    Ok((DialogueState::Replacing, effects))
                },
                DialogueState::AwaitingSticker => {
                    let mut effects: Vec<Effect> = Vec::new();
                    effects.push(reply("Send sticker to assign aliases to or use /cancel."));
                    proof {
                        assert(effects_view(effects@) =~= spec_effects(
                            old(db).stickers(),
                            chat_id,
                            state@,
                            input@,
                        ));
                    }
                    Ok((DialogueState::AwaitingSticker, effects))
                },
                DialogueState::AwaitingNames(s) => {
                    match save_aliases(db, chat_id, t.as_str(), s.as_str()) {
                        Ok(()) => {},
                        Err(e) => {
                            proof {
                                let sv = state@;
                                let iv = input@;
                                assert(sv == StateView::AwaitingNames(s@));
                                assert(iv == InputView::Text(t@));
                                let k = choose|k: int|
                                    0 <= k <= split_ws(t@).len() && db.stickers() == put_all(
                                        old(db).stickers(),
                                        chat_id,
                                        #[trigger] split_ws(t@).take(k),
                                        s@,
                                    );
                                assert(0 <= k <= split_ws(iv->Text_0).len() && db.stickers()
                                    == put_all(
                                    old(db).stickers(),
                                    chat_id,
                                    split_ws(iv->Text_0).take(k),
                                    sv->AwaitingNames_0,
                                ));
                                assert(err_frame(
                                    old(db).stickers(),
                                    db.stickers(),
                                    chat_id,
                                    sv,
                                    iv,
                                ));
                            }
                            return Err(e);
                        },
                    }
                    let mut effects: Vec<Effect> = Vec::new();
                    effects.push(reply("Aliases are set successfully!"));
                    proof {
                        assert(effects_view(effects@) =~= spec_effects(
                            old(db).stickers(),
                            chat_id,
                            state@,
                            input@,
                        ));
                    }
                    Ok((DialogueState::Replacing, effects))
                },
                DialogueState::AwaitingRemovalNames => {
                    let effects = match remove_aliases(db, chat_id, t.as_str()) {
                        Ok(e) => e,
                        Err(e) => {
                            proof {
                                let sv = state@;
                                let iv = input@;
                                assert(iv == InputView::Text(t@));
                                let k = choose|k: int|
                                    0 <= k <= dedup_tokens(split_ws(t@)).len() && db.stickers()
                                        == remove_all(
                                        old(db).stickers(),
                                        chat_id,
                                        #[trigger] dedup_tokens(split_ws(t@)).take(k),
                                    );
                                assert(0 <= k <= dedup_tokens(split_ws(iv->Text_0)).len()
                                    && db.stickers() == remove_all(
                                    old(db).stickers(),
                                    chat_id,
                                    dedup_tokens(split_ws(iv->Text_0)).take(k),
                                ));
                                assert(err_frame(
                                    old(db).stickers(),
                                    db.stickers(),
                                    chat_id,
                                    sv,
                                    iv,
                                ));
                            }
                            return Err(e);
                        },
                    };
                    Ok((DialogueState::AwaitingRemovalNames, effects))
                },
            }
        },
        UserInput::Unsupported(_) => {
            let effects: Vec<Effect> = Vec::new();
            proof {
                assert(effects_view(effects@) =~= Seq::<EffectView>::empty());
            }
            Ok((state.duplicate(), effects))
        },
    }
}

/// The state one scope reads back: its record, or the default where none
/// is stored.
pub open spec fn resolve_state(
    d: Map<(i64, Option<i64>), StateView>,
    chat: i64,
    from: Option<i64>,
) -> StateView {
    if d.contains_key((chat, from)) {
        d[(chat, from)]
    } else {
        StateView::Replacing
    }
}

/// The dialogue map after persisting one step: a next state equal to the
/// default deletes the record, any other next state overwrites it.
pub open spec fn spec_dialogue_after(
    d: Map<(i64, Option<i64>), StateView>,
    chat: i64,
    from: Option<i64>,
    next: StateView,
) -> Map<(i64, Option<i64>), StateView> {
    if next is Replacing {
        d.remove((chat, from))
    } else {
        d.insert((chat, from), next)
    }
}

impl RedisConnection {
    /// Process one inbound message end to end: load the scope's dialogue
    /// state (absent meaning the default), run the engine step, persist the
    /// next state, and hand back the effects for the transport to send.
    ///
    /// This store's operations never fail, so the call always succeeds:
    /// the record always reflects the step's outcome and the effects are
    /// always handed back.  Against a fallible store the same orchestration
    /// drops the message when the step aborts; see [`handle`].
    ///
    /// The exclusive borrow makes the fetch and the persist of one event a
    /// single atomic read-modify-write: events for the same scope are
    /// serialized, never interleaved.
    pub fn handle_message(&mut self, chat_id: i64, from_id: Option<i64>, input: &UserInput) -> (r:
        Result<Vec<Effect>, RedisStorageError>)
        ensures
            r is Ok,
            ({
                let st0 = resolve_state(old(self).dialogues(), chat_id, from_id);
                &&& final(self).stickers() == spec_aliases_after(
                    old(self).stickers(),
                    chat_id,
                    st0,
                    input@,
                )
                &&& final(self).dialogues() == spec_dialogue_after(
                    old(self).dialogues(),
                    chat_id,
                    from_id,
                    spec_next_state(st0, input@),
                )
                &&& (!is_list_input(input@) ==> effects_view((r->Ok_0)@) == spec_effects(
                    old(self).stickers(),
                    chat_id,
                    st0,
                    input@,
                ))
                &&& (is_list_input(input@) ==> exists|groups: Seq<(Seq<char>, Seq<Seq<char>>)>|
                    lists_aliases(old(self).stickers(), chat_id, groups) && effects_view(
                        (r->Ok_0)@,
                    ) == seq![EffectView::ReplyText(spec_render_alias_list(groups))])
            }),
    {
        let stored = match self.dialogues_table.get_dialogue(chat_id, from_id) {
            Ok(d) => d,
            Err(e) => {
                return Err(e);
            },
        };
        let state = match stored {
            Some(d) => d,
            None => DialogueState::default(),
        };
        proof {
            assert(state@ == resolve_state(old(self).dialogues(), chat_id, from_id));
        }
        let step = handle(&mut self.aliases, chat_id, &state, input);
        let (next, effects) = match step {
            Ok(p) => p,
            Err(e) => {
                return Err(e);
            },
        };
        let ghost d0 = old(self).dialogues();
        let ghost target = spec_dialogue_after(d0, chat_id, from_id, spec_next_state(
            resolve_state(d0, chat_id, from_id),
            input@,
        ));
        match next {
            DialogueState::Replacing => {
                proof {
                    assert(target == d0.remove((chat_id, from_id)));
                }
                match self.dialogues_table.remove_dialogue(chat_id, from_id) {
                    Ok(()) => {
                        proof {
                            assert(self.dialogues() == target);
                        }
                    },
                    Err(_) => {
                        proof {
                            assert(!d0.contains_key((chat_id, from_id)));
                            assert(d0.remove((chat_id, from_id)) =~= d0);
                            assert(self.dialogues() == target);
                        }
                    },
                }
            },
            other => {
                proof {
                    assert(target == d0.insert((chat_id, from_id), other@));
                }
                match self.dialogues_table.update_dialogue(chat_id, from_id, &other) {
                    Ok(()) => {
                        proof {
                            assert(self.dialogues() == target);
                        }
                    },
                    Err(_) => {
                        proof {
                            assert(self.dialogues() == d0);
                        }
                    },
                }
            },
        }
        proof {
            let st0 = resolve_state(old(self).dialogues(), chat_id, from_id);
            assert(self.stickers() == spec_aliases_after(
                old(self).stickers(),
                chat_id,
                st0,
                input@,
            ));
            assert(self.dialogues() == target);
            if !is_list_input(input@) {
                assert(effects_view(effects@) == spec_effects(
                    old(self).stickers(),
                    chat_id,
                    st0,
                    input@,
                ));
            } else {
                let groups = choose|groups: Seq<(Seq<char>, Seq<Seq<char>>)>|
                    lists_aliases(old(self).stickers(), chat_id, groups) && effects_view(effects@)
                        == seq![EffectView::ReplyText(spec_render_alias_list(groups))];
                assert(lists_aliases(old(self).stickers(), chat_id, groups) && effects_view(
                    effects@,
                ) == seq![EffectView::ReplyText(spec_render_alias_list(groups))]);
            }
        }
        Ok(effects)
    }
}

} // verus!
