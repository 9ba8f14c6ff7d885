//! Laws of the engine and of the stores.
//!
//! Each proof function here states a property that holds of the
//! specification functions the executable contracts are written against,
//! so the property carries to every verified caller.

use vstd::prelude::*;

use crate::commands::Command;
use crate::dialogue::{EffectView, InputView, StateView};
use crate::engine::{
    put_all, remove_all, resolve_state, spec_aliases_after, spec_dialogue_after, spec_effects,
    spec_next_state, split_ws,
};

verus! {

/// A token among those bound by `put_all` reads back as the bound sticker.
proof fn lemma_put_all_contains(
    m: Map<(i64, Seq<char>), Seq<char>>,
    chat: i64,
    toks: Seq<Seq<char>>,
    st: Seq<char>,
    a: Seq<char>,
)
    requires
        toks.contains(a),
    ensures
        put_all(m, chat, toks, st).contains_key((chat, a)),
        put_all(m, chat, toks, st)[(chat, a)] == st,
    decreases toks.len(),
{
    let w = choose|w: int| 0 <= w < toks.len() && toks[w] == a;
    if w < toks.len() - 1 {
        assert(toks.drop_last()[w] == a);
        lemma_put_all_contains(m, chat, toks.drop_last(), st, a);
    }
}

/// A key of another chat, or of a token not bound, is not touched by
/// `put_all`.
proof fn lemma_put_all_frame(
    m: Map<(i64, Seq<char>), Seq<char>>,
    chat: i64,
    toks: Seq<Seq<char>>,
    st: Seq<char>,
    k: (i64, Seq<char>),
)
    requires
        k.0 != chat || !toks.contains(k.1),
    ensures
        put_all(m, chat, toks, st).contains_key(k) == m.contains_key(k),
        m.contains_key(k) ==> put_all(m, chat, toks, st)[k] == m[k],
    decreases toks.len(),
{
    if toks.len() > 0 {
        assert(toks.contains(toks.last()));
        if k.0 == chat {
            assert forall|x: int| 0 <= x < toks.drop_last().len() && toks.drop_last()[x]
                == k.1 implies false by {
                assert(toks[x] == k.1);
            }
        }
        lemma_put_all_frame(m, chat, toks.drop_last(), st, k);
    }
}

/// Law: a dialogue record read back where none was written is absent, and
/// the engine treats an absent record exactly like an explicitly stored
/// default record: the resolved state, the alias updates, the effects and
/// the persisted outcome are all the same, so two runs that differ only in
/// holding the one record or not end in the same stores with the same
/// effects.
pub proof fn lemma_default_state_equivalence(
    d: Map<(i64, Option<i64>), StateView>,
    m: Map<(i64, Seq<char>), Seq<char>>,
    chat: i64,
    from: Option<i64>,
    i: InputView,
)
    requires
        !d.contains_key((chat, from)),
    ensures
        ({
            let d2 = d.insert((chat, from), StateView::Replacing);
            let st0 = resolve_state(d, chat, from);
            &&& st0 == StateView::Replacing
            &&& st0 == resolve_state(d2, chat, from)
            &&& spec_aliases_after(m, chat, resolve_state(d, chat, from), i)
                == spec_aliases_after(m, chat, resolve_state(d2, chat, from), i)
            &&& spec_effects(m, chat, resolve_state(d, chat, from), i) == spec_effects(
                m,
                chat,
                resolve_state(d2, chat, from),
                i,
            )
            &&& spec_dialogue_after(d, chat, from, spec_next_state(st0, i))
                == spec_dialogue_after(d2, chat, from, spec_next_state(st0, i))
        }),
{
    let d2 = d.insert((chat, from), StateView::Replacing);
    let next = spec_next_state(StateView::Replacing, i);
    if next is Replacing {
        assert(d.remove((chat, from)) =~= d2.remove((chat, from)));
    } else {
        assert(d.insert((chat, from), next) =~= d2.insert((chat, from), next));
    }
}

/// Law: an alias just bound reads back as the sticker it was bound to.
pub proof fn lemma_put_then_get(
    m: Map<(i64, Seq<char>), Seq<char>>,
    chat: i64,
    alias: Seq<char>,
    sticker: Seq<char>,
)
    ensures
        m.insert((chat, alias), sticker).contains_key((chat, alias)),
        m.insert((chat, alias), sticker)[(chat, alias)] == sticker,
{
}

/// Law: overwrite, not union.  Saving the same alias words against a second
/// sticker leaves every word bound to the second sticker only.
pub proof fn lemma_overwrite_not_union(
    m: Map<(i64, Seq<char>), Seq<char>>,
    chat: i64,
    t: Seq<char>,
    s1: Seq<char>,
    s2: Seq<char>,
    a: Seq<char>,
)
    requires
        split_ws(t).contains(a),
    ensures
        ({
            let m1 = spec_aliases_after(m, chat, StateView::AwaitingNames(s1), InputView::Text(t));
            let m2 = spec_aliases_after(m1, chat, StateView::AwaitingNames(s2), InputView::Text(t));
            &&& m2.contains_key((chat, a))
            &&& m2[(chat, a)] == s2
        }),
{
    let m1 = spec_aliases_after(m, chat, StateView::AwaitingNames(s1), InputView::Text(t));
    lemma_put_all_contains(m1, chat, split_ws(t), s2, a);
}

/// Law: `cancel` in the default state is a no-op.  No effect is emitted, no
/// alias changes, and persisting the outcome leaves the dialogue store
/// exactly as it was: nothing is written for a scope that held no record.
pub proof fn lemma_cancel_in_default_is_noop(
    d: Map<(i64, Option<i64>), StateView>,
    m: Map<(i64, Seq<char>), Seq<char>>,
    chat: i64,
    from: Option<i64>,
)
    requires
        !d.contains_key((chat, from)),
    ensures
        spec_next_state(StateView::Replacing, InputView::Command(Command::Cancel))
            == StateView::Replacing,
        spec_effects(m, chat, StateView::Replacing, InputView::Command(Command::Cancel))
            == Seq::<EffectView>::empty(),
        spec_aliases_after(m, chat, StateView::Replacing, InputView::Command(Command::Cancel))
            == m,
        spec_dialogue_after(
            d,
            chat,
            from,
            spec_next_state(StateView::Replacing, InputView::Command(Command::Cancel)),
        ) == d,
{
    assert(spec_effects(m, chat, StateView::Replacing, InputView::Command(Command::Cancel))
        =~= Seq::<EffectView>::empty());
    assert(d.remove((chat, from)) =~= d);
}

/// Law: dialogue scopes are isolated.  Persisting one scope's outcome never
/// observes or changes another scope's record.
pub proof fn lemma_dialogue_scope_isolation(
    d: Map<(i64, Option<i64>), StateView>,
    c1: i64,
    u1: Option<i64>,
    next: StateView,
    c2: i64,
    u2: Option<i64>,
)
    requires
        (c1, u1) != (c2, u2),
    ensures
        spec_dialogue_after(d, c1, u1, next).contains_key((c2, u2)) == d.contains_key((c2, u2)),
        d.contains_key((c2, u2)) ==> spec_dialogue_after(d, c1, u1, next)[(c2, u2)] == d[
            (c2, u2)
        ],
{
}

/// Law: chats are isolated in the alias store.  A step in one chat never
/// changes another chat's bindings.
pub proof fn lemma_alias_chat_isolation(
    m: Map<(i64, Seq<char>), Seq<char>>,
    chat: i64,
    s: StateView,
    i: InputView,
    k: (i64, Seq<char>),
)
    requires
        k.0 != chat,
    ensures
        spec_aliases_after(m, chat, s, i).contains_key(k) == m.contains_key(k),
        m.contains_key(k) ==> spec_aliases_after(m, chat, s, i)[k] == m[k],
{
    match (s, i) {
        (StateView::AwaitingNames(st), InputView::Text(t)) => {
            lemma_put_all_frame(m, chat, split_ws(t), st, k);
        },
        (StateView::AwaitingRemovalNames, InputView::Text(t)) => {
            crate::engine::lemma_remove_all_frame(
                m,
                chat,
                crate::engine::dedup_tokens(split_ws(t)),
                k,
            );
        },
        _ => {},
    }
}

} // verus!
