//! Key-value storage for aliases and dialogue states.
//!
//! Two contracts: [`StickerStorage`] maps `(chat, alias)` to a sticker
//! reference, [`DialogueStorage`] maps `(chat, user)` to a persisted
//! dialogue state.  [`RedisConnection`] is the verified in-process
//! implementation of both; a deployment may substitute any other
//! implementation of the traits (for instance one backed by a wire
//! protocol) and reuse the same key schema through the `get_*_key`
//! functions.

use vstd::prelude::*;
use vstd::string::{StringExecFns, StrSliceExecFns};

use crate::commands::{group_view, groups_view};
use crate::dialogue::{DialogueState, StateView};
use crate::text::{i64_to_string, spec_dec_int};

verus! {

/// The map described by a sequence of key-value pairs, later pairs winning.
pub open spec fn pairs_map<K, V>(s: Seq<(K, V)>) -> Map<K, V>
    decreases s.len(),
{
    if s.len() == 0 {
        Map::empty()
    } else {
        pairs_map(s.drop_last()).insert(s.last().0, s.last().1)
    }
}

/// The sequence with every pair whose key is `k` taken out, order kept.
pub open spec fn erase_key<K, V>(s: Seq<(K, V)>, k: K) -> Seq<(K, V)>
    decreases s.len(),
{
    if s.len() == 0 {
        Seq::empty()
    } else if s.last().0 == k {
        erase_key(s.drop_last(), k)
    } else {
        erase_key(s.drop_last(), k).push(s.last())
    }
}

/// Erasing a key from the pairs removes exactly that key from the map.
pub proof fn lemma_pairs_map_erase<K, V>(s: Seq<(K, V)>, k: K)
    ensures
        pairs_map(erase_key(s, k)) == pairs_map(s).remove(k),
    decreases s.len(),
{
    if s.len() == 0 {
        assert(pairs_map(erase_key(s, k)) =~= pairs_map(s).remove(k));
    } else {
        lemma_pairs_map_erase(s.drop_last(), k);
        if s.last().0 == k {
            assert(pairs_map(s).remove(k) =~= pairs_map(s.drop_last()).remove(k));
        } else {
            assert(erase_key(s, k).drop_last() =~= erase_key(s.drop_last(), k));
            assert(erase_key(s, k).last() == s.last());
            assert(pairs_map(s).remove(k) =~= pairs_map(s.drop_last()).remove(k).insert(
                s.last().0,
                s.last().1,
            ));
        }
    }
}

/// An error returned from a storage implementation.
#[derive(Clone, Copy, PartialEq, Eq, Structural, Debug)]
pub enum RedisStorageError {
    /// A stored record could not be decoded.
    SerdeError,
    /// The underlying store failed.
    RedisError,
    /// `remove_dialogue` found nothing to remove.
    DialogueNotFound,
    /// `remove_alias` found nothing to remove.
    AliasNotFound,
}

impl RedisStorageError {
    /// A short description of the error, its variant's name.
    pub fn message(&self) -> (r: String)
        ensures
            self is SerdeError ==> r@ == "SerdeError"@,
            self is RedisError ==> r@ == "RedisError"@,
            self is DialogueNotFound ==> r@ == "DialogueNotFound"@,
            self is AliasNotFound ==> r@ == "AliasNotFound"@,
    {
        match self {
            RedisStorageError::SerdeError => String::from_str("SerdeError"),
            RedisStorageError::RedisError => String::from_str("RedisError"),
            RedisStorageError::DialogueNotFound => String::from_str("DialogueNotFound"),
            RedisStorageError::AliasNotFound => String::from_str("AliasNotFound"),
        }
    }
}

/// The view of an optional grouped listing: absence means no groups.
pub open spec fn opt_listing_view(r: Option<Vec<(String, Vec<String>)>>) -> Seq<
    (Seq<char>, Seq<Seq<char>>),
> {
    match r {
        Some(gs) => groups_view(gs@),
        None => Seq::empty(),
    }
}

/// Whether `a` stands somewhere in `groups`.
pub open spec fn alias_listed(groups: Seq<(Seq<char>, Seq<Seq<char>>)>, a: Seq<char>) -> bool {
    exists|gi: int, aj: int|
        0 <= gi < groups.len() && 0 <= aj < groups[gi].1.len() && groups[gi].1[aj] == a
}

/// No alias stands at two positions of `groups`.
pub open spec fn no_dup_aliases(groups: Seq<(Seq<char>, Seq<Seq<char>>)>) -> bool {
    forall|g1: int, a1: int, g2: int, a2: int|
        0 <= g1 < groups.len() && 0 <= a1 < groups[g1].1.len() && 0 <= g2 < groups.len() && 0 <= a2
            < groups[g2].1.len() && (g1 != g2 || a1 != a2) ==> #[trigger] groups[g1].1[a1]
            != #[trigger] groups[g2].1[a2]
}

/// The groups' stickers are pairwise distinct.
pub open spec fn distinct_stickers(groups: Seq<(Seq<char>, Seq<Seq<char>>)>) -> bool {
    forall|g1: int, g2: int|
        0 <= g1 < g2 < groups.len() ==> #[trigger] groups[g1].0 != #[trigger] groups[g2].0
}

/// Every group holds at least one alias.
pub open spec fn nonempty_groups(groups: Seq<(Seq<char>, Seq<Seq<char>>)>) -> bool {
    forall|gi: int| 0 <= gi < groups.len() ==> #[trigger] groups[gi].1.len() > 0
}

/// Whether `groups` is an inverse index of the aliases of `chat` in `m`:
/// every listed alias is bound to its group's sticker, every bound alias is
/// listed, no alias is listed twice, groups are nonempty and their stickers
/// pairwise distinct.
pub open spec fn lists_aliases(
    m: Map<(i64, Seq<char>), Seq<char>>,
    chat: i64,
    groups: Seq<(Seq<char>, Seq<Seq<char>>)>,
) -> bool {
    &&& forall|gi: int, aj: int|
        0 <= gi < groups.len() && 0 <= aj < groups[gi].1.len() ==> m.contains_key(
            (chat, #[trigger] groups[gi].1[aj]),
        ) && m[(chat, groups[gi].1[aj])] == groups[gi].0
    &&& forall|a: Seq<char>| m.contains_key((chat, a)) ==> alias_listed(groups, a)
    &&& no_dup_aliases(groups)
    &&& nonempty_groups(groups)
    &&& distinct_stickers(groups)
}

/// Storage of the alias bindings of each chat.
pub trait StickerStorage: Sized {
    /// The bindings held: `(chat, alias)` to sticker reference.  An
    /// implementation outside the crate may leave this at its default; the
    /// contracts below then promise nothing of interest.
    open spec fn stickers(&self) -> Map<(i64, Seq<char>), Seq<char>> {
        Map::empty()
    }

    /// Whether this implementation's operations never fail for storage
    /// reasons, so the only errors its callers can see are the not-found
    /// reports.  An implementation outside the crate may leave this at its
    /// default, which promises nothing.
    open spec fn infallible(&self) -> bool {
        false
    }

    /// Bind `alias` to `sticker_id` in `chat_id`, replacing any previous
    /// binding of the alias.
    fn set_alias(&mut self, chat_id: i64, alias: &str, sticker_id: &str) -> (r: Result<
        (),
        RedisStorageError,
    >)
        ensures
            r is Ok ==> final(self).stickers() == old(self).stickers().insert(
                (chat_id, alias@),
                sticker_id@,
            ),
            r is Err ==> final(self).stickers() == old(self).stickers(),
            r != Err::<(), RedisStorageError>(RedisStorageError::AliasNotFound),
            old(self).infallible() ==> r is Ok,
            final(self).infallible() == old(self).infallible(),
    ;

    /// The sticker bound to `alias` in `chat_id`, if any.
    fn get_sticker_id(&mut self, chat_id: i64, alias: &str) -> (r: Result<
        Option<String>,
        RedisStorageError,
    >)
        ensures
            final(self).stickers() == old(self).stickers(),
            r is Ok ==> match r->Ok_0 {
                Some(s) => old(self).stickers().contains_key((chat_id, alias@)) && s@ == old(self).stickers()[(chat_id, alias@)],
                None => !old(self).stickers().contains_key((chat_id, alias@)),
            },
            old(self).infallible() ==> r is Ok,
            final(self).infallible() == old(self).infallible(),
    ;

    /// Unbind `alias` in `chat_id`.  `AliasNotFound` reports that there was
    /// nothing to unbind; any other error reports a storage failure.
    fn remove_alias(&mut self, chat_id: i64, alias: &str) -> (r: Result<(), RedisStorageError>)
        ensures
            r is Ok ==> old(self).stickers().contains_key((chat_id, alias@)) && final(self).stickers() == old(self).stickers().remove((chat_id, alias@)),
            r is Err ==> final(self).stickers() == old(self).stickers(),
            r == Err::<(), RedisStorageError>(RedisStorageError::AliasNotFound)
                ==> !old(self).stickers().contains_key((chat_id, alias@)),
            old(self).infallible() ==> r is Ok || r == Err::<(), RedisStorageError>(
                RedisStorageError::AliasNotFound,
            ),
            final(self).infallible() == old(self).infallible(),
    ;

    /// All aliases of `chat_id`, grouped by the sticker they point to.
    /// `None` may stand for a chat with no aliases.
    fn get_aliases(&mut self, chat_id: i64) -> (r: Result<
        Option<Vec<(String, Vec<String>)>>,
        RedisStorageError,
    >)
        ensures
            final(self).stickers() == old(self).stickers(),
            r is Ok ==> lists_aliases(old(self).stickers(), chat_id, opt_listing_view(r->Ok_0)),
            old(self).infallible() ==> r is Ok,
            final(self).infallible() == old(self).infallible(),
    ;
}

/// Storage of the dialogue state of each conversation scope.
pub trait DialogueStorage: Sized {
    /// The states held: `(chat, user)` to dialogue state.  An
    /// implementation outside the crate may leave this at its default; the
    /// contracts below then promise nothing of interest.
    open spec fn dialogues(&self) -> Map<(i64, Option<i64>), StateView> {
        Map::empty()
    }

    /// Persist `dialogue` for `(chat_id, from_id)`, replacing any previous
    /// record.
    fn update_dialogue(
        &mut self,
        chat_id: i64,
        from_id: Option<i64>,
        dialogue: &DialogueState,
    ) -> (r: Result<(), RedisStorageError>)
        ensures
            r is Ok ==> final(self).dialogues() == old(self).dialogues().insert(
                (chat_id, from_id),
                dialogue@,
            ),
            r is Err ==> final(self).dialogues() == old(self).dialogues(),
    ;

    /// The state recorded for `(chat_id, from_id)`, if any.  Absence is not
    /// an error: the caller interprets it as the default state.
    fn get_dialogue(&mut self, chat_id: i64, from_id: Option<i64>) -> (r: Result<
        Option<DialogueState>,
        RedisStorageError,
    >)
        ensures
            final(self).dialogues() == old(self).dialogues(),
            r is Ok ==> match r->Ok_0 {
                Some(d) => old(self).dialogues().contains_key((chat_id, from_id)) && d@ == old(self).dialogues()[(chat_id, from_id)],
                None => !old(self).dialogues().contains_key((chat_id, from_id)),
            },
    ;

    /// Drop the record for `(chat_id, from_id)`.  `DialogueNotFound` reports
    /// that there was nothing to drop; any other error a storage failure.
    fn remove_dialogue(&mut self, chat_id: i64, from_id: Option<i64>) -> (r: Result<
        (),
        RedisStorageError,
    >)
        ensures
            r is Ok ==> old(self).dialogues().contains_key((chat_id, from_id)) && final(self).dialogues() == old(self).dialogues().remove((chat_id, from_id)),
            r is Err ==> final(self).dialogues() == old(self).dialogues(),
            r == Err::<(), RedisStorageError>(RedisStorageError::DialogueNotFound)
                ==> !old(self).dialogues().contains_key((chat_id, from_id)),
    ;
}

/// The alias bindings, as a list of `(chat, alias, sticker)` entries.
pub struct AliasTable {
    entries: Vec<(i64, String, String)>,
}

/// The key-value view of one alias entry.
pub open spec fn alias_entry_view(e: (i64, String, String)) -> ((i64, Seq<char>), Seq<char>) {
    ((e.0, e.1@), e.2@)
}

/// The key-value view of a list of alias entries.
pub open spec fn alias_entries_view(s: Seq<(i64, String, String)>) -> Seq<
    ((i64, Seq<char>), Seq<char>),
> {
    s.map_values(|e: (i64, String, String)| alias_entry_view(e))
}

/// Whether some pair of `flat` holds the alias `a`.
pub open spec fn flat_has(f: Seq<(String, String)>, a: Seq<char>) -> bool {
    exists|j: int| 0 <= j < f.len() && f[j].0@ == a
}

/// The position of the group holding sticker `s`, if any.
fn find_group(groups: &Vec<(String, Vec<String>)>, s: &String) -> (r: Option<usize>)
    ensures
        match r {
            Some(gi) => gi < groups@.len() && groups@[gi as int].0@ == s@,
            None => forall|gi: int| 0 <= gi < groups@.len() ==> groups@[gi].0@ != s@,
        },
{
    let mut gi: usize = 0;
    while gi < groups.len()
        invariant
            gi <= groups@.len(),
            forall|x: int| 0 <= x < gi ==> groups@[x].0@ != s@,
        decreases groups@.len() - gi,
    {
        if groups[gi].0.eq(s) {
            return Some(gi);
        }
        gi = gi + 1;
    }
    None
}

/// The position of the pair of `flat` holding alias `a`, if any.
fn find_flat(flat: &Vec<(String, String)>, a: &String) -> (r: Option<usize>)
    ensures
        match r {
            Some(j) => j < flat@.len() && flat@[j as int].0@ == a@,
            None => forall|x: int| 0 <= x < flat@.len() ==> flat@[x].0@ != a@,
        },
{
    let mut j: usize = 0;
    while j < flat.len()
        invariant
            j <= flat@.len(),
            forall|x: int| 0 <= x < j ==> flat@[x].0@ != a@,
        decreases flat@.len() - j,
    {
        if flat[j].0.eq(a) {
            return Some(j);
        }
        j = j + 1;
    }
    None
}

impl AliasTable {
    pub closed spec fn view_map(&self) -> Map<(i64, Seq<char>), Seq<char>> {
        pairs_map(alias_entries_view(self.entries@))
    }

    pub fn new() -> (r: AliasTable)
        ensures
            r.view_map() == Map::<(i64, Seq<char>), Seq<char>>::empty(),
    {
        AliasTable { entries: Vec::new() }
    }

    /// Take out every entry whose key is `(chat_id, alias)`.
    fn erase(&mut self, chat_id: i64, alias: &String)
        ensures
            final(self).view_map() == old(self).view_map().remove((chat_id, alias@)),
    {
        let ghost k: (i64, Seq<char>) = (chat_id, alias@);
        let ghost all = alias_entries_view(self.entries@);
        let mut out: Vec<(i64, String, String)> = Vec::new();
        let mut i: usize = 0;
        while i < self.entries.len()
            invariant
                i <= self.entries@.len(),
                k == (chat_id, alias@),
                all == alias_entries_view(self.entries@),
                alias_entries_view(out@) == erase_key(all.take(i as int), k),
            decreases self.entries@.len() - i,
        {
            let e = &self.entries[i];
            let ghost out0 = alias_entries_view(out@);
            let hit = e.0 == chat_id && e.1.eq(alias);
            if !hit {
                out.push((e.0, e.1.clone(), e.2.clone()));
            }
            proof {
                let t = all.take(i as int + 1);
                assert(t.drop_last() =~= all.take(i as int));
                assert(t.last() == alias_entry_view(self.entries@[i as int]));
                if hit {
                    assert(t.last().0 == k);
                    assert(erase_key(t, k) == erase_key(all.take(i as int), k));
                } else {
                    assert(t.last().0 != k);
                    assert(alias_entries_view(out@) =~= out0.push(alias_entry_view(
                        self.entries@[i as int],
                    )));
                    assert(erase_key(t, k) == erase_key(all.take(i as int), k).push(t.last()));
                }
            }
            i = i + 1;
        }
        proof {
            assert(all.take(all.len() as int) =~= all);
            lemma_pairs_map_erase(all, k);
        }
        self.entries = out;
    }

    /// The sticker bound to `(chat_id, alias)`, if any: the last entry wins.
    fn lookup(&self, chat_id: i64, alias: &String) -> (r: Option<String>)
        ensures
            match r {
                Some(s) => self.view_map().contains_key((chat_id, alias@)) && s@
                    == self.view_map()[(chat_id, alias@)],
                None => !self.view_map().contains_key((chat_id, alias@)),
            },
    {
        let ghost k: (i64, Seq<char>) = (chat_id, alias@);
        let ghost all = alias_entries_view(self.entries@);
        let mut res: Option<String> = None;
        let mut i: usize = 0;
        proof {
            assert(all.take(0) =~= Seq::<((i64, Seq<char>), Seq<char>)>::empty());
        }
        while i < self.entries.len()
            invariant
                i <= self.entries@.len(),
                k == (chat_id, alias@),
                all == alias_entries_view(self.entries@),
                match res {
                    Some(s) => pairs_map(all.take(i as int)).contains_key(k) && s@ == pairs_map(
                        all.take(i as int),
                    )[k],
                    None => !pairs_map(all.take(i as int)).contains_key(k),
                },
            decreases self.entries@.len() - i,
        {
            let e = &self.entries[i];
            let hit = e.0 == chat_id && e.1.eq(alias);
            if hit {
                res = Some(e.2.clone());
            }
            proof {
                let t = all.take(i as int + 1);
                assert(t.drop_last() =~= all.take(i as int));
                assert(t.last() == alias_entry_view(self.entries@[i as int]));
                if hit {
                    assert(t.last().0 == k);
                } else {
                    assert(t.last().0 != k);
                }
            }
            i = i + 1;
        }
        proof {
            assert(all.take(all.len() as int) =~= all);
        }
        res
    }
}

impl StickerStorage for AliasTable {
    open spec fn stickers(&self) -> Map<(i64, Seq<char>), Seq<char>> {
        self.view_map()
    }

    open spec fn infallible(&self) -> bool {
        true
    }

    fn set_alias(&mut self, chat_id: i64, alias: &str, sticker_id: &str) -> (r: Result<
        (),
        RedisStorageError,
    >)
        ensures
            r is Ok,
    {
        let a: String = alias.to_owned();
        self.erase(chat_id, &a);
        let ghost mid = alias_entries_view(self.entries@);
        let ghost k: (i64, Seq<char>) = (chat_id, alias@);
        self.entries.push((chat_id, a, sticker_id.to_owned()));
        proof {
            let now = alias_entries_view(self.entries@);
            assert(now.drop_last() =~= mid);
            assert(now.last() == (k, sticker_id@));
            assert(old(self).view_map().remove(k).insert(k, sticker_id@) =~= old(self).view_map().insert(k, sticker_id@));
        }
        Ok(())
    }

    fn get_sticker_id(&mut self, chat_id: i64, alias: &str) -> (r: Result<
        Option<String>,
        RedisStorageError,
    >)
        ensures
            r is Ok,
    {
        let a: String = alias.to_owned();
        Ok(self.lookup(chat_id, &a))
    }

    fn remove_alias(&mut self, chat_id: i64, alias: &str) -> (r: Result<(), RedisStorageError>)
        ensures
            (r is Ok) == old(self).stickers().contains_key((chat_id, alias@)),
            r is Err ==> r == Err::<(), RedisStorageError>(RedisStorageError::AliasNotFound),
    {
        let a: String = alias.to_owned();
        match self.lookup(chat_id, &a) {
            Some(_) => {
                self.erase(chat_id, &a);
                Ok(())
            },
            None => Err(RedisStorageError::AliasNotFound),
        }
    }

    fn get_aliases(&mut self, chat_id: i64) -> (r: Result<
        Option<Vec<(String, Vec<String>)>>,
        RedisStorageError,
    >)
        ensures
            r is Ok,
    {
        let ghost m = self.view_map();
        let flat = self.live_pairs(chat_id);
        let groups = group_pairs(&flat, Ghost(m), chat_id);
        if groups.len() == 0 {
            proof {
                assert(groups_view(groups@) =~= Seq::<(Seq<char>, Seq<Seq<char>>)>::empty());
            }
            Ok(None)
        } else {
            Ok(Some(groups))
        }
    }
}

impl AliasTable {
    /// The live `(alias, sticker)` pairs of `chat_id`, later entries
    /// replacing earlier bindings of the same alias: exactly the bindings
    /// the table holds for that chat, each alias once.
    fn live_pairs(&self, chat_id: i64) -> (flat: Vec<(String, String)>)
        ensures
            forall|j1: int, j2: int|
                0 <= j1 < j2 < flat@.len() ==> #[trigger] flat@[j1].0@ != #[trigger] flat@[j2].0@,
            forall|j: int|
                0 <= j < flat@.len() ==> self.view_map().contains_key(
                    (chat_id, #[trigger] flat@[j].0@),
                ) && self.view_map()[(chat_id, flat@[j].0@)] == flat@[j].1@,
            forall|a: Seq<char>|
                self.view_map().contains_key((chat_id, a)) ==> flat_has(flat@, a),
    {
        let ghost all = alias_entries_view(self.entries@);
        let mut flat: Vec<(String, String)> = Vec::new();
        let mut i: usize = 0;
        proof {
            assert(all.take(0) =~= Seq::<((i64, Seq<char>), Seq<char>)>::empty());
        }
        while i < self.entries.len()
            invariant
                i <= self.entries@.len(),
                all == alias_entries_view(self.entries@),
                forall|j1: int, j2: int|
                    0 <= j1 < j2 < flat@.len() ==> #[trigger] flat@[j1].0@
                        != #[trigger] flat@[j2].0@,
                forall|j: int|
                    0 <= j < flat@.len() ==> pairs_map(all.take(i as int)).contains_key(
                        (chat_id, #[trigger] flat@[j].0@),
                    ) && pairs_map(all.take(i as int))[(chat_id, flat@[j].0@)] == flat@[j].1@,
                forall|a: Seq<char>|
                    pairs_map(all.take(i as int)).contains_key((chat_id, a)) ==> flat_has(
                        flat@,
                        a,
                    ),
            decreases self.entries@.len() - i,
        {
            let e = &self.entries[i];
            let ghost flat0 = flat@;
            let ghost pm = pairs_map(all.take(i as int));
            let on_chat = e.0 == chat_id;
            if on_chat {
                match find_flat(&flat, &e.1) {
                    Some(jf) => {
                        let pair = flat.remove(jf);
                        flat.insert(jf, (pair.0, e.2.clone()));
                        proof {
                            assert(flat@ =~= flat0.update(
                                jf as int,
                                (flat0[jf as int].0, self.entries@[i as int].2),
                            ));
                            assert(forall|x: int|
                                0 <= x < flat@.len() ==> #[trigger] flat@[x].0@ == flat0[x].0@);
                            assert(flat@[jf as int].0@ == self.entries@[i as int].1@);
                            assert forall|a: Seq<char>| flat_has(flat0, a) implies flat_has(
                                flat@,
                                a,
                            ) by {
                                let x = choose|x: int| 0 <= x < flat0.len() && flat0[x].0@ == a;
                                assert(flat@[x].0@ == a);
                            }
                        }
                    },
                    None => {
                        flat.push((e.1.clone(), e.2.clone()));
                        proof {
                            assert(flat@ =~= flat0.push(
                                (self.entries@[i as int].1, self.entries@[i as int].2),
                            ));
                            assert(flat@[flat0.len() as int].0@ == self.entries@[i as int].1@);
                            assert forall|a: Seq<char>| flat_has(flat0, a) implies flat_has(
                                flat@,
                                a,
                            ) by {
                                let x = choose|x: int| 0 <= x < flat0.len() && flat0[x].0@ == a;
                                assert(flat@[x].0@ == a);
                            }
                        }
                    },
                }
            }
            proof {
                let t = all.take(i as int + 1);
                assert(t.drop_last() =~= all.take(i as int));
                assert(t.last() == alias_entry_view(self.entries@[i as int]));
                let ek = t.last().0;
                assert(pairs_map(t) == pm.insert(ek, t.last().1));
                if on_chat {
                    assert(ek == (chat_id, self.entries@[i as int].1@));
                    assert(flat_has(flat@, self.entries@[i as int].1@));
                }
                assert forall|a: Seq<char>|
                    pairs_map(all.take(i as int + 1)).contains_key((chat_id, a)) implies flat_has(
                    flat@,
                    a,
                ) by {
                    if (chat_id, a) == ek {
                        assert(a == self.entries@[i as int].1@);
                        assert(flat_has(flat@, a));
                    } else {
                        assert(pm.contains_key((chat_id, a)));
                        assert(flat_has(flat0, a));
                        if on_chat {
                            assert(flat_has(flat@, a));
                        }
                    }
                }
            }
            i = i + 1;
        }
        proof {
            assert(all.take(all.len() as int) =~= all);
        }
        flat
    }
}

/// Whether the alias at position `(gi, aj)` of `groups`, with its group's
/// sticker, comes from one of the first `j` pairs of `flat`.
pub open spec fn listed_from(
    flat: Seq<(String, String)>,
    j: int,
    groups: Seq<(Seq<char>, Seq<Seq<char>>)>,
    gi: int,
    aj: int,
) -> bool {
    exists|x: int|
        0 <= x < j && flat[x].0@ == groups[gi].1[aj] && flat[x].1@ == groups[gi].0
}

/// Group live `(alias, sticker)` pairs by sticker: the inverse index of the
/// aliases of `chat_id` in `m`.
#[verifier::rlimit(60)]
fn group_pairs(
    flat: &Vec<(String, String)>,
    Ghost(m): Ghost<Map<(i64, Seq<char>), Seq<char>>>,
    chat_id: i64,
) -> (groups: Vec<(String, Vec<String>)>)
    requires
        forall|j1: int, j2: int|
            0 <= j1 < j2 < flat@.len() ==> #[trigger] flat@[j1].0@ != #[trigger] flat@[j2].0@,
        forall|j: int|
            0 <= j < flat@.len() ==> m.contains_key((chat_id, #[trigger] flat@[j].0@)) && m[
                (chat_id, flat@[j].0@)
            ] == flat@[j].1@,
        forall|a: Seq<char>| m.contains_key((chat_id, a)) ==> flat_has(flat@, a),
    ensures
        lists_aliases(m, chat_id, groups_view(groups@)),
{
    let mut groups: Vec<(String, Vec<String>)> = Vec::new();
    let mut j: usize = 0;
    while j < flat.len()
        invariant
            j <= flat@.len(),
            forall|j1: int, j2: int|
                0 <= j1 < j2 < flat@.len() ==> #[trigger] flat@[j1].0@ != #[trigger] flat@[j2].0@,
            forall|x: int|
                0 <= x < flat@.len() ==> m.contains_key((chat_id, #[trigger] flat@[x].0@)) && m[
                    (chat_id, flat@[x].0@)
                ] == flat@[x].1@,
            forall|a: Seq<char>| m.contains_key((chat_id, a)) ==> flat_has(flat@, a),
            forall|gi: int, aj: int|
                0 <= gi < groups_view(groups@).len() && 0 <= aj < groups_view(
                    groups@,
                )[gi].1.len() ==> #[trigger] listed_from(
                    flat@,
                    j as int,
                    groups_view(groups@),
                    gi,
                    aj,
                ),
            forall|x: int|
                0 <= x < j ==> alias_listed(groups_view(groups@), #[trigger] flat@[x].0@),
            no_dup_aliases(groups_view(groups@)),
            nonempty_groups(groups_view(groups@)),
            distinct_stickers(groups_view(groups@)),
        decreases flat@.len() - j,
    {
        let ghost gv0 = groups_view(groups@);
        let ghost jj = j as int;
        let alias_j = flat[j].0.clone();
        let sticker_j = flat[j].1.clone();
        let hit = find_group(&groups, &sticker_j);
        let ghost extended: int = match hit {
            Some(gi) => gi as int,
            None => gv0.len() as int,
        };
        match hit {
            Some(gi) => {
                let ghost seq0 = groups@;
                let mut g = groups.remove(gi);
                g.1.push(alias_j);
                groups.insert(gi, g);
                proof {
                    assert(groups@ =~= seq0.update(gi as int, groups@[gi as int]));
                    assert(groups@[gi as int].0@ == seq0[gi as int].0@);
                    assert(groups@[gi as int].1@ =~= seq0[gi as int].1@.push(flat@[jj].0));
                }
            },
            None => {
                let mut v: Vec<String> = Vec::new();
                v.push(alias_j);
                groups.push((sticker_j, v));
            },
        }
        proof {
            let gv = groups_view(groups@);
            // Shape of the new listing: one alias appended to group
            // `extended` (in place or as a fresh group), the rest kept.
            assert(forall|x: int|
                0 <= x < gv.len() ==> gv[x] == group_view(#[trigger] groups@[x]));
            assert(forall|x: int|
                0 <= x < gv0.len() && x != extended ==> gv[x] == gv0[x]);
            assert(gv[extended].0 == flat@[jj].1@);
            if extended < gv0.len() {
                assert(gv.len() == gv0.len());
                assert(gv[extended].1 =~= gv0[extended].1.push(flat@[jj].0@));
            } else {
                assert(gv.len() == gv0.len() + 1);
                assert(gv[extended].1 =~= seq![flat@[jj].0@]);
                assert(forall|x: int| 0 <= x < gv0.len() ==> #[trigger] gv0[x].0 != flat@[jj].1@);
            }
            let na = gv[extended].1.len() - 1;
            assert(gv[extended].1[na] == flat@[jj].0@);
            // Every listed alias comes from a processed pair.
            assert forall|g2: int, a2: int|
                0 <= g2 < gv.len() && 0 <= a2 < gv[g2].1.len() implies #[trigger] listed_from(
                flat@,
                jj + 1,
                gv,
                g2,
                a2,
            ) by {
                if g2 == extended && a2 == na {
                    assert(0 <= jj < jj + 1 && flat@[jj].0@ == gv[g2].1[a2] && flat@[jj].1@
                        == gv[g2].0);
                } else {
                    assert(0 <= g2 < gv0.len() && 0 <= a2 < gv0[g2].1.len());
                    assert(listed_from(flat@, jj, gv0, g2, a2));
                    let x = choose|x: int|
                        0 <= x < jj && flat@[x].0@ == gv0[g2].1[a2] && flat@[x].1@ == gv0[g2].0;
                    assert(0 <= x < jj + 1 && flat@[x].0@ == gv[g2].1[a2] && flat@[x].1@
                        == gv[g2].0);
                }
            }
            // Every processed pair's alias is listed.
            assert forall|x: int| 0 <= x < jj + 1 implies alias_listed(
                gv,
                #[trigger] flat@[x].0@,
            ) by {
                if x < jj {
                    let (cg, ca) = choose|cg: int, ca: int|
                        0 <= cg < gv0.len() && 0 <= ca < gv0[cg].1.len() && gv0[cg].1[ca]
                            == flat@[x].0@;
                    assert(gv[cg].1[ca] == flat@[x].0@);
                } else {
                    assert(gv[extended].1[na] == flat@[x].0@);
                }
            }
            // No alias is listed twice.
            assert(no_dup_aliases(gv0));
            assert forall|g1: int, a1: int, g2: int, a2: int|
                0 <= g1 < gv.len() && 0 <= a1 < gv[g1].1.len() && 0 <= g2 < gv.len() && 0 <= a2
                    < gv[g2].1.len() && (g1 != g2 || a1 != a2) implies #[trigger] gv[g1].1[a1]
                    != #[trigger] gv[g2].1[a2] by {
                let new1 = g1 == extended && a1 == na;
                let new2 = g2 == extended && a2 == na;
                if !new1 {
                    assert(0 <= g1 < gv0.len() && 0 <= a1 < gv0[g1].1.len());
                    assert(gv[g1].1[a1] == gv0[g1].1[a1] && gv[g1].0 == gv0[g1].0);
                } else {
                    assert(gv[g1].1[a1] == flat@[jj].0@);
                }
                if !new2 {
                    assert(0 <= g2 < gv0.len() && 0 <= a2 < gv0[g2].1.len());
                    assert(gv[g2].1[a2] == gv0[g2].1[a2] && gv[g2].0 == gv0[g2].0);
                } else {
                    assert(gv[g2].1[a2] == flat@[jj].0@);
                }
                if new1 && !new2 {
                    assert(listed_from(flat@, jj, gv0, g2, a2));
                    let x = choose|x: int|
                        0 <= x < jj && flat@[x].0@ == gv0[g2].1[a2] && flat@[x].1@ == gv0[g2].0;
                    assert(gv[g2].1[a2] == flat@[x].0@);
                    assert(flat@[x].0@ != flat@[jj].0@);
                } else if !new1 && new2 {
                    assert(listed_from(flat@, jj, gv0, g1, a1));
                    let x = choose|x: int|
                        0 <= x < jj && flat@[x].0@ == gv0[g1].1[a1] && flat@[x].1@ == gv0[g1].0;
                    assert(gv[g1].1[a1] == flat@[x].0@);
                    assert(flat@[x].0@ != flat@[jj].0@);
                } else if !new1 && !new2 {
                    assert(gv0[g1].1[a1] != gv0[g2].1[a2]);
                } else {
                    assert(g1 == g2 && a1 == a2);
                }
                assert(gv[g1].1[a1] != gv[g2].1[a2]);
            }
            assert(no_dup_aliases(gv));
            // Group stickers stay pairwise distinct.
            assert forall|g1: int, g2: int| 0 <= g1 < g2 < gv.len() implies #[trigger] gv[g1].0
                != #[trigger] gv[g2].0 by {
                assert(gv[g1].0 == gv0[g1].0);
                if g2 < gv0.len() {
                    assert(gv[g2].0 == gv0[g2].0);
                } else {
                    assert(gv[g2].0 == flat@[jj].1@);
                }
            }
            assert(distinct_stickers(gv));
            assert(nonempty_groups(gv));
        }
        j = j + 1;
    }
    proof {
        let gv = groups_view(groups@);
        assert forall|a: Seq<char>| m.contains_key((chat_id, a)) implies alias_listed(
            gv,
            a,
        ) by {
            assert(flat_has(flat@, a));
            let x = choose|x: int| 0 <= x < flat@.len() && flat@[x].0@ == a;
            assert(alias_listed(gv, flat@[x].0@));
        }
        assert forall|gi: int, aj: int|
            0 <= gi < gv.len() && 0 <= aj < gv[gi].1.len() implies m.contains_key(
            (chat_id, #[trigger] gv[gi].1[aj]),
        ) && m[(chat_id, gv[gi].1[aj])] == gv[gi].0 by {
            assert(listed_from(flat@, flat@.len() as int, gv, gi, aj));
            let x = choose|x: int|
                0 <= x < flat@.len() && flat@[x].0@ == gv[gi].1[aj] && flat@[x].1@ == gv[gi].0;
            assert(m.contains_key((chat_id, flat@[x].0@)));
        }
    }
    groups
}

/// The dialogue records, as a list of `(chat, user, state)` entries.
pub struct DialogueTable {
    entries: Vec<(i64, Option<i64>, DialogueState)>,
}

/// The key-value view of one dialogue entry.
pub open spec fn dlg_entry_view(e: (i64, Option<i64>, DialogueState)) -> (
    (i64, Option<i64>),
    StateView,
) {
    ((e.0, e.1), e.2@)
}

/// The key-value view of a list of dialogue entries.
pub open spec fn dlg_entries_view(s: Seq<(i64, Option<i64>, DialogueState)>) -> Seq<
    ((i64, Option<i64>), StateView),
> {
    s.map_values(|e: (i64, Option<i64>, DialogueState)| dlg_entry_view(e))
}

/// Whether two optional user identifiers are the same.
fn opt_id_eq(a: Option<i64>, b: Option<i64>) -> (r: bool)
    ensures
        r == (a == b),
{
    match (a, b) {
        (None, None) => true,
        (Some(x), Some(y)) => x == y,
        _ => false,
    }
}

impl DialogueTable {
    pub closed spec fn view_map(&self) -> Map<(i64, Option<i64>), StateView> {
        pairs_map(dlg_entries_view(self.entries@))
    }

    pub fn new() -> (r: DialogueTable)
        ensures
            r.view_map() == Map::<(i64, Option<i64>), StateView>::empty(),
    {
        DialogueTable { entries: Vec::new() }
    }

    /// Take out every entry whose key is `(chat_id, from_id)`.
    fn erase(&mut self, chat_id: i64, from_id: Option<i64>)
        ensures
            final(self).view_map() == old(self).view_map().remove((chat_id, from_id)),
    {
        let ghost k: (i64, Option<i64>) = (chat_id, from_id);
        let ghost all = dlg_entries_view(self.entries@);
        let mut out: Vec<(i64, Option<i64>, DialogueState)> = Vec::new();
        let mut i: usize = 0;
        while i < self.entries.len()
            invariant
                i <= self.entries@.len(),
                k == (chat_id, from_id),
                all == dlg_entries_view(self.entries@),
                dlg_entries_view(out@) == erase_key(all.take(i as int), k),
            decreases self.entries@.len() - i,
        {
            let e = &self.entries[i];
            let ghost out0 = dlg_entries_view(out@);
            let hit = e.0 == chat_id && opt_id_eq(e.1, from_id);
            if !hit {
                out.push((e.0, e.1, e.2.duplicate()));
            }
            proof {
                let t = all.take(i as int + 1);
                assert(t.drop_last() =~= all.take(i as int));
                assert(t.last() == dlg_entry_view(self.entries@[i as int]));
                if hit {
                    assert(t.last().0 == k);
                    assert(erase_key(t, k) == erase_key(all.take(i as int), k));
                } else {
                    assert(t.last().0 != k);
                    assert(dlg_entries_view(out@) =~= out0.push(dlg_entry_view(
                        self.entries@[i as int],
                    )));
                    assert(erase_key(t, k) == erase_key(all.take(i as int), k).push(t.last()));
                }
            }
            i = i + 1;
        }
        proof {
            assert(all.take(all.len() as int) =~= all);
            lemma_pairs_map_erase(all, k);
        }
        self.entries = out;
    }

    /// The state recorded for `(chat_id, from_id)`: the last entry wins.
    fn lookup(&self, chat_id: i64, from_id: Option<i64>) -> (r: Option<DialogueState>)
        ensures
            match r {
                Some(d) => self.view_map().contains_key((chat_id, from_id)) && d@
                    == self.view_map()[(chat_id, from_id)],
                None => !self.view_map().contains_key((chat_id, from_id)),
            },
    {
        let ghost k: (i64, Option<i64>) = (chat_id, from_id);
        let ghost all = dlg_entries_view(self.entries@);
        let mut res: Option<DialogueState> = None;
        let mut i: usize = 0;
        proof {
            assert(all.take(0) =~= Seq::<((i64, Option<i64>), StateView)>::empty());
        }
        while i < self.entries.len()
            invariant
                i <= self.entries@.len(),
                k == (chat_id, from_id),
                all == dlg_entries_view(self.entries@),
                match res {
                    Some(d) => pairs_map(all.take(i as int)).contains_key(k) && d@ == pairs_map(
                        all.take(i as int),
                    )[k],
                    None => !pairs_map(all.take(i as int)).contains_key(k),
                },
            decreases self.entries@.len() - i,
        {
            let e = &self.entries[i];
            let hit = e.0 == chat_id && opt_id_eq(e.1, from_id);
            if hit {
                res = Some(e.2.duplicate());
            }
            proof {
                let t = all.take(i as int + 1);
                assert(t.drop_last() =~= all.take(i as int));
                assert(t.last() == dlg_entry_view(self.entries@[i as int]));
                if hit {
                    assert(t.last().0 == k);
                } else {
                    assert(t.last().0 != k);
                }
            }
            i = i + 1;
        }
        proof {
            assert(all.take(all.len() as int) =~= all);
        }
        res
    }
}

impl DialogueStorage for DialogueTable {
    open spec fn dialogues(&self) -> Map<(i64, Option<i64>), StateView> {
        self.view_map()
    }

    fn update_dialogue(
        &mut self,
        chat_id: i64,
        from_id: Option<i64>,
        dialogue: &DialogueState,
    ) -> (r: Result<(), RedisStorageError>)
        ensures
            r is Ok,
    {
        self.erase(chat_id, from_id);
        let ghost mid = dlg_entries_view(self.entries@);
        let ghost k: (i64, Option<i64>) = (chat_id, from_id);
        self.entries.push((chat_id, from_id, dialogue.duplicate()));
        proof {
            let now = dlg_entries_view(self.entries@);
            assert(now.drop_last() =~= mid);
            assert(now.last() == (k, dialogue@));
            assert(old(self).view_map().remove(k).insert(k, dialogue@) =~= old(self).view_map().insert(k, dialogue@));
        }
        Ok(())
    }

    fn get_dialogue(&mut self, chat_id: i64, from_id: Option<i64>) -> (r: Result<
        Option<DialogueState>,
        RedisStorageError,
    >)
        ensures
            r is Ok,
    {
        Ok(self.lookup(chat_id, from_id))
    }

    fn remove_dialogue(&mut self, chat_id: i64, from_id: Option<i64>) -> (r: Result<
        (),
        RedisStorageError,
    >)
        ensures
            (r is Ok) == old(self).dialogues().contains_key((chat_id, from_id)),
            r is Err ==> r == Err::<(), RedisStorageError>(RedisStorageError::DialogueNotFound),
    {
        match self.lookup(chat_id, from_id) {
            Some(_) => {
                self.erase(chat_id, from_id);
                Ok(())
            },
            None => Err(RedisStorageError::DialogueNotFound),
        }
    }
}

/// The in-process store: the alias bindings and the dialogue records that a
/// deployment would keep in its key-value server, with the same semantics.
pub struct RedisConnection {
    pub aliases: AliasTable,
    pub dialogues_table: DialogueTable,
}

impl RedisConnection {
    /// An empty store.
    pub fn new() -> (r: RedisConnection)
        ensures
            r.stickers() == Map::<(i64, Seq<char>), Seq<char>>::empty(),
            r.dialogues() == Map::<(i64, Option<i64>), StateView>::empty(),
    {
        RedisConnection { aliases: AliasTable::new(), dialogues_table: DialogueTable::new() }
    }

    /// The key under which everything of one chat is stored.
    pub fn get_chat_key(chat_id: i64) -> (r: String)
        ensures
            r@ == "chat:"@ + spec_dec_int(chat_id as int),
    {
        let mut s = String::from_str("chat:");
        let digits = i64_to_string(chat_id);
        s.append(digits.as_str());
        s
    }

    /// The key of the alias hash of one chat.
    pub fn get_aliases_key(chat_id: i64) -> (r: String)
        ensures
            r@ == "chat:"@ + spec_dec_int(chat_id as int) + "aliases"@,
    {
        RedisConnection::get_chat_key(chat_id).concat("aliases")
    }

    /// The key of the dialogue hash of one chat.
    pub fn get_dialogues_key(chat_id: i64) -> (r: String)
        ensures
            r@ == "chat:"@ + spec_dec_int(chat_id as int) + "dialogues"@,
    {
        RedisConnection::get_chat_key(chat_id).concat("dialogues")
    }

    /// The hash field of one sender; an absent sender identifier maps to a
    /// fixed sentinel field.
    pub fn get_from_field(from_id: Option<i64>) -> (r: String)
        ensures
            match from_id {
                Some(x) => r@ == spec_dec_int(x as int),
                None => r@ == "NO_ID"@,
            },
    {
        match from_id {
            Some(x) => i64_to_string(x),
            None => String::from_str("NO_ID"),
        }
    }
}

impl StickerStorage for RedisConnection {
    open spec fn stickers(&self) -> Map<(i64, Seq<char>), Seq<char>> {
        self.aliases.view_map()
    }

    open spec fn infallible(&self) -> bool {
        true
    }

    fn set_alias(&mut self, chat_id: i64, alias: &str, sticker_id: &str) -> (r: Result<
        (),
        RedisStorageError,
    >)
        ensures
            r is Ok,
            final(self).dialogues_table.view_map() == old(self).dialogues_table.view_map(),
    {
        self.aliases.set_alias(chat_id, alias, sticker_id)
    }

    fn get_sticker_id(&mut self, chat_id: i64, alias: &str) -> (r: Result<
        Option<String>,
        RedisStorageError,
    >)
        ensures
            r is Ok,
            final(self).dialogues_table.view_map() == old(self).dialogues_table.view_map(),
    {
        self.aliases.get_sticker_id(chat_id, alias)
    }

    fn remove_alias(&mut self, chat_id: i64, alias: &str) -> (r: Result<(), RedisStorageError>)
        ensures
            (r is Ok) == old(self).stickers().contains_key((chat_id, alias@)),
            r is Err ==> r == Err::<(), RedisStorageError>(RedisStorageError::AliasNotFound),
            final(self).dialogues_table.view_map() == old(self).dialogues_table.view_map(),
    {
        self.aliases.remove_alias(chat_id, alias)
    }

    fn get_aliases(&mut self, chat_id: i64) -> (r: Result<
        Option<Vec<(String, Vec<String>)>>,
        RedisStorageError,
    >)
        ensures
            r is Ok,
            final(self).dialogues_table.view_map() == old(self).dialogues_table.view_map(),
    {
        self.aliases.get_aliases(chat_id)
    }
}

impl DialogueStorage for RedisConnection {
    open spec fn dialogues(&self) -> Map<(i64, Option<i64>), StateView> {
        self.dialogues_table.view_map()
    }

    fn update_dialogue(
        &mut self,
        chat_id: i64,
        from_id: Option<i64>,
        dialogue: &DialogueState,
    ) -> (r: Result<(), RedisStorageError>)
        ensures
            r is Ok,
            final(self).aliases.view_map() == old(self).aliases.view_map(),
    {
        self.dialogues_table.update_dialogue(chat_id, from_id, dialogue)
    }

    fn get_dialogue(&mut self, chat_id: i64, from_id: Option<i64>) -> (r: Result<
        Option<DialogueState>,
        RedisStorageError,
    >)
        ensures
            r is Ok,
            final(self).aliases.view_map() == old(self).aliases.view_map(),
    {
        self.dialogues_table.get_dialogue(chat_id, from_id)
    }

    fn remove_dialogue(&mut self, chat_id: i64, from_id: Option<i64>) -> (r: Result<
        (),
        RedisStorageError,
    >)
        ensures
            (r is Ok) == old(self).dialogues().contains_key((chat_id, from_id)),
            r is Err ==> r == Err::<(), RedisStorageError>(RedisStorageError::DialogueNotFound),
            final(self).aliases.view_map() == old(self).aliases.view_map(),
    {
        self.dialogues_table.remove_dialogue(chat_id, from_id)
    }
}

} // verus!
