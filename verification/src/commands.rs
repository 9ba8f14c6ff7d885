//! Chat commands.
//!
//! Defines the closed set of commands the bot understands, the grammar that
//! recognises them in message text, and the static informational replies.
//! A command is a whole message of the form `/word` or `/word@botname`,
//! matched case-insensitively (ASCII).

use vstd::prelude::*;
use vstd::string::{StrSliceExecFns, StringExecFns};

use crate::text::{chars_of, lower_all, lower_chars};

verus! {

#[derive(Clone, Copy, PartialEq, Eq, Structural, Debug)]
pub enum Command {
    Start,
    Help,
    List,
    Add,
    Remove,
    Cancel,
}

/// The lower-case word that invokes each command.
pub open spec fn command_word(c: Command) -> Seq<char> {
    match c {
        Command::Start => "start"@,
        Command::Help => "help"@,
        Command::List => "list"@,
        Command::Add => "add"@,
        Command::Remove => "remove"@,
        Command::Cancel => "cancel"@,
    }
}

/// Whether `t` invokes command `c` for a bot named `bot`: after ASCII
/// lowercasing, the whole text is `/word` or `/word@bot`.
pub open spec fn matches_command(t: Seq<char>, bot: Seq<char>, c: Command) -> bool {
    ||| lower_chars(t) == seq!['/'] + command_word(c)
    ||| lower_chars(t) == seq!['/'] + command_word(c) + seq!['@'] + lower_chars(bot)
}

/// The command invoked by `t`, if any.
pub open spec fn spec_parse_command(t: Seq<char>, bot: Seq<char>) -> Option<Command> {
    if matches_command(t, bot, Command::Start) {
        Some(Command::Start)
    } else if matches_command(t, bot, Command::Help) {
        Some(Command::Help)
    } else if matches_command(t, bot, Command::List) {
        Some(Command::List)
    } else if matches_command(t, bot, Command::Add) {
        Some(Command::Add)
    } else if matches_command(t, bot, Command::Remove) {
        Some(Command::Remove)
    } else if matches_command(t, bot, Command::Cancel) {
        Some(Command::Cancel)
    } else {
        None
    }
}

/// Whether the characters of `w` stand in `v` at position `start`.
fn word_at(v: &Vec<char>, start: usize, w: &str) -> (b: bool)
    requires
        start <= v@.len(),
    ensures
        b == (start + w@.len() <= v@.len() && v@.subrange(
            start as int,
            start as int + w@.len(),
        ) == w@),
{
    let n: usize = w.unicode_len();
    if v.len() - start < n {
        return false;
    }
    let mut i: usize = 0;
    while i < n
        invariant
            i <= n,
            n == w@.len(),
            start + n <= v@.len(),
            v@.len() <= usize::MAX,
            forall|j: int| 0 <= j < i ==> v@[start + j] == w@[j],
        decreases n - i,
    {
        if v[start + i] != w.get_char(i) {
            proof {
                let ghost k = i as int;
                assert(v@.subrange(start as int, start as int + w@.len())[k] != w@[k]);
            }
            return false;
        }
        i = i + 1;
    }
    proof {
        assert(v@.subrange(start as int, start as int + w@.len()) =~= w@);
    }
    true
}

/// Whether the characters of `w` stand in `v` at position `start`.
fn chars_at(v: &Vec<char>, start: usize, w: &Vec<char>) -> (b: bool)
    requires
        start <= v@.len(),
    ensures
        b == (start + w@.len() <= v@.len() && v@.subrange(
            start as int,
            start as int + w@.len(),
        ) == w@),
{
    let n: usize = w.len();
    if v.len() - start < n {
        return false;
    }
    let mut i: usize = 0;
    while i < n
        invariant
            i <= n,
            n == w@.len(),
            start + n <= v@.len(),
            v@.len() <= usize::MAX,
            forall|j: int| 0 <= j < i ==> v@[start + j] == w@[j],
        decreases n - i,
    {
        if v[start + i] != w[i] {
            proof {
                let ghost k = i as int;
                assert(v@.subrange(start as int, start as int + w@.len())[k] != w@[k]);
            }
            return false;
        }
        i = i + 1;
    }
    proof {
        assert(v@.subrange(start as int, start as int + w@.len()) =~= w@);
    }
    true
}

/// Whether the lowered text `lt` is `/w` or `/w@` followed by the lowered
/// bot name `lb`, where `w` is a lower-case command word.
fn try_word(lt: &Vec<char>, lb: &Vec<char>, w: &str) -> (b: bool)
    ensures
        b == (lt@ == seq!['/'] + w@ || lt@ == seq!['/'] + w@ + seq!['@'] + lb@),
{
    let wn: usize = w.unicode_len();
    if lt.len() == 0 || lt[0] != '/' || lt.len() - 1 < wn {
        proof {
            if lt@ == seq!['/'] + w@ {
                assert(lt@.len() == 1 + w@.len() && lt@[0] == '/');
            }
            if lt@ == seq!['/'] + w@ + seq!['@'] + lb@ {
                assert(lt@.len() >= 1 + w@.len() && lt@[0] == '/');
            }
        }
        return false;
    }
    if !word_at(lt, 1, w) {
        proof {
            if lt@ == seq!['/'] + w@ {
                assert(lt@.subrange(1, 1 + w@.len() as int) =~= w@);
            }
            if lt@ == seq!['/'] + w@ + seq!['@'] + lb@ {
                assert(lt@.subrange(1, 1 + w@.len() as int) =~= w@);
            }
        }
        return false;
    }
    if lt.len() == 1 + wn {
        proof {
            assert(lt@ =~= seq!['/'] + w@);
        }
        return true;
    }
    if lt[1 + wn] == '@' && lt.len() - 2 - wn == lb.len() && chars_at(lt, 2 + wn, lb) {
        proof {
            assert(lt@ =~= seq!['/'] + w@ + seq!['@'] + lb@);
        }
        return true;
    }
    proof {
        assert(lt@ != seq!['/'] + w@);
        if lt@ == seq!['/'] + w@ + seq!['@'] + lb@ {
            assert(lt@[1 + w@.len() as int] == '@');
            assert(lt@.len() == 2 + w@.len() + lb@.len());
            assert(lt@.subrange(2 + w@.len() as int, lt@.len() as int) =~= lb@);
        }
    }
    false
}

impl Command {
    /// The command invoked by `text` for a bot named `bot_name`, if the
    /// whole text matches the command grammar.
    pub fn parse(text: &str, bot_name: &str) -> (r: Option<Command>)
        ensures
            r == spec_parse_command(text@, bot_name@),
    {
        let tv = chars_of(text);
        let lt = lower_all(&tv);
        let bv = chars_of(bot_name);
        let lb = lower_all(&bv);
        if try_word(&lt, &lb, "start") {
            Some(Command::Start)
        } else if try_word(&lt, &lb, "help") {
            Some(Command::Help)
        } else if try_word(&lt, &lb, "list") {
            Some(Command::List)
        } else if try_word(&lt, &lb, "add") {
            Some(Command::Add)
        } else if try_word(&lt, &lb, "remove") {
            Some(Command::Remove)
        } else if try_word(&lt, &lb, "cancel") {
            Some(Command::Cancel)
        } else {
            None
        }
    }
}

/// The text of the reply to `/start`.
pub open spec fn start_text() -> Seq<char> {
    "Hello, I send stickers when I see their specified \
    names in messages.\n\
    To assign an alias to the sticker write /add and follow instructions. \n\
    Then put an alias inside colons  (:alias:) inside a message and bot will\
    send associated sticker.\n\
    For more info and commands see /help. \n\n\
    Note: I can properly work in groups only if given admin permissions, \
    otherwise I can't see most messages (apart from bot commands, mentions\
    , replies)."@
}

/// The text of the reply to `/help`.
pub open spec fn help_text() -> Seq<char> {
    "Commands:\n\
    /add - add new alias to sticker\n\
    /remove - remove aliases\n\
    /cancel - cancel addition process\n\
    /start - show start message\n\
    /help - show this message\n\
    /list - list assigned aliases"@
}

/// The informational reply to `/start`.
pub fn start_message() -> (r: String)
    ensures
        r@ == start_text(),
{
    String::from_str(
        "Hello, I send stickers when I see their specified \
    names in messages.\n\
    To assign an alias to the sticker write /add and follow instructions. \n\
    Then put an alias inside colons  (:alias:) inside a message and bot will\
    send associated sticker.\n\
    For more info and commands see /help. \n\n\
    Note: I can properly work in groups only if given admin permissions, \
    otherwise I can't see most messages (apart from bot commands, mentions\
    , replies).",
    )
}

/// The informational reply to `/help`.
pub fn help_message() -> (r: String)
    ensures
        r@ == help_text(),
{
    String::from_str(
        "Commands:\n\
    /add - add new alias to sticker\n\
    /remove - remove aliases\n\
    /cancel - cancel addition process\n\
    /start - show start message\n\
    /help - show this message\n\
    /list - list assigned aliases",
    )
}

/// The aliases of one group joined with trailing spaces.
pub open spec fn spec_line_tail(aliases: Seq<Seq<char>>) -> Seq<char>
    decreases aliases.len(),
{
    if aliases.len() == 0 {
        Seq::<char>::empty()
    } else {
        spec_line_tail(aliases.drop_last()) + aliases.last() + " "@
    }
}

/// One listing line: `> ` then each alias followed by a space, then a
/// line break.
pub open spec fn spec_render_group(aliases: Seq<Seq<char>>) -> Seq<char> {
    "> "@ + spec_line_tail(aliases) + "\n"@
}

/// The listing lines for all groups, in order.
pub open spec fn spec_render_groups(groups: Seq<(Seq<char>, Seq<Seq<char>>)>) -> Seq<char>
    decreases groups.len(),
{
    if groups.len() == 0 {
        Seq::<char>::empty()
    } else {
        spec_render_groups(groups.drop_last()) + spec_render_group(groups.last().1)
    }
}

/// The whole reply to `/list`, given the aliases of a chat grouped by the
/// sticker they point to.
pub open spec fn spec_render_alias_list(groups: Seq<(Seq<char>, Seq<Seq<char>>)>) -> Seq<char> {
    if groups.len() == 0 {
        "No aliases were found."@
    } else {
        "Aliases for each sticker are \
        in separate lines starting with \
        \">\". Currently assigned aliases:\n"@ + spec_render_groups(groups)
    }
}

/// The view of one alias group: the sticker and its aliases as sequences.
pub open spec fn group_view(g: (String, Vec<String>)) -> (Seq<char>, Seq<Seq<char>>) {
    (g.0@, g.1@.map_values(|a: String| a@))
}

/// The view of a grouped listing.
pub open spec fn groups_view(gs: Seq<(String, Vec<String>)>) -> Seq<(Seq<char>, Seq<Seq<char>>)> {
    gs.map_values(|g: (String, Vec<String>)| group_view(g))
}

/// The reply to `/list`: the aliases of the chat, one line per sticker,
/// or a fixed reply when there are none.
pub fn render_alias_list(groups: &Vec<(String, Vec<String>)>) -> (r: String)
    ensures
        r@ == spec_render_alias_list(groups_view(groups@)),
{
    if groups.len() == 0 {
        proof {
            assert(groups_view(groups@).len() == 0);
        }
        return String::from_str("No aliases were found.");
    }
    let mut message = String::from_str(
        "Aliases for each sticker are \
        in separate lines starting with \
        \">\". Currently assigned aliases:\n",
    );
    let ghost header = message@;
    let mut i: usize = 0;
    while i < groups.len()
        invariant
            i <= groups@.len(),
            message@ == header + spec_render_groups(groups_view(groups@).take(i as int)),
        decreases groups@.len() - i,
    {
        message.append("> ");
        let aliases: &Vec<String> = &groups[i].1;
        let ghost gv = group_view(groups@[i as int]);
        let ghost line_start = message@;
        let mut j: usize = 0;
        while j < aliases.len()
            invariant
                j <= aliases@.len(),
                gv.1 == aliases@.map_values(|a: String| a@),
                message@ == line_start + spec_line_tail(gv.1.take(j as int)),
            decreases aliases@.len() - j,
        {
            message.append(aliases[j].as_str());
            message.push(' ');
            proof {
                reveal_strlit(" ");
                assert(gv.1[j as int] == aliases@[j as int]@);
                assert(gv.1.take(j as int + 1).drop_last() =~= gv.1.take(j as int));
                assert(gv.1.take(j as int + 1).last() == gv.1[j as int]);
                assert(message@ =~= line_start + spec_line_tail(gv.1.take(j as int + 1)));
            }
            j = j + 1;
        }
        message.push('\n');
        proof {
            assert(gv.1.take(gv.1.len() as int) =~= gv.1);
            assert(groups_view(groups@).take(i as int + 1).drop_last() =~= groups_view(
                groups@,
            ).take(i as int));
            assert(groups_view(groups@).take(i as int + 1).last() == gv);
            reveal_strlit("> ");
            reveal_strlit("\n");
            assert(message@ =~= header + spec_render_groups(
                groups_view(groups@).take(i as int + 1),
            ));
        }
        i = i + 1;
    }
    proof {
        assert(groups_view(groups@).take(groups@.len() as int) =~= groups_view(groups@));
    }
    message
}

} // verus!
