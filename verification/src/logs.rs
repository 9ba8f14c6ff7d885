//! Log-line prefixes.
//!
//! Log lines carry a wall-clock timestamp and, for chat-scoped events, the
//! chat identifier.  The timestamp comes from the system clock through a
//! trusted wrapper; everything after it is rendered by verified code.

use vstd::prelude::*;
use vstd::string::StringExecFns;

use crate::text::{chars_to_string, i64_to_chars, spec_dec_int};

verus! {

/// The view of a rendered chat prefix: `CHAT <id>:`.
pub open spec fn spec_format_id(chat_id: i64) -> Seq<char> {
    "CHAT "@ + spec_dec_int(chat_id as int) + ":"@
}

/// Whether a character sequence is a plausible `[HH:MM:SS]` timestamp:
/// ten characters wrapped in square brackets.
pub open spec fn is_timestamp(s: Seq<char>) -> bool {
    s.len() == 10 && s[0] == '[' && s[9] == ']'
}

/// Relies on `chrono::offset::Local::now` and `DateTime::format` with the
/// layout `[%H:%M:%S]`: each of `%H`, `%M` and `%S` renders as exactly two
/// decimal digits, so the whole rendering is ten characters in brackets.
/// `now` panics when the system clock reads before the Unix epoch; the
/// function takes no input, so no precondition can exclude that
/// environmental condition.
#[verifier::external_body]
pub fn get_time() -> (r: String)
    ensures
        is_timestamp(r@),
{
    let formatted = chrono::offset::Local::now().format("[%H:%M:%S]");
    format!("{}", formatted)
}

/// The `CHAT <id>:` prefix that chat-scoped log lines carry.
pub fn format_id(chat_id: i64) -> (r: String)
    ensures
        r@ == spec_format_id(chat_id),
{
    let mut v: Vec<char> = Vec::new();
    v.push('C');
    v.push('H');
    v.push('A');
    v.push('T');
    v.push(' ');
    proof {
        reveal_strlit("CHAT ");
        assert(v@ =~= "CHAT "@);
    }
    let digits = i64_to_chars(chat_id);
    let mut i: usize = 0;
    while i < digits.len()
        invariant
            i <= digits.len(),
            digits@ == spec_dec_int(chat_id as int),
            v@ == "CHAT "@ + digits@.take(i as int),
        decreases digits.len() - i,
    {
        v.push(digits[i]);
        proof {
            assert(v@ =~= "CHAT "@ + digits@.take(i as int + 1));
        }
        i = i + 1;
    }
    v.push(':');
    proof {
        assert(digits@.take(digits@.len() as int) =~= digits@);
        reveal_strlit(":");
        assert(v@ =~= spec_format_id(chat_id));
    }
    chars_to_string(&v)
}

/// A log line for an action in a chat: timestamp, then `CHAT <id>:`, then
/// the message itself.
pub fn format_log_chat(message: &str, chat_id: i64) -> (r: String)
    ensures
        exists|t: Seq<char>|
            #![auto]
            is_timestamp(t) && r@ == t + spec_format_id(chat_id) + message@,
{
    let mut r = get_time();
    let ghost t = r@;
    let id_str = format_id(chat_id);
    r.append(id_str.as_str());
    r.append(message);
    proof {
        assert(r@ == t + spec_format_id(chat_id) + message@);
    }
    r
}

/// A log line with a timestamp only: timestamp, then the message.
pub fn format_log_time(message: &str) -> (r: String)
    ensures
        exists|t: Seq<char>| #![auto] is_timestamp(t) && r@ == t + message@,
{
    let mut r = get_time();
    let ghost t = r@;
    r.append(message);
    r
}

} // verus!
