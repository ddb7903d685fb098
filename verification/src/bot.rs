//! Helpers for the chat-facing shell.
//!
//! The chat client, its event loop and message delivery live outside this
//! library; what can be stated and proved — the message chunking — lives
//! here.

use vstd::prelude::*;
use vstd::string::{StrSliceExecFns, StringExecFns};
use crate::strutil::chars_of;

verus! {

/// The chat-facing service. Its connection handling lives in the shell; the
/// value itself carries no state.
#[derive(Debug)]
pub struct Bot {}

impl Bot {
    /// A fresh bot.
    pub fn new() -> (r: Bot)
        ensures
            r == (Bot {  }),
    {
        Bot {  }
    }
}

impl Default for Bot {
    /// Same as `Bot::new`.
    fn default() -> (r: Bot)
        ensures
            r == (Bot {  }),
    {
        Bot::new()
    }
}

/// Messages ignored between two answered ones, while the answer cooldown
/// runs.
pub const MIN_MESSAGES: i32 = 5;

/// The account names this service posts under; its own messages are never
/// answered.
pub open spec fn is_bot_name(s: Seq<char>) -> bool {
    s == "ShakeBot"@ || s == "ShakeBotDev"@
}

/// How many space-separated segments a message has: one more than its spaces.
pub open spec fn word_count(s: Seq<char>) -> int {
    count_char(s, ' ') + 1
}

/// Occurrences of `c` in `s`.
pub open spec fn count_char(s: Seq<char>, c: char) -> int
    decreases s.len(),
{
    if s.len() == 0 {
        0
    } else {
        count_char(s.drop_last(), c) + if s.last() == c {
            1int
        } else {
            0int
        }
    }
}

/// What an incoming message leads to: dropped, dropped while the cooldown
/// counts down, or answered with a response lookup.
#[derive(Debug, PartialEq, Eq, Structural)]
pub enum MessageDisposition {
    Skip,
    Cooldown,
    Respond,
}

fn count_char_exec(v: &Vec<char>, c: char) -> (r: usize)
    ensures
        r as int == count_char(v@, c),
{
    let mut count: usize = 0;
    let mut i: usize = 0;
    proof {
        assert(v@.take(0) =~= Seq::<char>::empty());
    }
    while i < v.len()
        invariant
            i <= v@.len(),
            count as int == count_char(v@.take(i as int), c),
            count <= i,
        decreases v@.len() - i,
    {
        if v[i] == c {
            count = count + 1;
        }
        i = i + 1;
        proof {
            assert(v@.take(i as int).drop_last() =~= v@.take(i - 1));
            assert(v@.take(i as int).last() == v@[i - 1]);
        }
    }
    proof {
        assert(v@.take(v@.len() as int) =~= v@);
    }
    count
}

fn str_eq(a: &str, b: &str) -> (r: bool)
    ensures
        r == (a@ == b@),
{
    String::from_str(a) == String::from_str(b)
}

/// Decide what to do with one incoming message, exactly in this order: a
/// message from the service itself or one of fewer than three space-separated
/// words is dropped untouched; while the cooldown is positive it ticks down
/// and the message is dropped; otherwise the cooldown restarts, and the
/// message is answered unless its author has opted out.
pub fn triage_message(
    author_name: &str,
    author_id: &str,
    content: &str,
    cooldown: &mut i32,
    disabled_users: &Vec<String>,
) -> (d: MessageDisposition)
    requires
        0 <= *old(cooldown),
    ensures
        0 <= *final(cooldown),
        is_bot_name(author_name@) || word_count(content@) < 3 ==> d == MessageDisposition::Skip
            && *final(cooldown) == *old(cooldown),
        !(is_bot_name(author_name@) || word_count(content@) < 3) && *old(cooldown) > 0 ==> d
            == MessageDisposition::Cooldown && *final(cooldown) == *old(cooldown) - 1,
        !(is_bot_name(author_name@) || word_count(content@) < 3) && *old(cooldown) == 0 ==> {
            &&& *final(cooldown) == MIN_MESSAGES
            &&& d == (if exists|i: int|
                0 <= i < disabled_users@.len() && (#[trigger] disabled_users@[i])@ == author_id@ {
                MessageDisposition::Skip
            } else {
                MessageDisposition::Respond
            })
        },
{
    if str_eq(author_name, "ShakeBot") || str_eq(author_name, "ShakeBotDev") {
        return MessageDisposition::Skip;
    }
    let content_chars = chars_of(content);
    if count_char_exec(&content_chars, ' ') < 2 {
        return MessageDisposition::Skip;
    }
    if *cooldown > 0 {
        *cooldown = *cooldown - 1;
        return MessageDisposition::Cooldown;
    }
    *cooldown = MIN_MESSAGES;
    let mut i: usize = 0;
    while i < disabled_users.len()
        invariant
            i <= disabled_users@.len(),
            *cooldown == MIN_MESSAGES,
            *old(cooldown) == 0,
            !is_bot_name(author_name@),
            word_count(content@) >= 3,
            forall|j: int| 0 <= j < i ==> (#[trigger] disabled_users@[j])@ != author_id@,
        decreases disabled_users@.len() - i,
    {
        if str_eq(disabled_users[i].as_str(), author_id) {
            return MessageDisposition::Skip;
        }
        i = i + 1;
    }
    MessageDisposition::Respond
}

/// Most characters one delivered message may carry.
pub const MESSAGE_CHUNK_LEN: usize = 2000;

/// Split a message into chunks for delivery: concatenated in order the chunks
/// give back the message exactly, every chunk fits the per-message limit, and
/// every chunk but the last is full.
pub fn split_large_message(msg: &str) -> (chunks: Vec<String>)
    ensures
        chunks@.len() >= 1,
        chunks@.map_values(|c: String| c@).flatten() == msg@,
        forall|i: int| 0 <= i < chunks@.len() ==> (#[trigger] chunks@[i])@.len()
            <= MESSAGE_CHUNK_LEN,
        forall|i: int| 0 <= i < chunks@.len() - 1 ==> (#[trigger] chunks@[i])@.len()
            == MESSAGE_CHUNK_LEN,
{
    let n = msg.unicode_len();
    let mut chunks: Vec<String> = Vec::new();
    let mut start: usize = 0;
    let mut end: usize = if n > MESSAGE_CHUNK_LEN {
        MESSAGE_CHUNK_LEN
    } else {
        n
    };
    while end < n
        invariant
            start <= end <= n,
            n == msg@.len(),
            end - start <= MESSAGE_CHUNK_LEN,
            end < n ==> end - start == MESSAGE_CHUNK_LEN,
            chunks@.map_values(|c: String| c@).flatten() == msg@.take(start as int),
            forall|i: int| 0 <= i < chunks@.len() ==> (#[trigger] chunks@[i])@.len()
                == MESSAGE_CHUNK_LEN,
        decreases n - end,
    {
        let ghost prev = chunks@;
        let piece = String::from_str(msg.substring_char(start, end));
        let ghost pv = piece@;
        chunks.push(piece);
        proof {
            let f = |c: String| c@;
            assert(chunks@.map_values(f) =~= prev.map_values(f).push(pv));
            prev.map_values(f).lemma_flatten_push(pv);
            assert(msg@.take(start as int) + pv =~= msg@.take(start + pv.len() as int));
        }
        start = end;
        if n - end > MESSAGE_CHUNK_LEN {
            end = end + MESSAGE_CHUNK_LEN;
        } else {
            end = n;
        }
    }
    let ghost prev = chunks@;
    let piece = String::from_str(msg.substring_char(start, end));
    let ghost pv = piece@;
    chunks.push(piece);
    proof {
        let f = |c: String| c@;
        assert(chunks@.map_values(f) =~= prev.map_values(f).push(pv));
        prev.map_values(f).lemma_flatten_push(pv);
        assert(msg@.take(start as int) + pv =~= msg@.take(start + pv.len() as int));
        assert(msg@.take(msg@.len() as int) =~= msg@);
    }
    chunks
}

} // verus!
