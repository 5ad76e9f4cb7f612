//! Deterministic bounding of outbound conversation length.
//!
//! A conversation longer than [`TRUNCATE_THRESHOLD`] messages is cut down to
//! the first message (assumed to carry the system instruction, whatever its
//! role) followed by the last [`TRUNCATE_KEEP_END`] messages; anything in
//! between is dropped. A conversation at or under the threshold is returned
//! unchanged.

use vstd::prelude::*;
use crate::models::Message;

verus! {

/// Conversations longer than this many messages are truncated.
pub const TRUNCATE_THRESHOLD: usize = 6;

/// How many trailing messages a truncated conversation keeps (besides the
/// first message).
pub const TRUNCATE_KEEP_END: usize = 3;

/// The (role, content) pairs a sequence of messages stands for.
pub open spec fn conv_view(ms: Seq<Message>) -> Seq<(Seq<char>, Seq<char>)> {
    ms.map(|_i: int, m: Message| m.view_pair())
}

/// What truncation keeps of a conversation: the whole of it when it is short
/// enough, else the first message followed by the last three.
pub open spec fn truncated_view(ms: Seq<(Seq<char>, Seq<char>)>) -> Seq<(Seq<char>, Seq<char>)> {
    if ms.len() <= TRUNCATE_THRESHOLD as int {
        ms
    } else {
        ms.subrange(0, 1) + ms.subrange(ms.len() - TRUNCATE_KEEP_END as int, ms.len() as int)
    }
}

/// Bounds the conversation: identity at length six or below, else the first
/// message plus the last three, so the result never exceeds four messages.
pub fn truncate(messages: &Vec<Message>) -> (r: Vec<Message>)
    ensures
        conv_view(r@) == truncated_view(conv_view(messages@)),
        messages@.len() <= TRUNCATE_THRESHOLD ==> r@.len() == messages@.len(),
        messages@.len() > TRUNCATE_THRESHOLD ==> r@.len() == 1 + TRUNCATE_KEEP_END,
        messages@.len() > 0 ==> r@.len() > 0 && r@[0].view_pair() == messages@[0].view_pair(),
{
    let n = messages.len();
    let mut r: Vec<Message> = Vec::new();
    if n <= TRUNCATE_THRESHOLD {
        let mut i: usize = 0;
        while i < n
            invariant
                n == messages@.len(),
                i <= n,
                r@.len() == i,
                forall|j: int| 0 <= j < i ==> r@[j].view_pair() == messages@[j].view_pair(),
            decreases n - i,
        {
            r.push(messages[i].clone_message());
            i += 1;
        }
        proof {
            assert(conv_view(r@) =~= truncated_view(conv_view(messages@)));
        }
        r
    } else {
        r.push(messages[0].clone_message());
        let mut i: usize = n - TRUNCATE_KEEP_END;
        while i < n
            invariant
                n == messages@.len(),
                n > TRUNCATE_THRESHOLD,
                n - TRUNCATE_KEEP_END <= i <= n,
                r@.len() == 1 + i - (n - TRUNCATE_KEEP_END),
                r@[0].view_pair() == messages@[0].view_pair(),
                forall|j: int| 1 <= j < r@.len()
                    ==> r@[j].view_pair() == messages@[n - TRUNCATE_KEEP_END + j - 1].view_pair(),
            decreases n - i,
        {
            r.push(messages[i].clone_message());
            i += 1;
        }
        proof {
            assert(conv_view(r@) =~= truncated_view(conv_view(messages@)));
        }
        r
    }
}

/// The truncation law: a conversation of six or fewer messages passes through
/// unchanged; a longer one is cut to its first message plus its last three,
/// so the result is never longer than four messages and, when the input is
/// not empty, always begins with the input's first message.
pub proof fn lemma_truncate_bounds(ms: Seq<(Seq<char>, Seq<char>)>)
    ensures
        ms.len() <= TRUNCATE_THRESHOLD as int ==> truncated_view(ms) == ms,
        ms.len() > TRUNCATE_THRESHOLD as int ==> truncated_view(ms) == ms.subrange(0, 1)
            + ms.subrange(ms.len() - TRUNCATE_KEEP_END as int, ms.len() as int),
        truncated_view(ms).len() <= ms.len(),
        ms.len() > TRUNCATE_THRESHOLD as int ==> truncated_view(ms).len() == 4,
        ms.len() > 0 ==> truncated_view(ms).len() > 0 && truncated_view(ms)[0] == ms[0],
{
}

} // verus!
