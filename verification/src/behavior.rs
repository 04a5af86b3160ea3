//! The game behaviors: each one decides, for a parsed message, what to
//! record in the progress store and which reply is owed. Network work —
//! downloading attachments, hashing them, delivering replies — happens at
//! the caller's edge; the decisions here are pure and verified.

use vstd::prelude::*;
use crate::storage::Storage;

pub mod admin;
pub mod chest;
pub mod gates;
pub mod stats;
pub mod stone;

verus! {

/// What a one-shot challenge decides for one message.
#[derive(Debug, PartialEq)]
pub enum OneShotOutcome {
    /// The user completed the challenge earlier: nothing to do, no reply.
    AlreadyDone,
    /// The message completes the challenge now; the reward reply is owed
    /// once. `completions` counts the users who have completed it, this one
    /// included.
    Success { completions: usize },
    /// Nothing happened: the neutral failure reply is owed.
    NoMatch,
}

/// Law: one-shot completion is idempotent. Once a success has added the user
/// to the completion set, the user is a member, so any re-delivery of the
/// same submission takes the already-completed branch, which leaves the
/// store untouched and earns no second reward.
pub proof fn lemma_one_shot_idempotent(pre: Storage, post: Storage, set: Seq<char>, user: i64)
    requires
        post.set_members(set) == pre.set_members(set).insert(user),
    ensures
        post.set_members(set).contains(user),
{
}

} // verus!
