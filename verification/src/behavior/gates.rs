//! The gates challenge: a one-shot, text-based puzzle. A message completes
//! it when its text contains the exact answer substring; completion is
//! recorded once per user.

use vstd::prelude::*;
use crate::behavior::OneShotOutcome;
use crate::storage::Storage;
use crate::text::{contains_str, spec_contains};

verus! {

/// The substring that opens the gates.
pub const ANSWER: &'static str = "679823154";

/// The completion set's durable key.
pub const STORAGE_COMPL_SET: &'static str = "gates_completed_by";

/// The reward reply.
pub const SUCCESS_TEXT: &'static str = "Ворота открылись, и ты можешь идти дальше: vk.com/forestofwisdom";

/// The neutral reply when nothing happened.
pub const FAIL_TEXT: &'static str = "Ничего не произошло";

pub struct GatesBehavior {
    pub storage: Storage,
}

impl GatesBehavior {
    pub open spec fn wf(self) -> bool {
        self.storage.wf()
    }

    pub fn new(storage: Storage) -> (r: Self)
        ensures
            r.storage == storage,
    {
        GatesBehavior { storage }
    }

    /// Decides one message: a user who completed earlier is left alone; a
    /// text containing the answer completes the challenge and is recorded
    /// idempotently; anything else owes the neutral reply and changes
    /// nothing.
    pub fn process_message(&mut self, from_id: i64, text: &str) -> (r: OneShotOutcome)
        requires
            old(self).wf(),
        ensures
            final(self).wf(),
            old(self).storage.set_members(STORAGE_COMPL_SET@).contains(from_id)
                ==> r == OneShotOutcome::AlreadyDone && *final(self) == *old(self),
            !old(self).storage.set_members(STORAGE_COMPL_SET@).contains(from_id)
                && spec_contains(text@, ANSWER@) ==> {
                &&& r matches OneShotOutcome::Success { completions }
                    && completions == final(self).storage.set_card(STORAGE_COMPL_SET@)
                &&& final(self).storage.set_members(STORAGE_COMPL_SET@)
                    == old(self).storage.set_members(STORAGE_COMPL_SET@).insert(from_id)
                &&& forall|n: Seq<char>|
                    n != STORAGE_COMPL_SET@ ==> #[trigger] final(self).storage.set_members(n)
                        == old(self).storage.set_members(n)
                &&& forall|n: Seq<char>, f: i64|
                    #[trigger] final(self).storage.hash_val(n, f)
                        == old(self).storage.hash_val(n, f)
            },
            !old(self).storage.set_members(STORAGE_COMPL_SET@).contains(from_id)
                && !spec_contains(text@, ANSWER@)
                ==> r == OneShotOutcome::NoMatch && *final(self) == *old(self),
    {
        if self.storage.set_contains(STORAGE_COMPL_SET, from_id) {
            OneShotOutcome::AlreadyDone
        } else if contains_str(text, ANSWER) {
            let completions = self.storage.set_add(STORAGE_COMPL_SET, from_id);
            OneShotOutcome::Success { completions }
        } else {
            OneShotOutcome::NoMatch
        }
    }
}

} // verus!
