//! The chest challenge: a one-shot, image-based puzzle. A message completes
//! it when any reachable attachment's fingerprint matches the reference
//! image; completion is recorded once per user.

use vstd::prelude::*;
use crate::behavior::OneShotOutcome;
use crate::img_match::{spec_matches, ImageMatcher, HAMMING_TOLERANCE};
use crate::storage::Storage;

verus! {

/// The completion set's durable key.
pub const STORAGE_COMPL_SET: &'static str = "chest_completed_by";

/// The reward reply, sent along with the reward picture.
pub const SUCCESS_TEXT: &'static str =
    "Внутри сундука ты нашел это! Покажи сообщение в канцелярии, чтобы получить награду";

/// The neutral reply when nothing happened.
pub const FAIL_TEXT: &'static str = "Ничего не произошло";

/// The reference fingerprint of the image hidden in the chest.
pub open spec fn spec_reference() -> Seq<u8> {
    seq![
        220u8,
        171u8,
        38u8,
        54u8,
        217u8,
        211u8,
        81u8,
        60u8,
        164u8,
        202u8,
        200u8,
        137u8,
        211u8,
        93u8,
        76u8,
        99u8,
        38u8,
        148u8,
    ]
}

/// The reference fingerprint, as stored configuration.
pub fn reference_fingerprint() -> (r: Vec<u8>)
    ensures
        r@ == spec_reference(),
{
    let r: Vec<u8> = vec![
        220,
        171,
        38,
        54,
        217,
        211,
        81,
        60,
        164,
        202,
        200,
        137,
        211,
        93,
        76,
        99,
        38,
        148,
    ];
    proof {
        assert(r@ =~= spec_reference());
    }
    r
}

/// Some fingerprint among `fps` matches the chest's reference image.
pub open spec fn spec_chest_match(fps: Seq<Vec<u8>>) -> bool {
    exists|i: int|
        0 <= i < fps.len() && spec_matches(
            spec_reference(),
            (#[trigger] fps[i])@,
            HAMMING_TOLERANCE as int,
        )
}

pub struct ChestBehavior {
    pub matcher: ImageMatcher,
    pub storage: Storage,
}

impl ChestBehavior {
    pub open spec fn wf(self) -> bool {
        self.storage.wf()
    }

    pub fn new(storage: Storage) -> (r: Self)
        ensures
            r.storage == storage,
    {
        let matcher = ImageMatcher::new();
        ChestBehavior { matcher, storage }
    }

    /// Decides one message from the fingerprints of its reachable
    /// attachments, in enumeration order: a user who completed earlier is
    /// left alone; a matching fingerprint completes the challenge, recorded
    /// idempotently; otherwise the neutral reply is owed and nothing
    /// changes.
    pub fn process_message(&mut self, from_id: i64, fingerprints: &Vec<Vec<u8>>) -> (r:
        OneShotOutcome)
        requires
            old(self).wf(),
        ensures
            final(self).wf(),
            old(self).storage.set_members(STORAGE_COMPL_SET@).contains(from_id)
                ==> r == OneShotOutcome::AlreadyDone && *final(self) == *old(self),
            !old(self).storage.set_members(STORAGE_COMPL_SET@).contains(from_id)
                && spec_chest_match(fingerprints@) ==> {
                &&& r matches OneShotOutcome::Success { completions }
                    && completions == final(self).storage.set_card(STORAGE_COMPL_SET@)
                &&& final(self).storage.set_members(STORAGE_COMPL_SET@)
                    == old(self).storage.set_members(STORAGE_COMPL_SET@).insert(from_id)
                &&& forall|n: Seq<char>|
                    n != STORAGE_COMPL_SET@ ==> #[trigger] final(self).storage.set_members(n)
                        == old(self).storage.set_members(n)
                &&& forall|n: Seq<char>, f: i64|
                    #[trigger] final(self).storage.hash_val(n, f)
                        == old(self).storage.hash_val(n, f)
            },
            !old(self).storage.set_members(STORAGE_COMPL_SET@).contains(from_id)
                && !spec_chest_match(fingerprints@)
                ==> r == OneShotOutcome::NoMatch && *final(self) == *old(self),
    {
        if self.storage.set_contains(STORAGE_COMPL_SET, from_id) {
            return OneShotOutcome::AlreadyDone;
        }
        let reference = reference_fingerprint();
        let n = fingerprints.len();
        let mut i: usize = 0;
        while i < n
            invariant
                *self == *old(self),
                old(self).wf(),
                !old(self).storage.set_members(STORAGE_COMPL_SET@).contains(from_id),
                n == fingerprints@.len(),
                0 <= i <= n,
                reference@ == spec_reference(),
                forall|j: int|
                    0 <= j < i ==> !spec_matches(
                        spec_reference(),
                        (#[trigger] fingerprints@[j])@,
                        HAMMING_TOLERANCE as int,
                    ),
            decreases n - i,
        {
            proof {
                assert(spec_reference().len() == 18);
            }
            if ImageMatcher::matches(reference.as_slice(), fingerprints[i].as_slice(), 0) {
                assert(spec_chest_match(fingerprints@));
                let completions = self.storage.set_add(STORAGE_COMPL_SET, from_id);
                return OneShotOutcome::Success { completions };
            }
            i = i + 1;
        }
        OneShotOutcome::NoMatch
    }
}

} // verus!
