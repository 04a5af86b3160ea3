use salmon::behavior::chest::{reference_fingerprint, ChestBehavior};
use salmon::behavior::gates::GatesBehavior;
use salmon::behavior::OneShotOutcome;
use salmon::storage::Storage;

#[test]
fn gates_wrong_text_changes_nothing() {
    let mut gates = GatesBehavior::new(Storage::new());
    assert_eq!(gates.process_message(5, "let me in"), OneShotOutcome::NoMatch);
    assert_eq!(gates.process_message(5, "let me in"), OneShotOutcome::NoMatch);
}

#[test]
fn gates_answer_substring_completes_once() {
    let mut gates = GatesBehavior::new(Storage::new());
    let r = gates.process_message(5, "i think it is 679823154, no?");
    assert_eq!(r, OneShotOutcome::Success { completions: 1 });
    // Idempotence: the exact same completed submission re-delivered earns
    // nothing and changes nothing.
    let again = gates.process_message(5, "i think it is 679823154, no?");
    assert_eq!(again, OneShotOutcome::AlreadyDone);
    // another user still counts up
    let other = gates.process_message(6, "679823154");
    assert_eq!(other, OneShotOutcome::Success { completions: 2 });
}

#[test]
fn chest_matching_fingerprint_completes_once() {
    let mut chest = ChestBehavior::new(Storage::new());
    let exact = reference_fingerprint();
    let r = chest.process_message(5, &vec![exact.clone()]);
    assert_eq!(r, OneShotOutcome::Success { completions: 1 });
    let again = chest.process_message(5, &vec![exact]);
    assert_eq!(again, OneShotOutcome::AlreadyDone);
}

#[test]
fn chest_near_fingerprint_matches_within_tolerance() {
    let mut chest = ChestBehavior::new(Storage::new());
    let mut near = reference_fingerprint();
    near[0] ^= 0x7f;  // 7 differing bits: inside the tolerance
    assert_eq!(
        chest.process_message(5, &vec![near]),
        OneShotOutcome::Success { completions: 1 }
    );
}

#[test]
fn chest_distant_fingerprint_is_no_match() {
    let mut chest = ChestBehavior::new(Storage::new());
    let mut far = reference_fingerprint();
    far[0] ^= 0xff;  // 8 differing bits: beyond the tolerance
    assert_eq!(chest.process_message(5, &vec![far]), OneShotOutcome::NoMatch);
    // a fingerprint of another length never matches
    assert_eq!(chest.process_message(5, &vec![vec![0u8; 4]]), OneShotOutcome::NoMatch);
    // and no attachments at all match nothing
    assert_eq!(chest.process_message(5, &vec![]), OneShotOutcome::NoMatch);
}
