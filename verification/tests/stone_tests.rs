use salmon::behavior::stone::{Piece, Stage, StageSet, StoneAction, StoneBehavior};
use salmon::storage::Storage;

fn fp_a() -> Vec<u8> {
    vec![0x00; 8]
}

fn fp_b() -> Vec<u8> {
    vec![0xFF; 8]
}

fn fp_c() -> Vec<u8> {
    vec![0x0F; 8]
}

fn piece(letter: &str, fp: Vec<u8>) -> Piece {
    Piece { letter: letter.to_string(), fingerprint: fp, tolerance_inc: 0 }
}

fn two_stage_config() -> StageSet {
    StageSet {
        stages: vec![
            Stage {
                pieces: vec![piece("a", fp_a()), piece("b", fp_b())],
                completion_text: "stage one done".to_string(),
                wrong_stage_text: "that is not from this stage".to_string(),
            },
            Stage {
                pieces: vec![piece("c", fp_c())],
                completion_text: "all done".to_string(),
                wrong_stage_text: "too late for that".to_string(),
            },
        ],
    }
}

#[test]
fn config_is_valid() {
    assert!(two_stage_config().check_valid());
    let empty_stage = StageSet {
        stages: vec![Stage {
            pieces: vec![],
            completion_text: String::new(),
            wrong_stage_text: String::new(),
        }],
    };
    assert!(!empty_stage.check_valid());
}

#[test]
fn stage_progress_then_completion_then_no_regress() {
    // One image matching fA: expect "1/2"; then fB: stage advance; then fA
    // again at the new stage: the wrong-stage hint, and no regress.
    let mut stone = StoneBehavior::new(Storage::new(), two_stage_config());
    let r = stone.process_message(5, &vec![fp_a()]);
    assert_eq!(
        r,
        StoneAction::Progress { matched: 1, required: 2, reply: "1/2".to_string() }
    );
    let r = stone.process_message(5, &vec![fp_b()]);
    assert_eq!(
        r,
        StoneAction::Completed { stage: 0, reply: "stage one done".to_string() }
    );
    let r = stone.process_message(5, &vec![fp_a()]);
    assert_eq!(
        r,
        StoneAction::WrongStage { reply: "too late for that".to_string() }
    );
    // progress was not regressed: the user still stands at stage 1 and can
    // finish it
    let r = stone.process_message(5, &vec![fp_c()]);
    assert_eq!(r, StoneAction::Completed { stage: 1, reply: "all done".to_string() });
    // terminal users are inert
    let r = stone.process_message(5, &vec![fp_c()]);
    assert_eq!(r, StoneAction::Inert);
}

#[test]
fn wrong_stage_records_nothing() {
    // A user at stage 1 submitting a stage-0 piece gets the stage hint and
    // no stage-1 set gains anything.
    let mut stone = StoneBehavior::new(Storage::new(), two_stage_config());
    assert!(matches!(stone.process_message(5, &vec![fp_a()]), StoneAction::Progress { .. }));
    assert!(matches!(stone.process_message(5, &vec![fp_b()]), StoneAction::Completed { .. }));
    let r = stone.process_message(5, &vec![fp_a()]);
    assert_eq!(
        r,
        StoneAction::WrongStage { reply: "too late for that".to_string() }
    );
    assert_eq!(stone.storage.set_len("letter_c"), 0);
}

#[test]
fn duplicate_final_piece_advances_exactly_once() {
    // Completing a stage and re-delivering the very same submission must
    // not advance the stage again.
    let mut stone = StoneBehavior::new(Storage::new(), two_stage_config());
    assert!(matches!(stone.process_message(5, &vec![fp_a()]), StoneAction::Progress { .. }));
    let done = stone.process_message(5, &vec![fp_b()]);
    assert_eq!(
        done,
        StoneAction::Completed { stage: 0, reply: "stage one done".to_string() }
    );
    let replay = stone.process_message(5, &vec![fp_b()]);
    assert_eq!(
        replay,
        StoneAction::WrongStage { reply: "too late for that".to_string() }
    );
    // still at stage 1, not 2
    let r = stone.process_message(5, &vec![fp_c()]);
    assert_eq!(r, StoneAction::Completed { stage: 1, reply: "all done".to_string() });
}

#[test]
fn both_pieces_in_one_message_complete_directly() {
    let mut stone = StoneBehavior::new(Storage::new(), two_stage_config());
    let r = stone.process_message(5, &vec![fp_a(), fp_b()]);
    assert_eq!(
        r,
        StoneAction::Completed { stage: 0, reply: "stage one done".to_string() }
    );
}

#[test]
fn wrong_stage_discards_same_message_matches() {
    // A message matching a current piece and a foreign piece records
    // nothing at all: the wrong-stage exit discards the whole message.
    let mut stone = StoneBehavior::new(Storage::new(), two_stage_config());
    let r = stone.process_message(5, &vec![fp_a(), fp_c()]);
    assert_eq!(
        r,
        StoneAction::WrongStage { reply: "that is not from this stage".to_string() }
    );
    assert_eq!(stone.storage.set_len("letter_a"), 0);
    let r = stone.process_message(5, &vec![fp_a()]);
    assert_eq!(
        r,
        StoneAction::Progress { matched: 1, required: 2, reply: "1/2".to_string() }
    );
}

#[test]
fn users_progress_independently() {
    let mut stone = StoneBehavior::new(Storage::new(), two_stage_config());
    assert!(matches!(stone.process_message(5, &vec![fp_a()]), StoneAction::Progress { .. }));
    let r = stone.process_message(6, &vec![fp_b()]);
    assert_eq!(
        r,
        StoneAction::Progress { matched: 1, required: 2, reply: "1/2".to_string() }
    );
}
