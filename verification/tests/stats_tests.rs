use salmon::behavior::stats::StatsBehavior;
use salmon::behavior::stone::{Piece, Stage, StageSet};
use salmon::json::Json;
use salmon::storage::Storage;
use salmon::vkapi::messages::send_response_ok;
use salmon::vkapi::{parse_community_response, CommunityError};

fn config() -> StageSet {
    StageSet {
        stages: vec![Stage {
            pieces: vec![
                Piece { letter: "a".to_string(), fingerprint: vec![0; 8], tolerance_inc: 0 },
                Piece { letter: "b".to_string(), fingerprint: vec![255; 8], tolerance_inc: 0 },
            ],
            completion_text: String::new(),
            wrong_stage_text: String::new(),
        }],
    }
}

#[test]
fn stats_only_answer_admins() {
    let stats = StatsBehavior::new(Storage::new(), vec![10, 20]);
    assert!(stats.process_message(&config(), 10).is_some());
    assert!(stats.process_message(&config(), 11).is_none());
}

#[test]
fn stats_report_counts_each_bucket() {
    let mut storage = Storage::new();
    storage.set_add("letter_a", 5);
    storage.set_add("letter_a", 6);
    storage.set_add("letter_b", 5);
    storage.set_add("chest_completed_by", 5);
    storage.set_add("gates_completed_by", 5);
    storage.set_add("gates_completed_by", 6);
    storage.set_add("gates_completed_by", 7);
    let stats = StatsBehavior::new(storage, vec![10]);
    let report = stats.process_message(&config(), 10).unwrap();
    assert_eq!(
        report,
        "Камень в лесу:\nЭтап 1:\n- a: 2\n- b: 1\n\nСундук: 1\n\nВорота: 3"
    );
}

#[test]
fn community_response_needs_one_named_community() {
    let good = Json::Arr(vec![Json::Obj(vec![
        ("id".to_string(), Json::Int(1001)),
        ("name".to_string(), Json::Str("sample_community".to_string())),
    ])]);
    assert_eq!(
        parse_community_response(&good),
        Ok(("1001".to_string(), "sample_community".to_string()))
    );
    assert_eq!(
        parse_community_response(&Json::Arr(vec![])),
        Err(CommunityError::NotSingle)
    );
    let unnamed = Json::Arr(vec![Json::Obj(vec![("id".to_string(), Json::Int(1))])]);
    assert_eq!(parse_community_response(&unnamed), Err(CommunityError::MissingName));
    let nameless_id = Json::Arr(vec![Json::Obj(vec![(
        "name".to_string(),
        Json::Str("x".to_string()),
    )])]);
    assert_eq!(parse_community_response(&nameless_id), Err(CommunityError::MissingId));
}

#[test]
fn send_response_error_key_means_failure() {
    let ok = Json::Obj(vec![("response".to_string(), Json::Int(1))]);
    assert!(send_response_ok(&ok));
    let err = Json::Obj(vec![("error".to_string(), Json::Obj(vec![]))]);
    assert!(!send_response_ok(&err));
}
