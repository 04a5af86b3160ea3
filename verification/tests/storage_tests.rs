use salmon::storage::{Storage, StorageError};

#[test]
fn set_add_reports_cardinality_and_is_idempotent() {
    let mut st = Storage::new();
    assert_eq!(st.set_add("s", 1), 1);
    assert_eq!(st.set_add("s", 2), 2);
    assert_eq!(st.set_add("s", 1), 2);
    assert!(st.set_contains("s", 1));
    assert!(st.set_contains("s", 2));
    assert!(!st.set_contains("s", 3));
    assert!(!st.set_contains("other", 1));
}

#[test]
fn sets_len_reads_each_set() {
    let mut st = Storage::new();
    st.set_add("a", 1);
    st.set_add("a", 2);
    st.set_add("b", 5);
    let lens = st.sets_len(&vec!["a".to_string(), "b".to_string(), "missing".to_string()]);
    assert_eq!(lens, vec![2, 1, 0]);
}

#[test]
fn hash_incr_reads_and_writes() {
    let mut st = Storage::new();
    // delta 0 reads, or initializes to zero
    assert_eq!(st.hash_incr("h", 7, 0), Ok(0));
    assert_eq!(st.hash_incr("h", 7, 1), Ok(1));
    assert_eq!(st.hash_incr("h", 7, 1), Ok(2));
    assert_eq!(st.hash_incr("h", 8, 0), Ok(0));
    assert_eq!(st.hash_incr("other", 7, 0), Ok(0));
    assert_eq!(st.hash_incr("h", 7, 0), Ok(2));
}

#[test]
fn hash_incr_rejects_overflow_and_changes_nothing() {
    let mut st = Storage::new();
    assert_eq!(st.hash_incr("h", 1, i64::MAX), Ok(i64::MAX));
    assert_eq!(st.hash_incr("h", 1, 1), Err(StorageError::CounterOverflow));
    assert_eq!(st.hash_incr("h", 1, 0), Ok(i64::MAX));
}

#[test]
fn combined_add_and_count_is_one_step() {
    let mut st = Storage::new();
    let required = vec!["p1".to_string(), "p2".to_string(), "p3".to_string()];
    let got = st.sets_add_and_count_containing(&vec!["p1".to_string()], &required, 42);
    assert_eq!(got, 1);
    let got = st.sets_add_and_count_containing(&vec!["p3".to_string()], &required, 42);
    assert_eq!(got, 2);
    // another user's additions are counted apart
    let got = st.sets_add_and_count_containing(&vec!["p2".to_string()], &required, 43);
    assert_eq!(got, 1);
}

#[test]
fn combined_add_and_count_loses_no_update() {
    // Disjoint single-piece additions for one user: after the n-th call the
    // count reflects every one of them.
    let required: Vec<String> = (0..5).map(|k| format!("piece_{}", k)).collect();
    let mut st = Storage::new();
    for n in 0..5 {
        let adds = vec![format!("piece_{}", n)];
        let count = st.sets_add_and_count_containing(&adds, &required, 7);
        assert_eq!(count, n + 1);
    }
}

#[test]
fn combined_add_applies_every_listed_set() {
    let mut st = Storage::new();
    let adds = vec!["a".to_string(), "b".to_string()];
    let count = st.sets_add_and_count_containing(&adds, &vec!["a".to_string(), "b".to_string()], 9);
    assert_eq!(count, 2);
    assert!(st.set_contains("a", 9));
    assert!(st.set_contains("b", 9));
    assert_eq!(st.set_len("a"), 1);
}
