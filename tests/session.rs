use harness::{env_flag_enabled, is_session_name, sessions_to_remove};

fn names(list: &[&str]) -> Vec<String> {
    list.iter().map(|s| s.to_string()).collect()
}

#[test]
fn cleanup_keeps_newest_session() {
    let listing = names(&["100", "200", "300"]);
    assert_eq!(sessions_to_remove(&listing, 1), vec![0, 1]);
    let shuffled = names(&["300", "100", "200"]);
    assert_eq!(sessions_to_remove(&shuffled, 1), vec![1, 2]);
}

#[test]
fn cleanup_with_zero_retention_removes_nothing() {
    let listing = names(&["100", "200", "300"]);
    assert!(sessions_to_remove(&listing, 0).is_empty());
}

#[test]
fn cleanup_with_enough_retention_removes_nothing() {
    let listing = names(&["100", "200", "300"]);
    assert!(sessions_to_remove(&listing, 3).is_empty());
    assert!(sessions_to_remove(&listing, 5).is_empty());
    assert!(sessions_to_remove(&Vec::new(), 1).is_empty());
}

#[test]
fn cleanup_ignores_other_directories() {
    let listing = names(&["latest", "1700000000000", "notes-1", "1700000000500", "1600000000000"]);
    assert_eq!(sessions_to_remove(&listing, 1), vec![1, 4]);
    assert_eq!(sessions_to_remove(&listing, 2), vec![4]);
}

#[test]
fn cleanup_orders_by_number_not_text() {
    let listing = names(&["99", "100", "0101"]);
    assert_eq!(sessions_to_remove(&listing, 1), vec![0, 1]);
    assert_eq!(sessions_to_remove(&listing, 2), vec![0]);
}

#[test]
fn cleanup_ties_keep_first_listed() {
    let listing = names(&["007", "7", "3"]);
    assert_eq!(sessions_to_remove(&listing, 1), vec![1, 2]);
}

#[test]
fn session_names_are_digits() {
    assert!(is_session_name("1700000000123"));
    assert!(is_session_name("0"));
    assert!(is_session_name(""));
    assert!(!is_session_name("12a"));
    assert!(!is_session_name("-12"));
    assert!(!is_session_name("١٢"));
}

#[test]
fn env_flags() {
    assert!(env_flag_enabled(None));
    assert!(!env_flag_enabled(Some("0")));
    assert!(env_flag_enabled(Some("1")));
    assert!(env_flag_enabled(Some("00")));
    assert!(env_flag_enabled(Some("")));
    assert!(env_flag_enabled(Some("false")));
}

#[test]
fn session_ids_are_session_names_ordered_by_start() {
    let older = harness::ScreenshotState::new(999).session_dir;
    let newer = harness::ScreenshotState::new(1_000).session_dir;
    let newest = harness::ScreenshotState::new(1_700_000_000_000).session_dir;
    assert!(is_session_name(&older) && is_session_name(&newer) && is_session_name(&newest));
    let listing = vec![newest.clone(), older.clone(), newer.clone()];
    assert_eq!(sessions_to_remove(&listing, 2), vec![1]);
    assert_eq!(sessions_to_remove(&listing, 1), vec![1, 2]);
}
