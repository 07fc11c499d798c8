//! Credentials and download locks.

use muna_server::client::{
    DownloadLocks, DownloadStep, ProgressLog, ServerClient, PROGRESS_LOG_INTERVAL_MS,
};
use muna_server::order::{at_or_before, join_texts, sort_numbers, sort_texts};
use muna_server::tag_map::TagMap;
use muna_server::text::{decimal_text, joined, same_text, signed_decimal_text};

fn client() -> ServerClient {
    ServerClient::with_key(None, None, None)
}

#[test]
fn concurrent_downloads_of_one_path_single_flight() {
    let mut locks = DownloadLocks::new();
    // Two concurrent downloads of one destination share its lock: the loser
    // of the race waits, finds the file, and never transfers.
    let winner = locks.enter("/cache/a.bin");
    let loser = locks.enter("/cache/a.bin");
    assert_eq!(winner, loser);
    let other = locks.enter("/cache/b.bin");
    assert_ne!(winner, other);
    assert_eq!(client().download(false, false), DownloadStep::Presented);
    assert_eq!(locks.leave("/cache/a.bin"), None);
    assert_eq!(client().download(true, false), DownloadStep::Present);
    assert_eq!(locks.leave("/cache/a.bin"), Some(winner));
    // Nothing of the destination is left.
    assert_eq!(locks.leave("/cache/a.bin"), None);
    assert_ne!(locks.enter("/cache/a.bin"), winner);
}

#[test]
fn callers_present_their_own_progress() {
    assert_eq!(client().download(false, true), DownloadStep::Reported);
    assert_eq!(client().download(true, true), DownloadStep::Present);
}

#[test]
fn the_models_key_wins() {
    let process = || Some("process".to_string());
    let of = |key: Option<String>, process_key: Option<String>| {
        ServerClient::with_key(key, process_key, Some("http://api".to_string()))
    };
    assert_eq!(of(Some("model".into()), process()).access_key, Some("model".to_string()));
    assert_eq!(of(None, process()).access_key, process());
    assert_eq!(of(None, None).access_key, None);
    assert_eq!(of(None, None).url.as_deref(), Some("http://api"));
}

#[test]
fn progress_lines_are_throttled() {
    let mut log = ProgressLog::new();
    assert!(!log.due(PROGRESS_LOG_INTERVAL_MS - 1));
    assert!(log.due(PROGRESS_LOG_INTERVAL_MS));
    assert!(!log.due(PROGRESS_LOG_INTERVAL_MS + 1));
    assert!(log.due(2 * PROGRESS_LOG_INTERVAL_MS));
}

#[test]
fn tag_maps_hold_values_by_tag() {
    let mut map: TagMap<u64> = TagMap::new();
    assert_eq!(map.insert("@a/x", 1), None);
    assert_eq!(map.insert("@a/y", 2), None);
    assert_eq!(map.insert("@a/z", 3), None);
    assert_eq!(map.insert("@a/x", 4), Some(1));
    assert_eq!(map.len(), 3);
    assert_eq!(map.remove("@a/x"), Some(4));
    assert_eq!(map.remove("@a/x"), None);
    // The others are found after the removal.
    assert_eq!(map.get("@a/y"), Some(&2));
    assert_eq!(map.get("@a/z"), Some(&3));
    assert!(!map.contains("@a/x"));
    let mut tags: Vec<(String, u64)> =
        (0..map.len()).map(|i| (map.tag_at(i).to_string(), *map.value_at(i))).collect();
    tags.sort();
    assert_eq!(tags, vec![("@a/y".to_string(), 2), ("@a/z".to_string(), 3)]);
}

#[test]
fn texts_sort_as_std_sorts_them() {
    let given = ["b", "", "a", "ab", "é", "a", "Z", "日本", "🦀"];
    let mut expected: Vec<String> = given.iter().map(|s| s.to_string()).collect();
    let sorted = sort_texts(expected.clone());
    expected.sort();
    assert_eq!(sorted, expected);
    assert_eq!(join_texts(&sorted, "&"), expected.join("&"));
    assert!(at_or_before("a", "ab") && !at_or_before("b", "a") && at_or_before("", ""));
    assert_eq!(sort_numbers(&vec![3, 1, 2, 1]), vec![1, 1, 2, 3]);
}

#[test]
fn numbers_are_written_in_decimal() {
    assert_eq!(decimal_text(0), "0");
    assert_eq!(decimal_text(u128::MAX), u128::MAX.to_string());
    assert_eq!(signed_decimal_text(-12), "-12");
    assert_eq!(signed_decimal_text(i64::MIN), i64::MIN.to_string());
    assert_eq!(joined("a", "é"), "aé");
    assert!(same_text("é", "é") && !same_text("e", "é"));
}
