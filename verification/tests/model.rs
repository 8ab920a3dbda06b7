use finalyst::model::{entry_prompt, retain_recent, retain_unseen, select_entries, sort_newest_first};
use finalyst::rss::FeedEntry;

fn entry(title: &str, time: u64) -> FeedEntry {
    FeedEntry {
        title: title.to_string(),
        content: format!("text of {title}"),
        timestamp: format!("t{time}"),
        timestamp_unix: time,
    }
}

fn titles(v: &[FeedEntry]) -> Vec<&str> {
    v.iter().map(|e| e.title.as_str()).collect()
}

#[test]
fn recent_keeps_entries_at_or_after_cutoff() {
    let v = vec![entry("a", 100), entry("b", 50), entry("c", 60), entry("d", 61)];
    let r = retain_recent(v, 100, 40);
    assert_eq!(titles(&r), vec!["a", "c", "d"]);
}

#[test]
fn recent_with_zero_age_keeps_only_now_and_later() {
    let v = vec![entry("a", 99), entry("b", 100), entry("c", 101)];
    assert_eq!(titles(&retain_recent(v, 100, 0)), vec!["b", "c"]);
}

#[test]
fn unseen_drops_flagged_entries() {
    let v = vec![entry("a", 1), entry("b", 2), entry("c", 3)];
    let r = retain_unseen(v, &vec![false, true, false]);
    assert_eq!(titles(&r), vec!["a", "c"]);
}

#[test]
fn sort_is_newest_first_and_stable() {
    let v = vec![entry("a", 5), entry("b", 9), entry("c", 5), entry("d", 7), entry("e", 9), entry("f", 1)];
    let r = sort_newest_first(v);
    assert_eq!(titles(&r), vec!["b", "e", "d", "a", "c", "f"]);
}

#[test]
fn sort_of_empty_is_empty() {
    assert!(sort_newest_first(Vec::new()).is_empty());
}

#[test]
fn select_takes_newest_unseen_up_to_limit() {
    let v = vec![entry("a", 10), entry("b", 30), entry("c", 20), entry("d", 40)];
    let r = select_entries(v.clone(), &vec![false, false, false, true], 2);
    assert_eq!(titles(&r), vec!["b", "c"]);
    let all = select_entries(v, &vec![false; 4], 10);
    assert_eq!(titles(&all), vec!["d", "b", "c", "a"]);
}

#[test]
fn select_with_zero_limit_is_empty() {
    let v = vec![entry("a", 10)];
    assert!(select_entries(v, &vec![false], 0).is_empty());
}

#[test]
fn prompt_joins_time_title_and_text() {
    let e = FeedEntry {
        title: "Apple beats".to_string(),
        content: "Revenue up 5%".to_string(),
        timestamp: "2024-01-02T03:04:05+00:00".to_string(),
        timestamp_unix: 1704164645,
    };
    assert_eq!(entry_prompt(&e), "2024-01-02T03:04:05+00:00 Apple beats:\nRevenue up 5%");
}
