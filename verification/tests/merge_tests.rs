use board_watch::models::List;
use board_watch::merge::{merge_to_list, newer_to_list};

fn entry(link: &str, timestamp: i64) -> List {
    List {
        timestamp,
        title: format!("title of {}", link),
        datetime: String::new(),
        link: link.to_string(),
        images: String::new(),
        more: String::new(),
        new: true,
    }
}

fn links_and_times(v: &[List]) -> Vec<(String, i64)> {
    v.iter().map(|e| (e.link.clone(), e.timestamp)).collect()
}

#[test]
fn scenario_a_merge_and_newly_discovered() {
    let stored = vec![entry("a", 100)];
    let fresh = vec![entry("a", 200), entry("b", 200)];

    let newly = newer_to_list(fresh.clone(), stored.clone());
    assert_eq!(links_and_times(&newly), vec![("b".to_string(), 200)]);

    let merged = merge_to_list(fresh, stored);
    assert_eq!(
        links_and_times(&merged),
        vec![("b".to_string(), 200), ("a".to_string(), 200)]
    );
}

#[test]
fn freshness_priority_fresh_timestamp_wins() {
    let stored = vec![entry("x", 1000), entry("y", 900)];
    let fresh = vec![entry("x", 5000)];
    let merged = merge_to_list(fresh, stored);
    assert_eq!(
        links_and_times(&merged),
        vec![("x".to_string(), 5000), ("y".to_string(), 900)]
    );
}

#[test]
fn merged_state_has_no_duplicate_links() {
    let stored = vec![entry("y", 50), entry("z", 40)];
    let fresh = vec![entry("x", 100), entry("x", 90), entry("y", 100)];
    let merged = merge_to_list(fresh.clone(), stored.clone());
    let mut links: Vec<String> = merged.iter().map(|e| e.link.clone()).collect();
    links.sort();
    assert_eq!(links, vec!["x".to_string(), "y".to_string(), "z".to_string()]);

    let newly = newer_to_list(fresh, stored);
    assert_eq!(links_and_times(&newly), vec![("x".to_string(), 100)]);
}

#[test]
fn newly_discovered_excludes_stored_links() {
    let stored = vec![entry("a", 10), entry("b", 20)];
    let fresh = vec![entry("a", 30), entry("c", 30), entry("b", 30)];
    let newly = newer_to_list(fresh, stored.clone());
    for e in &newly {
        assert!(stored.iter().all(|s| s.link != e.link));
    }
    assert_eq!(links_and_times(&newly), vec![("c".to_string(), 30)]);
}

#[test]
fn merge_is_deterministic_on_identical_inputs() {
    let stored = vec![entry("a", 100), entry("b", 90), entry("c", 80)];
    let fresh = vec![entry("b", 200), entry("d", 200), entry("d", 150)];
    let first = merge_to_list(fresh.clone(), stored.clone());
    let second = merge_to_list(fresh.clone(), stored.clone());
    assert_eq!(links_and_times(&first), links_and_times(&second));
    let newly_first = newer_to_list(fresh.clone(), stored.clone());
    let newly_second = newer_to_list(fresh, stored);
    assert_eq!(links_and_times(&newly_first), links_and_times(&newly_second));
}

#[test]
fn merge_sorts_descending_and_keeps_tie_order() {
    let stored = vec![entry("old", 10), entry("mid", 500)];
    let fresh = vec![entry("new1", 500), entry("new2", 900)];
    let merged = merge_to_list(fresh, stored);
    assert_eq!(
        links_and_times(&merged),
        vec![
            ("new2".to_string(), 900),
            ("new1".to_string(), 500),
            ("mid".to_string(), 500),
            ("old".to_string(), 10),
        ]
    );
}

#[test]
fn merge_of_empty_fresh_keeps_stored() {
    let stored = vec![entry("a", 100), entry("b", 200)];
    let merged = merge_to_list(vec![], stored);
    assert_eq!(
        links_and_times(&merged),
        vec![("b".to_string(), 200), ("a".to_string(), 100)]
    );
    let newly = newer_to_list(vec![], vec![entry("a", 100)]);
    assert!(newly.is_empty());
}

#[test]
fn merge_preserves_entry_fields() {
    let mut fresh_entry = entry("a", 300);
    fresh_entry.title = "Fresh Title".to_string();
    fresh_entry.datetime = "01-02".to_string();
    fresh_entry.more = "tag".to_string();
    let merged = merge_to_list(vec![fresh_entry], vec![]);
    assert_eq!(merged.len(), 1);
    assert_eq!(merged[0].title, "Fresh Title");
    assert_eq!(merged[0].datetime, "01-02");
    assert_eq!(merged[0].more, "tag");
    assert!(merged[0].new);
}

#[test]
fn no_rediscovery_after_merge() {
    let stored = vec![entry("a", 100)];
    let fresh = vec![entry("a", 200), entry("b", 200)];
    let merged = merge_to_list(fresh.clone(), stored);
    let again = newer_to_list(fresh, merged);
    assert!(again.is_empty());
}
