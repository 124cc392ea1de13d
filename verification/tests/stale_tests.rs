use board_watch::models::List;
use board_watch::stale::classify_entries;

fn entry(link: &str, timestamp: i64) -> List {
    List {
        timestamp,
        title: format!("title of {}", link),
        datetime: String::new(),
        link: link.to_string(),
        images: String::new(),
        more: String::new(),
        new: true,
    }
}

#[test]
fn scenario_b_stale_entry_kept_not_new() {
    let stored = vec![entry("x", 1000)];
    let now = 1000 + 29000;
    let out = classify_entries(stored, now);
    assert_eq!(out.len(), 1);
    assert_eq!(out[0].link, "x");
    assert_eq!(out[0].timestamp, 1000);
    assert!(!out[0].new);
}

#[test]
fn scenario_c_expired_entry_dropped() {
    let stored = vec![entry("x", 1000)];
    let now = 1000 + 173000;
    let out = classify_entries(stored, now);
    assert!(out.is_empty());
}

#[test]
fn young_entry_passes_unchanged() {
    let stored = vec![entry("y", 1000)];
    let now = 1000 + 100;
    let out = classify_entries(stored, now);
    assert_eq!(out.len(), 1);
    assert_eq!(out[0].link, "y");
    assert!(out[0].new);
}

#[test]
fn staleness_boundary_is_strict() {
    // exactly the staleness window: not yet past it, the flag is kept
    let out = classify_entries(vec![entry("a", 0)], 28800);
    assert_eq!(out.len(), 1);
    assert!(out[0].new);
    // one second past it, the flag clears
    let out = classify_entries(vec![entry("a", 0)], 28801);
    assert_eq!(out.len(), 1);
    assert!(!out[0].new);
}

#[test]
fn expiry_boundary_is_inclusive() {
    // one second before the expiry window: retained (and stale)
    let out = classify_entries(vec![entry("a", 0)], 172799);
    assert_eq!(out.len(), 1);
    assert!(!out[0].new);
    // exactly the expiry window: dropped
    let out = classify_entries(vec![entry("a", 0)], 172800);
    assert!(out.is_empty());
}

#[test]
fn classifier_handles_mixed_list_in_order() {
    let stored = vec![entry("fresh", 180_000), entry("stale", 150_000), entry("gone", 0)];
    let now = 200_000;
    let out = classify_entries(stored, now);
    let summary: Vec<(String, bool)> = out.iter().map(|e| (e.link.clone(), e.new)).collect();
    assert_eq!(
        summary,
        vec![("fresh".to_string(), true), ("stale".to_string(), false)]
    );
}
