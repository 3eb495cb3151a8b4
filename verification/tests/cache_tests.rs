use hyprlauncher::cache::AppCache;
use hyprlauncher::entry::{AppEntry, EntryType};

fn entry(name: &str, count: u32) -> AppEntry {
    AppEntry {
        name: name.to_string(),
        exec_cmd: format!("/usr/bin/{}", name),
        icon_name: "application-x-executable".to_string(),
        path: format!("/usr/bin/{}", name),
        launch_count: count,
        entry_type: EntryType::Application,
    }
}

#[test]
fn insert_and_get() {
    let mut c = AppCache::new();
    c.insert(entry("vim", 2));
    let e = c.get("vim").expect("vim is present");
    assert_eq!(e.name, "vim");
    assert_eq!(e.launch_count, 2);
    assert!(c.get("emacs").is_none());
}

#[test]
fn insert_same_name_overwrites() {
    let mut c = AppCache::new();
    c.insert(entry("vim", 2));
    let mut newer = entry("vim", 9);
    newer.icon_name = "vim".to_string();
    c.insert(newer);
    assert_eq!(c.len(), 1);
    let e = c.get("vim").unwrap();
    assert_eq!(e.launch_count, 9);
    assert_eq!(e.icon_name, "vim");
}

#[test]
fn increment_present_adds_exactly_one() {
    let mut c = AppCache::new();
    c.insert(entry("vim", 2));
    assert_eq!(c.increment_launch("vim"), Some(3));
    assert_eq!(c.get("vim").unwrap().launch_count, 3);
}

#[test]
fn increment_keeps_incrementing() {
    let mut c = AppCache::new();
    c.insert(entry("vim", 0));
    for expected in 1..=5u32 {
        assert_eq!(c.increment_launch("vim"), Some(expected));
    }
    assert_eq!(c.get("vim").unwrap().launch_count, 5);
}

#[test]
fn increment_absent_changes_nothing() {
    let mut c = AppCache::new();
    c.insert(entry("vim", 2));
    c.insert(entry("emacs", 7));
    assert_eq!(c.increment_launch("nano"), None);
    assert_eq!(c.len(), 2);
    assert_eq!(c.get("vim").unwrap().launch_count, 2);
    assert_eq!(c.get("emacs").unwrap().launch_count, 7);
}

#[test]
fn n_increments_add_n() {
    // the serialized form of N callers incrementing one name
    let mut c = AppCache::new();
    c.insert(entry("vim", 10));
    let n = 50u32;
    for _ in 0..n {
        c.increment_launch("vim");
    }
    assert_eq!(c.get("vim").unwrap().launch_count, 10 + n);
}

#[test]
fn entry_at_enumerates_in_insertion_order() {
    let mut c = AppCache::new();
    c.insert(entry("a", 1));
    c.insert(entry("b", 2));
    assert_eq!(c.len(), 2);
    assert_eq!(c.entry_at(0).name, "a");
    assert_eq!(c.entry_at(1).name, "b");
}
