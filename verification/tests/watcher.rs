use vxapo_driver::host::watcher::{ConfigWatcher, Deduplicator, DirEntry, WatchEvent};

fn changed(path: &str) -> WatchEvent {
    WatchEvent::ConfigFileChanged(path.to_string())
}

fn file(path: &str, modified: u64) -> DirEntry {
    DirEntry { path: path.to_string(), is_file: true, modified: Some(modified) }
}

#[test]
fn dedup_first_event_passes() {
    let mut dedup = Deduplicator::new(500);
    let event = changed("test.txt");
    assert!(dedup.should_emit(&event, 0));
}

#[test]
fn dedup_same_event_within_window() {
    let mut dedup = Deduplicator::new(500);
    let event = changed("test.txt");
    dedup.should_emit(&event, 0);
    assert!(!dedup.should_emit(&event, 1));
}

#[test]
fn dedup_different_events_within_window() {
    let mut dedup = Deduplicator::new(500);
    let event1 = changed("a.txt");
    let event2 = changed("b.txt");
    dedup.should_emit(&event1, 0);
    assert!(dedup.should_emit(&event2, 1));
}

#[test]
fn dedup_registry_vs_file() {
    let mut dedup = Deduplicator::new(500);
    let event1 = changed("test.txt");
    let event2 = WatchEvent::RegistryChanged;
    dedup.should_emit(&event1, 0);
    assert!(dedup.should_emit(&event2, 1));
}

#[test]
fn dedup_same_event_after_window() {
    let mut dedup = Deduplicator::new(500);
    let event = changed("test.txt");
    assert!(dedup.should_emit(&event, 100));
    assert!(!dedup.should_emit(&event, 599));
    assert!(dedup.should_emit(&event, 600));
}

#[test]
fn watcher_empty_dir() {
    let mut watcher = ConfigWatcher::new("dir".to_string(), 0, 500, &[]);
    let events = watcher.poll(&[], 0);
    assert!(events.is_empty());
}

#[test]
fn watcher_detects_new_file() {
    let mut watcher = ConfigWatcher::new("dir".to_string(), 0, 0, &[]);

    watcher.poll(&[], 0);

    let events = watcher.poll(&[file("dir/config.txt", 10)], 200);
    assert_eq!(events.len(), 1);
    match &events[0] {
        WatchEvent::ConfigFileChanged(path) => {
            assert!(path.ends_with("config.txt"));
        }
        _ => panic!("expected ConfigFileChanged"),
    }
}

#[test]
fn watcher_detects_file_change() {
    let before = [file("dir/config.txt", 10)];
    let mut watcher = ConfigWatcher::new("dir".to_string(), 0, 0, &before);
    watcher.poll(&before, 0);

    let events = watcher.poll(&[file("dir/config.txt", 210)], 400);
    assert_eq!(events.len(), 1);
}

#[test]
fn watcher_detects_file_delete() {
    let before = [file("dir/config.txt", 10)];
    let mut watcher = ConfigWatcher::new("dir".to_string(), 0, 0, &before);
    watcher.poll(&before, 0);

    let events = watcher.poll(&[], 200);
    assert_eq!(events.len(), 1);
    match &events[0] {
        WatchEvent::ConfigFileDeleted(path) => {
            assert!(path.ends_with("config.txt"));
        }
        _ => panic!("expected ConfigFileDeleted"),
    }
}

#[test]
fn watcher_ignores_non_txt_files() {
    let mut watcher = ConfigWatcher::new("dir".to_string(), 0, 0, &[]);
    watcher.poll(&[], 0);

    let events = watcher.poll(&[file("dir/notes.md", 10)], 200);
    assert!(events.is_empty());
}

#[test]
fn watcher_no_change_no_event() {
    let entries = [file("dir/config.txt", 10)];
    let mut watcher = ConfigWatcher::new("dir".to_string(), 0, 0, &entries);
    watcher.poll(&entries, 0);

    let events = watcher.poll(&entries, 1);
    assert!(events.is_empty());
}

#[test]
fn watcher_registry_change() {
    let mut watcher = ConfigWatcher::new("dir".to_string(), 0, 0, &[]);

    let event = watcher.poll_registry(12345, 0);
    assert!(event.is_some());
    assert_eq!(event.unwrap(), WatchEvent::RegistryChanged);

    let event = watcher.poll_registry(12345, 1);
    assert!(event.is_none());

    let event = watcher.poll_registry(67890, 2);
    assert!(event.is_some());
}

/// Nothing is looked at before the interval has passed, and what changed meanwhile is
/// seen then.
#[test]
fn watcher_waits_for_its_interval() {
    let mut watcher = ConfigWatcher::new("dir".to_string(), 1000, 0, &[]);
    assert!(watcher.poll(&[], 0).is_empty());
    assert!(!watcher.should_poll(999));
    assert!(watcher.poll(&[file("dir/a.conf", 1)], 999).is_empty());
    assert_eq!(watcher.poll(&[file("dir/a.conf", 1)], 1000), vec![changed("dir/a.conf")]);
}

/// The ending of a name counts in whatever case, and directories do not count.
#[test]
fn watcher_takes_configuration_files_only() {
    let mut watcher = ConfigWatcher::new("dir".to_string(), 0, 0, &[]);
    let folder = DirEntry { path: "dir/sub.txt".to_string(), is_file: false, modified: Some(1) };
    assert!(watcher.poll(&[folder], 0).is_empty());
    assert_eq!(watcher.poll(&[file("dir/B.TXT", 1)], 1), vec![changed("dir/B.TXT")]);
}

/// An event is let through once within the window, whatever comes in between.
#[test]
fn repetition_is_dropped_after_another_event() {
    let a = WatchEvent::ConfigFileChanged("a".to_string());
    let b = WatchEvent::ConfigFileChanged("b".to_string());
    let mut dedup = Deduplicator::new(u64::MAX);
    assert!(dedup.should_emit(&a, 0));
    assert!(dedup.should_emit(&b, 1));
    assert!(!dedup.should_emit(&a, 2));
    assert!(!dedup.should_emit(&b, 1_000_000));
    let mut short = Deduplicator::new(500);
    assert!(short.should_emit(&a, 0));
    assert!(short.should_emit(&b, 300));
    assert!(!short.should_emit(&a, 499));
    assert!(short.should_emit(&a, 500));
    assert!(!short.should_emit(&b, 799));
    assert!(short.should_emit(&b, 800));
}
