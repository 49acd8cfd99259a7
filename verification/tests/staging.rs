use setupvault::domain::DetectedChange;
use setupvault::domain::EntryType;
use setupvault::domain::SystemInfo;
use setupvault::domain::Tag;
use setupvault::staging::append_unique;
use setupvault::staging::contains_key;
use setupvault::staging::diff_changes;
use setupvault::staging::find_by_id;
use setupvault::staging::move_by_id;
use setupvault::staging::remove_by_id;

fn change(id: &str, source: &str, title: &str) -> DetectedChange {
    DetectedChange {
        id: id.to_string(),
        path: None,
        title: title.to_string(),
        entry_type: EntryType::Package,
        source: source.to_string(),
        cmd: format!("{source} install {title}"),
        system: SystemInfo {
            os: "linux".to_string(),
            arch: "x86_64".to_string(),
        },
        detected_at: "2024-01-01T00:00:00+00:00".to_string(),
        tags: vec![Tag::new("package".to_string()).unwrap()],
    }
}

#[test]
fn diff_keeps_only_new_keys() {
    let previous = vec![change("a", "homebrew", "jq"), change("b", "homebrew", "fd")];
    let current = vec![
        change("c", "homebrew", "jq"),
        change("d", "homebrew", "ripgrep"),
        change("e", "homebrew", "fd"),
    ];
    let diff = diff_changes(&previous, &current);
    assert_eq!(diff.len(), 1);
    assert_eq!(diff[0].title, "ripgrep");
}

#[test]
fn diff_against_itself_is_empty() {
    let scan = vec![change("a", "pip", "requests"), change("b", "pip", "flask")];
    let diff = diff_changes(&scan, &scan);
    assert!(diff.is_empty());
}

#[test]
fn first_refresh_reports_then_second_is_silent() {
    // detector "homebrew" returns [jq] against an empty snapshot
    let scan = vec![change("x1", "homebrew", "jq")];
    let snapshot: Vec<DetectedChange> = Vec::new();
    let diff = diff_changes(&snapshot, &scan);
    assert_eq!(diff.len(), 1);
    assert_eq!(diff[0].title, "jq");

    let mut inbox: Vec<DetectedChange> = Vec::new();
    append_unique(&mut inbox, diff);
    assert_eq!(inbox.len(), 1);
    assert_eq!(inbox[0].title, "jq");

    // the snapshot is replaced by the scan; the second scan reports nothing
    let snapshot = scan;
    let second_scan = vec![change("x2", "homebrew", "jq")];
    let diff = diff_changes(&snapshot, &second_scan);
    assert!(diff.is_empty());
    append_unique(&mut inbox, diff);
    assert_eq!(inbox.len(), 1);
}

#[test]
fn append_skips_keys_already_in_inbox() {
    let mut inbox = vec![change("a", "npm", "typescript")];
    let incoming = vec![
        change("b", "npm", "typescript"),
        change("c", "npm", "eslint"),
        change("d", "npm", "eslint"),
    ];
    append_unique(&mut inbox, incoming);
    assert_eq!(inbox.len(), 2);
    assert_eq!(inbox[0].id, "a");
    assert_eq!(inbox[1].title, "eslint");
}

#[test]
fn snooze_and_unsnooze_restore_the_same_record() {
    let mut inbox = vec![change("a", "apt", "curl"), change("b", "apt", "wget")];
    let mut snoozed: Vec<DetectedChange> = Vec::new();
    let id = "a".to_string();

    let moved = move_by_id(&mut inbox, &mut snoozed, &id);
    assert!(moved);
    assert_eq!(inbox.len(), 1);
    assert_eq!(snoozed.len(), 1);
    assert_eq!(snoozed[0].id, "a");
    assert_eq!(snoozed[0].title, "curl");

    let moved_back = move_by_id(&mut snoozed, &mut inbox, &id);
    assert!(moved_back);
    assert!(snoozed.is_empty());
    assert_eq!(inbox.len(), 2);
    let restored = &inbox[1];
    assert_eq!(restored.id, "a");
    assert_eq!(restored.title, "curl");
    assert_eq!(restored.cmd, "apt install curl");
}

#[test]
fn move_of_absent_id_changes_nothing() {
    let mut inbox = vec![change("a", "apt", "curl")];
    let mut snoozed: Vec<DetectedChange> = Vec::new();
    let id = "zz".to_string();
    let moved = move_by_id(&mut inbox, &mut snoozed, &id);
    assert!(!moved);
    assert_eq!(inbox.len(), 1);
    assert!(snoozed.is_empty());
}

#[test]
fn remove_drops_every_item_with_the_id() {
    let mut list = vec![change("a", "apt", "curl"), change("b", "apt", "wget")];
    let id = "b".to_string();
    remove_by_id(&mut list, &id);
    assert_eq!(list.len(), 1);
    assert_eq!(list[0].id, "a");
}

#[test]
fn key_lookup_is_case_sensitive_and_exact() {
    let list = vec![change("a", "homebrew", "jq")];
    assert!(contains_key(&list, &"homebrew".to_string(), &"jq".to_string()));
    assert!(!contains_key(&list, &"homebrew".to_string(), &"JQ".to_string()));
    assert!(!contains_key(&list, &"brew".to_string(), &"jq".to_string()));
}

#[test]
fn find_by_id_reports_first_match() {
    let list = vec![change("a", "apt", "curl"), change("b", "apt", "wget")];
    assert_eq!(find_by_id(&list, &"b".to_string()), Some(1));
    assert_eq!(find_by_id(&list, &"zz".to_string()), None);
}
