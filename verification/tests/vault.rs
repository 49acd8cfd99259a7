use setupvault::codec::render_entry_markdown;
use setupvault::domain::CoreError;
use setupvault::domain::Entry;
use setupvault::domain::EntryStatus;
use setupvault::domain::EntryType;
use setupvault::domain::Rationale;
use setupvault::domain::SystemInfo;
use setupvault::domain::Tag;
use setupvault::search::entry_matches_query;
use setupvault::search::search_entries;
use setupvault::secrets::contains_potential_secret;
use setupvault::vault::find_entry_index;
use setupvault::vault::get_entry;
use setupvault::vault::list_entries;
use setupvault::vault::restore_change;
use setupvault::vault::slugify;
use setupvault::vault::FsVault;

fn entry(id: &str, title: &str) -> Entry {
    Entry::new(
        id.to_string(),
        title.to_string(),
        EntryType::Package,
        "homebrew".to_string(),
        format!("brew install {title}"),
        SystemInfo {
            os: "macos".to_string(),
            arch: "arm64".to_string(),
        },
        "2024-05-01T10:20:30+00:00".to_string(),
        EntryStatus::Active,
        vec![Tag::new("cli".to_string()).unwrap()],
        Rationale::new(format!("{title} is useful")).unwrap(),
        None,
    )
    .unwrap()
}

#[test]
fn paths_follow_the_documented_layout() {
    let vault = FsVault::new("/home/u/.setupvault".to_string());
    assert_eq!(vault.path(), "/home/u/.setupvault");
    assert_eq!(vault.entries_root(), "/home/u/.setupvault/entries");
    assert_eq!(vault.state_root(), "/home/u/.setupvault/.state");
    assert_eq!(vault.inbox_path(), "/home/u/.setupvault/.state/inbox.yaml");
    assert_eq!(vault.snoozed_path(), "/home/u/.setupvault/.state/snoozed.yaml");
    assert_eq!(
        vault.detector_snapshot_path("homebrew"),
        "/home/u/.setupvault/.state/detectors/homebrew.yaml"
    );
    let e = entry("ab-12", "My Tool");
    assert_eq!(
        vault.entry_path(&e),
        "/home/u/.setupvault/entries/packages/homebrew/homebrew-my-tool-ab-12.md"
    );
}

#[test]
fn slugs_lowercase_and_collapse_punctuation() {
    assert_eq!(slugify("My Tool 2.0"), "my-tool-2-0");
    assert_eq!(slugify("--Hello--"), "hello");
    assert_eq!(slugify("***"), "");
}

#[test]
fn lookup_finds_only_recorded_identifiers() {
    let files = vec![
        render_entry_markdown(&entry("id-a", "jq")),
        render_entry_markdown(&entry("id-b", "fd")),
    ];
    assert_eq!(find_entry_index(&files, &"id-b".to_string()), Some(1));
    assert_eq!(find_entry_index(&files, &"id-zz".to_string()), None);

    let got = get_entry(&files, &"id-a".to_string()).unwrap();
    assert_eq!(got.unwrap().title, "jq");
    let missing = get_entry(&files, &"id-zz".to_string()).unwrap();
    assert!(missing.is_none());
}

#[test]
fn lookup_after_deletion_finds_nothing() {
    let mut files = vec![
        render_entry_markdown(&entry("id-a", "jq")),
        render_entry_markdown(&entry("id-b", "fd")),
    ];
    files.remove(0);
    assert_eq!(find_entry_index(&files, &"id-a".to_string()), None);
    assert!(get_entry(&files, &"id-a".to_string()).unwrap().is_none());
}

#[test]
fn listing_parses_every_file_and_fails_fast() {
    let files = vec![
        render_entry_markdown(&entry("id-a", "jq")),
        render_entry_markdown(&entry("id-b", "fd")),
    ];
    let entries = list_entries(&files).unwrap();
    assert_eq!(entries.len(), 2);
    assert_eq!(entries[1].title, "fd");

    let mut with_corrupt = files;
    with_corrupt.push("not a document".to_string());
    match list_entries(&with_corrupt) {
        Err(CoreError::Storage(m)) => assert_eq!(m, "missing frontmatter header"),
        other => panic!("expected the corrupt file to abort the listing, got {other:?}"),
    }
}

#[test]
fn restoring_an_entry_mints_a_fresh_identifier() {
    let e = entry("id-a", "jq");
    let c = restore_change(&e);
    assert_ne!(c.id, e.id);
    assert_eq!(c.id.len(), 36);
    assert_eq!(c.title, "jq");
    assert_eq!(c.cmd, "brew install jq");
    assert!(c.path.is_none());
}

#[test]
fn secret_signals_are_found_case_insensitively() {
    assert!(contains_potential_secret("AWS_SECRET_ACCESS_KEY=abc"));
    assert!(contains_potential_secret("Bearer abcdef"));
    assert!(!contains_potential_secret("nothing to see here"));
}

#[test]
fn search_matches_title_tags_and_rationale() {
    let entries = vec![entry("id-a", "jq"), entry("id-b", "ripgrep")];
    assert!(entry_matches_query(&entries[0], "JQ"));
    assert!(entry_matches_query(&entries[0], "CLI"));
    assert!(entry_matches_query(&entries[1], "useful"));
    assert!(!entry_matches_query(&entries[0], "zsh"));

    let hits = search_entries(&entries, "rip");
    assert_eq!(hits.len(), 1);
    assert_eq!(hits[0].title, "ripgrep");
}
