use setupvault::domain::CoreError;
use setupvault::domain::Entry;
use setupvault::domain::EntryStatus;
use setupvault::domain::EntryType;
use setupvault::domain::Rationale;
use setupvault::domain::SystemInfo;
use setupvault::domain::Tag;

fn system() -> SystemInfo {
    SystemInfo {
        os: "macos".to_string(),
        arch: "arm64".to_string(),
    }
}

#[test]
fn rationale_rejects_empty() {
    let result = Rationale::new("   ".to_string());
    assert!(matches!(result, Err(CoreError::Validation(_))));
}

#[test]
fn tag_rejects_empty() {
    let result = Tag::new("".to_string());
    assert!(matches!(result, Err(CoreError::Validation(_))));
}

#[test]
fn entry_requires_non_empty_fields() {
    let rationale = Rationale::new("needed for json parsing".to_string()).unwrap();
    let system = SystemInfo {
        os: "macos".to_string(),
        arch: "arm64".to_string(),
    };

    let entry = Entry::new(
        uuid::Uuid::new_v4().to_string(),
        "jq".to_string(),
        EntryType::Package,
        "homebrew".to_string(),
        "brew install jq".to_string(),
        system,
        chrono::Utc::now().to_rfc3339(),
        EntryStatus::Active,
        Vec::new(),
        rationale,
        None,
    );

    assert!(entry.is_ok());
}

#[test]
fn rationale_preserves_text_unchanged() {
    let text = "  why this exists  ";
    let rationale = Rationale::new(text.to_string()).unwrap();
    assert_eq!(rationale.as_str(), text);
}

#[test]
fn tag_preserves_text_unchanged() {
    let text = " CLI Tools ";
    let tag = Tag::new(text.to_string()).unwrap();
    assert_eq!(tag.as_str(), text);
}

#[test]
fn rationale_error_message_names_the_field() {
    match Rationale::new("\t\n".to_string()) {
        Err(e) => assert_eq!(e.message(), "rationale cannot be empty"),
        Ok(_) => panic!("blank rationale accepted"),
    }
}

#[test]
fn entry_rejects_blank_title_source_and_cmd() {
    let rationale = Rationale::new("keep".to_string()).unwrap();
    let bad_title = Entry::new(
        "id-1".to_string(),
        "  ".to_string(),
        EntryType::Other,
        "manual".to_string(),
        "true".to_string(),
        system(),
        "2024-01-01T00:00:00+00:00".to_string(),
        EntryStatus::Active,
        Vec::new(),
        rationale.clone(),
        None,
    );
    match bad_title {
        Err(CoreError::Validation(m)) => assert_eq!(m, "title cannot be empty"),
        _ => panic!("blank title accepted"),
    }

    let bad_source = Entry::new(
        "id-1".to_string(),
        "jq".to_string(),
        EntryType::Other,
        " ".to_string(),
        "true".to_string(),
        system(),
        "2024-01-01T00:00:00+00:00".to_string(),
        EntryStatus::Active,
        Vec::new(),
        rationale.clone(),
        None,
    );
    match bad_source {
        Err(CoreError::Validation(m)) => assert_eq!(m, "source cannot be empty"),
        _ => panic!("blank source accepted"),
    }

    let bad_cmd = Entry::new(
        "id-1".to_string(),
        "jq".to_string(),
        EntryType::Other,
        "manual".to_string(),
        "".to_string(),
        system(),
        "2024-01-01T00:00:00+00:00".to_string(),
        EntryStatus::Active,
        Vec::new(),
        rationale,
        None,
    );
    match bad_cmd {
        Err(CoreError::Validation(m)) => assert_eq!(m, "cmd cannot be empty"),
        _ => panic!("blank cmd accepted"),
    }
}
