use setupvault::codec::parse_entry;
use setupvault::codec::render_entry_markdown;
use setupvault::domain::CoreError;
use setupvault::domain::DetectedChange;
use setupvault::domain::Entry;
use setupvault::domain::EntryStatus;
use setupvault::domain::EntryType;
use setupvault::domain::Rationale;
use setupvault::domain::SystemInfo;
use setupvault::domain::Tag;
use setupvault::state::parse_state;
use setupvault::state::render_state;
use setupvault::vault::parse_config;
use setupvault::vault::render_config;

fn sample_entry() -> Entry {
    Entry::new(
        "3f2a-11".to_string(),
        "jq".to_string(),
        EntryType::Package,
        "homebrew".to_string(),
        "brew install jq".to_string(),
        SystemInfo {
            os: "macos".to_string(),
            arch: "arm64".to_string(),
        },
        "2024-05-01T10:20:30+00:00".to_string(),
        EntryStatus::Active,
        vec![Tag::new("cli".to_string()).unwrap(), Tag::new("json".to_string()).unwrap()],
        Rationale::new("json parsing on the command line".to_string()).unwrap(),
        Some("jq --version".to_string()),
    )
    .unwrap()
}

#[test]
fn render_then_parse_returns_the_entry() {
    let entry = sample_entry();
    let text = render_entry_markdown(&entry);
    let parsed = parse_entry(&text).expect("rendered entry parses");
    assert_eq!(parsed, entry);
}

#[test]
fn render_then_parse_keeps_multiline_rationale_and_no_verification() {
    let entry = Entry::new(
        "id-9".to_string(),
        "vim".to_string(),
        EntryType::Application,
        "manual".to_string(),
        "apt install vim".to_string(),
        SystemInfo {
            os: "linux".to_string(),
            arch: "x86_64".to_string(),
        },
        "2024-02-02T00:00:00+00:00".to_string(),
        EntryStatus::Snoozed,
        Vec::new(),
        Rationale::new("editing\nwith plugins\nand more".to_string()).unwrap(),
        None,
    )
    .unwrap();
    let text = render_entry_markdown(&entry);
    let parsed = parse_entry(&text).expect("rendered entry parses");
    assert_eq!(parsed, entry);
}

#[test]
fn rendered_document_has_the_documented_layout() {
    let entry = sample_entry();
    let text = render_entry_markdown(&entry);
    let expected = "---\n\
                    id: 3f2a-11\n\
                    title: jq\n\
                    type: package\n\
                    source: homebrew\n\
                    cmd: brew install jq\n\
                    system: {os: macos, arch: arm64}\n\
                    detected_at: 2024-05-01T10:20:30+00:00\n\
                    status: active\n\
                    tags: [cli, json]\n\
                    ---\n\
                    \n\
                    # Rationale\n\
                    json parsing on the command line\n\
                    \n\
                    # Verification\n\
                    jq --version\n";
    assert_eq!(text, expected);
}

#[test]
fn parse_rejects_missing_header() {
    match parse_entry("id: x\n") {
        Err(CoreError::Storage(m)) => assert_eq!(m, "missing frontmatter header"),
        other => panic!("expected a storage error, got {other:?}"),
    }
}

#[test]
fn parse_rejects_unterminated_frontmatter() {
    match parse_entry("---\nid: x\ntitle: y\n") {
        Err(CoreError::Storage(m)) => assert_eq!(m, "unterminated frontmatter"),
        other => panic!("expected a storage error, got {other:?}"),
    }
}

#[test]
fn parse_rejects_corrupt_frontmatter() {
    match parse_entry("---\nid: x\n---\n\n# Rationale\nwhy\n") {
        Err(CoreError::Storage(m)) => assert_eq!(m, "corrupt frontmatter"),
        other => panic!("expected a storage error, got {other:?}"),
    }
}

#[test]
fn parse_rejects_missing_rationale_section() {
    let entry = sample_entry();
    let text = render_entry_markdown(&entry);
    let gutted = text.replace("# Rationale", "# Reasoning");
    match parse_entry(&gutted) {
        Err(CoreError::Storage(m)) => assert_eq!(m, "missing rationale section"),
        other => panic!("expected a storage error, got {other:?}"),
    }
}

#[test]
fn parse_rejects_blank_rationale() {
    let entry = sample_entry();
    let text = render_entry_markdown(&entry);
    let gutted = text.replace("json parsing on the command line", "   ");
    match parse_entry(&gutted) {
        Err(CoreError::Validation(m)) => assert_eq!(m, "rationale cannot be empty"),
        other => panic!("expected a validation error, got {other:?}"),
    }
}

#[test]
fn parse_rejects_a_blank_tag() {
    let entry = sample_entry();
    let text = render_entry_markdown(&entry);
    let gutted = text.replace("tags: [cli, json]", "tags: [cli,  ]");
    match parse_entry(&gutted) {
        Err(CoreError::Validation(m)) => assert_eq!(m, "tag cannot be empty"),
        other => panic!("expected a validation error, got {other:?}"),
    }
}

#[test]
fn empty_verification_text_reads_back_as_absent() {
    let mut entry = sample_entry();
    entry.verification = Some(String::new());
    let text = render_entry_markdown(&entry);
    let parsed = parse_entry(&text).expect("rendered entry parses");
    assert_eq!(parsed.verification, None);
}

fn sample_change(id: &str, title: &str, path: Option<&str>) -> DetectedChange {
    DetectedChange {
        id: id.to_string(),
        path: path.map(|p| p.to_string()),
        title: title.to_string(),
        entry_type: EntryType::Config,
        source: "dotfiles".to_string(),
        cmd: format!("open {title}"),
        system: SystemInfo {
            os: "macos".to_string(),
            arch: "arm64".to_string(),
        },
        detected_at: "2024-03-03T00:00:00+00:00".to_string(),
        tags: vec![Tag::new("config".to_string()).unwrap()],
    }
}

#[test]
fn state_file_round_trips_a_list() {
    let list = vec![
        sample_change("a-1", ".zshrc", Some("/home/u/.zshrc")),
        sample_change("b-2", ".vimrc", None),
    ];
    let text = render_state(&list);
    let parsed = parse_state(&text).expect("rendered state parses");
    assert_eq!(parsed, list);
}

#[test]
fn empty_state_file_is_an_empty_list() {
    let empty: Vec<DetectedChange> = Vec::new();
    let text = render_state(&empty);
    assert_eq!(text, "");
    let parsed = parse_state(&text).expect("empty state parses");
    assert!(parsed.is_empty());
}

#[test]
fn corrupt_state_file_is_rejected() {
    match parse_state("- id: x\nnot a record\n") {
        Err(CoreError::Storage(m)) => assert_eq!(m, "corrupt state file"),
        other => panic!("expected a storage error, got {other:?}"),
    }
}

#[test]
fn config_pointer_round_trips() {
    let p = Some("/home/u/.setupvault".to_string());
    let text = render_config(&p);
    assert_eq!(text, "path: /home/u/.setupvault\n");
    assert_eq!(parse_config(&text).unwrap(), p);

    let none: Option<String> = None;
    let text = render_config(&none);
    assert_eq!(text, "path: null\n");
    assert_eq!(parse_config(&text).unwrap(), None);
}
