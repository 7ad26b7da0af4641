use scaff::error::ScaffError;
use scaff::pattern::{
    create_pattern_from_scan, is_snapshot_file, resolve_scaff_name, snapshot_file_name, storage_key,
    CodePattern, FilePattern, ScaffConfig, ScaffDirectory,
};
use scaff::text::decimal_string;

fn create_test_file_pattern() -> FilePattern {
    FilePattern {
        path: "src/main.rs".to_string(),
        extension: "rs".to_string(),
        classes: vec!["TestClass".to_string()],
        functions: vec!["test_function".to_string()],
        structs: vec!["TestStruct".to_string()],
        implementations: vec!["TestImpl".to_string()],
    }
}

fn create_test_pattern() -> CodePattern {
    CodePattern {
        name: "test_pattern".to_string(),
        description: "A test pattern".to_string(),
        language: "Rust".to_string(),
        files: vec![create_test_file_pattern()],
        created_at: "2024-01-01T00:00:00Z".to_string(),
    }
}

fn named_pattern(name: &str) -> CodePattern {
    let mut p = create_test_pattern();
    p.name = name.to_string();
    p
}

#[test]
fn test_file_pattern_creation() {
    let file_pattern = create_test_file_pattern();
    assert_eq!(file_pattern.path, "src/main.rs");
    assert_eq!(file_pattern.extension, "rs");
    assert_eq!(file_pattern.classes.len(), 1);
    assert_eq!(file_pattern.functions.len(), 1);
    assert_eq!(file_pattern.structs.len(), 1);
    assert_eq!(file_pattern.implementations.len(), 1);
}

#[test]
fn test_code_pattern_creation() {
    let pattern = create_test_pattern();
    assert_eq!(pattern.name, "test_pattern");
    assert_eq!(pattern.language, "Rust");
    assert_eq!(pattern.files.len(), 1);
}

#[test]
fn test_create_pattern_from_scan() {
    let files = vec![create_test_file_pattern()];
    let pattern = create_pattern_from_scan(
        files,
        "test_scan".to_string(),
        "Rust".to_string(),
        "2024-01-01T00:00:00Z".to_string(),
    );
    assert_eq!(pattern.name, "test_scan");
    assert_eq!(pattern.language, "Rust");
    assert_eq!(pattern.files.len(), 1);
    assert!(pattern.description.contains("1 files"));
    assert!(pattern.description.contains("4 total items"));
    assert_eq!(pattern.description, "Pattern with 1 files containing 4 total items");
    assert_eq!(pattern.created_at, "2024-01-01T00:00:00Z");
}

#[test]
fn pattern_at_a_given_time_is_described_exactly() {
    let files = vec![create_test_file_pattern(), create_test_file_pattern()];
    let pattern = create_pattern_from_scan(
        files,
        "p".to_string(),
        "Rust".to_string(),
        "2024-01-01T00:00:00Z".to_string(),
    );
    assert_eq!(pattern.description, "Pattern with 2 files containing 8 total items");
    assert_eq!(pattern.created_at, "2024-01-01T00:00:00Z");
    let empty = create_pattern_from_scan(vec![], "e".to_string(), "Go".to_string(), String::new());
    assert_eq!(empty.description, "Pattern with 0 files containing 0 total items");
}

#[test]
fn test_scaff_directory_new() {
    let scaff_dir = ScaffDirectory::new();
    assert!(scaff_dir.patterns.is_empty());
}

#[test]
fn decimal_notation() {
    assert_eq!(decimal_string(0), "0");
    assert_eq!(decimal_string(7), "7");
    assert_eq!(decimal_string(1205), "1205");
    assert_eq!(decimal_string(u128::MAX), u128::MAX.to_string());
}

#[test]
fn storage_keys_are_normalized() {
    assert_eq!(storage_key("My Web App"), "my_web_app");
    assert_eq!(snapshot_file_name("Test Pattern"), "test_pattern.json");
    assert_eq!(storage_key("ÉTÉ"), "été");
    assert!(is_snapshot_file("api.json", "json"));
    assert!(!is_snapshot_file("config.json", "json"));
    assert!(!is_snapshot_file("notes.txt", "txt"));
}

#[test]
fn corrupt_entries_are_skipped() {
    let valid = create_test_pattern();
    let loaded = ScaffDirectory::load_patterns(vec![None, Some(valid.clone())]);
    assert_eq!(loaded.len(), 1);
    assert_eq!(loaded[0].name, "test_pattern");
    assert_eq!(loaded[0].description, valid.description);
    assert!(ScaffDirectory::load_patterns(vec![None]).is_empty());
}

#[test]
fn saving_replaces_the_snapshot_under_the_same_key() {
    let mut dir = ScaffDirectory::new();
    dir.save_pattern(named_pattern("Web App"));
    dir.save_pattern(named_pattern("other"));
    let mut newer = named_pattern("web app");
    newer.description = "newer".to_string();
    dir.save_pattern(newer);
    assert_eq!(dir.patterns.len(), 2);
    assert_eq!(dir.patterns[0].name, "web app");
    assert_eq!(dir.patterns[0].description, "newer");
    let found = ScaffDirectory::find_pattern(&dir.patterns, "other").unwrap();
    assert_eq!(found.name, "other");
    assert!(ScaffDirectory::find_pattern(&dir.patterns, "Web App").is_none());
}

#[test]
fn setting_an_unknown_default_fails_and_keeps_the_old_one() {
    let available = vec![named_pattern("api")];
    let mut config = ScaffConfig::new();
    assert!(config.get_default_scaff().is_none());
    assert!(config.set_default_scaff("api", &available).is_ok());
    assert_eq!(config.get_default_scaff().unwrap(), "api");
    let err = config.set_default_scaff("missing", &available).unwrap_err();
    assert!(matches!(err, ScaffError::NotFound { ref name } if name == "missing"));
    assert_eq!(err.message(), "Scaff 'missing' not found. Use 'scaff list' to see available scaffs.");
    assert_eq!(config.get_default_scaff().unwrap(), "api");
    config.clear_default_scaff();
    assert!(config.get_default_scaff().is_none());
}

#[test]
fn scaff_names_resolve_to_the_default() {
    let mut config = ScaffConfig::new();
    assert_eq!(resolve_scaff_name(Some("x".to_string()), &config).unwrap(), "x");
    assert!(matches!(resolve_scaff_name(None, &config), Err(ScaffError::NoDefault)));
    config.default_scaff = Some("api".to_string());
    assert_eq!(resolve_scaff_name(None, &config).unwrap(), "api");
}

#[test]
fn error_messages_name_their_subject() {
    let io = ScaffError::IoFailure { context: "writing scaffs/a.json: denied".to_string() };
    assert_eq!(io.message(), "I/O failure: writing scaffs/a.json: denied");
    let unsupported = ScaffError::UnsupportedLanguage { language: "Cobol".to_string() };
    assert_eq!(unsupported.message(), "Unsupported language: Cobol");
    assert!(ScaffError::NoDefault.message().starts_with("No scaff specified"));
}

#[test]
fn saved_snapshot_is_read_back_once() {
    let mut dir = ScaffDirectory::new();
    dir.save_pattern(named_pattern("alpha"));
    let s = named_pattern("beta");
    dir.save_pattern(s.clone());
    dir.save_pattern(s.clone());
    let hits = dir.patterns.iter().filter(|p| p.name == s.name && p.description == s.description).count();
    assert_eq!(hits, 1);
    assert_eq!(dir.patterns.len(), 2);
}
