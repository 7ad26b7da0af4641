use scaff::pattern::{CodePattern, FilePattern};
use scaff::scanner::SourceFile;
use scaff::syntax::SyntaxTree;
use scaff::validator::{ArchitectureValidator, ValidationIssue, ValidationResult};

fn create_test_file_pattern(path: &str) -> FilePattern {
    FilePattern {
        path: path.to_string(),
        extension: "rs".to_string(),
        classes: vec!["TestClass".to_string()],
        functions: vec!["test_function".to_string()],
        structs: vec!["TestStruct".to_string()],
        implementations: vec!["TestImpl".to_string()],
    }
}

fn create_test_scaff_pattern() -> CodePattern {
    CodePattern {
        name: "test_scaff".to_string(),
        description: "Test scaff pattern".to_string(),
        language: "Rust".to_string(),
        files: vec![
            create_test_file_pattern("src/main.rs"),
            create_test_file_pattern("src/lib.rs"),
        ],
        created_at: "2024-01-01T00:00:00Z".to_string(),
    }
}

fn empty_result(name: &str) -> ValidationResult {
    ValidationResult {
        scaff_name: name.to_string(),
        is_valid: true,
        missing_files: vec![],
        extra_files: vec![],
        missing_items: vec![],
        extra_items: vec![],
        suggestions: vec![],
    }
}

fn names(v: &[&str]) -> Vec<String> {
    v.iter().map(|s| s.to_string()).collect()
}

fn rust_source(path: &str, fn_name: &str) -> SourceFile {
    let mut tree = SyntaxTree::new("source_file".to_string(), String::new());
    let f = tree.push_child(0, "function_item".to_string(), None, String::new());
    tree.push_child(f, "identifier".to_string(), Some("name".to_string()), fn_name.to_string());
    SourceFile { path: path.to_string(), extension: "rs".to_string(), tree: Some(tree) }
}

#[test]
fn test_architecture_validator_new() {
    let _validator = ArchitectureValidator::new();
    assert!(true);
}

#[test]
fn test_validation_result_creation() {
    let result = empty_result("test");
    assert_eq!(result.scaff_name, "test");
    assert!(result.is_valid);
    assert!(result.missing_files.is_empty());
}

#[test]
fn test_validation_issue_creation() {
    let issue = ValidationIssue {
        file_path: "src/main.rs".to_string(),
        item_type: "function".to_string(),
        item_name: "test_function".to_string(),
    };
    assert_eq!(issue.file_path, "src/main.rs");
    assert_eq!(issue.item_type, "function");
    assert_eq!(issue.item_name, "test_function");
}

#[test]
fn test_compare_structures_perfect_match() {
    let validator = ArchitectureValidator::new();
    let scaff = create_test_scaff_pattern();
    let current_files = scaff.files.clone();
    let result = validator.compare_structures(&scaff, &current_files);
    assert!(result.is_valid);
    assert!(result.missing_files.is_empty());
    assert!(result.missing_items.is_empty());
    assert_eq!(result.scaff_name, "test_scaff");
}

#[test]
fn test_compare_structures_missing_files() {
    let validator = ArchitectureValidator::new();
    let scaff = create_test_scaff_pattern();
    let current_files = vec![scaff.files[0].clone()];
    let result = validator.compare_structures(&scaff, &current_files);
    assert!(!result.is_valid);
    assert_eq!(result.missing_files.len(), 1);
    assert!(result.missing_files.contains(&"src/lib.rs".to_string()));
    assert!(!result.suggestions.is_empty());
}

#[test]
fn test_compare_structures_extra_files() {
    let validator = ArchitectureValidator::new();
    let scaff = create_test_scaff_pattern();
    let mut current_files = scaff.files.clone();
    current_files.push(create_test_file_pattern("src/extra.rs"));
    let result = validator.compare_structures(&scaff, &current_files);
    assert!(result.is_valid);
    assert_eq!(result.extra_files.len(), 1);
    assert!(result.extra_files.contains(&"src/extra.rs".to_string()));
}

#[test]
fn test_compare_structures_missing_items() {
    let validator = ArchitectureValidator::new();
    let scaff = create_test_scaff_pattern();
    let mut current_files = scaff.files.clone();
    current_files[0].functions.clear();
    let result = validator.compare_structures(&scaff, &current_files);
    assert!(!result.is_valid);
    assert_eq!(result.missing_items.len(), 1);
    assert_eq!(result.missing_items[0].item_type, "function");
    assert_eq!(result.missing_items[0].item_name, "test_function");
    assert_eq!(result.missing_items[0].file_path, "src/main.rs");
}

#[test]
fn test_compare_structures_extra_items() {
    let validator = ArchitectureValidator::new();
    let scaff = create_test_scaff_pattern();
    let mut current_files = scaff.files.clone();
    current_files[0].functions.push("extra_function".to_string());
    let result = validator.compare_structures(&scaff, &current_files);
    assert!(result.is_valid);
    assert_eq!(result.extra_items.len(), 1);
    assert_eq!(result.extra_items[0].item_type, "function");
    assert_eq!(result.extra_items[0].item_name, "extra_function");
    assert_eq!(result.extra_items[0].file_path, "src/main.rs");
}

#[test]
fn test_compare_items() {
    let validator = ArchitectureValidator::new();
    let mut result = empty_result("test");
    let scaff_items = vec!["item1".to_string(), "item2".to_string()];
    let current_items = vec!["item1".to_string(), "item3".to_string()];
    validator.compare_items(&mut result, "test.rs", "function", &scaff_items, &current_items);
    assert_eq!(result.missing_items.len(), 1);
    assert_eq!(result.missing_items[0].item_name, "item2");
    assert_eq!(result.extra_items.len(), 1);
    assert_eq!(result.extra_items[0].item_name, "item3");
}

#[test]
fn test_scan_current_codebase_with_temp_files() {
    let validator = ArchitectureValidator::new();
    let files = vec![rust_source("./src/main.rs", "main")];
    let result = validator.scan_current_codebase("Rust", &files);
    match result {
        Ok(files) => {
            assert!(files.iter().all(|f| f.extension == "rs" || f.extension.is_empty()));
        }
        Err(_) => {
            assert!(true);
        }
    }
}

#[test]
fn test_scan_current_codebase_unsupported_language() {
    let validator = ArchitectureValidator::new();
    let result = validator.scan_current_codebase("UnsupportedLanguage", &[]);
    assert!(result.is_err());
    assert!(result.unwrap_err().message().contains("Unsupported language"));
}

#[test]
fn test_scan_current_codebase_javascript() {
    let validator = ArchitectureValidator::new();
    let files = vec![rust_source("./src/main.rs", "main")];
    let result = validator.scan_current_codebase("JavaScript", &files);
    match result {
        Ok(files) => {
            assert!(files.iter().all(|f| f.extension == "js" || f.extension.is_empty()));
        }
        Err(_) => {
            assert!(true);
        }
    }
}

#[test]
fn test_validate_against_scaff_nonexistent() {
    let validator = ArchitectureValidator::new();
    let result = validator.validate_against_scaff("nonexistent_scaff", &[], &[]);
    assert!(result.is_err());
    assert!(result.unwrap_err().message().contains("not found"));
}

#[test]
fn compare_reports_the_removed_callable() {
    let validator = ArchitectureValidator::new();
    let mut snap_file = create_test_file_pattern("src/a");
    snap_file.classes.clear();
    snap_file.structs.clear();
    snap_file.implementations.clear();
    snap_file.functions = names(&["f", "g"]);
    let mut cur_file = snap_file.clone();
    cur_file.functions = names(&["f"]);
    let snap = CodePattern {
        name: "api".to_string(),
        description: String::new(),
        language: "Rust".to_string(),
        files: vec![snap_file],
        created_at: String::new(),
    };
    let result = validator.compare_structures(&snap, &[cur_file]);
    assert_eq!(result.missing_items.len(), 1);
    assert_eq!(result.missing_items[0].file_path, "src/a");
    assert_eq!(result.missing_items[0].item_type, "function");
    assert_eq!(result.missing_items[0].item_name, "g");
    assert!(!result.is_valid);
    assert!(!result.suggestions.is_empty());
    assert_eq!(
        result.suggestions,
        vec!["Review missing items and implement them according to your scaff pattern".to_string()]
    );
}

#[test]
fn compare_with_own_files_is_valid() {
    let validator = ArchitectureValidator::new();
    let mut scaff = create_test_scaff_pattern();
    scaff.files[0].functions = names(&["a", "b", "a"]);
    let result = validator.compare_structures(&scaff, &scaff.files.clone());
    assert!(result.is_valid);
    assert!(result.missing_files.is_empty());
    assert!(result.missing_items.is_empty());
    assert!(result.extra_files.is_empty());
    assert!(result.extra_items.is_empty());
    assert!(result.suggestions.is_empty());
}

#[test]
fn removing_a_struct_name_reports_one_missing_item() {
    let validator = ArchitectureValidator::new();
    let scaff = create_test_scaff_pattern();
    let mut current = scaff.files.clone();
    current[1].structs.retain(|s| s != "TestStruct");
    let result = validator.compare_structures(&scaff, &current);
    assert!(!result.is_valid);
    assert_eq!(result.missing_items.len(), 1);
    assert_eq!(result.missing_items[0].file_path, "src/lib.rs");
    assert_eq!(result.missing_items[0].item_type, "struct");
    assert_eq!(result.missing_items[0].item_name, "TestStruct");
    assert!(result.missing_files.is_empty());
}

#[test]
fn extra_file_keeps_validity_and_is_listed() {
    let validator = ArchitectureValidator::new();
    let scaff = create_test_scaff_pattern();
    let current = vec![scaff.files[0].clone()];
    let before = validator.compare_structures(&scaff, &current);
    let mut grown = current.clone();
    grown.push(create_test_file_pattern("src/new.rs"));
    let after = validator.compare_structures(&scaff, &grown);
    assert_eq!(before.is_valid, after.is_valid);
    assert!(!after.is_valid);
    assert!(after.extra_files.contains(&"src/new.rs".to_string()));
}

#[test]
fn missing_file_suggestions_are_exact() {
    let validator = ArchitectureValidator::new();
    let scaff = create_test_scaff_pattern();
    let current = vec![create_test_file_pattern("src/x.rs"), create_test_file_pattern("src/y.rs")];
    let result = validator.compare_structures(&scaff, &current);
    assert_eq!(result.missing_files, names(&["src/main.rs", "src/lib.rs"]));
    assert_eq!(result.extra_files, names(&["src/x.rs", "src/y.rs"]));
    assert_eq!(
        result.suggestions,
        names(&[
            "Create missing file: src/main.rs (should contain 4 items)",
            "Create missing file: src/lib.rs (should contain 4 items)",
            "Consider running 'scaff generate test_scaff' to create missing files",
        ])
    );
    let current = vec![
        create_test_file_pattern("src/main.rs"),
        create_test_file_pattern("src/x.rs"),
        create_test_file_pattern("src/y.rs"),
    ];
    let result = validator.compare_structures(&scaff, &current);
    assert_eq!(
        result.suggestions,
        names(&[
            "Create missing file: src/lib.rs (should contain 4 items)",
            "Consider running 'scaff generate test_scaff' to create missing files",
            "Consider updating your scaff pattern to include the new files in your architecture",
        ])
    );
}

#[test]
fn duplicate_names_are_compared_as_sets() {
    let validator = ArchitectureValidator::new();
    let mut result = empty_result("t");
    let scaff_items = names(&["a", "b", "b", "c"]);
    let current_items = names(&["c", "c", "d", "d"]);
    validator.compare_items(&mut result, "f.rs", "class", &scaff_items, &current_items);
    let missing: Vec<&str> = result.missing_items.iter().map(|i| i.item_name.as_str()).collect();
    let extra: Vec<&str> = result.extra_items.iter().map(|i| i.item_name.as_str()).collect();
    assert_eq!(missing, vec!["a", "b"]);
    assert_eq!(extra, vec!["d"]);
    assert!(!result.is_valid);
    assert_eq!(result.missing_items[0].item_type, "class");
}

#[test]
fn validate_runs_the_whole_pipeline() {
    let validator = ArchitectureValidator::new();
    let mut file = create_test_file_pattern("./src/main.rs");
    file.classes.clear();
    file.structs.clear();
    file.implementations.clear();
    file.functions = names(&["main", "helper"]);
    let snap = CodePattern {
        name: "app".to_string(),
        description: String::new(),
        language: "Rust".to_string(),
        files: vec![file],
        created_at: String::new(),
    };
    let files = vec![rust_source("./src/main.rs", "main")];
    let result = validator.validate_against_scaff("app", &[snap.clone()], &files).unwrap();
    assert!(!result.is_valid);
    assert_eq!(result.missing_items.len(), 1);
    assert_eq!(result.missing_items[0].item_name, "helper");

    let mut odd = snap.clone();
    odd.language = "Cobol".to_string();
    let err = validator.validate_against_scaff("app", &[odd], &files).unwrap_err();
    assert_eq!(err.message(), "Unsupported language: Cobol");
}
