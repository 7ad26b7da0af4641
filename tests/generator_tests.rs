use scaff::generator::{pascal_case, plan_generation, snake_case, GenerationTarget};
use scaff::pattern::{CodePattern, FilePattern};

fn file(path: &str, ext: &str) -> FilePattern {
    FilePattern {
        path: path.to_string(),
        extension: ext.to_string(),
        classes: vec![],
        functions: vec![],
        structs: vec![],
        implementations: vec![],
    }
}

fn pattern(name: &str, language: &str) -> CodePattern {
    CodePattern {
        name: name.to_string(),
        description: String::new(),
        language: language.to_string(),
        files: vec![file("src/main.rs", "rs"), file("src/index.js", "js"), file("src/app.tsx", "tsx")],
        created_at: String::new(),
    }
}

#[test]
fn test_pascal_case_helper() {
    assert_eq!(pascal_case("hello_world"), "HelloWorld");
}

#[test]
fn test_snake_case_helper() {
    assert_eq!(snake_case("HelloWorld"), "hello_world");
}

#[test]
fn case_helpers_on_edges() {
    assert_eq!(pascal_case(""), "");
    assert_eq!(pascal_case("__a__b"), "AB");
    assert_eq!(pascal_case("ärger_x"), "ÄrgerX");
    assert_eq!(snake_case("ABc"), "a_bc");
    assert_eq!(snake_case("already_snake"), "already_snake");
}

#[test]
fn rust_plan_selects_rust_files() {
    let plan = plan_generation(&pattern("My Project", "Rust")).unwrap();
    assert_eq!(plan.target, GenerationTarget::Rust);
    assert_eq!(plan.files, vec![0]);
    assert_eq!(plan.manifest, "Cargo.toml");
    assert_eq!(plan.project_name, "my_project");
}

#[test]
fn script_plan_selects_script_files() {
    let plan = plan_generation(&pattern("My Project", "JavaScript/TypeScript")).unwrap();
    assert_eq!(plan.target, GenerationTarget::JavaScript);
    assert_eq!(plan.files, vec![1, 2]);
    assert_eq!(plan.manifest, "package.json");
    assert_eq!(plan.project_name, "my-project");
}

#[test]
fn unsupported_generation_language_is_named() {
    let err = plan_generation(&pattern("p", "UnsupportedLanguage")).err().unwrap();
    assert_eq!(err.message(), "Unsupported language: UnsupportedLanguage");
}
