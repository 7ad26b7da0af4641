use scaff::pattern::FilePattern;
use scaff::scanner::extract_file_pattern;
use scaff::syntax::SyntaxTree;
use tree_sitter::{Language, Node, Parser};

fn grammar(language: &str) -> Language {
    match language {
        "rust" => tree_sitter_rust::LANGUAGE.into(),
        "javascript" => tree_sitter_javascript::LANGUAGE.into(),
        "typescript" => tree_sitter_typescript::LANGUAGE_TYPESCRIPT.into(),
        "python" => tree_sitter_python::LANGUAGE.into(),
        "java" => tree_sitter_java::LANGUAGE.into(),
        "go" => tree_sitter_go::LANGUAGE.into(),
        "json" => tree_sitter_json::LANGUAGE.into(),
        "html" => tree_sitter_html::LANGUAGE.into(),
        "css" => tree_sitter_css::LANGUAGE.into(),
        other => panic!("no grammar for {}", other),
    }
}

fn text(node: Node, source: &str) -> String {
    node.utf8_text(source.as_bytes()).unwrap_or("").to_string()
}

fn add_children(out: &mut SyntaxTree, parent: usize, node: Node, source: &str) {
    let mut cursor = node.walk();
    if !cursor.goto_first_child() {
        return;
    }
    loop {
        let child = cursor.node();
        let field = cursor.field_name().map(|f| f.to_string());
        let index = out.push_child(parent, child.kind().to_string(), field, text(child, source));
        add_children(out, index, child, source);
        if !cursor.goto_next_sibling() {
            return;
        }
    }
}

fn scan(language: &str, path: &str, ext: &str, source: &str) -> FilePattern {
    let mut parser = Parser::new();
    parser.set_language(&grammar(language)).unwrap();
    let tree = parser.parse(source, None).unwrap();
    let root = tree.root_node();
    let mut out = SyntaxTree::new(root.kind().to_string(), text(root, source));
    add_children(&mut out, 0, root, source);
    assert!(out.is_well_formed());
    extract_file_pattern(&out, path, ext, language)
}

#[test]
fn test_scan_rust_files() {
    let src = r#"
struct TestStruct {
    field: String,
}

impl TestStruct {
    fn new() -> Self {
        TestStruct {
            field: String::new(),
        }
    }
}

fn main() {
    println!("Hello, world!");
}
"#;
    let fp = scan("rust", "./test.rs", "rs", src);
    assert!(fp.path.ends_with("test.rs"));
    assert_eq!(fp.extension, "rs");
    assert_eq!(fp.structs, vec!["TestStruct"]);
    assert_eq!(fp.implementations, vec!["TestStruct"]);
    assert_eq!(fp.functions, vec!["new", "main"]);
}

#[test]
fn test_scan_javascript_files() {
    let src = r#"
class TestClass {
    constructor(name) {
        this.name = name;
    }

    getName() {
        return this.name;
    }
}

function testFunction() {
    return "test";
}
"#;
    let fp = scan("javascript", "./test.js", "js", src);
    assert_eq!(fp.extension, "js");
    assert_eq!(fp.classes, vec!["TestClass"]);
    assert_eq!(fp.functions, vec!["constructor", "getName", "testFunction"]);
}

#[test]
fn test_scan_python_files() {
    let src = "class TestClass:\n    def __init__(self, name):\n        self.name = name\n\n    def get_name(self):\n        return self.name\n\ndef test_function():\n    return \"test\"\n";
    let fp = scan("python", "./test.py", "py", src);
    assert_eq!(fp.classes, vec!["TestClass"]);
    assert_eq!(fp.functions, vec!["__init__", "get_name", "test_function"]);
}

#[test]
fn test_scan_html_files() {
    let src = "<!DOCTYPE html>\n<html>\n<body>\n<div class=\"c\"><p>a</p><p>b</p><p>c</p></div>\n</body>\n</html>\n";
    let fp = scan("html", "./test.html", "html", src);
    assert_eq!(fp.classes, vec!["html", "body", "div", "p"]);
}

#[test]
fn test_scan_json_files() {
    let src = r#"{"name": "test-project", "dependencies": {"express": "^4.18.0", "name": "x"}}"#;
    let fp = scan("json", "./test.json", "json", src);
    assert_eq!(fp.structs, vec!["\"name\"", "\"dependencies\"", "\"express\""]);
}

#[test]
fn go_grouped_types_from_source() {
    let src = "package main\n\ntype (\n\tX struct{}\n\tY int\n)\n\nfunc (x X) Run() {}\n\nfunc main() {}\n";
    let fp = scan("go", "main.go", "go", src);
    assert_eq!(fp.structs, vec!["X", "Y"]);
    assert_eq!(fp.functions, vec!["Run", "main"]);
}

#[test]
fn css_selectors_from_source() {
    let src = ".card, #main { color: red; }\n.card { margin: 0; }\n";
    let fp = scan("css", "a.css", "css", src);
    assert_eq!(fp.classes, vec![".card", "#main"]);
}

#[test]
fn script_and_style_tags_from_source() {
    let src = "<html><head><style>p {}</style><script>let a = 1;</script></head></html>\n";
    let fp = scan("html", "index.html", "html", src);
    assert_eq!(fp.classes, vec!["html", "head", "style", "script"]);
}

#[test]
fn java_and_typescript_interfaces_from_source() {
    let java = "interface Shape { double area(); }\nclass Circle implements Shape { public double area() { return 1.0; } }\n";
    let fp = scan("java", "Shape.java", "java", java);
    assert_eq!(fp.classes, vec!["interface Shape", "Circle"]);
    assert_eq!(fp.functions, vec!["area", "area"]);
    let ts = "interface Named { name: string }\nclass Person { greet(): void {} }\nfunction run(): void {}\n";
    let fp = scan("typescript", "a.ts", "ts", ts);
    assert_eq!(fp.classes, vec!["interface Named", "Person"]);
    assert_eq!(fp.functions, vec!["greet", "run"]);
}
