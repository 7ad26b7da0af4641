//! The language registry and the extraction of fingerprints from syntax trees.
use vstd::prelude::*;
use vstd::string::*;

use crate::pattern::{decl_lists, DeclLists, FilePattern};
use crate::syntax::{field_is, first_child, kind_is, tree_wf, SyntaxNode, SyntaxTree};
use crate::text::{contains_name, names_of, same_text, trim, trim_of};

verus! {

/// A supported language: its id, the extensions of its files, its display name.
#[derive(Debug, Clone)]
pub struct LanguageConfig {
    pub name: &'static str,
    pub extensions: Vec<&'static str>,
    pub display_name: &'static str,
}

/// A language as plain text: id, extensions, display name.
pub type LanguageView = (Seq<char>, Seq<Seq<char>>, Seq<char>);

impl View for LanguageConfig {
    type V = LanguageView;

    open spec fn view(&self) -> LanguageView {
        (self.name@, str_views(self.extensions@), self.display_name@)
    }
}

pub open spec fn str_views(v: Seq<&'static str>) -> Seq<Seq<char>> {
    v.map_values(|e: &'static str| e@)
}

pub open spec fn configs_view(v: Seq<LanguageConfig>) -> Seq<LanguageView> {
    v.map_values(|c: LanguageConfig| c@)
}

pub open spec fn language_ids(v: Seq<LanguageView>) -> Seq<Seq<char>> {
    v.map_values(|l: LanguageView| l.0)
}

/// The registry of supported languages, in order.
pub open spec fn language_table() -> Seq<LanguageView> {
    seq![
        ("rust"@, seq!["rs"@], "Rust"@),
        ("javascript"@, seq!["js"@, "jsx"@], "JavaScript"@),
        ("typescript"@, seq!["ts"@, "tsx"@], "TypeScript"@),
        ("python"@, seq!["py"@, "pyi"@], "Python"@),
        ("java"@, seq!["java"@], "Java"@),
        ("go"@, seq!["go"@], "Go"@),
        ("json"@, seq!["json"@], "JSON"@),
        ("html"@, seq!["html"@, "htm"@], "HTML"@),
        ("css"@, seq!["css"@], "CSS"@),
    ]
}

/// The entries of the supported languages.
pub fn supported_languages() -> (r: Vec<LanguageConfig>)
    ensures
        configs_view(r@) == language_table(),
{
    let mut r = Vec::new();
    let e = vec!["rs"];
    assert(str_views(e@) =~= seq!["rs"@]);
    r.push(LanguageConfig { name: "rust", extensions: e, display_name: "Rust" });
    let e = vec!["js", "jsx"];
    assert(str_views(e@) =~= seq!["js"@, "jsx"@]);
    r.push(LanguageConfig { name: "javascript", extensions: e, display_name: "JavaScript" });
    let e = vec!["ts", "tsx"];
    assert(str_views(e@) =~= seq!["ts"@, "tsx"@]);
    r.push(LanguageConfig { name: "typescript", extensions: e, display_name: "TypeScript" });
    let e = vec!["py", "pyi"];
    assert(str_views(e@) =~= seq!["py"@, "pyi"@]);
    r.push(LanguageConfig { name: "python", extensions: e, display_name: "Python" });
    let e = vec!["java"];
    assert(str_views(e@) =~= seq!["java"@]);
    r.push(LanguageConfig { name: "java", extensions: e, display_name: "Java" });
    let e = vec!["go"];
    assert(str_views(e@) =~= seq!["go"@]);
    r.push(LanguageConfig { name: "go", extensions: e, display_name: "Go" });
    let e = vec!["json"];
    assert(str_views(e@) =~= seq!["json"@]);
    r.push(LanguageConfig { name: "json", extensions: e, display_name: "JSON" });
    let e = vec!["html", "htm"];
    assert(str_views(e@) =~= seq!["html"@, "htm"@]);
    r.push(LanguageConfig { name: "html", extensions: e, display_name: "HTML" });
    let e = vec!["css"];
    assert(str_views(e@) =~= seq!["css"@]);
    r.push(LanguageConfig { name: "css", extensions: e, display_name: "CSS" });
    assert(configs_view(r@) =~= language_table());
    r
}

/// The first entry of `table` whose id is `id`.
pub open spec fn find_language(table: Seq<LanguageView>, id: Seq<char>) -> Option<LanguageView>
    decreases table.len(),
{
    if table.len() == 0 {
        None
    } else if table[0].0 == id {
        Some(table[0])
    } else {
        find_language(table.drop_first(), id)
    }
}

/// The registry entry of the language `id`.
pub open spec fn language_entry(id: Seq<char>) -> Option<LanguageView> {
    find_language(language_table(), id)
}

/// Finds the registry entry of a language id.
pub fn find_language_config(language: &str) -> (r: Option<LanguageConfig>)
    ensures
        match r {
            Some(c) => language_entry(language@) == Some(c@),
            None => language_entry(language@) is None,
        },
{
    let mut table = supported_languages();
    let ghost tv = configs_view(table@);
    assert(tv.skip(0) =~= tv);
    let mut i: usize = 0;
    while i < table.len()
        invariant
            i <= table@.len(),
            tv == configs_view(table@),
            tv == language_table(),
            find_language(tv.skip(i as int), language@) == language_entry(language@),
        decreases table@.len() - i,
    {
        assert(tv.skip(i as int)[0] == table@[i as int]@);
        assert(tv.skip(i as int).drop_first() =~= tv.skip(i as int + 1));
        if same_text(table[i].name, language) {
            return Some(table.remove(i));
        }
        i = i + 1;
    }
    None
}

/// The ids of the supported languages, in registry order.
pub fn get_supported_languages() -> (r: Vec<&'static str>)
    ensures
        str_views(r@) == language_ids(language_table()),
{
    let table = supported_languages();
    let ghost tv = configs_view(table@);
    let mut r: Vec<&'static str> = Vec::new();
    let mut i: usize = 0;
    while i < table.len()
        invariant
            i <= table@.len(),
            tv == configs_view(table@),
            tv == language_table(),
            str_views(r@) == language_ids(tv.take(i as int)),
        decreases table@.len() - i,
    {
        let ghost before = r@;
        r.push(table[i].name);
        proof {
            assert(tv[i as int] == table@[i as int]@);
            assert(r@ == before.push(table@[i as int].name));
            assert(str_views(r@) =~= str_views(before).push(table@[i as int].name@));
            assert(tv.take(i as int + 1) =~= tv.take(i as int).push(tv[i as int]));
            assert(str_views(r@) =~= language_ids(tv.take(i as int + 1)));
        }
        i = i + 1;
    }
    assert(tv.take(tv.len() as int) =~= tv);
    r
}

/// The display name of a language id; an unknown id stands for itself.
pub open spec fn display_name_of(id: Seq<char>) -> Seq<char> {
    match language_entry(id) {
        Some(l) => l.2,
        None => id,
    }
}

pub fn get_language_display_name(language: &str) -> (r: String)
    ensures
        r@ == display_name_of(language@),
{
    match find_language_config(language) {
        Some(c) => String::from_str(c.display_name),
        None => String::from_str(language),
    }
}

/// Whether files with extension `ext` belong to the language `id`.
pub open spec fn accepts_extension(id: Seq<char>, ext: Seq<char>) -> bool {
    match language_entry(id) {
        Some(l) => l.1.contains(ext),
        None => false,
    }
}

pub fn language_accepts_extension(language: &str, extension: &str) -> (r: bool)
    ensures
        r == accepts_extension(language@, extension@),
{
    match find_language_config(language) {
        Some(c) => {
            let ghost ev = str_views(c.extensions@);
            let mut j: usize = 0;
            while j < c.extensions.len()
                invariant
                    j <= c.extensions@.len(),
                    ev == str_views(c.extensions@),
                    language_entry(language@) == Some(c@),
                    forall|k: int| 0 <= k < j ==> ev[k] != extension@,
                decreases c.extensions@.len() - j,
            {
                if same_text(c.extensions[j], extension) {
                    assert(ev[j as int] == extension@);
                    assert(c@.1 == ev);
                    assert(c@.1.contains(extension@));

                    return true;
                }
                j = j + 1;
            }
            assert(c@.1 == ev);
            false
        },
        None => false,
    }
}

/// The four structural categories of a declaration.
#[derive(PartialEq, Eq, Structural, Clone, Copy, Debug)]
pub enum Category {
    /// Class-like declarations, recorded in `classes`.
    Composite,
    /// Functions and methods, recorded in `functions`.
    Callable,
    /// Data type definitions, recorded in `structs`.
    TypeDeclaration,
    /// Implementation blocks, recorded in `implementations`.
    ImplementationBlock,
}

/// How a node of a given kind contributes to a fingerprint.
#[derive(PartialEq, Eq, Structural, Clone, Copy, Debug)]
pub enum NodeRule {
    /// The text of its `name` field declares a name of the category.
    Declares(Category),
    /// An interface: its name, tagged `interface `, is a composite declaration.
    Interface,
    /// An implementation block: the text of its `type` field.
    ImplementedType,
    /// A grouped type block: the name of each inner type spec is a type declaration.
    GroupedTypes,
    /// A markup element (script and style elements included): the name of its
    /// opening tag, once per file.
    ElementTag,
    /// A style rule: each trimmed, non-empty selector text, once per file; the
    /// commas between selectors are not recorded.
    Selectors,
    /// An object member: the text of its key, once per file.
    ObjectKey,
}

/// The rule table: which node kinds of which language declare what.
pub open spec fn rule_of(lang: Seq<char>, kind: Seq<char>) -> Option<NodeRule> {
    if lang == "rust"@ {
        if kind == "struct_item"@ {
            Some(NodeRule::Declares(Category::TypeDeclaration))
        } else if kind == "function_item"@ {
            Some(NodeRule::Declares(Category::Callable))
        } else if kind == "impl_item"@ {
            Some(NodeRule::ImplementedType)
        } else {
            None
        }
    } else if lang == "javascript"@ || lang == "typescript"@ {
        if kind == "class_declaration"@ {
            Some(NodeRule::Declares(Category::Composite))
        } else if kind == "function_declaration"@ || kind == "method_definition"@ {
            Some(NodeRule::Declares(Category::Callable))
        } else if kind == "interface_declaration"@ && lang == "typescript"@ {
            Some(NodeRule::Interface)
        } else {
            None
        }
    } else if lang == "python"@ {
        if kind == "class_definition"@ {
            Some(NodeRule::Declares(Category::Composite))
        } else if kind == "function_definition"@ {
            Some(NodeRule::Declares(Category::Callable))
        } else {
            None
        }
    } else if lang == "java"@ {
        if kind == "class_declaration"@ {
            Some(NodeRule::Declares(Category::Composite))
        } else if kind == "method_declaration"@ {
            Some(NodeRule::Declares(Category::Callable))
        } else if kind == "interface_declaration"@ {
            Some(NodeRule::Interface)
        } else {
            None
        }
    } else if lang == "go"@ {
        if kind == "type_declaration"@ {
            Some(NodeRule::GroupedTypes)
        } else if kind == "function_declaration"@ || kind == "method_declaration"@ {
            Some(NodeRule::Declares(Category::Callable))
        } else {
            None
        }
    } else if lang == "html"@ && (kind == "element"@ || kind == "script_element"@ || kind
        == "style_element"@) {
        Some(NodeRule::ElementTag)
    } else if lang == "css"@ && kind == "rule_set"@ {
        Some(NodeRule::Selectors)
    } else if lang == "json"@ && kind == "pair"@ {
        Some(NodeRule::ObjectKey)
    } else {
        None
    }
}

/// Looks a node kind up in the rule table.
pub fn node_rule(language: &str, kind: &str) -> (r: Option<NodeRule>)
    ensures
        r == rule_of(language@, kind@),
{
    if same_text(language, "rust") {
        if same_text(kind, "struct_item") {
            Some(NodeRule::Declares(Category::TypeDeclaration))
        } else if same_text(kind, "function_item") {
            Some(NodeRule::Declares(Category::Callable))
        } else if same_text(kind, "impl_item") {
            Some(NodeRule::ImplementedType)
        } else {
            None
        }
    } else if same_text(language, "javascript") || same_text(language, "typescript") {
        if same_text(kind, "class_declaration") {
            Some(NodeRule::Declares(Category::Composite))
        } else if same_text(kind, "function_declaration") || same_text(kind, "method_definition") {
            Some(NodeRule::Declares(Category::Callable))
        } else if same_text(kind, "interface_declaration") && same_text(language, "typescript") {
            Some(NodeRule::Interface)
        } else {
            None
        }
    } else if same_text(language, "python") {
        if same_text(kind, "class_definition") {
            Some(NodeRule::Declares(Category::Composite))
        } else if same_text(kind, "function_definition") {
            Some(NodeRule::Declares(Category::Callable))
        } else {
            None
        }
    } else if same_text(language, "java") {
        if same_text(kind, "class_declaration") {
            Some(NodeRule::Declares(Category::Composite))
        } else if same_text(kind, "method_declaration") {
            Some(NodeRule::Declares(Category::Callable))
        } else if same_text(kind, "interface_declaration") {
            Some(NodeRule::Interface)
        } else {
            None
        }
    } else if same_text(language, "go") {
        if same_text(kind, "type_declaration") {
            Some(NodeRule::GroupedTypes)
        } else if same_text(kind, "function_declaration") || same_text(kind, "method_declaration") {
            Some(NodeRule::Declares(Category::Callable))
        } else {
            None
        }
    } else if same_text(language, "html") && (same_text(kind, "element") || same_text(
        kind,
        "script_element",
    ) || same_text(kind, "style_element")) {
        Some(NodeRule::ElementTag)
    } else if same_text(language, "css") && same_text(kind, "rule_set") {
        Some(NodeRule::Selectors)
    } else if same_text(language, "json") && same_text(kind, "pair") {
        Some(NodeRule::ObjectKey)
    } else {
        None
    }
}

/// Records `n` in category `c`.
pub open spec fn add_to(acc: DeclLists, c: Category, n: Seq<char>) -> DeclLists {
    match c {
        Category::Composite => (acc.0.push(n), acc.1, acc.2, acc.3),
        Category::Callable => (acc.0, acc.1.push(n), acc.2, acc.3),
        Category::TypeDeclaration => (acc.0, acc.1, acc.2.push(n), acc.3),
        Category::ImplementationBlock => (acc.0, acc.1, acc.2, acc.3.push(n)),
    }
}

/// Records `n` unless the list holds it already.
pub open spec fn add_once(list: Seq<Seq<char>>, n: Seq<char>) -> Seq<Seq<char>> {
    if list.contains(n) {
        list
    } else {
        list.push(n)
    }
}

/// Records each of `ns` in turn, each unless the list holds it already.
pub open spec fn add_all_once(list: Seq<Seq<char>>, ns: Seq<Seq<char>>) -> Seq<Seq<char>>
    decreases ns.len(),
{
    if ns.len() == 0 {
        list
    } else {
        add_once(add_all_once(list, ns.drop_last()), ns.last())
    }
}

/// The names of the type specs among the first `m` children of node `i`.
pub open spec fn type_spec_names(t: Seq<SyntaxNode>, i: int, m: nat) -> Seq<Seq<char>>
    decreases m,
{
    if m == 0 {
        seq![]
    } else {
        let prev = type_spec_names(t, i, (m - 1) as nat);
        let c = t[i].children@[m - 1] as int;
        if t[c].kind@ == "type_spec"@ {
            match first_child(t, c, field_is("name"@)) {
                Some(k) => prev.push(t[k].text@),
                None => prev,
            }
        } else {
            prev
        }
    }
}

/// The trimmed, non-empty texts of the selectors among the first `m` children
/// of node `s`; the commas that separate them are no selectors.
pub open spec fn trimmed_texts(t: Seq<SyntaxNode>, s: int, m: nat) -> Seq<Seq<char>>
    decreases m,
{
    if m == 0 {
        seq![]
    } else {
        let prev = trimmed_texts(t, s, (m - 1) as nat);
        let d = t[s].children@[m - 1] as int;
        let x = trim_of(t[d].text@);
        if t[d].kind@ != ","@ && x.len() > 0 {
            prev.push(x)
        } else {
            prev
        }
    }
}

/// The selector texts under the selector lists among the first `m` children of node `i`.
pub open spec fn selector_texts(t: Seq<SyntaxNode>, i: int, m: nat) -> Seq<Seq<char>>
    decreases m,
{
    if m == 0 {
        seq![]
    } else {
        let prev = selector_texts(t, i, (m - 1) as nat);
        let c = t[i].children@[m - 1] as int;
        if t[c].kind@ == "selectors"@ {
            prev + trimmed_texts(t, c, t[c].children@.len())
        } else {
            prev
        }
    }
}

/// The opening tag of a markup element: its start tag, or its self-closing tag.
pub open spec fn open_tag(t: Seq<SyntaxNode>, i: int) -> Option<int> {
    match first_child(t, i, kind_is("start_tag"@)) {
        Some(s) => Some(s),
        None => first_child(t, i, kind_is("self_closing_tag"@)),
    }
}

/// The tag name node of a markup element: the name of its opening tag.
pub open spec fn element_tag(t: Seq<SyntaxNode>, i: int) -> Option<int> {
    match open_tag(t, i) {
        Some(s) => first_child(t, s, kind_is("tag_name"@)),
        None => None,
    }
}

/// What a node under `rule` adds to the name lists.
pub open spec fn apply_rule(acc: DeclLists, t: Seq<SyntaxNode>, i: int, rule: NodeRule) -> DeclLists {
    match rule {
        NodeRule::Declares(c) => match first_child(t, i, field_is("name"@)) {
            Some(k) => add_to(acc, c, t[k].text@),
            None => acc,
        },
        NodeRule::Interface => match first_child(t, i, field_is("name"@)) {
            Some(k) => (acc.0.push("interface "@ + t[k].text@), acc.1, acc.2, acc.3),
            None => acc,
        },
        NodeRule::ImplementedType => match first_child(t, i, field_is("type"@)) {
            Some(k) => (acc.0, acc.1, acc.2, acc.3.push(t[k].text@)),
            None => acc,
        },
        NodeRule::GroupedTypes => (
            acc.0,
            acc.1,
            acc.2 + type_spec_names(t, i, t[i].children@.len()),
            acc.3,
        ),
        NodeRule::ElementTag => match element_tag(t, i) {
            Some(k) => (add_once(acc.0, t[k].text@), acc.1, acc.2, acc.3),
            None => acc,
        },
        NodeRule::Selectors => (
            add_all_once(acc.0, selector_texts(t, i, t[i].children@.len())),
            acc.1,
            acc.2,
            acc.3,
        ),
        NodeRule::ObjectKey => match first_child(t, i, field_is("key"@)) {
            Some(k) => (acc.0, acc.1, add_once(acc.2, t[k].text@), acc.3),
            None => acc,
        },
    }
}

/// What node `i` adds to the name lists.
pub open spec fn apply_node(acc: DeclLists, t: Seq<SyntaxNode>, lang: Seq<char>, i: int) -> DeclLists {
    match rule_of(lang, t[i].kind@) {
        Some(rule) => apply_rule(acc, t, i, rule),
        None => acc,
    }
}

/// The name lists after visiting, in pre-order, the nodes before position `n`
/// but the root.
pub open spec fn extracted_upto(t: Seq<SyntaxNode>, lang: Seq<char>, n: nat) -> DeclLists
    decreases n,
{
    if n <= 1 {
        (seq![], seq![], seq![], seq![])
    } else {
        apply_node(extracted_upto(t, lang, (n - 1) as nat), t, lang, n - 1)
    }
}

/// The name lists of a whole tree.
pub open spec fn extracted(t: Seq<SyntaxNode>, lang: Seq<char>) -> DeclLists {
    extracted_upto(t, lang, t.len())
}

fn add_unique(list: &mut Vec<String>, name: String)
    ensures
        names_of(final(list)@) == add_once(names_of(old(list)@), name@),
{
    proof {
        assert(names_of(list@).take(list@.len() as int) =~= names_of(list@));
    }
    if !contains_name(list.as_slice(), list.len(), name.as_str()) {
        let ghost before = list@;
        list.push(name);
        proof {
            assert(names_of(list@) =~= names_of(before).push(name@));
        }
    } else {
        proof {
            assert(names_of(list@).take(list@.len() as int) =~= names_of(list@));
        }
    }
}

fn push_name(list: &mut Vec<String>, name: String)
    ensures
        names_of(final(list)@) == names_of(old(list)@).push(name@),
{
    let ghost before = list@;
    list.push(name);
    proof {
        assert(names_of(list@) =~= names_of(before).push(name@));
    }
}

fn collect_type_spec_names(tree: &SyntaxTree, i: usize) -> (r: Vec<String>)
    requires
        tree_wf(tree.nodes@),
        i < tree.nodes@.len(),
    ensures
        names_of(r@) == type_spec_names(tree.nodes@, i as int, tree.nodes@[i as int].children@.len()),
{
    let ghost t = tree.nodes@;
    let cs = &tree.nodes[i].children;
    let mut r: Vec<String> = Vec::new();
    let mut m: usize = 0;
    while m < cs.len()
        invariant
            t == tree.nodes@,
            tree_wf(t),
            i < t.len(),
            cs@ == t[i as int].children@,
            m <= cs@.len(),
            names_of(r@) == type_spec_names(t, i as int, m as nat),
        decreases cs@.len() - m,
    {
        let c = cs[m];
        assert(c < t.len());
        if same_text(tree.nodes[c].kind.as_str(), "type_spec") {
            if let Some(k) = tree.child_by_field(c, "name") {
                push_name(&mut r, tree.nodes[k].text.clone());
            }
        }
        m = m + 1;
    }
    r
}

fn collect_selector_texts(tree: &SyntaxTree, i: usize) -> (r: Vec<String>)
    requires
        tree_wf(tree.nodes@),
        i < tree.nodes@.len(),
    ensures
        names_of(r@) == selector_texts(tree.nodes@, i as int, tree.nodes@[i as int].children@.len()),
{
    let ghost t = tree.nodes@;
    let cs = &tree.nodes[i].children;
    let mut r: Vec<String> = Vec::new();
    let mut m: usize = 0;
    while m < cs.len()
        invariant
            t == tree.nodes@,
            tree_wf(t),
            i < t.len(),
            cs@ == t[i as int].children@,
            m <= cs@.len(),
            names_of(r@) == selector_texts(t, i as int, m as nat),
        decreases cs@.len() - m,
    {
        let c = cs[m];
        assert(c < t.len());
        if same_text(tree.nodes[c].kind.as_str(), "selectors") {
            let ghost start = names_of(r@);
            let ds = &tree.nodes[c].children;
            let mut q: usize = 0;
            while q < ds.len()
                invariant
                    t == tree.nodes@,
                    tree_wf(t),
                    c < t.len(),
                    ds@ == t[c as int].children@,
                    q <= ds@.len(),
                    names_of(r@) == start + trimmed_texts(t, c as int, q as nat),
                decreases ds@.len() - q,
            {
                let d = ds[q];
                assert(d < t.len());
                let x = trim(tree.nodes[d].text.as_str());
                if !same_text(tree.nodes[d].kind.as_str(), ",") && x.as_str().unicode_len() > 0 {
                    let ghost before = names_of(r@);
                    push_name(&mut r, x);
                    assert(start + trimmed_texts(t, c as int, q as nat + 1) =~= before.push(trim_of(t[d as int].text@)));
                }
                q = q + 1;
            }
        }
        m = m + 1;
    }
    r
}

/// Applies the rule of node `i`, if its kind has one, to the name lists of `acc`.
fn extract_from_node(tree: &SyntaxTree, language: &str, i: usize, acc: &mut FilePattern)
    requires
        tree_wf(tree.nodes@),
        i < tree.nodes@.len(),
    ensures
        decl_lists(*final(acc)) == apply_node(decl_lists(*old(acc)), tree.nodes@, language@, i as int),
        final(acc).path == old(acc).path,
        final(acc).extension == old(acc).extension,
{
    match node_rule(language, tree.nodes[i].kind.as_str()) {
        None => {},
        Some(NodeRule::Declares(c)) => {
            if let Some(k) = tree.child_by_field(i, "name") {
                let name = tree.nodes[k].text.clone();
                match c {
                    Category::Composite => push_name(&mut acc.classes, name),
                    Category::Callable => push_name(&mut acc.functions, name),
                    Category::TypeDeclaration => push_name(&mut acc.structs, name),
                    Category::ImplementationBlock => push_name(&mut acc.implementations, name),
                }
            }
        },
        Some(NodeRule::Interface) => {
            if let Some(k) = tree.child_by_field(i, "name") {
                let mut name = String::from_str("interface ");
                name.append(tree.nodes[k].text.as_str());
                push_name(&mut acc.classes, name);
            }
        },
        Some(NodeRule::ImplementedType) => {
            if let Some(k) = tree.child_by_field(i, "type") {
                push_name(&mut acc.implementations, tree.nodes[k].text.clone());
            }
        },
        Some(NodeRule::GroupedTypes) => {
            let mut names = collect_type_spec_names(tree, i);
            let ghost before = acc.structs@;
            let ghost added = names@;
            acc.structs.append(&mut names);
            proof {
                assert(names_of(acc.structs@) =~= names_of(before) + names_of(added));
            }
        },
        Some(NodeRule::ElementTag) => {
            let open_tag = match tree.child_by_kind(i, "start_tag") {
                Some(s) => Some(s),
                None => tree.child_by_kind(i, "self_closing_tag"),
            };
            if let Some(s) = open_tag {
                if let Some(k) = tree.child_by_kind(s, "tag_name") {
                    add_unique(&mut acc.classes, tree.nodes[k].text.clone());
                }
            }
        },
        Some(NodeRule::Selectors) => {
            let texts = collect_selector_texts(tree, i);
            let ghost start = names_of(acc.classes@);
            let mut q: usize = 0;
            while q < texts.len()
                invariant
                    q <= texts@.len(),
                    names_of(acc.classes@) == add_all_once(start, names_of(texts@).take(q as int)),
                    acc.path == old(acc).path,
                    acc.extension == old(acc).extension,
                    acc.functions == old(acc).functions,
                    acc.structs == old(acc).structs,
                    acc.implementations == old(acc).implementations,
                    names_of(old(acc).classes@) == start,
                decreases texts@.len() - q,
            {
                proof {
                    let nt = names_of(texts@);
                    assert(nt.take(q as int + 1).drop_last() =~= nt.take(q as int));
                }
                add_unique(&mut acc.classes, texts[q].clone());
                q = q + 1;
            }
            proof {
                assert(names_of(texts@).take(texts@.len() as int) =~= names_of(texts@));
            }
        },
        Some(NodeRule::ObjectKey) => {
            if let Some(k) = tree.child_by_field(i, "key") {
                add_unique(&mut acc.structs, tree.nodes[k].text.clone());
            }
        },
    }
}

/// Extracts the fingerprint of one file from its syntax tree: every node but
/// the root is visited once, in pre-order, and classified by the rule table
/// of `language`. Nodes without a rule, or without the name the rule reads,
/// add nothing.
pub fn extract_file_pattern(tree: &SyntaxTree, path: &str, extension: &str, language: &str) -> (r:
    FilePattern)
    requires
        tree_wf(tree.nodes@),
    ensures
        r.path@ == path@,
        r.extension@ == extension@,
        decl_lists(r) == extracted(tree.nodes@, language@),
{
    let mut acc = FilePattern {
        path: String::from_str(path),
        extension: String::from_str(extension),
        classes: Vec::new(),
        functions: Vec::new(),
        structs: Vec::new(),
        implementations: Vec::new(),
    };
    proof {
        assert(decl_lists(acc) =~= extracted_upto(tree.nodes@, language@, 1));
    }
    let mut i: usize = 1;
    while i < tree.nodes.len()
        invariant
            tree_wf(tree.nodes@),
            1 <= i,
            i <= tree.nodes@.len() || i == 1,
            acc.path@ == path@,
            acc.extension@ == extension@,
            decl_lists(acc) == extracted_upto(tree.nodes@, language@, i as nat),
        decreases tree.nodes@.len() - i,
    {
        extract_from_node(tree, language, i, &mut acc);
        i = i + 1;
    }
    proof {
        if tree.nodes@.len() == 0 {
            assert(extracted_upto(tree.nodes@, language@, 1) == extracted_upto(tree.nodes@, language@, 0));
        } else {
            assert(i == tree.nodes@.len());
        }
    }
    acc
}

/// A file of the tree being scanned: its path, its extension and its syntax
/// tree, or `None` when no tree could be obtained for it.
#[derive(Debug, Clone)]
pub struct SourceFile {
    pub path: String,
    pub extension: String,
    pub tree: Option<SyntaxTree>,
}

/// A fingerprint as plain text: path, extension, name lists.
pub type PatternView = (Seq<char>, Seq<char>, DeclLists);

pub open spec fn pattern_view(f: FilePattern) -> PatternView {
    (f.path@, f.extension@, decl_lists(f))
}

pub open spec fn patterns_view(v: Seq<FilePattern>) -> Seq<PatternView> {
    v.map_values(|f: FilePattern| pattern_view(f))
}

/// The fingerprint that file `f` yields for the language `lang`, if any: files
/// of other extensions, and files without a usable tree, yield none.
pub open spec fn scanned_file(f: SourceFile, lang: Seq<char>) -> Seq<PatternView> {
    match f.tree {
        Some(t) => if accepts_extension(lang, f.extension@) && tree_wf(t.nodes@) {
            seq![(f.path@, f.extension@, extracted(t.nodes@, lang))]
        } else {
            seq![]
        },
        None => seq![],
    }
}

/// The fingerprints of the first `n` files for the language `lang`, in order.
pub open spec fn scanned_upto(files: Seq<SourceFile>, lang: Seq<char>, n: nat) -> Seq<PatternView>
    decreases n,
{
    if n == 0 {
        seq![]
    } else {
        scanned_upto(files, lang, (n - 1) as nat) + scanned_file(files[n - 1], lang)
    }
}

pub open spec fn scanned(files: Seq<SourceFile>, lang: Seq<char>) -> Seq<PatternView> {
    scanned_upto(files, lang, files.len())
}

/// Fingerprints the files of a tree that belong to the language `language`,
/// in the order given. A file without a usable tree is left out.
pub fn scan_language_files_in_dir(files: &[SourceFile], language: &str) -> (r: Vec<FilePattern>)
    ensures
        patterns_view(r@) == scanned(files@, language@),
{
    let mut r: Vec<FilePattern> = Vec::new();
    let mut i: usize = 0;
    while i < files.len()
        invariant
            i <= files@.len(),
            patterns_view(r@) == scanned_upto(files@, language@, i as nat),
        decreases files@.len() - i,
    {
        let f = &files[i];
        let ghost before = patterns_view(r@);
        if language_accepts_extension(language, f.extension.as_str()) {
            if let Some(t) = &f.tree {
                if t.is_well_formed() {
                    let fp = extract_file_pattern(t, f.path.as_str(), f.extension.as_str(), language);
                    r.push(fp);
                    proof {
                        assert(patterns_view(r@) =~= before + scanned_file(files@[i as int], language@));
                    }
                } else {
                    assert(before + scanned_file(files@[i as int], language@) =~= before);
                }
            } else {
                assert(before + scanned_file(files@[i as int], language@) =~= before);
            }
        } else {
            assert(before + scanned_file(files@[i as int], language@) =~= before);
        }
        i = i + 1;
    }
    r
}

/// Fingerprints the Rust files of a tree.
pub fn scan_rust_files_in_dir(files: &[SourceFile]) -> (r: Vec<FilePattern>)
    ensures
        patterns_view(r@) == scanned(files@, "rust"@),
{
    scan_language_files_in_dir(files, "rust")
}

/// Fingerprints the JavaScript files of a tree, then its TypeScript files.
pub fn scan_js_ts_files_in_dir(files: &[SourceFile]) -> (r: Vec<FilePattern>)
    ensures
        patterns_view(r@) == scanned(files@, "javascript"@) + scanned(files@, "typescript"@),
{
    let mut r = scan_language_files_in_dir(files, "javascript");
    let mut ts = scan_language_files_in_dir(files, "typescript");
    let ghost a = r@;
    let ghost b = ts@;
    r.append(&mut ts);
    assert(patterns_view(r@) =~= patterns_view(a) + patterns_view(b));
    r
}

/// The non-empty scans of the first `m` registry languages, each under the
/// language's display name, in registry order.
pub open spec fn all_scanned_upto(files: Seq<SourceFile>, m: nat) -> Seq<(Seq<char>, Seq<PatternView>)>
    decreases m,
{
    if m == 0 {
        seq![]
    } else {
        let prev = all_scanned_upto(files, (m - 1) as nat);
        let l = language_table()[m - 1];
        let found = scanned(files, l.0);
        if found.len() > 0 {
            prev.push((l.2, found))
        } else {
            prev
        }
    }
}

pub open spec fn language_scans_view(v: Seq<(String, Vec<FilePattern>)>) -> Seq<(Seq<char>, Seq<PatternView>)> {
    v.map_values(|e: (String, Vec<FilePattern>)| (e.0@, patterns_view(e.1@)))
}

/// Scans a tree for every supported language; languages without files are left out.
pub fn scan_all_languages_in_dir(files: &[SourceFile]) -> (r: Vec<(String, Vec<FilePattern>)>)
    ensures
        language_scans_view(r@) == all_scanned_upto(files@, language_table().len()),
{
    let table = supported_languages();
    let mut r: Vec<(String, Vec<FilePattern>)> = Vec::new();
    let mut i: usize = 0;
    while i < table.len()
        invariant
            i <= table@.len(),
            configs_view(table@) == language_table(),
            language_scans_view(r@) == all_scanned_upto(files@, i as nat),
        decreases table@.len() - i,
    {
        assert(configs_view(table@)[i as int] == table@[i as int]@);
        let found = scan_language_files_in_dir(files, table[i].name);
        if found.len() > 0 {
            let ghost before = language_scans_view(r@);
            let entry = (String::from_str(table[i].display_name), found);
            r.push(entry);
            assert(language_scans_view(r@) =~= before.push((entry.0@, patterns_view(entry.1@))));
        }
        i = i + 1;
    }
    r
}

} // verus!
