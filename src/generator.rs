//! The decisions of skeleton generation: which ecosystem a snapshot targets,
//! which of its files are rendered, which manifest goes with them, and the
//! case conversions offered to templates.
use vstd::prelude::*;
use vstd::string::*;

use crate::error::ScaffError;
use crate::pattern::{CodePattern, FilePattern};
use crate::text::{
    char_is_uppercase, char_lower_of, char_lowercase, char_upper_first, is_upper, lower_of, lowercase,
    replace_spaces, same_text, spaces_replaced, upper_first_of,
};

verus! {

/// The ecosystem that skeleton files are generated for.
#[derive(PartialEq, Eq, Structural, Clone, Copy, Debug)]
pub enum GenerationTarget {
    Rust,
    JavaScript,
}

/// The target of a snapshot language, given by its display name.
pub open spec fn target_of(language: Seq<char>) -> Option<GenerationTarget> {
    if language == "Rust"@ {
        Some(GenerationTarget::Rust)
    } else if language == "JavaScript/TypeScript"@ {
        Some(GenerationTarget::JavaScript)
    } else {
        None
    }
}

/// Whether a file of this extension is rendered for the target.
pub open spec fn renders_extension(target: GenerationTarget, ext: Seq<char>) -> bool {
    match target {
        GenerationTarget::Rust => ext == "rs"@,
        GenerationTarget::JavaScript => ext == "js"@ || ext == "ts"@ || ext == "jsx"@ || ext == "tsx"@,
    }
}

pub open spec fn manifest_of(target: GenerationTarget) -> Seq<char> {
    match target {
        GenerationTarget::Rust => "Cargo.toml"@,
        GenerationTarget::JavaScript => "package.json"@,
    }
}

/// The project name written into the manifest: the snapshot name with
/// spaces replaced by the target's separator, in lower case.
pub open spec fn project_name_of(name: Seq<char>, target: GenerationTarget) -> Seq<char> {
    match target {
        GenerationTarget::Rust => lower_of(spaces_replaced(name, "_"@)),
        GenerationTarget::JavaScript => lower_of(spaces_replaced(name, "-"@)),
    }
}

/// The positions of the files of `files`, among the first `n`, that the target renders.
pub open spec fn rendered_upto(files: Seq<FilePattern>, target: GenerationTarget, n: nat) -> Seq<int>
    decreases n,
{
    if n == 0 {
        seq![]
    } else {
        let prev = rendered_upto(files, target, (n - 1) as nat);
        if renders_extension(target, files[n - 1].extension@) {
            prev.push(n - 1)
        } else {
            prev
        }
    }
}

/// What generating skeleton files from a snapshot amounts to.
#[derive(Debug, Clone)]
pub struct GenerationPlan {
    pub target: GenerationTarget,
    /// Positions, in the snapshot's file list, of the files to render.
    pub files: Vec<usize>,
    /// The manifest file written beside them when absent.
    pub manifest: &'static str,
    pub project_name: String,
}

pub open spec fn positions_view(v: Seq<usize>) -> Seq<int> {
    v.map_values(|i: usize| i as int)
}

pub fn generation_target(language: &str) -> (r: Result<GenerationTarget, ScaffError>)
    ensures
        match target_of(language@) {
            Some(t) => r == Ok::<GenerationTarget, ScaffError>(t),
            None => r matches Err(ScaffError::UnsupportedLanguage { language: l }) && l@ == language@,
        },
{
    if same_text(language, "Rust") {
        Ok(GenerationTarget::Rust)
    } else if same_text(language, "JavaScript/TypeScript") {
        Ok(GenerationTarget::JavaScript)
    } else {
        Err(ScaffError::UnsupportedLanguage { language: String::from_str(language) })
    }
}

pub fn renders(target: GenerationTarget, extension: &str) -> (r: bool)
    ensures
        r == renders_extension(target, extension@),
{
    match target {
        GenerationTarget::Rust => same_text(extension, "rs"),
        GenerationTarget::JavaScript => same_text(extension, "js") || same_text(extension, "ts")
            || same_text(extension, "jsx") || same_text(extension, "tsx"),
    }
}

/// Plans the generation of skeleton files from a snapshot: the files whose
/// extension belongs to the snapshot's target, in order, and the manifest of
/// that target. A language without a target fails with `UnsupportedLanguage`.
pub fn plan_generation(pattern: &CodePattern) -> (r: Result<GenerationPlan, ScaffError>)
    ensures
        match target_of(pattern.language@) {
            Some(t) => r matches Ok(p) && p.target == t && positions_view(p.files@) == rendered_upto(
                pattern.files@,
                t,
                pattern.files@.len(),
            ) && p.manifest@ == manifest_of(t) && p.project_name@ == project_name_of(
                pattern.name@,
                t,
            ),
            None => r matches Err(ScaffError::UnsupportedLanguage { language: l }) && l@
                == pattern.language@,
        },
{
    let target = generation_target(pattern.language.as_str())?;
    let mut files: Vec<usize> = Vec::new();
    let mut i: usize = 0;
    while i < pattern.files.len()
        invariant
            i <= pattern.files@.len(),
            positions_view(files@) == rendered_upto(pattern.files@, target, i as nat),
        decreases pattern.files@.len() - i,
    {
        if renders(target, pattern.files[i].extension.as_str()) {
            let ghost before = files@;
            files.push(i);
            assert(positions_view(files@) =~= positions_view(before).push(i as int));
        }
        i = i + 1;
    }
    let (manifest, sep) = match target {
        GenerationTarget::Rust => ("Cargo.toml", "_"),
        GenerationTarget::JavaScript => ("package.json", "-"),
    };
    let replaced = replace_spaces(pattern.name.as_str(), sep);
    let project_name = lowercase(replaced.as_str());
    Ok(GenerationPlan { target, files, manifest, project_name })
}

/// What character `i` of `s` becomes in Pascal case: underscores vanish and
/// the first character of each word is put in upper case.
pub open spec fn pascal_piece(s: Seq<char>, i: int) -> Seq<char> {
    if s[i] == '_' {
        seq![]
    } else if i == 0 || s[i - 1] == '_' {
        seq![upper_first_of(s[i])]
    } else {
        seq![s[i]]
    }
}

pub open spec fn pascal_upto(s: Seq<char>, n: nat) -> Seq<char>
    decreases n,
{
    if n == 0 {
        seq![]
    } else {
        pascal_upto(s, (n - 1) as nat) + pascal_piece(s, n - 1)
    }
}

/// What character `i` of `s` becomes in snake case: an upper-case character
/// after the first is preceded by an underscore, and every character is put
/// in lower case.
pub open spec fn snake_piece(s: Seq<char>, i: int) -> Seq<char> {
    if is_upper(s[i]) && i > 0 {
        seq!['_'] + char_lower_of(s[i])
    } else {
        char_lower_of(s[i])
    }
}

pub open spec fn snake_upto(s: Seq<char>, n: nat) -> Seq<char>
    decreases n,
{
    if n == 0 {
        seq![]
    } else {
        snake_upto(s, (n - 1) as nat) + snake_piece(s, n - 1)
    }
}

/// `hello_world` becomes `HelloWorld`.
pub fn pascal_case(s: &str) -> (r: String)
    ensures
        r@ == pascal_upto(s@, s@.len()),
{
    let n = s.unicode_len();
    let mut r = String::new();
    let mut i: usize = 0;
    while i < n
        invariant
            n == s@.len(),
            i <= n,
            r@ == pascal_upto(s@, i as nat),
        decreases n - i,
    {
        let c = s.get_char(i);
        if c == '_' {
            assert(pascal_piece(s@, i as int) =~= seq![]);
        } else if i == 0 || s.get_char(i - 1) == '_' {
            let u = char_upper_first(c);
            r.append(u.as_str());
        } else {
            r.append(s.substring_char(i, i + 1));
            assert(s@.subrange(i as int, i as int + 1) =~= seq![c]);
        }
        assert(r@ =~= pascal_upto(s@, i as nat + 1));
        i = i + 1;
    }
    r
}

/// `HelloWorld` becomes `hello_world`.
pub fn snake_case(s: &str) -> (r: String)
    ensures
        r@ == snake_upto(s@, s@.len()),
{
    let n = s.unicode_len();
    let mut r = String::new();
    let mut i: usize = 0;
    while i < n
        invariant
            n == s@.len(),
            i <= n,
            r@ == snake_upto(s@, i as nat),
        decreases n - i,
    {
        let c = s.get_char(i);
        if char_is_uppercase(c) && i > 0 {
            r.append("_");
            proof {
                reveal_strlit("_");
            }
        }
        let l = char_lowercase(c);
        r.append(l.as_str());
        assert(r@ =~= snake_upto(s@, i as nat + 1));
        i = i + 1;
    }
    r
}

} // verus!
