//! Reconciliation of a stored snapshot against the fingerprints of the current tree.
use vstd::prelude::*;
use vstd::string::*;

use crate::error::ScaffError;
use crate::pattern::{has_pattern_named, is_first_named, item_count, CodePattern, FilePattern, ScaffDirectory};
use crate::scanner::{patterns_view, scan_language_files_in_dir, scanned, PatternView, SourceFile};
use crate::text::{contains_name, decimal, decimal_string, names_of, same_text};

verus! {

/// One declaration that one side of a comparison has and the other lacks.
#[derive(Debug, Clone)]
pub struct ValidationIssue {
    pub file_path: String,
    /// "class", "function", "struct" or "implementation".
    pub item_type: String,
    pub item_name: String,
}

/// An issue as plain text: file path, category label, declaration name.
pub type IssueView = (Seq<char>, Seq<char>, Seq<char>);

impl View for ValidationIssue {
    type V = IssueView;

    open spec fn view(&self) -> IssueView {
        (self.file_path@, self.item_type@, self.item_name@)
    }
}

/// The outcome of comparing a snapshot with the current tree.
#[derive(Debug, Clone)]
pub struct ValidationResult {
    pub scaff_name: String,
    pub is_valid: bool,
    pub missing_files: Vec<String>,
    pub extra_files: Vec<String>,
    pub missing_items: Vec<ValidationIssue>,
    pub extra_items: Vec<ValidationIssue>,
    pub suggestions: Vec<String>,
}

/// Compares snapshots with fingerprints of the current tree.
pub struct ArchitectureValidator;

pub open spec fn issues_of(v: Seq<ValidationIssue>) -> Seq<IssueView> {
    v.map_values(|i: ValidationIssue| i@)
}

/// The distinct names of `names`, each at its first occurrence, that `other` lacks.
/// Lists are compared as sets: order and repetition do not matter.
pub open spec fn absent_names(names: Seq<Seq<char>>, other: Seq<Seq<char>>) -> Seq<Seq<char>>
    decreases names.len(),
{
    if names.len() == 0 {
        seq![]
    } else {
        let init = names.drop_last();
        let n = names.last();
        if other.contains(n) || init.contains(n) {
            absent_names(init, other)
        } else {
            absent_names(init, other).push(n)
        }
    }
}

/// The issues that name each of `names` in one category of one file.
pub open spec fn category_issues(path: Seq<char>, label: Seq<char>, names: Seq<Seq<char>>) -> Seq<
    IssueView,
> {
    names.map_values(|n: Seq<char>| (path, label, n))
}

/// The declarations of `have` that `lack` does not hold, category by category.
pub open spec fn file_absent(have: FilePattern, lack: FilePattern, path: Seq<char>) -> Seq<
    IssueView,
> {
    category_issues(path, "class"@, absent_names(names_of(have.classes@), names_of(lack.classes@)))
        + category_issues(
        path,
        "function"@,
        absent_names(names_of(have.functions@), names_of(lack.functions@)),
    ) + category_issues(
        path,
        "struct"@,
        absent_names(names_of(have.structs@), names_of(lack.structs@)),
    ) + category_issues(
        path,
        "implementation"@,
        absent_names(names_of(have.implementations@), names_of(lack.implementations@)),
    )
}

pub open spec fn paths_of(files: Seq<FilePattern>) -> Seq<Seq<char>> {
    files.map_values(|f: FilePattern| f.path@)
}

/// `k` is the first position of a file with path `p`.
pub open spec fn is_first_path(files: Seq<FilePattern>, p: Seq<char>, k: int) -> bool {
    &&& 0 <= k < files.len()
    &&& files[k].path@ == p
    &&& forall|j: int| 0 <= j < k ==> files[j].path@ != p
}

/// The file that a path stands for: the first one that has it.
pub open spec fn file_at_path(files: Seq<FilePattern>, p: Seq<char>) -> FilePattern {
    files[choose|k: int| is_first_path(files, p, k)]
}

/// Paths of the first `n` files of `have` that `lack` has no file for, each once.
pub open spec fn absent_files_upto(have: Seq<FilePattern>, lack: Seq<FilePattern>, n: nat) -> Seq<
    Seq<char>,
>
    decreases n,
{
    if n == 0 {
        seq![]
    } else {
        let prev = absent_files_upto(have, lack, (n - 1) as nat);
        let p = have[n - 1].path@;
        if is_first_path(have, p, n - 1) && !paths_of(lack).contains(p) {
            prev.push(p)
        } else {
            prev
        }
    }
}

/// Paths of the files of `have` that `lack` has no file for, each once.
pub open spec fn absent_files(have: Seq<FilePattern>, lack: Seq<FilePattern>) -> Seq<Seq<char>> {
    absent_files_upto(have, lack, have.len())
}

/// The suggestion given for a missing file.
pub open spec fn create_file_text(f: FilePattern) -> Seq<char> {
    "Create missing file: "@ + f.path@ + " (should contain "@ + decimal(item_count(f))
        + " items)"@
}

/// One suggestion for each file counted by `absent_files_upto`.
pub open spec fn create_file_texts_upto(
    have: Seq<FilePattern>,
    lack: Seq<FilePattern>,
    n: nat,
) -> Seq<Seq<char>>
    decreases n,
{
    if n == 0 {
        seq![]
    } else {
        let prev = create_file_texts_upto(have, lack, (n - 1) as nat);
        let p = have[n - 1].path@;
        if is_first_path(have, p, n - 1) && !paths_of(lack).contains(p) {
            prev.push(create_file_text(have[n - 1]))
        } else {
            prev
        }
    }
}

/// Declarations that the first `n` files of `have` hold and their namesakes in
/// `lack` do not, for the paths that both sides have.
pub open spec fn absent_items_upto(have: Seq<FilePattern>, lack: Seq<FilePattern>, n: nat) -> Seq<
    IssueView,
>
    decreases n,
{
    if n == 0 {
        seq![]
    } else {
        let prev = absent_items_upto(have, lack, (n - 1) as nat);
        let p = have[n - 1].path@;
        if is_first_path(have, p, n - 1) && paths_of(lack).contains(p) {
            prev + file_absent(have[n - 1], file_at_path(lack, p), p)
        } else {
            prev
        }
    }
}

/// Items of the snapshot `snap` that the current files lack.
pub open spec fn missing_items_of(snap: Seq<FilePattern>, cur: Seq<FilePattern>) -> Seq<IssueView> {
    absent_items_upto(snap, cur, snap.len())
}

/// Declarations that the current files hold and the first `n` files of the
/// snapshot do not, for the paths that both sides have.
pub open spec fn extra_items_upto(snap: Seq<FilePattern>, cur: Seq<FilePattern>, n: nat) -> Seq<
    IssueView,
>
    decreases n,
{
    if n == 0 {
        seq![]
    } else {
        let prev = extra_items_upto(snap, cur, (n - 1) as nat);
        let p = snap[n - 1].path@;
        if is_first_path(snap, p, n - 1) && paths_of(cur).contains(p) {
            prev + file_absent(file_at_path(cur, p), snap[n - 1], p)
        } else {
            prev
        }
    }
}

/// Items of the current files that the snapshot `snap` lacks.
pub open spec fn extra_items_of(snap: Seq<FilePattern>, cur: Seq<FilePattern>) -> Seq<IssueView> {
    extra_items_upto(snap, cur, snap.len())
}

/// The suggestions of a comparison, in the order they are given.
pub open spec fn suggestions_of(name: Seq<char>, snap: Seq<FilePattern>, cur: Seq<FilePattern>) -> Seq<
    Seq<char>,
> {
    let mf = absent_files(snap, cur);
    let ef = absent_files(cur, snap);
    let mi = missing_items_of(snap, cur);
    create_file_texts_upto(snap, cur, snap.len()) + (if mf.len() > 0 {
        seq!["Consider running 'scaff generate "@ + name + "' to create missing files"@]
    } else {
        seq![]
    }) + (if mi.len() > 0 {
        seq!["Review missing items and implement them according to your scaff pattern"@]
    } else {
        seq![]
    }) + (if ef.len() > 0 && ef.len() > mf.len() {
        seq![
            "Consider updating your scaff pattern to include the new files in your architecture"@,
        ]
    } else {
        seq![]
    })
}

/// What `compare_structures` returns for a snapshot and the current files.
pub open spec fn is_comparison(r: ValidationResult, snap: CodePattern, cur: Seq<FilePattern>) -> bool {
    &&& r.scaff_name@ == snap.name@
    &&& names_of(r.missing_files@) == absent_files(snap.files@, cur)
    &&& names_of(r.extra_files@) == absent_files(cur, snap.files@)
    &&& issues_of(r.missing_items@) == missing_items_of(snap.files@, cur)
    &&& issues_of(r.extra_items@) == extra_items_of(snap.files@, cur)
    &&& r.is_valid == (r.missing_files@.len() == 0 && r.missing_items@.len() == 0)
    &&& names_of(r.suggestions@) == suggestions_of(snap.name@, snap.files@, cur)
}

pub open spec fn str_seq_view(v: Seq<&'static str>) -> Seq<Seq<char>> {
    v.map_values(|s: &'static str| s@)
}

/// The language ids whose files make up the current tree of a snapshot
/// language, given by its display name; `None` for an unsupported language.
pub open spec fn scan_ids(display: Seq<char>) -> Option<Seq<Seq<char>>> {
    if display == "JavaScript/TypeScript"@ {
        Some(seq!["javascript"@, "typescript"@])
    } else if display == "JavaScript"@ {
        Some(seq!["javascript"@])
    } else if display == "TypeScript"@ {
        Some(seq!["typescript"@])
    } else if display == "Python"@ {
        Some(seq!["python"@])
    } else if display == "Java"@ {
        Some(seq!["java"@])
    } else if display == "Go"@ {
        Some(seq!["go"@])
    } else if display == "Rust"@ {
        Some(seq!["rust"@])
    } else if display == "JSON"@ {
        Some(seq!["json"@])
    } else if display == "HTML"@ {
        Some(seq!["html"@])
    } else if display == "CSS"@ {
        Some(seq!["css"@])
    } else {
        None
    }
}

/// The fingerprints of `files` for each of the languages `ids`, in turn.
pub open spec fn scanned_for(files: Seq<SourceFile>, ids: Seq<Seq<char>>) -> Seq<PatternView>
    decreases ids.len(),
{
    if ids.len() == 0 {
        seq![]
    } else {
        scanned_for(files, ids.drop_last()) + scanned(files, ids.last())
    }
}

fn scan_language_ids(display: &str) -> (r: Option<Vec<&'static str>>)
    ensures
        match r {
            Some(v) => scan_ids(display@) == Some(str_seq_view(v@)),
            None => scan_ids(display@) is None,
        },
{
    let r = if same_text(display, "JavaScript/TypeScript") {
        Some(vec!["javascript", "typescript"])
    } else if same_text(display, "JavaScript") {
        Some(vec!["javascript"])
    } else if same_text(display, "TypeScript") {
        Some(vec!["typescript"])
    } else if same_text(display, "Python") {
        Some(vec!["python"])
    } else if same_text(display, "Java") {
        Some(vec!["java"])
    } else if same_text(display, "Go") {
        Some(vec!["go"])
    } else if same_text(display, "Rust") {
        Some(vec!["rust"])
    } else if same_text(display, "JSON") {
        Some(vec!["json"])
    } else if same_text(display, "HTML") {
        Some(vec!["html"])
    } else if same_text(display, "CSS") {
        Some(vec!["css"])
    } else {
        None
    };
    proof {
        if r is Some {
            assert(str_seq_view(r->Some_0@) =~= scan_ids(display@)->Some_0);
        }
    }
    r
}

proof fn lemma_first_path_unique(files: Seq<FilePattern>, p: Seq<char>, k: int)
    requires
        is_first_path(files, p, k),
    ensures
        file_at_path(files, p) == files[k],
{
    let c = choose|c: int| is_first_path(files, p, c);
    assert(is_first_path(files, p, c));
    if c < k {
        assert(files[c].path@ != p);
    } else if c > k {
        assert(files[k].path@ != p);
    }
}

proof fn lemma_paths_contain(files: Seq<FilePattern>, p: Seq<char>)
    ensures
        paths_of(files).contains(p) <==> exists|j: int| 0 <= j < files.len() && files[j].path@ == p,
{
    if paths_of(files).contains(p) {
        let j = choose|j: int| 0 <= j < paths_of(files).len() && paths_of(files)[j] == p;
        assert(files[j].path@ == p);
    }
    if exists|j: int| 0 <= j < files.len() && files[j].path@ == p {
        let j = choose|j: int| 0 <= j < files.len() && files[j].path@ == p;
        assert(paths_of(files)[j] == p);
    }
}

/// Finds the first of the first `upto` files whose path is `path`.
fn find_file(files: &[FilePattern], upto: usize, path: &str) -> (r: Option<usize>)
    requires
        upto <= files@.len(),
    ensures
        match r {
            Some(k) => k < upto && is_first_path(files@, path@, k as int),
            None => forall|j: int| 0 <= j < upto ==> files@[j].path@ != path@,
        },
{
    let mut i: usize = 0;
    while i < upto
        invariant
            upto <= files@.len(),
            i <= upto,
            forall|j: int| 0 <= j < i ==> files@[j].path@ != path@,
        decreases upto - i,
    {
        if files[i].path == path.to_owned() {
            return Some(i);
        }
        i = i + 1;
    }
    None
}

impl ArchitectureValidator {
    pub fn new() -> (r: Self) {
        ArchitectureValidator
    }

    /// Validates the current tree against the snapshot named `scaff_name`:
    /// finds it among `patterns`, fingerprints `files` for its language and
    /// compares the two.
    pub fn validate_against_scaff(
        &self,
        scaff_name: &str,
        patterns: &[CodePattern],
        files: &[SourceFile],
    ) -> (r: Result<ValidationResult, ScaffError>)
        ensures
            !has_pattern_named(patterns@, scaff_name@) ==> (r matches Err(ScaffError::NotFound { name })
                && name@ == scaff_name@),
            has_pattern_named(patterns@, scaff_name@) ==> exists|k: int|
                is_first_named(patterns@, scaff_name@, k) && match scan_ids(
                    patterns@[k].language@,
                ) {
                    None => r matches Err(ScaffError::UnsupportedLanguage { language }) && language@
                        == patterns@[k].language@,
                    Some(ids) => r matches Ok(v) && exists|cur: Seq<FilePattern>|
                        patterns_view(cur) == scanned_for(files@, ids) && is_comparison(
                            v,
                            patterns@[k],
                            cur,
                        ),
                },
    {
        let scaff = self.load_scaff_pattern(patterns, scaff_name)?;
        let current = self.scan_current_codebase(scaff.language.as_str(), files)?;
        Ok(self.compare_structures(scaff, current.as_slice()))
    }

    /// The snapshot named `scaff_name`, or `NotFound`.
    pub fn load_scaff_pattern<'a>(&self, patterns: &'a [CodePattern], scaff_name: &str) -> (r: Result<
        &'a CodePattern,
        ScaffError,
    >)
        ensures
            match r {
                Ok(p) => exists|k: int| is_first_named(patterns@, scaff_name@, k) && *p == patterns@[k],
                Err(e) => !has_pattern_named(patterns@, scaff_name@) && (e matches ScaffError::NotFound {
                    name,
                } && name@ == scaff_name@),
            },
            r is Err <==> !has_pattern_named(patterns@, scaff_name@),
    {
        match ScaffDirectory::find_pattern(patterns, scaff_name) {
            Some(p) => Ok(p),
            None => Err(ScaffError::NotFound { name: String::from_str(scaff_name) }),
        }
    }

    /// Fingerprints the current tree for a snapshot's language, given by its
    /// display name.
    pub fn scan_current_codebase(&self, language: &str, files: &[SourceFile]) -> (r: Result<
        Vec<FilePattern>,
        ScaffError,
    >)
        ensures
            match scan_ids(language@) {
                None => r matches Err(ScaffError::UnsupportedLanguage { language: l }) && l@
                    == language@,
                Some(ids) => r matches Ok(v) && patterns_view(v@) == scanned_for(files@, ids),
            },
    {
        let ids = scan_language_ids(language);
        match ids {
            None => Err(ScaffError::UnsupportedLanguage { language: String::from_str(language) }),
            Some(ids) => {
                let mut r: Vec<FilePattern> = Vec::new();
                let mut i: usize = 0;
                while i < ids.len()
                    invariant
                        i <= ids@.len(),
                        patterns_view(r@) == scanned_for(files@, str_seq_view(ids@).take(i as int)),
                    decreases ids@.len() - i,
                {
                    let ghost before = r@;
                    let mut found = scan_language_files_in_dir(files, ids[i]);
                    let ghost added = found@;
                    r.append(&mut found);
                    proof {
                        let sv = str_seq_view(ids@);
                        assert(sv.take(i as int + 1).drop_last() =~= sv.take(i as int));
                        assert(sv.take(i as int + 1).last() == ids@[i as int]@);
                        assert(patterns_view(r@) =~= patterns_view(before) + patterns_view(added));
                    }
                    i = i + 1;
                }
                assert(str_seq_view(ids@).take(ids@.len() as int) =~= str_seq_view(ids@));
                Ok(r)
            },
        }
    }

    /// Compares a snapshot with the fingerprints of the current tree. Files are
    /// matched by path; within a matched file each category is compared as a
    /// set of names. Missing files and missing items make the result invalid;
    /// extra files and extra items do not.
    pub fn compare_structures(&self, scaff: &CodePattern, current_files: &[FilePattern]) -> (r:
        ValidationResult)
        ensures
            is_comparison(r, *scaff, current_files@),
    {
        let snap = scaff.files.as_slice();
        let ghost sv = snap@;
        let ghost cv = current_files@;
        let mut result = ValidationResult {
            scaff_name: scaff.name.clone(),
            is_valid: true,
            missing_files: Vec::new(),
            extra_files: Vec::new(),
            missing_items: Vec::new(),
            extra_items: Vec::new(),
            suggestions: Vec::new(),
        };
        proof {
            assert(names_of(result.missing_files@) =~= absent_files_upto(sv, cv, 0));
            assert(names_of(result.suggestions@) =~= create_file_texts_upto(sv, cv, 0));
        }
        // Snapshot files that the current tree lacks.
        let mut i: usize = 0;
        while i < snap.len()
            invariant
                i <= sv.len(),
                sv == scaff.files@,
                cv == current_files@,
                snap@ == sv,
                result.scaff_name@ == scaff.name@,
                result.missing_items@.len() == 0,
                result.extra_items@.len() == 0,
                result.extra_files@.len() == 0,
                result.is_valid == (result.missing_files@.len() == 0),
                names_of(result.missing_files@) == absent_files_upto(sv, cv, i as nat),
                names_of(result.suggestions@) == create_file_texts_upto(sv, cv, i as nat),
            decreases sv.len() - i,
        {
            let f = &snap[i];
            let first = find_file(snap, i, f.path.as_str()).is_none();
            let absent = find_file(current_files, current_files.len(), f.path.as_str()).is_none();
            proof {
                lemma_paths_contain(cv, f.path@);
            }
            if first && absent {
                let ghost mf0 = names_of(result.missing_files@);
                let ghost sg0 = names_of(result.suggestions@);
                result.missing_files.push(f.path.clone());
                result.is_valid = false;
                let mut text = String::from_str("Create missing file: ");
                text.append(f.path.as_str());
                text.append(" (should contain ");
                let count = decimal_string(f.total_items());
                text.append(count.as_str());
                text.append(" items)");
                result.suggestions.push(text);
                proof {
                    assert(names_of(result.missing_files@) =~= mf0.push(f.path@));
                    assert(names_of(result.suggestions@) =~= sg0.push(create_file_text(*f)));
                }
            }
            i = i + 1;
        }
        proof {
            assert(names_of(result.extra_files@) =~= absent_files_upto(cv, sv, 0));
        }
        // Current files that the snapshot lacks.
        let mut j: usize = 0;
        while j < current_files.len()
            invariant
                j <= cv.len(),
                sv == scaff.files@,
                cv == current_files@,
                snap@ == sv,
                result.scaff_name@ == scaff.name@,
                result.missing_items@.len() == 0,
                result.extra_items@.len() == 0,
                result.is_valid == (result.missing_files@.len() == 0),
                names_of(result.missing_files@) == absent_files(sv, cv),
                names_of(result.suggestions@) == create_file_texts_upto(sv, cv, sv.len()),
                names_of(result.extra_files@) == absent_files_upto(cv, sv, j as nat),
            decreases cv.len() - j,
        {
            let f = &current_files[j];
            let first = find_file(current_files, j, f.path.as_str()).is_none();
            let absent = find_file(snap, snap.len(), f.path.as_str()).is_none();
            proof {
                lemma_paths_contain(sv, f.path@);
            }
            if first && absent {
                let ghost ef0 = names_of(result.extra_files@);
                result.extra_files.push(f.path.clone());
                proof {
                    assert(names_of(result.extra_files@) =~= ef0.push(f.path@));
                }
            }
            j = j + 1;
        }
        proof {
            assert(issues_of(result.missing_items@) =~= absent_items_upto(sv, cv, 0));
            assert(issues_of(result.extra_items@) =~= extra_items_upto(sv, cv, 0));
        }
        // Declarations of the files that both sides have.
        let mut k: usize = 0;
        while k < snap.len()
            invariant
                k <= sv.len(),
                sv == scaff.files@,
                cv == current_files@,
                snap@ == sv,
                result.scaff_name@ == scaff.name@,
                result.is_valid == (result.missing_files@.len() == 0
                    && result.missing_items@.len() == 0),
                names_of(result.missing_files@) == absent_files(sv, cv),
                names_of(result.suggestions@) == create_file_texts_upto(sv, cv, sv.len()),
                names_of(result.extra_files@) == absent_files(cv, sv),
                issues_of(result.missing_items@) == absent_items_upto(sv, cv, k as nat),
                issues_of(result.extra_items@) == extra_items_upto(sv, cv, k as nat),
            decreases sv.len() - k,
        {
            let f = &snap[k];
            let first = find_file(snap, k, f.path.as_str()).is_none();
            let found = find_file(current_files, current_files.len(), f.path.as_str());
            proof {
                lemma_paths_contain(cv, f.path@);
            }
            if first {
                if let Some(c) = found {
                    proof {
                        lemma_first_path_unique(cv, f.path@, c as int);
                    }
                    let ghost m0 = issues_of(result.missing_items@);
                    self.compare_file_items(&mut result, f, &current_files[c]);
                    proof {
                        assert(issues_of(result.missing_items@).len() == result.missing_items@.len());
                        assert(m0.len() == result.missing_items@.len() - file_absent(*f, cv[c as int], f.path@).len());
                    }
                }
            }
            k = k + 1;
        }
        // Overall suggestions.
        let ghost sg = names_of(result.suggestions@);
        let ghost mf = absent_files(sv, cv);
        let ghost ef = absent_files(cv, sv);
        let ghost mi = missing_items_of(sv, cv);
        proof {
            assert(names_of(result.missing_files@).len() == result.missing_files@.len());
            assert(names_of(result.extra_files@).len() == result.extra_files@.len());
            assert(issues_of(result.missing_items@).len() == result.missing_items@.len());
        }
        if result.missing_files.len() > 0 {
            let mut text = String::from_str("Consider running 'scaff generate ");
            text.append(scaff.name.as_str());
            text.append("' to create missing files");
            result.suggestions.push(text);
        }
        let ghost sg1 = names_of(result.suggestions@);
        proof {
            assert(sg1 =~= sg + (if mf.len() > 0 {
                seq!["Consider running 'scaff generate "@ + scaff.name@ + "' to create missing files"@]
            } else {
                seq![]
            }));
        }
        if result.missing_items.len() > 0 {
            result.suggestions.push(
                String::from_str("Review missing items and implement them according to your scaff pattern"),
            );
        }
        let ghost sg2 = names_of(result.suggestions@);
        proof {
            assert(sg2 =~= sg1 + (if mi.len() > 0 {
                seq!["Review missing items and implement them according to your scaff pattern"@]
            } else {
                seq![]
            }));
        }
        if result.extra_files.len() > 0 && result.extra_files.len() > result.missing_files.len() {
            result.suggestions.push(
                String::from_str("Consider updating your scaff pattern to include the new files in your architecture"),
            );
        }
        proof {
            assert(names_of(result.suggestions@) =~= sg2 + (if ef.len() > 0 && ef.len() > mf.len() {
                seq![
                    "Consider updating your scaff pattern to include the new files in your architecture"@,
                ]
            } else {
                seq![]
            }));
            assert(names_of(result.suggestions@) =~= suggestions_of(scaff.name@, sv, cv));
        }
        result
    }

    /// Compares one category of one file: the names of `scaff_items` that
    /// `current_items` lacks become missing items, the reverse extra items.
    /// Only missing items make the result invalid.
    pub fn compare_items(
        &self,
        result: &mut ValidationResult,
        file_path: &str,
        item_type: &str,
        scaff_items: &[String],
        current_items: &[String],
    )
        ensures
            ({
                let missing = absent_names(names_of(scaff_items@), names_of(current_items@));
                let extra = absent_names(names_of(current_items@), names_of(scaff_items@));
                &&& issues_of(final(result).missing_items@) == issues_of(old(result).missing_items@)
                    + category_issues(file_path@, item_type@, missing)
                &&& issues_of(final(result).extra_items@) == issues_of(old(result).extra_items@)
                    + category_issues(file_path@, item_type@, extra)
                &&& final(result).is_valid == (old(result).is_valid && missing.len() == 0)
            }),
            final(result).scaff_name == old(result).scaff_name,
            final(result).missing_files == old(result).missing_files,
            final(result).extra_files == old(result).extra_files,
            final(result).suggestions == old(result).suggestions,
    {
        let old_len = result.missing_items.len();
        Self::push_absent(&mut result.missing_items, file_path, item_type, scaff_items, current_items);
        if result.missing_items.len() > old_len {
            result.is_valid = false;
        }
        proof {
            let missing = absent_names(names_of(scaff_items@), names_of(current_items@));
            assert(issues_of(result.missing_items@).len() == result.missing_items@.len());
            assert(category_issues(file_path@, item_type@, missing).len() == missing.len());
        }
        Self::push_absent(&mut result.extra_items, file_path, item_type, current_items, scaff_items);
    }

    /// Compares the four categories of a snapshot file with those of the
    /// current file at the same path.
    pub fn compare_file_items(
        &self,
        result: &mut ValidationResult,
        scaff_file: &FilePattern,
        current_file: &FilePattern,
    )
        ensures
            issues_of(final(result).missing_items@) == issues_of(old(result).missing_items@)
                + file_absent(*scaff_file, *current_file, scaff_file.path@),
            issues_of(final(result).extra_items@) == issues_of(old(result).extra_items@)
                + file_absent(*current_file, *scaff_file, scaff_file.path@),
            final(result).is_valid == (old(result).is_valid && file_absent(
                *scaff_file,
                *current_file,
                scaff_file.path@,
            ).len() == 0),
            final(result).scaff_name == old(result).scaff_name,
            final(result).missing_files == old(result).missing_files,
            final(result).extra_files == old(result).extra_files,
            final(result).suggestions == old(result).suggestions,
    {
        let file_path = scaff_file.path.as_str();
        let ghost m0 = issues_of(result.missing_items@);
        let ghost e0 = issues_of(result.extra_items@);
        self.compare_items(
            result,
            file_path,
            "class",
            scaff_file.classes.as_slice(),
            current_file.classes.as_slice(),
        );
        self.compare_items(
            result,
            file_path,
            "function",
            scaff_file.functions.as_slice(),
            current_file.functions.as_slice(),
        );
        self.compare_items(
            result,
            file_path,
            "struct",
            scaff_file.structs.as_slice(),
            current_file.structs.as_slice(),
        );
        self.compare_items(
            result,
            file_path,
            "implementation",
            scaff_file.implementations.as_slice(),
            current_file.implementations.as_slice(),
        );
        proof {
            let p = scaff_file.path@;
            let m1 = category_issues(p, "class"@, absent_names(names_of(scaff_file.classes@), names_of(current_file.classes@)));
            let m2 = category_issues(p, "function"@, absent_names(names_of(scaff_file.functions@), names_of(current_file.functions@)));
            let m3 = category_issues(p, "struct"@, absent_names(names_of(scaff_file.structs@), names_of(current_file.structs@)));
            let m4 = category_issues(p, "implementation"@, absent_names(names_of(scaff_file.implementations@), names_of(current_file.implementations@)));
            assert(issues_of(result.missing_items@) =~= m0 + (m1 + m2 + m3 + m4));
            let e1 = category_issues(p, "class"@, absent_names(names_of(current_file.classes@), names_of(scaff_file.classes@)));
            let e2 = category_issues(p, "function"@, absent_names(names_of(current_file.functions@), names_of(scaff_file.functions@)));
            let e3 = category_issues(p, "struct"@, absent_names(names_of(current_file.structs@), names_of(scaff_file.structs@)));
            let e4 = category_issues(p, "implementation"@, absent_names(names_of(current_file.implementations@), names_of(scaff_file.implementations@)));
            assert(issues_of(result.extra_items@) =~= e0 + (e1 + e2 + e3 + e4));
        }
    }

    /// Appends an issue for each distinct name of `have` that `lack` does not hold.
    fn push_absent(
        out: &mut Vec<ValidationIssue>,
        file_path: &str,
        item_type: &str,
        have: &[String],
        lack: &[String],
    )
        ensures
            issues_of(final(out)@) == issues_of(old(out)@) + category_issues(
                file_path@,
                item_type@,
                absent_names(names_of(have@), names_of(lack@)),
            ),
    {
        let ghost start = issues_of(out@);
        let mut i: usize = 0;
        while i < have.len()
            invariant
                i <= have@.len(),
                issues_of(out@) == start + category_issues(
                    file_path@,
                    item_type@,
                    absent_names(names_of(have@).take(i as int), names_of(lack@)),
                ),
            decreases have.len() - i,
        {
            let ghost hv = names_of(have@);
            let ghost before = issues_of(out@);
            proof {
                assert(hv.take(i as int + 1).drop_last() =~= hv.take(i as int));
                assert(hv.take(i as int + 1).last() == have@[i as int]@);
            }
            if !contains_name(lack, lack.len(), have[i].as_str()) && !contains_name(
                have,
                i,
                have[i].as_str(),
            ) {
                out.push(
                    ValidationIssue {
                        file_path: file_path.to_owned(),
                        item_type: item_type.to_owned(),
                        item_name: have[i].clone(),
                    },
                );
                proof {
                    assert(names_of(lack@).take(lack@.len() as int) =~= names_of(lack@));
                    assert(issues_of(out@) =~= before.push(
                        (file_path@, item_type@, have@[i as int]@),
                    ));
                    let a = absent_names(hv.take(i as int), names_of(lack@));
                    assert(category_issues(file_path@, item_type@, a.push(have@[i as int]@))
                        =~= category_issues(file_path@, item_type@, a).push(
                        (file_path@, item_type@, have@[i as int]@),
                    ));
                }
            } else {
                proof {
                    assert(names_of(lack@).take(lack@.len() as int) =~= names_of(lack@));
                }
            }
            i = i + 1;
        }
        proof {
            assert(names_of(have@).take(have@.len() as int) =~= names_of(have@));
        }
    }
}

/// The label under which category `c` is reported.
pub open spec fn category_label(c: nat) -> Seq<char> {
    if c == 0 {
        "class"@
    } else if c == 1 {
        "function"@
    } else if c == 2 {
        "struct"@
    } else {
        "implementation"@
    }
}

/// The names that a fingerprint holds in category `c`.
pub open spec fn category_names(f: FilePattern, c: nat) -> Seq<Seq<char>> {
    if c == 0 {
        names_of(f.classes@)
    } else if c == 1 {
        names_of(f.functions@)
    } else if c == 2 {
        names_of(f.structs@)
    } else {
        names_of(f.implementations@)
    }
}

/// The paths of `files` are pairwise distinct.
pub open spec fn distinct_paths(files: Seq<FilePattern>) -> bool {
    forall|i: int, j: int| 0 <= i < j < files.len() ==> files[i].path@ != files[j].path@
}

proof fn lemma_absent_names_removed(names: Seq<Seq<char>>, other: Seq<Seq<char>>, n: Seq<char>)
    requires
        forall|y: Seq<char>| names.contains(y) && y != n ==> other.contains(y),
        !other.contains(n),
    ensures
        absent_names(names, other) == (if names.contains(n) {
            seq![n]
        } else {
            seq![]
        }),
    decreases names.len(),
{
    if names.len() > 0 {
        let init = names.drop_last();
        let x = names.last();
        assert forall|y: Seq<char>| init.contains(y) && y != n implies other.contains(y) by {
            let i = choose|i: int| 0 <= i < init.len() && init[i] == y;
            assert(names[i] == y);
        }
        lemma_absent_names_removed(init, other, n);
        assert(names.contains(x)) by {
            assert(names[names.len() - 1] == x);
        }
        if names.contains(n) && !init.contains(n) {
            let i = choose|i: int| 0 <= i < names.len() && names[i] == n;
            if i < names.len() - 1 {
                assert(init[i] == n);
            }
        }
        if init.contains(n) {
            let i = choose|i: int| 0 <= i < init.len() && init[i] == n;
            assert(names[i] == n);
        }
    }
}

proof fn lemma_absent_names_covered(names: Seq<Seq<char>>, other: Seq<Seq<char>>)
    requires
        forall|y: Seq<char>| names.contains(y) ==> other.contains(y),
    ensures
        absent_names(names, other) == Seq::<Seq<char>>::empty(),
    decreases names.len(),
{
    if names.len() > 0 {
        let init = names.drop_last();
        assert forall|y: Seq<char>| init.contains(y) implies other.contains(y) by {
            let i = choose|i: int| 0 <= i < init.len() && init[i] == y;
            assert(names[i] == y);
        }
        lemma_absent_names_covered(init, other);
        assert(names[names.len() - 1] == names.last());
    }
}

proof fn lemma_self_absent_empty(f: FilePattern, p: Seq<char>)
    ensures
        file_absent(f, f, p) == Seq::<IssueView>::empty(),
{
    lemma_absent_names_covered(names_of(f.classes@), names_of(f.classes@));
    lemma_absent_names_covered(names_of(f.functions@), names_of(f.functions@));
    lemma_absent_names_covered(names_of(f.structs@), names_of(f.structs@));
    lemma_absent_names_covered(names_of(f.implementations@), names_of(f.implementations@));
    assert(file_absent(f, f, p) =~= Seq::<IssueView>::empty());
}

proof fn lemma_no_absent_files(have: Seq<FilePattern>, lack: Seq<FilePattern>, n: nat)
    requires
        n <= have.len(),
        forall|j: int| 0 <= j < have.len() ==> paths_of(lack).contains(#[trigger] have[j].path@),
    ensures
        absent_files_upto(have, lack, n) == Seq::<Seq<char>>::empty(),
    decreases n,
{
    if n > 0 {
        lemma_no_absent_files(have, lack, (n - 1) as nat);
    }
}

proof fn lemma_self_absent_items(files: Seq<FilePattern>, n: nat)
    requires
        n <= files.len(),
    ensures
        absent_items_upto(files, files, n) == Seq::<IssueView>::empty(),
    decreases n,
{
    if n > 0 {
        lemma_self_absent_items(files, (n - 1) as nat);
        let p = files[n - 1].path@;
        if is_first_path(files, p, n - 1) {
            lemma_first_path_unique(files, p, n - 1);
            lemma_self_absent_empty(files[n - 1], p);
            assert(absent_items_upto(files, files, n) =~= Seq::<IssueView>::empty());
        }
    }
}

/// Comparing a snapshot with its own files finds no missing file and no
/// missing declaration: the result is valid.
pub proof fn law_self_comparison_is_valid(snap: CodePattern, r: ValidationResult)
    requires
        is_comparison(r, snap, snap.files@),
    ensures
        r.is_valid,
        r.missing_files@.len() == 0,
        r.missing_items@.len() == 0,
{
    let files = snap.files@;
    assert forall|j: int| 0 <= j < files.len() implies paths_of(files).contains(
        #[trigger] files[j].path@,
    ) by {
        assert(paths_of(files)[j] == files[j].path@);
    }
    lemma_no_absent_files(files, files, files.len());
    lemma_self_absent_items(files, files.len());
    assert(names_of(r.missing_files@).len() == r.missing_files@.len());
    assert(issues_of(r.missing_items@).len() == r.missing_items@.len());
}

proof fn lemma_removed_file_absent(f: FilePattern, g: FilePattern, c: nat, n: Seq<char>, p: Seq<char>)
    requires
        c < 4,
        category_names(f, c).contains(n),
        category_names(g, c) == category_names(f, c).filter(|y: Seq<char>| y != n),
        forall|d: nat| d < 4 && d != c ==> category_names(g, d) == category_names(f, d),
    ensures
        file_absent(f, g, p) == seq![(p, category_label(c), n)],
{
    let fl = category_names(f, c);
    let gl = category_names(g, c);
    assert forall|y: Seq<char>| fl.contains(y) && y != n implies gl.contains(y) by {
        let i = choose|i: int| 0 <= i < fl.len() && fl[i] == y;
        fl.lemma_filter_contains(|y: Seq<char>| y != n, i);
    }
    if gl.contains(n) {
        let i = choose|i: int| 0 <= i < gl.len() && gl[i] == n;
        fl.lemma_filter_pred(|y: Seq<char>| y != n, i);
    }
    lemma_absent_names_removed(fl, gl, n);
    assert(category_names(g, 0) == category_names(f, 0) || c == 0);
    assert(category_names(g, 1) == category_names(f, 1) || c == 1);
    assert(category_names(g, 2) == category_names(f, 2) || c == 2);
    assert(category_names(g, 3) == category_names(f, 3) || c == 3);
    lemma_absent_names_covered(category_names(f, 0), category_names(f, 0));
    lemma_absent_names_covered(category_names(f, 1), category_names(f, 1));
    lemma_absent_names_covered(category_names(f, 2), category_names(f, 2));
    lemma_absent_names_covered(category_names(f, 3), category_names(f, 3));
    assert(file_absent(f, g, p) =~= seq![(p, category_label(c), n)]);
}

proof fn lemma_removed_items(
    snap: Seq<FilePattern>,
    cur: Seq<FilePattern>,
    k: int,
    c: nat,
    name: Seq<char>,
    n: nat,
)
    requires
        n <= snap.len(),
        distinct_paths(snap),
        0 <= k < snap.len(),
        cur.len() == snap.len(),
        forall|j: int| 0 <= j < snap.len() && j != k ==> cur[j] == snap[j],
        cur[k].path@ == snap[k].path@,
        file_absent(snap[k], cur[k], snap[k].path@) == seq![(snap[k].path@, category_label(c), name)],
    ensures
        absent_items_upto(snap, cur, n) == (if n > k {
            seq![(snap[k].path@, category_label(c), name)]
        } else {
            Seq::<IssueView>::empty()
        }),
    decreases n,
{
    if n > 0 {
        lemma_removed_items(snap, cur, k, c, name, (n - 1) as nat);
        let i = n - 1;
        let p = snap[i].path@;
        assert(is_first_path(snap, p, i));
        assert(is_first_path(cur, p, i)) by {
            assert forall|j: int| 0 <= j < i implies cur[j].path@ != p by {
                assert(snap[j].path@ != p);
                if j == k {
                } else {
                    assert(cur[j] == snap[j]);
                }
            }
        }
        lemma_first_path_unique(cur, p, i);
        lemma_paths_contain(cur, p);
        if i != k {
            lemma_self_absent_empty(snap[i], p);
        }
        assert(absent_items_upto(snap, cur, n) =~= (if n > k {
            seq![(snap[k].path@, category_label(c), name)]
        } else {
            Seq::<IssueView>::empty()
        }));
    }
}

/// Removing every occurrence of one declaration name from one category of
/// one file of a snapshot whose file paths are distinct, then comparing the
/// snapshot with the result, reports exactly that declaration as missing, and
/// the result is invalid.
pub proof fn law_removed_name_is_missing(
    snap: CodePattern,
    cur: Seq<FilePattern>,
    k: int,
    c: nat,
    name: Seq<char>,
    r: ValidationResult,
)
    requires
        distinct_paths(snap.files@),
        0 <= k < snap.files@.len(),
        c < 4,
        category_names(snap.files@[k], c).contains(name),
        cur.len() == snap.files@.len(),
        forall|j: int| 0 <= j < cur.len() && j != k ==> cur[j] == snap.files@[j],
        cur[k].path@ == snap.files@[k].path@,
        category_names(cur[k], c) == category_names(snap.files@[k], c).filter(
            |y: Seq<char>| y != name,
        ),
        forall|d: nat| d < 4 && d != c ==> category_names(cur[k], d) == category_names(
            snap.files@[k],
            d,
        ),
        is_comparison(r, snap, cur),
    ensures
        !r.is_valid,
        issues_of(r.missing_items@) == seq![(snap.files@[k].path@, category_label(c), name)],
        r.missing_files@.len() == 0,
{
    let files = snap.files@;
    lemma_removed_file_absent(files[k], cur[k], c, name, files[k].path@);
    lemma_removed_items(files, cur, k, c, name, files.len());
    assert forall|j: int| 0 <= j < files.len() implies paths_of(cur).contains(
        #[trigger] files[j].path@,
    ) by {
        assert(paths_of(cur)[j] == cur[j].path@);
        if j != k {
            assert(cur[j] == files[j]);
        }
    }
    lemma_no_absent_files(files, cur, files.len());
    assert(names_of(r.missing_files@).len() == r.missing_files@.len());
    assert(issues_of(r.missing_items@).len() == r.missing_items@.len());
}

proof fn lemma_pushed_file_absent_files(
    snap: Seq<FilePattern>,
    cur: Seq<FilePattern>,
    f: FilePattern,
    n: nat,
)
    requires
        n <= snap.len(),
        !paths_of(snap).contains(f.path@),
    ensures
        absent_files_upto(snap, cur.push(f), n) == absent_files_upto(snap, cur, n),
        absent_items_upto(snap, cur.push(f), n) == absent_items_upto(snap, cur, n),
    decreases n,
{
    if n > 0 {
        lemma_pushed_file_absent_files(snap, cur, f, (n - 1) as nat);
        let p = snap[n - 1].path@;
        assert(paths_of(snap)[n - 1] == p);
        let cur2 = cur.push(f);
        lemma_paths_contain(cur, p);
        lemma_paths_contain(cur2, p);
        assert(paths_of(cur2).contains(p) == paths_of(cur).contains(p)) by {
            if paths_of(cur).contains(p) {
                let j = choose|j: int| 0 <= j < cur.len() && cur[j].path@ == p;
                assert(cur2[j].path@ == p);
            }
            if paths_of(cur2).contains(p) {
                let j = choose|j: int| 0 <= j < cur2.len() && cur2[j].path@ == p;
                assert(j < cur.len());
                assert(cur[j].path@ == p);
            }
        }
        if paths_of(cur).contains(p) {
            let j = choose|j: int| 0 <= j < cur.len() && cur[j].path@ == p;
            let k = find_first_path(cur, p, j);
            lemma_first_path_unique(cur, p, k);
            assert(is_first_path(cur2, p, k));
            lemma_first_path_unique(cur2, p, k);
        }
    }
}

proof fn find_first_path(files: Seq<FilePattern>, p: Seq<char>, j: int) -> (k: int)
    requires
        0 <= j < files.len(),
        files[j].path@ == p,
    ensures
        is_first_path(files, p, k),
    decreases j,
{
    if exists|i: int| 0 <= i < j && files[i].path@ == p {
        let i = choose|i: int| 0 <= i < j && files[i].path@ == p;
        find_first_path(files, p, i)
    } else {
        j
    }
}

proof fn lemma_listed_path(have: Seq<FilePattern>, lack: Seq<FilePattern>, p: Seq<char>, n: nat)
    requires
        n <= have.len(),
        !paths_of(lack).contains(p),
        exists|j: int| 0 <= j < n && have[j].path@ == p,
    ensures
        absent_files_upto(have, lack, n).contains(p),
    decreases n,
{
    let prev = absent_files_upto(have, lack, (n - 1) as nat);
    if exists|j: int| 0 <= j < n - 1 && have[j].path@ == p {
        lemma_listed_path(have, lack, p, (n - 1) as nat);
        let i = choose|i: int| 0 <= i < prev.len() && prev[i] == p;
        let q = have[n - 1].path@;
        if is_first_path(have, q, n - 1) && !paths_of(lack).contains(q) {
            assert(prev.push(q)[i] == p);
        }
    } else {
        assert(is_first_path(have, p, n - 1));
        assert(prev.push(p)[prev.len() as int] == p);
    }
}

/// Adding to the current files a file whose path the snapshot does not have
/// leaves the validity of the comparison as it was, and the new path is
/// reported as an extra file.
pub proof fn law_extra_file_keeps_validity(
    snap: CodePattern,
    cur: Seq<FilePattern>,
    f: FilePattern,
    before: ValidationResult,
    after: ValidationResult,
)
    requires
        !paths_of(snap.files@).contains(f.path@),
        is_comparison(before, snap, cur),
        is_comparison(after, snap, cur.push(f)),
    ensures
        after.is_valid == before.is_valid,
        names_of(after.extra_files@).contains(f.path@),
{
    let files = snap.files@;
    lemma_pushed_file_absent_files(files, cur, f, files.len());
    assert(names_of(after.missing_files@).len() == after.missing_files@.len());
    assert(issues_of(after.missing_items@).len() == after.missing_items@.len());
    assert(names_of(before.missing_files@).len() == before.missing_files@.len());
    assert(issues_of(before.missing_items@).len() == before.missing_items@.len());
    assert(cur.push(f)[cur.len() as int].path@ == f.path@);
    lemma_listed_path(cur.push(f), files, f.path@, cur.len() + 1);
}

} // verus!
