//! Fingerprints, snapshots and the in-memory view of the snapshot store.
use vstd::prelude::*;
use vstd::string::*;

use crate::error::ScaffError;
use crate::text::{decimal, decimal_string, lower_of, lowercase, names_of, replace_spaces, same_text, spaces_replaced};

verus! {

/// The structural fingerprint of one source file: the declaration names it
/// holds, in four categories, in the order in which they were found.
#[derive(Debug, Clone)]
pub struct FilePattern {
    pub path: String,
    pub extension: String,
    /// Composite declarations: classes, interfaces, element tags, selectors.
    pub classes: Vec<String>,
    /// Callables: free functions and methods.
    pub functions: Vec<String>,
    /// Type declarations: structs, type specs, object keys.
    pub structs: Vec<String>,
    /// Implementation blocks, by the type they implement.
    pub implementations: Vec<String>,
}

/// A named snapshot of the fingerprints of a code base.
#[derive(Debug, Clone)]
pub struct CodePattern {
    pub name: String,
    pub description: String,
    /// The display name of the language the snapshot was taken for.
    pub language: String,
    pub files: Vec<FilePattern>,
    pub created_at: String,
}

/// The number of declarations a fingerprint holds, over all four categories.
pub open spec fn item_count(f: FilePattern) -> nat {
    f.classes@.len() + f.functions@.len() + f.structs@.len() + f.implementations@.len()
}

impl FilePattern {
    /// Counts the declarations of this fingerprint.
    pub fn total_items(&self) -> (r: u128)
        ensures
            r == item_count(*self),
    {
        self.classes.len() as u128 + self.functions.len() as u128 + self.structs.len() as u128
            + self.implementations.len() as u128
    }
}

/// The four name lists of a fingerprint, as text: composite declarations,
/// callables, type declarations, implementation blocks.
pub type DeclLists = (Seq<Seq<char>>, Seq<Seq<char>>, Seq<Seq<char>>, Seq<Seq<char>>);

pub open spec fn decl_lists(f: FilePattern) -> DeclLists {
    (names_of(f.classes@), names_of(f.functions@), names_of(f.structs@), names_of(f.implementations@))
}

/// The storage key of a snapshot name: spaces become underscores, then the
/// name is put in lower case.
pub open spec fn key_of(name: Seq<char>) -> Seq<char> {
    lower_of(spaces_replaced(name, "_"@))
}

pub fn storage_key(name: &str) -> (r: String)
    ensures
        r@ == key_of(name@),
{
    let underscored = replace_spaces(name, "_");
    lowercase(underscored.as_str())
}

/// The name of the file in which the snapshot `name` is stored.
pub fn snapshot_file_name(name: &str) -> (r: String)
    ensures
        r@ == key_of(name@) + ".json"@,
{
    let mut r = storage_key(name);
    r.append(".json");
    r
}

/// Whether a file of the store directory holds a snapshot: every JSON file but
/// the configuration file does.
pub fn is_snapshot_file(file_name: &str, extension: &str) -> (r: bool)
    ensures
        r == (extension@ == "json"@ && file_name@ != "config.json"@),
{
    same_text(extension, "json") && !same_text(file_name, "config.json")
}

/// The snapshots that were read, in order; entries that could not be read or
/// parsed are skipped.
pub open spec fn parsed_entries(entries: Seq<Option<CodePattern>>) -> Seq<CodePattern>
    decreases entries.len(),
{
    if entries.len() == 0 {
        seq![]
    } else {
        let rest = parsed_entries(entries.drop_first());
        match entries[0] {
            Some(p) => seq![p] + rest,
            None => rest,
        }
    }
}

/// The position of the first snapshot named `name`, if any.
pub open spec fn is_first_named(patterns: Seq<CodePattern>, name: Seq<char>, k: int) -> bool {
    &&& 0 <= k < patterns.len()
    &&& patterns[k].name@ == name
    &&& forall|j: int| 0 <= j < k ==> patterns[j].name@ != name
}

pub open spec fn has_pattern_named(patterns: Seq<CodePattern>, name: Seq<char>) -> bool {
    exists|k: int| 0 <= k < patterns.len() && patterns[k].name@ == name
}

pub open spec fn same_key_at(patterns: Seq<CodePattern>, p: CodePattern, k: int) -> bool {
    0 <= k < patterns.len() && key_of(patterns[k].name@) == key_of(p.name@)
}

/// The snapshots of a store after `p` is saved: it replaces the snapshot
/// stored under its key, or else joins the others.
pub open spec fn saved(patterns: Seq<CodePattern>, p: CodePattern) -> Seq<CodePattern> {
    if exists|k: int| same_key_at(patterns, p, k) {
        patterns.update(choose|k: int| same_key_at(patterns, p, k), p)
    } else {
        patterns.push(p)
    }
}

/// The snapshots of a store.
#[derive(Debug, Clone)]
pub struct ScaffDirectory {
    pub patterns: Vec<CodePattern>,
}

impl ScaffDirectory {
    pub fn new() -> (r: Self)
        ensures
            r.patterns@.len() == 0,
            r.wf(),
    {
        ScaffDirectory { patterns: Vec::new() }
    }

    /// No two snapshots share a storage key: each key names one file.
    pub open spec fn wf(&self) -> bool {
        forall|i: int, j: int|
            0 <= i < j < self.patterns@.len() ==> key_of(self.patterns@[i].name@) != key_of(
                self.patterns@[j].name@,
            )
    }

    /// Stores a snapshot under the key of its name, replacing the snapshot
    /// stored under that key, if any.
    pub fn save_pattern(&mut self, pattern: CodePattern)
        requires
            old(self).wf(),
        ensures
            final(self).wf(),
            final(self).patterns@ == saved(old(self).patterns@, pattern),
    {
        let key = storage_key(pattern.name.as_str());
        let mut i: usize = 0;
        while i < self.patterns.len()
            invariant
                i <= self.patterns@.len(),
                self.patterns@ == old(self).patterns@,
                self.wf(),
                key@ == key_of(pattern.name@),
                forall|j: int| 0 <= j < i ==> key_of(self.patterns@[j].name@) != key@,
            decreases self.patterns@.len() - i,
        {
            if storage_key(self.patterns[i].name.as_str()) == key {
                let ghost before = self.patterns@;
                self.patterns.remove(i);
                self.patterns.insert(i, pattern);
                proof {
                    assert(self.patterns@ =~= before.update(i as int, pattern));
                    assert(same_key_at(before, pattern, i as int));
                    let c = choose|k: int| same_key_at(before, pattern, k);
                    if c < i {
                        assert(key_of(before[c].name@) != key_of(before[i as int].name@));
                    } else if c > i {
                        assert(key_of(before[i as int].name@) != key_of(before[c].name@));
                    }
                }
                return;
            }
            i = i + 1;
        }
        proof {
            assert(!exists|k: int| same_key_at(self.patterns@, pattern, k));
        }
        self.patterns.push(pattern);
    }

    /// Gathers the snapshots of a store from what each of its snapshot files
    /// yielded: `None` for a file that could not be read or parsed, which is
    /// skipped, so that one corrupt file never aborts the load.
    pub fn load_patterns(entries: Vec<Option<CodePattern>>) -> (r: Vec<CodePattern>)
        ensures
            r@ == parsed_entries(entries@),
    {
        let mut rest = entries;
        let mut r: Vec<CodePattern> = Vec::new();
        while rest.len() > 0
            invariant
                r@ + parsed_entries(rest@) == parsed_entries(entries@),
            decreases rest@.len(),
        {
            let ghost before = rest@;
            let e = rest.remove(0);
            assert(rest@ =~= before.drop_first());
            match e {
                Some(p) => {
                    let ghost r0 = r@;
                    r.push(p);
                    assert(r0 + (seq![p] + parsed_entries(rest@)) =~= r@ + parsed_entries(rest@));
                },
                None => {},
            }
        }
        assert(r@ + parsed_entries(rest@) =~= r@);
        r
    }

    /// The first of `patterns` named exactly `name`.
    pub fn find_pattern<'a>(patterns: &'a [CodePattern], name: &str) -> (r: Option<&'a CodePattern>)
        ensures
            match r {
                Some(p) => exists|k: int| is_first_named(patterns@, name@, k) && *p == patterns@[k],
                None => !has_pattern_named(patterns@, name@),
            },
    {
        let mut i: usize = 0;
        while i < patterns.len()
            invariant
                i <= patterns@.len(),
                forall|j: int| 0 <= j < i ==> patterns@[j].name@ != name@,
            decreases patterns@.len() - i,
        {
            if same_text(patterns[i].name.as_str(), name) {
                assert(is_first_named(patterns@, name@, i as int));
                return Some(&patterns[i]);
            }
            i = i + 1;
        }
        None
    }
}

/// The configuration of a store: the default snapshot, if one is set.
#[derive(Debug, Clone)]
pub struct ScaffConfig {
    pub default_scaff: Option<String>,
}

impl ScaffConfig {
    /// A configuration without a default snapshot.
    pub fn new() -> (r: Self)
        ensures
            r.default_scaff is None,
    {
        ScaffConfig { default_scaff: None }
    }

    /// Makes `name` the default snapshot, if a snapshot of that name exists;
    /// otherwise fails with `NotFound` and leaves the configuration as it was.
    pub fn set_default_scaff(&mut self, name: &str, available: &[CodePattern]) -> (r: Result<
        (),
        ScaffError,
    >)
        ensures
            has_pattern_named(available@, name@) ==> r is Ok && (final(self).default_scaff matches Some(
                d,
            ) && d@ == name@),
            !has_pattern_named(available@, name@) ==> (r matches Err(ScaffError::NotFound { name: n })
                && n@ == name@) && *final(self) == *old(self),
    {
        match ScaffDirectory::find_pattern(available, name) {
            Some(_) => {
                self.default_scaff = Some(String::from_str(name));
                Ok(())
            },
            None => Err(ScaffError::NotFound { name: String::from_str(name) }),
        }
    }

    pub fn get_default_scaff(&self) -> (r: Option<&String>)
        ensures
            match r {
                Some(d) => self.default_scaff == Some(*d),
                None => self.default_scaff is None,
            },
    {
        self.default_scaff.as_ref()
    }

    pub fn clear_default_scaff(&mut self)
        ensures
            final(self).default_scaff is None,
    {
        self.default_scaff = None;
    }
}

/// The snapshot that a command works on: the one named, else the default one.
pub fn resolve_scaff_name(scaff: Option<String>, config: &ScaffConfig) -> (r: Result<String, ScaffError>)
    ensures
        match scaff {
            Some(n) => r == Ok::<String, ScaffError>(n),
            None => match config.default_scaff {
                Some(d) => r == Ok::<String, ScaffError>(d),
                None => r matches Err(ScaffError::NoDefault),
            },
        },
{
    match scaff {
        Some(n) => Ok(n),
        None => match &config.default_scaff {
            Some(d) => Ok(d.clone()),
            None => Err(ScaffError::NoDefault),
        },
    }
}

/// The number of declarations of the first `n` fingerprints.
pub open spec fn items_upto(files: Seq<FilePattern>, n: nat) -> nat
    decreases n,
{
    if n == 0 {
        0
    } else {
        items_upto(files, (n - 1) as nat) + item_count(files[n - 1])
    }
}

/// The description given to a snapshot made from a scan.
pub open spec fn scan_description(files: Seq<FilePattern>) -> Seq<char> {
    "Pattern with "@ + decimal(files.len()) + " files containing "@ + decimal(
        items_upto(files, files.len()),
    ) + " total items"@
}

/// Makes a snapshot from the fingerprints of a scan, described by how many
/// files and declarations it holds; `created_at` is the time of creation,
/// which the caller reads from the clock.
pub fn create_pattern_from_scan(
    files: Vec<FilePattern>,
    name: String,
    language: String,
    created_at: String,
) -> (r: CodePattern)
    requires
        items_upto(files@, files@.len()) <= u128::MAX,
    ensures
        r.name == name,
        r.language == language,
        r.files == files,
        r.created_at == created_at,
        r.description@ == scan_description(files@),
{
    let mut total: u128 = 0;
    let mut i: usize = 0;
    while i < files.len()
        invariant
            i <= files@.len(),
            items_upto(files@, files@.len()) <= u128::MAX,
            total == items_upto(files@, i as nat),
        decreases files@.len() - i,
    {
        proof {
            lemma_items_monotone(files@, (i + 1) as nat, files@.len());
        }
        total = total + files[i].total_items();
        i = i + 1;
    }
    let mut description = String::from_str("Pattern with ");
    description.append(decimal_string(files.len() as u128).as_str());
    description.append(" files containing ");
    description.append(decimal_string(total).as_str());
    description.append(" total items");
    CodePattern { name, description, language, files, created_at }
}

proof fn lemma_items_monotone(files: Seq<FilePattern>, a: nat, b: nat)
    requires
        a <= b,
    ensures
        items_upto(files, a) <= items_upto(files, b),
    decreases b - a,
{
    if a < b {
        lemma_items_monotone(files, a, (b - 1) as nat);
    }
}

/// Saving a snapshot into a store and reading the store back yields that
/// snapshot exactly once.
pub proof fn law_saved_snapshot_read_once(before: ScaffDirectory, s: CodePattern, after: ScaffDirectory)
    requires
        before.wf(),
        after.patterns@ == saved(before.patterns@, s),
    ensures
        exists|k: int|
            0 <= k < after.patterns@.len() && after.patterns@[k] == s && forall|j: int|
                0 <= j < after.patterns@.len() && j != k ==> after.patterns@[j] != s,
{
    let b = before.patterns@;
    let a = after.patterns@;
    if exists|k: int| same_key_at(b, s, k) {
        let c = choose|k: int| same_key_at(b, s, k);
        assert forall|j: int| 0 <= j < a.len() && j != c implies a[j] != s by {
            if j < c {
                assert(key_of(b[j].name@) != key_of(b[c].name@));
            } else {
                assert(key_of(b[c].name@) != key_of(b[j].name@));
            }
        }
        assert(a[c] == s);
    } else {
        let c = b.len() as int;
        assert forall|j: int| 0 <= j < a.len() && j != c implies a[j] != s by {
            assert(!same_key_at(b, s, j));
        }
        assert(a[c] == s);
    }
}

/// The file a snapshot is saved to is among those a load reads, unless the
/// snapshot's storage key is the name of the configuration file.
pub proof fn law_saved_file_is_read(name: Seq<char>)
    requires
        key_of(name) != "config"@,
    ensures
        key_of(name) + ".json"@ != "config.json"@,
{
    reveal_strlit("config");
    reveal_strlit(".json");
    reveal_strlit("config.json");
    let k = key_of(name);
    if k + ".json"@ == "config.json"@ {
        assert(".json"@.len() == 5);
        assert("config.json"@.len() == 11);
        assert(k.len() == 6);
        assert(k =~= (k + ".json"@).subrange(0, 6));
        assert("config.json"@.subrange(0, 6) =~= "config"@);
    }
}

} // verus!
