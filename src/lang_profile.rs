//! Per-language configuration, the table of supported languages, and the
//! detection of a file's language from its path.

use vstd::prelude::*;
use crate::file_criterion::{FileCriterion, matches_ext, matches_name};

verus! {

/// What the merge needs to know of a language.
#[derive(Debug, Clone)]
pub struct LangProfile {
    /// The name of the language
    pub name: &'static str,
    /// The extensions of its files, without the dot
    pub extensions: Vec<&'static str>,
    /// Exact names of files in this language, whatever their extension
    pub file_names: Vec<&'static str>,
    /// Kinds of nodes whose children may come in any order
    pub commutative_parents: Vec<&'static str>,
    /// Kinds of nodes that are merged as a whole rather than by descent
    pub atomic_nodes: Vec<&'static str>,
}

/// The views of a list of string slices.
pub open spec fn strs_view(v: Seq<&'static str>) -> Seq<Seq<char>> {
    v.map_values(|s: &'static str| s@)
}

/// A language's name and extensions, in mathematical form.
pub open spec fn profile_summary(p: LangProfile) -> (Seq<char>, Seq<Seq<char>>) {
    (p.name@, strs_view(p.extensions@))
}

/// Whether some of `exts` is the extension of the file at `path`.
pub open spec fn some_ext_matches(exts: Seq<Seq<char>>, path: Seq<char>) -> bool {
    exists|i: int| 0 <= i < exts.len() && matches_ext(path, #[trigger] exts[i])
}

/// Whether some of `names` is the name of the file at `path`.
pub open spec fn some_name_matches(names: Seq<Seq<char>>, path: Seq<char>) -> bool {
    exists|i: int| 0 <= i < names.len() && matches_name(path, #[trigger] names[i])
}

/// Whether a profile applies to the file at `path`: by extension or by name.
pub open spec fn profile_matches(p: LangProfile, path: Seq<char>) -> bool {
    some_ext_matches(strs_view(p.extensions@), path) || some_name_matches(strs_view(p.file_names@), path)
}

/// The index of the first entry of the language table whose extensions match
/// `path`, where there is one.
pub open spec fn is_first_table_match(i: int, path: Seq<char>) -> bool {
    &&& 0 <= i < lang_table().len()
    &&& some_ext_matches(lang_table()[i].1, path)
    &&& forall|j: int| 0 <= j < i ==> !some_ext_matches(#[trigger] lang_table()[j].1, path)
}

fn profile(
    name: &'static str,
    extensions: Vec<&'static str>,
    commutative_parents: Vec<&'static str>,
) -> (r: LangProfile)
    ensures
        r.name == name,
        r.extensions == extensions,
        r.file_names@.len() == 0,
{
    LangProfile { name, extensions, file_names: Vec::new(), commutative_parents, atomic_nodes: Vec::new() }
}

/// The languages that the merge knows, by name and extensions.
pub open spec fn lang_table() -> Seq<(Seq<char>, Seq<Seq<char>>)> {
    seq![
        ("Java"@, seq!["java"@]),
        ("Rust"@, seq!["rs"@]),
        ("Go"@, seq!["go"@]),
        ("Javascript"@, seq!["js"@, "jsx"@, "mjs"@]),
        ("JSON"@, seq!["json"@]),
        ("YAML"@, seq!["yml"@, "yaml"@]),
        ("TOML"@, seq!["toml"@]),
        ("HTML"@, seq!["html"@, "htm"@]),
        ("XML"@, seq!["xhtml"@, "xml"@]),
        ("C/C++"@, seq!["c"@, "h"@, "cc"@, "cpp"@, "hpp"@]),
        ("C#"@, seq!["cs"@]),
        ("Python"@, seq!["py"@]),
        ("Typescript"@, seq!["ts"@]),
    ]
}

/// The profiles of the supported languages, in the order of `lang_table`.
pub fn supported_languages() -> (r: Vec<LangProfile>)
    ensures
        r@.map_values(|p: LangProfile| profile_summary(p)) == lang_table(),
        forall|i: int| 0 <= i < r@.len() ==> (#[trigger] r@[i]).file_names@.len() == 0,
{
    let mut r: Vec<LangProfile> = Vec::new();
    r.push(profile("Java", vec!["java"], vec!["class_body", "import_list"]));
    r.push(profile("Rust", vec!["rs"], vec!["declaration_list", "use_list"]));
    r.push(profile("Go", vec!["go"], vec!["import_spec_list"]));
    r.push(profile("Javascript", vec!["js", "jsx", "mjs"], vec!["class_body", "object"]));
    r.push(profile("JSON", vec!["json"], vec!["object"]));
    r.push(profile("YAML", vec!["yml", "yaml"], vec!["block_mapping"]));
    r.push(profile("TOML", vec!["toml"], vec!["table"]));
    r.push(profile("HTML", vec!["html", "htm"], vec![]));
    r.push(profile("XML", vec!["xhtml", "xml"], vec![]));
    r.push(profile("C/C++", vec!["c", "h", "cc", "cpp", "hpp"], vec!["field_declaration_list"]));
    r.push(profile("C#", vec!["cs"], vec!["declaration_list"]));
    r.push(profile("Python", vec!["py"], vec!["import_from_statement"]));
    r.push(profile("Typescript", vec!["ts"], vec!["class_body", "object_type"]));
    assert(strs_view(r@[0].extensions@) =~= seq!["java"@]);
    assert(strs_view(r@[1].extensions@) =~= seq!["rs"@]);
    assert(strs_view(r@[2].extensions@) =~= seq!["go"@]);
    assert(strs_view(r@[3].extensions@) =~= seq!["js"@, "jsx"@, "mjs"@]);
    assert(strs_view(r@[4].extensions@) =~= seq!["json"@]);
    assert(strs_view(r@[5].extensions@) =~= seq!["yml"@, "yaml"@]);
    assert(strs_view(r@[6].extensions@) =~= seq!["toml"@]);
    assert(strs_view(r@[7].extensions@) =~= seq!["html"@, "htm"@]);
    assert(strs_view(r@[8].extensions@) =~= seq!["xhtml"@, "xml"@]);
    assert(strs_view(r@[9].extensions@) =~= seq!["c"@, "h"@, "cc"@, "cpp"@, "hpp"@]);
    assert(strs_view(r@[10].extensions@) =~= seq!["cs"@]);
    assert(strs_view(r@[11].extensions@) =~= seq!["py"@]);
    assert(strs_view(r@[12].extensions@) =~= seq!["ts"@]);
    assert(r@.map_values(|p: LangProfile| profile_summary(p)) =~= lang_table());
    r
}

/// Whether one of `names` matches `path` as `criterion` would.
fn any_matches(names: &Vec<&'static str>, by_ext: bool, path: &str) -> (r: bool)
    ensures
        by_ext ==> r == some_ext_matches(strs_view(names@), path@),
        !by_ext ==> r == some_name_matches(strs_view(names@), path@),
{
    let mut i: usize = 0;
    while i < names.len()
        invariant
            i <= names@.len(),
            forall|j: int| 0 <= j < i ==> !(if by_ext {
                matches_ext(path@, #[trigger] strs_view(names@)[j])
            } else {
                matches_name(path@, strs_view(names@)[j])
            }),
        decreases names@.len() - i,
    {
        let criterion = if by_ext {
            FileCriterion::ByExt(names[i])
        } else {
            FileCriterion::ByName(names[i])
        };
        if criterion.matches(path) {
            assert(strs_view(names@)[i as int] == names@[i as int]@);
            return true;
        }
        i = i + 1;
    }
    false
}

impl LangProfile {
    /// Whether this language applies to the file at `path`.
    pub fn matches_path(&self, path: &str) -> (r: bool)
        ensures
            r == profile_matches(*self, path@),
    {
        any_matches(&self.extensions, true, path) || any_matches(&self.file_names, false, path)
    }

    /// The first supported language that applies to the file at `path`, by its
    /// extension, ASCII case ignored.
    pub fn detect_from_filename(path: &str) -> (r: Option<LangProfile>)
        ensures
            match r {
                Some(p) => exists|i: int| is_first_table_match(i, path@) && profile_summary(p) == lang_table()[i],
                None => forall|i: int| 0 <= i < lang_table().len() ==> !some_ext_matches(#[trigger] lang_table()[i].1, path@),
            },
    {
        let mut profiles = supported_languages();
        let ghost summaries = profiles@.map_values(|p: LangProfile| profile_summary(p));
        let mut i: usize = 0;
        while i < profiles.len()
            invariant
                i <= profiles@.len(),
                summaries == profiles@.map_values(|p: LangProfile| profile_summary(p)),
                summaries == lang_table(),
                forall|k: int| 0 <= k < profiles@.len() ==> (#[trigger] profiles@[k]).file_names@.len() == 0,
                forall|j: int| 0 <= j < i ==> !some_ext_matches(#[trigger] lang_table()[j].1, path@),
            decreases profiles@.len() - i,
        {
            assert(summaries[i as int] == profile_summary(profiles@[i as int]));
            if profiles[i].matches_path(path) {
                assert(strs_view(profiles@[i as int].file_names@) =~= Seq::<Seq<char>>::empty());
                let p = profiles.remove(i);
                assert(is_first_table_match(i as int, path@));
                return Some(p);
            }
            i = i + 1;
        }
        None
    }
}

} // verus!
