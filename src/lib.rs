//! Syntax-aware three-way merging.
//!
//! Three versions of a file (base, left and right) are merged into a fourth
//! one that holds the changes of both sides. The structured merge works on
//! syntax trees: nodes of the three revisions are put in classes
//! (`class_mapping`), each tree becomes a set of Parent–Child–Successor
//! triples (`merge_3dm`), the sets are merged, and the merged tree is built
//! and rendered with conflict markers where the sides disagree
//! (`merged_tree`). A line-based merge (`line_based`) is the fallback, and
//! the cascade in this module picks the best of the results (`merge_result`).

pub mod text;
pub mod newline;
pub mod settings;
pub mod parsed_merge;
pub mod pcs;
pub mod merge_result;
pub mod line_based;
pub mod file_criterion;
pub mod lang_profile;
pub mod merge_3dm;
pub mod tree;
pub mod class_mapping;
pub mod merged_tree;

use vstd::prelude::*;
use crate::lang_profile::{LangProfile, supported_languages, lang_table, some_ext_matches};
use crate::merge_result::{MergeResult, FROM_PARSED_ORIGINAL, NO_SOLUTION, best_solve_spec, select_best_solve};
use crate::parsed_merge::{ParsedMerge, Chunk, parse_spec, render_spec, count_conflicts, total_mass, saturate};
use crate::settings::DisplaySettings;
use crate::text::{chars_of, string_of, push_all};

pub use crate::file_criterion::FileCriterion;

verus! {

/// One line of the gitattributes list: `*.`, the extension, ` merge=mergiraf`.
pub open spec fn gitattributes_lines(exts: Seq<Seq<char>>) -> Seq<char>
    decreases exts.len(),
{
    if exts.len() == 0 {
        Seq::empty()
    } else {
        gitattributes_lines(exts.drop_last()) + seq!['*', '.'] + exts.last() + " merge=mergiraf"@ + seq!['\n']
    }
}

/// The extensions as a list for people: `*.a, *.b`.
pub open spec fn extension_list(exts: Seq<Seq<char>>) -> Seq<char>
    decreases exts.len(),
{
    if exts.len() == 0 {
        Seq::empty()
    } else if exts.len() == 1 {
        seq!['*', '.'] + exts[0]
    } else {
        extension_list(exts.drop_last()) + seq![',', ' ', '*', '.'] + exts.last()
    }
}

/// The text that lists the languages of `table`.
pub open spec fn languages_text(table: Seq<(Seq<char>, Seq<Seq<char>>)>, gitattributes: bool) -> Seq<char>
    decreases table.len(),
{
    if table.len() == 0 {
        Seq::empty()
    } else {
        let (name, exts) = table.last();
        languages_text(table.drop_last(), gitattributes) + if gitattributes {
            gitattributes_lines(exts)
        } else {
            name + seq![' ', '('] + extension_list(exts) + seq![')', '\n']
        }
    }
}

/// The list of supported languages, either in the format understood by
/// `.gitattributes`, or in a more human-readable format.
pub fn languages(gitattributes: bool) -> (r: String)
    ensures
        r@ == languages_text(lang_table(), gitattributes),
{
    let profiles = supported_languages();
    let ghost table = profiles@.map_values(|p: LangProfile| lang_profile::profile_summary(p));
    let suffix = chars_of(" merge=mergiraf");
    let mut out: Vec<char> = Vec::new();
    let mut i: usize = 0;
    while i < profiles.len()
        invariant
            i <= profiles@.len(),
            table == profiles@.map_values(|p: LangProfile| lang_profile::profile_summary(p)),
            table == lang_table(),
            suffix@ == " merge=mergiraf"@,
            out@ == languages_text(table.subrange(0, i as int), gitattributes),
        decreases profiles@.len() - i,
    {
        assert(table.subrange(0, i + 1).drop_last() =~= table.subrange(0, i as int));
        let exts = &profiles[i].extensions;
        let ghost ev = lang_profile::strs_view(exts@);
        assert(table[i as int] == (profiles@[i as int].name@, ev));
        let mut j: usize = 0;
        if gitattributes {
            while j < exts.len()
                invariant
                    j <= exts@.len(),
                    ev == lang_profile::strs_view(exts@),
                    suffix@ == " merge=mergiraf"@,
                    out@ == languages_text(table.subrange(0, i as int), gitattributes) + gitattributes_lines(
                        ev.subrange(0, j as int),
                    ),
                decreases exts@.len() - j,
            {
                assert(ev.subrange(0, j + 1).drop_last() =~= ev.subrange(0, j as int));
                let ghost before = out@;
                out.push('*');
                out.push('.');
                push_all(&mut out, &chars_of(exts[j]));
                push_all(&mut out, &suffix);
                out.push('\n');
                assert(out@ =~= before + seq!['*', '.'] + ev[j as int] + " merge=mergiraf"@ + seq!['\n']);
                j = j + 1;
            }
            assert(ev.subrange(0, j as int) =~= ev);
        } else {
            push_all(&mut out, &chars_of(profiles[i].name));
            out.push(' ');
            out.push('(');
            while j < exts.len()
                invariant
                    j <= exts@.len(),
                    ev == lang_profile::strs_view(exts@),
                    out@ == languages_text(table.subrange(0, i as int), gitattributes) + profiles@[i as int].name@
                        + seq![' ', '('] + extension_list(ev.subrange(0, j as int)),
                decreases exts@.len() - j,
            {
                assert(ev.subrange(0, j + 1).drop_last() =~= ev.subrange(0, j as int));
                let ghost before = out@;
                if j > 0 {
                    out.push(',');
                    out.push(' ');
                }
                out.push('*');
                out.push('.');
                push_all(&mut out, &chars_of(exts[j]));
                if j == 0 {
                    assert(ev.subrange(0, 1) =~= seq![ev[0]]);
                    assert(out@ =~= before + seq!['*', '.'] + ev[0]);
                } else {
                    assert(out@ =~= before + seq![',', ' ', '*', '.'] + ev[j as int]);
                }
                j = j + 1;
            }
            assert(ev.subrange(0, j as int) =~= ev);
            out.push(')');
            out.push('\n');
        }
        i = i + 1;
    }
    assert(table.subrange(0, i as int) =~= table);
    string_of(&out)
}

/// Whether `m` renders the parsed conflicts `chunks` again, unchanged.
pub open spec fn is_rendered_original(m: MergeResult, chunks: Seq<Chunk>, settings: DisplaySettings) -> bool {
    &&& m.contents@ == render_spec(chunks, settings)
    &&& m.conflict_count == count_conflicts(chunks)
    &&& m.conflict_mass == saturate(total_mass(chunks))
    &&& m.method@ == FROM_PARSED_ORIGINAL@
    &&& !m.has_additional_issues
}

/// The results that are present, in order.
pub open spec fn present(a: Option<MergeResult>, b: Option<MergeResult>, c: Option<MergeResult>) -> Seq<MergeResult> {
    let sa = match a { Some(x) => seq![x], None => Seq::empty() };
    let sb = match b { Some(x) => seq![x], None => Seq::empty() };
    let sc = match c { Some(x) => seq![x], None => Seq::empty() };
    sa + sb + sc
}

/// Whether the language of the file at `path` is supported.
pub open spec fn language_known(path: Seq<char>) -> bool {
    exists|i: int| 0 <= i < lang_table().len() && some_ext_matches(#[trigger] lang_table()[i].1, path)
}

fn push_some(v: &mut Vec<MergeResult>, m: Option<MergeResult>)
    ensures
        final(v)@ == old(v)@ + match m { Some(x) => seq![x], None => Seq::empty() },
{
    match m {
        Some(x) => {
            v.push(x);
        },
        None => {
            assert(v@ =~= old(v)@ + Seq::<MergeResult>::empty());
        },
    }
}

/// The start of the error given where the language of a file is not supported;
/// the file name follows.
pub const NO_LANGUAGE: &'static str = "Could not find a supported language for ";

/// Whether a result handed in from a structured merge is one such a merge can
/// give: it does not claim to render the original conflicts, and where it has
/// no conflicts it has no conflict mass.
pub open spec fn handed_in(m: Option<MergeResult>) -> bool {
    match m {
        Some(x) => x.method@ != FROM_PARSED_ORIGINAL@ && (x.conflict_count == 0 ==> x.conflict_mass == 0),
        None => true,
    }
}

/// Cascading merge resolution of a file with merge conflicts, given the
/// structured resolution of its conflicts and the structured merge of its
/// original revisions, where those could be made.
///
/// Each result handed in must be one that a structured merge can give.
/// The language must be known from `fname_base`. A structured resolution without
/// conflicts is returned at once. Otherwise the best of the structured results
/// and of the parsed conflicts rendered again is chosen; there is none where
/// only the latter is left.
pub fn resolve_merge_cascading(
    merge_contents: &str,
    fname_base: &str,
    settings: DisplaySettings,
    structured_resolution: Option<MergeResult>,
    full_structured_merge: Option<MergeResult>,
) -> (r: Result<MergeResult, String>)
    requires
        handed_in(structured_resolution),
        handed_in(full_structured_merge),
    ensures
        !language_known(fname_base@) ==> (r matches Err(e) && e@ == NO_LANGUAGE@ + fname_base@),
        language_known(fname_base@) ==> match parse_spec(merge_contents@, settings.conflict_marker_size as nat) {
            Ok(chunks) => match structured_resolution {
                Some(s) if s.conflict_count == 0 => r == Ok::<MergeResult, String>(s),
                _ => exists|orig: MergeResult| {
                    &&& #[trigger] is_rendered_original(orig, chunks, settings)
                    &&& match r {
                        Ok(best) => best_solve_spec(present(structured_resolution, Some(orig), full_structured_merge)) == Some(best),
                        Err(e) => best_solve_spec(present(structured_resolution, Some(orig), full_structured_merge)) is None
                            && e@ == NO_SOLUTION@,
                    }
                },
            },
            Err(_) => match r {
                Ok(best) => best_solve_spec(present(None, None, full_structured_merge)) == Some(best),
                Err(e) => best_solve_spec(present(None, None, full_structured_merge)) is None && e@ == NO_SOLUTION@,
            },
        },
{
    match LangProfile::detect_from_filename(fname_base) {
        None => {
            let mut message = chars_of(NO_LANGUAGE);
            push_all(&mut message, &chars_of(fname_base));
            return Err(string_of(&message));
        },
        Some(_) => {},
    }
    let mut solves: Vec<MergeResult> = Vec::new();
    let ghost mut orig: Option<MergeResult> = None;
    let ghost mut resolution: Option<MergeResult> = None;
    let ghost full = full_structured_merge;
    match ParsedMerge::parse(merge_contents, &settings) {
        Err(_) => {
            push_some(&mut solves, None);
            push_some(&mut solves, None);
        },
        Ok(parsed_merge) => {
            let resolved_cleanly = match &structured_resolution {
                Some(s) => s.conflict_count == 0,
                None => false,
            };
            if resolved_cleanly {
                return Ok(structured_resolution.unwrap());
            }
            proof {
                resolution = structured_resolution;
            }
            push_some(&mut solves, structured_resolution);
            let rendered_from_parsed = MergeResult {
                contents: parsed_merge.render(&settings),
                conflict_count: parsed_merge.conflict_count(),
                conflict_mass: parsed_merge.conflict_mass(),
                method: FROM_PARSED_ORIGINAL,
                has_additional_issues: false,
            };
            proof {
                orig = Some(rendered_from_parsed);
            }
            push_some(&mut solves, Some(rendered_from_parsed));
        },
    }
    push_some(&mut solves, full_structured_merge);
    assert(solves@ =~= present(resolution, orig, full));
    let r = select_best_solve(solves);
    proof {
        if let Some(o) = orig {
            assert(is_rendered_original(o, parse_spec(merge_contents@, settings.conflict_marker_size as nat)->Ok_0, settings));
        }
    }
    r
}

} // verus!
