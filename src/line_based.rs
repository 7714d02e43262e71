//! The line-based three-way merge that the structured strategies are
//! measured against.

use vstd::prelude::*;
use crate::parsed_merge::{ParsedMerge, ParseMergeError, parse_spec, count_conflicts, total_mass, saturate, render_spec};
use crate::merge_result::{MergeResult, LINE_BASED_METHOD, with_final_newline, with_final_newline_spec};
use crate::settings::DisplaySettings;

verus! {

/// The text that the line-based merge gives for base, left and right, with
/// markers of the given size, in diff3 style or not.
pub uninterp spec fn line_merge_text(
    base: Seq<char>,
    left: Seq<char>,
    right: Seq<char>,
    marker_size: nat,
    diff3: bool,
) -> Seq<char>;

/// Relies on diffy_imara's `MergeOptions::merge` with the histogram algorithm:
/// the merged text, whether it has conflicts (`Err`) or not (`Ok`); it depends
/// on the arguments alone.
#[verifier::external_body]
fn diff3_merge(base: &str, left: &str, right: &str, marker_size: usize, diff3: bool) -> (r: String)
    ensures
        r@ == line_merge_text(base@, left@, right@, marker_size as nat, diff3),
{
    let mut options = diffy_imara::MergeOptions::new();
    options.set_conflict_marker_length(marker_size);
    options.set_conflict_style(
        if diff3 { diffy_imara::ConflictStyle::Diff3 } else { diffy_imara::ConflictStyle::Merge },
    );
    options.set_algorithm(diffy_imara::Algorithm::Histogram);
    match options.merge(base, left, right) {
        Ok(contents) | Err(contents) => contents,
    }
}

/// The result that a line-merged text stands for: its conflicts parsed, and
/// the text rendered again as `settings` says.
pub fn result_from_line_merge(merged: &str, settings: &DisplaySettings) -> (r: Result<MergeResult, ParseMergeError>)
    ensures
        match (r, parse_spec(merged@, settings.conflict_marker_size as nat)) {
            (Ok(res), Ok(chunks)) => {
                &&& res.contents@ == render_spec(chunks, *settings)
                &&& res.conflict_count == count_conflicts(chunks)
                &&& res.conflict_mass == saturate(total_mass(chunks))
                &&& res.method@ == LINE_BASED_METHOD@
                &&& !res.has_additional_issues
            },
            (Err(e), Err(e2)) => e == e2,
            _ => false,
        },
{
    match ParsedMerge::parse(merged, settings) {
        Ok(parsed_merge) => Ok(MergeResult {
            contents: parsed_merge.render(settings),
            conflict_count: parsed_merge.conflict_count(),
            conflict_mass: parsed_merge.conflict_mass(),
            method: LINE_BASED_METHOD,
            has_additional_issues: false,
        }),
        Err(e) => Err(e),
    }
}

/// Performs a textual merge with the diff3 algorithm, each revision ending with
/// a newline, and parses the conflicts of what it gives.
pub fn line_based_merge(
    contents_base: &str,
    contents_left: &str,
    contents_right: &str,
    settings: &DisplaySettings,
) -> (r: Result<MergeResult, ParseMergeError>)
    ensures
        ({
            let merged = line_merge_text(
                with_final_newline_spec(contents_base@),
                with_final_newline_spec(contents_left@),
                with_final_newline_spec(contents_right@),
                settings.conflict_marker_size as nat,
                settings.diff3,
            );
            match (r, parse_spec(merged, settings.conflict_marker_size as nat)) {
                (Ok(res), Ok(chunks)) => {
                    &&& res.contents@ == render_spec(chunks, *settings)
                    &&& res.conflict_count == count_conflicts(chunks)
                    &&& res.conflict_mass == saturate(total_mass(chunks))
                    &&& res.method@ == LINE_BASED_METHOD@
                    &&& !res.has_additional_issues
                },
                (Err(e), Err(e2)) => e == e2,
                _ => false,
            }
        }),
{
    let base = with_final_newline(contents_base);
    let left = with_final_newline(contents_left);
    let right = with_final_newline(contents_right);
    let merged = diff3_merge(
        base.as_str(),
        left.as_str(),
        right.as_str(),
        settings.conflict_marker_size,
        settings.diff3,
    );
    result_from_line_merge(merged.as_str(), settings)
}

} // verus!
