use mergiraf::merge_result::{
    has_duplicate_signatures, select_best_solve, with_final_newline, MergeResult, FROM_PARSED_ORIGINAL, FULLY_STRUCTURED_METHOD,
    LINE_BASED_METHOD, STRUCTURED_RESOLUTION_METHOD,
};
use mergiraf::parsed_merge::ParsedMerge;
use mergiraf::resolve_merge_cascading;
use mergiraf::settings::DisplaySettings;

fn result(contents: &str, count: usize, mass: usize, method: &'static str, issues: bool) -> MergeResult {
    MergeResult {
        contents: contents.to_string(),
        conflict_count: count,
        conflict_mass: mass,
        method,
        has_additional_issues: issues,
    }
}

#[test]
fn final_newline_is_added_once() {
    assert_eq!(with_final_newline("abc"), "abc\n");
    assert_eq!(with_final_newline("abc\n"), "abc\n");
    assert_eq!(with_final_newline(""), "\n");
}

#[test]
fn best_solve_prefers_no_issues_then_smaller_mass() {
    let solves = vec![
        result("a", 1, 5, LINE_BASED_METHOD, false),
        result("b", 1, 3, FULLY_STRUCTURED_METHOD, true),
        result("c", 1, 4, STRUCTURED_RESOLUTION_METHOD, false),
    ];
    let best = select_best_solve(solves).unwrap();
    assert_eq!(best.contents, "c");
    assert_eq!(best.conflict_mass, 4);
}

#[test]
fn best_solve_keeps_the_first_of_equals() {
    let solves = vec![
        result("first", 1, 4, STRUCTURED_RESOLUTION_METHOD, false),
        result("second", 1, 4, FULLY_STRUCTURED_METHOD, false),
    ];
    assert_eq!(select_best_solve(solves).unwrap().contents, "first");
}

#[test]
fn best_solve_falls_back_to_issues_when_all_have_them() {
    let solves = vec![
        result("a", 2, 9, STRUCTURED_RESOLUTION_METHOD, true),
        result("b", 1, 2, FULLY_STRUCTURED_METHOD, true),
    ];
    assert_eq!(select_best_solve(solves).unwrap().contents, "b");
}

#[test]
fn no_solve_from_nothing_or_from_the_original_alone() {
    assert_eq!(select_best_solve(Vec::new()).unwrap_err(), "Could not generate any solution");
    let solves = vec![
        result("orig", 1, 2, FROM_PARSED_ORIGINAL, false),
        result("worse", 1, 7, FULLY_STRUCTURED_METHOD, false),
    ];
    assert!(select_best_solve(solves).is_err());
}

#[test]
fn from_parsed_merge_assumes_issues() {
    let parsed = ParsedMerge::parse("x\n", &DisplaySettings::new()).unwrap();
    let res = MergeResult::from_parsed_merge(&parsed, &DisplaySettings::new());
    assert_eq!(res.contents, "x\n");
    assert_eq!(res.conflict_count, 0);
    assert_eq!(res.method, LINE_BASED_METHOD);
    assert!(res.has_additional_issues);
}

const CONFLICTED: &str = "line 1
<<<<<<< ours
line 2 from ours
||||||| base
line 2 from base
=======
line 2 from theirs
>>>>>>> theirs
line 3
";

#[test]
fn cascading_needs_a_known_language() {
    let r = resolve_merge_cascading(CONFLICTED, "notes.txt", DisplaySettings::new(), None, None);
    assert_eq!(r.unwrap_err(), "Could not find a supported language for notes.txt");
}

#[test]
fn cascading_returns_a_clean_resolution_at_once() {
    let clean = result("solved\n", 0, 0, STRUCTURED_RESOLUTION_METHOD, true);
    let other = result("other\n", 0, 0, FULLY_STRUCTURED_METHOD, false);
    let r = resolve_merge_cascading(CONFLICTED, "conflicted.py", DisplaySettings::new(), Some(clean), Some(other));
    assert_eq!(r.unwrap().contents, "solved\n");
}

#[test]
fn cascading_without_structured_results_has_no_solution() {
    let r = resolve_merge_cascading(CONFLICTED, "conflicted.py", DisplaySettings::new(), None, None);
    assert_eq!(r.unwrap_err(), "Could not generate any solution");
}

#[test]
fn cascading_picks_the_best_structured_result() {
    let partial = result("partial\n", 1, 10, STRUCTURED_RESOLUTION_METHOD, false);
    let full = result("full\n", 1, 20, FULLY_STRUCTURED_METHOD, false);
    let r = resolve_merge_cascading(CONFLICTED, "conflicted.py", DisplaySettings::new(), Some(partial), Some(full));
    assert_eq!(r.unwrap().contents, "partial\n");
    let full = result("full\n", 0, 0, FULLY_STRUCTURED_METHOD, false);
    let r = resolve_merge_cascading(CONFLICTED, "conflicted.py", DisplaySettings::new(), None, Some(full));
    assert_eq!(r.unwrap().contents, "full\n");
}

#[test]
fn cascading_keeps_the_original_when_it_is_smaller() {
    // the original conflict has a mass of 53 bytes
    let big = result("big\n", 1, 100, FULLY_STRUCTURED_METHOD, false);
    let r = resolve_merge_cascading(CONFLICTED, "conflicted.py", DisplaySettings::new(), None, Some(big));
    assert!(r.is_err());
}

#[test]
fn cascading_with_unparsable_conflicts_uses_the_full_merge() {
    let diff2 = "<<<<<<< a\nx\n=======\ny\n>>>>>>> b\n";
    let full = result("full\n", 1, 100, FULLY_STRUCTURED_METHOD, false);
    let r = resolve_merge_cascading(diff2, "a.rs", DisplaySettings::new(), None, Some(full));
    assert_eq!(r.unwrap().contents, "full\n");
}

#[test]
fn duplicate_signatures_are_found() {
    let sigs = vec!["m()".to_string(), "m(int)".to_string(), "m(int)".to_string()];
    assert!(has_duplicate_signatures(&sigs));
    let sigs = vec!["m()".to_string(), "m(int)".to_string()];
    assert!(!has_duplicate_signatures(&sigs));
    assert!(!has_duplicate_signatures(&vec![]));
}

#[test]
fn duplicate_signature_merge_has_additional_issues() {
    // class C keeps m() and gets m(int x) from the left and m(int y) from the right
    let merged = result("class C{ void m(){} void m(int x){} void m(int y){} }", 0, 0, FULLY_STRUCTURED_METHOD, false);
    let sigs = vec!["m()".to_string(), "m(int)".to_string(), "m(int)".to_string()];
    let flagged = merged.with_issues_found(&vec![has_duplicate_signatures(&sigs)]);
    assert!(flagged.has_additional_issues);
    assert_eq!(flagged.conflict_count, 0);
}

#[test]
fn solved_message_counts_conflicts() {
    let clean = result("x\n", 0, 0, FULLY_STRUCTURED_METHOD, false);
    assert_eq!(
        clean.solved_message(1, "abc").unwrap(),
        "Mergiraf: Solved 1 conflict. Review with: mergiraf review abc"
    );
    assert_eq!(
        clean.solved_message(12, "abc").unwrap(),
        "Mergiraf: Solved 12 conflicts. Review with: mergiraf review abc"
    );
    assert!(clean.solved_message(0, "abc").is_none());
    let conflicted = result("x\n", 1, 3, FULLY_STRUCTURED_METHOD, false);
    assert!(conflicted.solved_message(2, "abc").is_none());
}

#[test]
fn revisions_to_check_follow_the_conflicts() {
    let clean = result("x\n", 0, 0, FULLY_STRUCTURED_METHOD, false);
    assert_eq!(clean.revisions_to_check(&DisplaySettings::new()).unwrap(), vec!["x\n".to_string()]);
    let conflicted = result(
        "a\n<<<<<<< left\nL\n||||||| base\nB\n=======\nR\n>>>>>>> right\n",
        1,
        6,
        LINE_BASED_METHOD,
        false,
    );
    assert_eq!(
        conflicted.revisions_to_check(&DisplaySettings::new()).unwrap(),
        vec!["a\nB\n".to_string(), "a\nL\n".to_string(), "a\nR\n".to_string()]
    );
    let none = result("x\n", 0, 0, FULLY_STRUCTURED_METHOD, true).with_issues_found(&vec![false, false]);
    assert!(!none.has_additional_issues);
}
