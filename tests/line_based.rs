use mergiraf::line_based::{line_based_merge, result_from_line_merge};
use mergiraf::merge_result::LINE_BASED_METHOD;
use mergiraf::settings::DisplaySettings;

#[test]
fn line_merge_of_identical_revisions_is_the_revision() {
    let x = "fn a() {}\nfn b() {}\n";
    let r = line_based_merge(x, x, x, &DisplaySettings::new()).unwrap();
    assert_eq!(r.contents, x);
    assert_eq!(r.conflict_count, 0);
    assert_eq!(r.conflict_mass, 0);
    assert_eq!(r.method, LINE_BASED_METHOD);
    assert!(!r.has_additional_issues);
}

#[test]
fn line_merge_adds_the_final_newline() {
    let r = line_based_merge("a", "a", "a", &DisplaySettings::new()).unwrap();
    assert_eq!(r.contents, "a\n");
}

#[test]
fn line_merge_takes_the_only_changed_side() {
    let base = "a\nb\nc\n";
    let right = "a\nb\nc\nd\n";
    let r = line_based_merge(base, base, right, &DisplaySettings::new()).unwrap();
    assert_eq!(r.contents, right);
    let r = line_based_merge(base, right, base, &DisplaySettings::new()).unwrap();
    assert_eq!(r.contents, right);
}

#[test]
fn line_merge_combines_distant_changes() {
    let base = "a\nb\nc\nd\ne\n";
    let left = "a\nB\nc\nd\ne\n";
    let right = "a\nb\nc\nD\ne\n";
    let r = line_based_merge(base, left, right, &DisplaySettings::new()).unwrap();
    assert_eq!(r.contents, "a\nB\nc\nD\ne\n");
    assert_eq!(r.conflict_count, 0);
}

#[test]
fn line_merge_marks_conflicts_with_the_settings_names() {
    let r = line_based_merge("a\nb\nc\n", "a\nL\nc\n", "a\nR\nc\n", &DisplaySettings::new()).unwrap();
    assert_eq!(r.contents, "a\n<<<<<<< left\nL\n||||||| base\nb\n=======\nR\n>>>>>>> right\nc\n");
    assert_eq!(r.conflict_count, 1);
    assert_eq!(r.conflict_mass, 6);
}

#[test]
fn result_from_a_line_merged_text() {
    let merged = "<<<<<<< ours\n1\n||||||| original\n2\n=======\n3\n>>>>>>> theirs\n";
    let r = result_from_line_merge(merged, &DisplaySettings::new()).unwrap();
    assert_eq!(r.conflict_count, 1);
    assert_eq!(r.conflict_mass, 6);
    assert_eq!(r.contents, "<<<<<<< left\n1\n||||||| base\n2\n=======\n3\n>>>>>>> right\n");
    assert!(result_from_line_merge("<<<<<<< ours\n1\n", &DisplaySettings::new()).is_err());
}
