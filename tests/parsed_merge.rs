use mergiraf::parsed_merge::{MergedChunk, ParseMergeError, ParsedMerge};
use mergiraf::pcs::Revision;
use mergiraf::settings::DisplaySettings;

const CONFLICTED: &str = "line 1
<<<<<<< ours
line 2 from ours
||||||| base
line 2 from base
=======
line 2 from theirs
>>>>>>> theirs
line 3
";

#[test]
fn parse_splits_resolved_and_conflicting_chunks() {
    let parsed = ParsedMerge::parse(CONFLICTED, &DisplaySettings::new()).unwrap();
    assert_eq!(parsed.chunks.len(), 3);
    match &parsed.chunks[0] {
        MergedChunk::Resolved { contents } => assert_eq!(contents, "line 1\n"),
        _ => panic!("expected a resolved chunk"),
    }
    match &parsed.chunks[1] {
        MergedChunk::Conflict { left, base, right } => {
            assert_eq!(left, "line 2 from ours\n");
            assert_eq!(base, "line 2 from base\n");
            assert_eq!(right, "line 2 from theirs\n");
        }
        _ => panic!("expected a conflict"),
    }
    assert_eq!(parsed.conflict_count(), 1);
    assert_eq!(parsed.conflict_mass(), 17 + 17 + 19);
}

#[test]
fn render_uses_the_revision_names_of_the_settings() {
    let parsed = ParsedMerge::parse(CONFLICTED, &DisplaySettings::new()).unwrap();
    assert_eq!(
        parsed.render(&DisplaySettings::new()),
        "line 1\n<<<<<<< left\nline 2 from ours\n||||||| base\nline 2 from base\n=======\nline 2 from theirs\n>>>>>>> right\nline 3\n"
    );
    let mut diff2 = DisplaySettings::new();
    diff2.diff3 = false;
    diff2.conflict_marker_size = 3;
    assert_eq!(
        parsed.render(&diff2),
        "line 1\n<<< left\nline 2 from ours\n===\nline 2 from theirs\n>>> right\nline 3\n"
    );
}

#[test]
fn reconstruct_each_revision() {
    let parsed = ParsedMerge::parse(CONFLICTED, &DisplaySettings::new()).unwrap();
    assert_eq!(parsed.reconstruct_revision(Revision::Left), "line 1\nline 2 from ours\nline 3\n");
    assert_eq!(parsed.reconstruct_revision(Revision::Base), "line 1\nline 2 from base\nline 3\n");
    assert_eq!(parsed.reconstruct_revision(Revision::Right), "line 1\nline 2 from theirs\nline 3\n");
}

#[test]
fn text_without_conflicts_is_one_chunk() {
    let parsed = ParsedMerge::parse("a\nb", &DisplaySettings::new()).unwrap();
    assert_eq!(parsed.chunks.len(), 1);
    assert_eq!(parsed.conflict_count(), 0);
    assert_eq!(parsed.conflict_mass(), 0);
    assert_eq!(parsed.render(&DisplaySettings::new()), "a\nb");
    let empty = ParsedMerge::parse("", &DisplaySettings::new()).unwrap();
    assert_eq!(empty.chunks.len(), 0);
}

#[test]
fn markers_of_another_size_are_text() {
    let text = "<<<<<<<< x\ny\n";
    let parsed = ParsedMerge::parse(text, &DisplaySettings::new()).unwrap();
    assert_eq!(parsed.conflict_count(), 0);
    assert_eq!(parsed.render(&DisplaySettings::new()), text);
}

#[test]
fn conflict_mass_counts_bytes() {
    let text = "<<<<<<< a\né\n||||||| b\n=======\n€\n>>>>>>> c\n";
    let parsed = ParsedMerge::parse(text, &DisplaySettings::new()).unwrap();
    assert_eq!(parsed.conflict_mass(), 3 + 0 + 4);
}

#[test]
fn diff2_conflicts_are_refused() {
    let text = "<<<<<<< a\nx\n=======\ny\n>>>>>>> b\n";
    assert!(matches!(
        ParsedMerge::parse(text, &DisplaySettings::new()),
        Err(ParseMergeError::Diff2Detected)
    ));
}

#[test]
fn unterminated_or_misplaced_markers_are_refused() {
    let unterminated = "<<<<<<< a\nx\n||||||| b\ny\n";
    assert!(matches!(
        ParsedMerge::parse(unterminated, &DisplaySettings::new()),
        Err(ParseMergeError::Malformed)
    ));
    let nested = "<<<<<<< a\n<<<<<<< b\n";
    assert!(matches!(
        ParsedMerge::parse(nested, &DisplaySettings::new()),
        Err(ParseMergeError::Malformed)
    ));
}
