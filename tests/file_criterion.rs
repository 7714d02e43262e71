use mergiraf::file_criterion::FileCriterion;
use mergiraf::lang_profile::LangProfile;

#[test]
fn by_ext() {
    let criterion = FileCriterion::ByExt("rs");
    assert!(criterion.matches("/home/user/lib.rs"));
    assert!(!criterion.matches("path/to/rs"));
    assert_eq!(criterion.to_string(), "*.rs");
    assert_eq!(criterion.as_alternate_name(), "rs");
}

#[test]
fn by_name() {
    let criterion = FileCriterion::ByName("Makefile");
    assert!(criterion.matches("/tmp/Makefile"));
    assert!(!criterion.matches("Makefile.in"));
    assert_eq!(criterion.to_string(), "Makefile");
    assert_eq!(criterion.as_alternate_name(), "Makefile");
}

#[test]
fn by_ext_ignores_ascii_case() {
    let criterion = FileCriterion::ByExt("java");
    assert!(criterion.matches("src/Main.JAVA"));
    assert!(criterion.matches("Main.Java"));
    assert!(!criterion.matches("Main.javax"));
}

#[test]
fn by_ext_needs_a_dot_after_the_first_character() {
    let criterion = FileCriterion::ByExt("rs");
    assert!(!criterion.matches(".rs"));
    assert!(!criterion.matches("dir.rs/file"));
    assert!(criterion.matches("a.b.rs"));
    assert!(!criterion.matches(""));
}

#[test]
fn by_name_reads_the_last_component_as_path_does() {
    let criterion = FileCriterion::ByName("Makefile");
    assert!(criterion.matches("Makefile"));
    assert!(criterion.matches("/tmp/Makefile/"));
    assert!(criterion.matches("/tmp/Makefile/."));
    assert!(criterion.matches("./Makefile//./"));
    assert!(!criterion.matches("GNUMakefile"));
    assert!(!criterion.matches("Makefile/.."));
    let dots = FileCriterion::ByName("..");
    assert!(!dots.matches("a/.."));
    assert!(!FileCriterion::ByName(".").matches("."));
}

#[test]
fn by_ext_reads_the_last_component_as_path_does() {
    let criterion = FileCriterion::ByExt("rs");
    assert!(criterion.matches("src/lib.rs/"));
    assert!(criterion.matches("src/lib.rs/."));
    assert!(!criterion.matches("/"));
    assert!(!criterion.matches("lib.rs/.."));
}

#[test]
fn detect_language_from_extension() {
    let profile = LangProfile::detect_from_filename("src/lib.rs").unwrap();
    assert_eq!(profile.name, "Rust");
    let profile = LangProfile::detect_from_filename("a/b/Page.HTM").unwrap();
    assert_eq!(profile.name, "HTML");
    let profile = LangProfile::detect_from_filename("conflicted.py").unwrap();
    assert_eq!(profile.name, "Python");
    assert!(LangProfile::detect_from_filename("notes.txt").is_none());
    assert!(LangProfile::detect_from_filename("rs").is_none());
}
