use std::collections::HashSet;

use mergiraf::languages;

const SUPPORTED_LANGS: &str = "\
*.java merge=mergiraf
*.rs merge=mergiraf
*.go merge=mergiraf
*.js merge=mergiraf
*.jsx merge=mergiraf
*.mjs merge=mergiraf
*.json merge=mergiraf
*.yml merge=mergiraf
*.yaml merge=mergiraf
*.toml merge=mergiraf
*.html merge=mergiraf
*.htm merge=mergiraf
*.xhtml merge=mergiraf
*.xml merge=mergiraf
*.c merge=mergiraf
*.h merge=mergiraf
*.cc merge=mergiraf
*.cpp merge=mergiraf
*.hpp merge=mergiraf
*.cs merge=mergiraf
*.py merge=mergiraf
*.ts merge=mergiraf
";

#[test]
fn languages_gitattributes() {
    let supported_langs = languages(true);
    // put both into sets to ignore ordering
    let supported_langs: HashSet<_> = supported_langs.lines().collect();
    let expected: HashSet<_> = SUPPORTED_LANGS.lines().collect();
    assert_eq!(
        supported_langs,
        expected,
        "The following extensions are missing from the list: {:?}",
        supported_langs.difference(&expected)
    );
}

#[test]
fn languages_for_people() {
    let listed = languages(false);
    let lines: Vec<&str> = listed.lines().collect();
    assert_eq!(lines.len(), 13);
    assert_eq!(lines[0], "Java (*.java)");
    assert_eq!(lines[3], "Javascript (*.js, *.jsx, *.mjs)");
    assert_eq!(lines[9], "C/C++ (*.c, *.h, *.cc, *.cpp, *.hpp)");
    assert!(listed.ends_with("Typescript (*.ts)\n"));
}
