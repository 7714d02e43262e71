use mergiraf::merge_result::FULLY_STRUCTURED_METHOD;
use mergiraf::merged_tree::{structured_merge, Revisions};
use mergiraf::settings::DisplaySettings;
use mergiraf::tree::{Ast, AstNode};

/// A node of a test tree: nodes with the same name are matched across revisions.
enum N {
    Leaf(&'static str, &'static str, &'static str, &'static str),
    Signed(&'static str, &'static str, &'static str, &'static str, &'static str),
    Inner(&'static str, &'static str, Vec<N>),
}

fn push(n: &N, nodes: &mut Vec<AstNode>, names: &mut Vec<&'static str>) -> usize {
    match n {
        N::Leaf(name, kind, leading, text) => {
            nodes.push(AstNode {
                kind: kind.to_string(),
                leading: leading.to_string(),
                text: text.to_string(),
                signature: String::new(),
                children: vec![],
            });
            names.push(name);
        }
        N::Signed(name, kind, leading, text, signature) => {
            nodes.push(AstNode {
                kind: kind.to_string(),
                leading: leading.to_string(),
                text: text.to_string(),
                signature: signature.to_string(),
                children: vec![],
            });
            names.push(name);
        }
        N::Inner(name, kind, children) => {
            let idx: Vec<usize> = children.iter().map(|c| push(c, nodes, names)).collect();
            nodes.push(AstNode {
                kind: kind.to_string(),
                leading: String::new(),
                text: String::new(),
                signature: String::new(),
                children: idx,
            });
            names.push(name);
        }
    }
    nodes.len() - 1
}

fn tree(n: &N) -> (Ast, Vec<&'static str>) {
    let mut nodes = Vec::new();
    let mut names = Vec::new();
    push(n, &mut nodes, &mut names);
    (Ast { nodes }, names)
}

fn matching(a: &[&'static str], b: &[&'static str]) -> Vec<(usize, usize)> {
    let mut m = Vec::new();
    for (i, x) in a.iter().enumerate() {
        if let Some(j) = b.iter().position(|y| y == x) {
            m.push((i, j));
        }
    }
    m
}

fn merge_with(base: &N, left: &N, right: &N, commutative: &[&str]) -> mergiraf::merge_result::MergeResult {
    merge_kinds(base, left, right, commutative, &[])
}

fn merge_kinds(
    base: &N,
    left: &N,
    right: &N,
    commutative: &[&str],
    atomic: &[&str],
) -> mergiraf::merge_result::MergeResult {
    let (b, bn) = tree(base);
    let (l, ln) = tree(left);
    let (r, rn) = tree(right);
    let kinds = commutative.iter().map(|k| k.to_string()).collect();
    let atoms = atomic.iter().map(|k| k.to_string()).collect();
    let revs = Revisions::new(b, l, r, &matching(&bn, &ln), &matching(&bn, &rn), &matching(&ln, &rn), kinds, atoms);
    structured_merge(&revs, &DisplaySettings::new())
}

fn merge(base: &N, left: &N, right: &N) -> mergiraf::merge_result::MergeResult {
    merge_with(base, left, right, &[])
}

fn leaf(name: &'static str, kind: &'static str, leading: &'static str, text: &'static str) -> N {
    N::Leaf(name, kind, leading, text)
}

fn function(p: &'static str, name: &'static str, leading: &'static str, body: Vec<N>) -> N {
    let names: [&'static str; 4] = match p {
        "a" => ["a.fn", "a.name", "a.params", "a.body"],
        _ => ["b.fn", "b.name", "b.params", "b.body"],
    };
    N::Inner(
        if p == "a" { "a" } else { "b" },
        "function_item",
        vec![
            leaf(names[0], "fn", leading, "fn"),
            leaf(names[1], "identifier", " ", name),
            leaf(names[2], "parameters", "", "()"),
            N::Inner(names[3], "block", body),
        ],
    )
}

fn file(items: Vec<N>) -> N {
    let mut children = items;
    children.push(leaf("eof", "end", "\n", ""));
    N::Inner("file", "source_file", children)
}

#[test]
fn identical_revisions_merge_to_themselves() {
    let x = || file(vec![function("a", "a", "", vec![leaf("a.o", "{", "", "{"), leaf("a.c", "}", "", "}")])]);
    let r = merge(&x(), &x(), &x());
    assert_eq!(r.contents, "fn a(){}\n");
    assert_eq!(r.conflict_count, 0);
    assert_eq!(r.method, FULLY_STRUCTURED_METHOD);
}

#[test]
fn disjoint_edits_in_two_functions() {
    let base = file(vec![
        function("a", "a", "", vec![leaf("a.o", "{", "", "{"), leaf("a.c", "}", "", "}")]),
        function("b", "b", "\n", vec![leaf("b.o", "{", "", "{"), leaf("b.c", "}", "", "}")]),
    ]);
    let left = file(vec![
        function("a", "a", "", vec![leaf("a.o", "{", "", "{"), leaf("x", "identifier", " ", "x"), leaf("a.c", "}", " ", "}")]),
        function("b", "b", "\n", vec![leaf("b.o", "{", "", "{"), leaf("b.c", "}", "", "}")]),
    ]);
    let right = file(vec![
        function("a", "a", "", vec![leaf("a.o", "{", "", "{"), leaf("a.c", "}", "", "}")]),
        function("b", "b", "\n", vec![leaf("b.o", "{", "", "{"), leaf("y", "identifier", " ", "y"), leaf("b.c", "}", " ", "}")]),
    ]);
    let r = merge(&base, &left, &right);
    assert_eq!(r.contents, "fn a(){ x }\nfn b(){ y }\n");
    assert_eq!(r.conflict_count, 0);
    assert_eq!(r.conflict_mass, 0);
}

#[test]
fn same_slot_insertions_in_a_list_conflict() {
    let list = |extra: Option<N>| {
        let mut items = vec![leaf("open", "[", "", "["), leaf("one", "number", "", "1"), leaf("c1", ",", "", ",")];
        if let Some(e) = extra {
            items.push(e);
            items.push(leaf("c2", ",", "", ","));
        }
        items.push(leaf("two", "number", "", "2"));
        items.push(leaf("close", "]", "", "]"));
        N::Inner("list", "array", items)
    };
    let base = list(None);
    let left = list(Some(leaf("nine", "number", "", "9")));
    let right = list(Some(leaf("eight", "number", "", "8")));
    let r = merge(&base, &left, &right);
    assert_eq!(r.conflict_count, 1);
    assert_eq!(
        r.contents,
        "<<<<<<< left\n[1,9,2]\n||||||| base\n[1,2]\n=======\n[1,8,2]\n>>>>>>> right\n"
    );
    assert_eq!(r.conflict_mass, 8 + 6 + 8);
}

#[test]
fn delete_against_modify_conflicts_on_the_function() {
    let f = |call: &'static str, name: &'static str| {
        N::Inner(
            "f",
            "function_item",
            vec![
                leaf("f.fn", "fn", "", "fn"),
                leaf("f.name", "identifier", " ", "f"),
                leaf("f.params", "parameters", "", "()"),
                N::Inner("f.body", "block", vec![leaf("f.o", "{", "", "{"), leaf(name, "call", " ", call), leaf("f.c", "}", " ", "}")]),
            ],
        )
    };
    let base = N::Inner("file", "source_file", vec![f("a();", "a")]);
    let left = N::Inner("file", "source_file", vec![]);
    let right = N::Inner("file", "source_file", vec![f("b();", "b")]);
    let r = merge(&base, &left, &right);
    assert_eq!(r.conflict_count, 1);
    assert!(r.contents.contains("fn f(){ b(); }"));
    assert!(r.contents.contains("<<<<<<< left\n"));
}

#[test]
fn whitespace_change_and_edit_merge_without_conflict() {
    let sum = |space: &'static str, last: (&'static str, &'static str)| {
        N::Inner(
            "sum",
            "binary_expression",
            vec![leaf("x", "identifier", "", "x"), leaf("plus", "+", space, "+"), leaf(last.0, "identifier", space, last.1)],
        )
    };
    let base = sum("", ("y", "y"));
    let left = sum(" ", ("y", "y"));
    let right = sum("", ("z", "z"));
    let r = merge(&base, &left, &right);
    assert_eq!(r.conflict_count, 0);
    assert_eq!(r.contents.replace(' ', ""), "x+z");
}

#[test]
fn one_sided_change_is_taken() {
    let base = N::Inner("list", "array", vec![leaf("a", "n", "", "1"), leaf("b", "n", " ", "2")]);
    let changed = || N::Inner("list", "array", vec![leaf("a", "n", "", "1"), leaf("b", "n", " ", "2"), leaf("c", "n", " ", "3")]);
    let same = || N::Inner("list", "array", vec![leaf("a", "n", "", "1"), leaf("b", "n", " ", "2")]);
    assert_eq!(merge(&base, &same(), &changed()).contents, "1 2 3");
    assert_eq!(merge(&base, &changed(), &same()).contents, "1 2 3");
}

fn imports(names: &[&'static str]) -> N {
    let items = names
        .iter()
        .map(|n| {
            let name: &'static str = n;
            leaf(name, "import_declaration", "", match name {
                "A" => "import A;",
                "B" => "import B;",
                _ => "import C;",
            })
        })
        .collect();
    N::Inner("imports", "import_list", items)
}

#[test]
fn commutative_parent_takes_both_sides() {
    let base = imports(&["A", "B"]);
    let left = imports(&["A", "B", "C"]);
    let right = imports(&["B", "A"]);
    let r = merge_with(&base, &left, &right, &["import_list"]);
    assert_eq!(r.conflict_count, 0);
    assert_eq!(r.contents, "import A;import B;import C;");
    // without the commutative kind, the reordering conflicts with the insertion
    let r = merge(&base, &left, &right);
    assert_eq!(r.conflict_count, 1);
}

#[test]
fn atomic_node_changed_on_both_sides_conflicts_whole() {
    let string = |parts: &[(&'static str, &'static str)]| {
        N::Inner("s", "string", parts.iter().map(|(n, t)| leaf(n, "fragment", "", t)).collect())
    };
    let base = string(&[("a", "\"x"), ("q", "\"")]);
    let left = string(&[("a", "\"x"), ("l", "y"), ("q", "\"")]);
    let right = string(&[("a", "\"x"), ("q", "\""), ("r", "z")]);
    let r = merge_kinds(&base, &left, &right, &[], &["string"]);
    assert_eq!(r.conflict_count, 1);
    assert_eq!(r.contents, "<<<<<<< left\n\"xy\"\n||||||| base\n\"x\"\n=======\n\"x\"z\n>>>>>>> right\n");
    let r = merge_kinds(&base, &left, &right, &[], &[]);
    assert_eq!(r.conflict_count, 0);
    assert_eq!(r.contents, "\"xy\"z");
}

#[test]
fn atomic_node_changed_on_one_side_is_taken_whole() {
    let string = |parts: &[(&'static str, &'static str)]| {
        N::Inner("s", "string", parts.iter().map(|(n, t)| leaf(n, "fragment", "", t)).collect())
    };
    let base = string(&[("a", "\"x"), ("q", "\"")]);
    let right = string(&[("a", "\"x"), ("q", "\""), ("r", "z")]);
    let r = merge_kinds(&base, &string(&[("a", "\"x"), ("q", "\"")]), &right, &[], &["string"]);
    assert_eq!(r.conflict_count, 0);
    assert_eq!(r.contents, "\"x\"z");
}

fn class(methods: Vec<N>) -> N {
    N::Inner(
        "class",
        "class_declaration",
        vec![
            leaf("kw", "class", "", "class"),
            leaf("name", "identifier", " ", "C"),
            leaf("open", "{", "", "{"),
            N::Inner("members", "class_body", methods),
            leaf("close", "}", " ", "}"),
        ],
    )
}

#[test]
fn duplicate_signature_is_an_additional_issue() {
    let m = || N::Signed("m", "method", " ", "void m(){}", "m()");
    let base = class(vec![m()]);
    let left = class(vec![m(), N::Signed("mx", "method", " ", "void m(int x){}", "m(int)")]);
    let right = class(vec![m(), N::Signed("my", "method", " ", "void m(int y){}", "m(int)")]);
    let r = merge_with(&base, &left, &right, &["class_body"]);
    assert_eq!(r.contents, "class C{ void m(){} void m(int x){} void m(int y){} }");
    assert_eq!(r.conflict_count, 0);
    assert!(r.has_additional_issues);
    let clean = class(vec![m(), N::Signed("my", "method", " ", "void n(int y){}", "n(int)")]);
    let r = merge_with(&base, &left, &clean, &["class_body"]);
    assert_eq!(r.conflict_count, 0);
    assert!(!r.has_additional_issues);
}
