use mergiraf::class_mapping::{create_class_mapping, is_unchanged, RevisionSet};
use mergiraf::merge_3dm::{children_of, find_conflict, merge_pcs, pcs_of_tree, SENTINEL};
use mergiraf::pcs::Revision;
use mergiraf::tree::{Ast, AstNode};

fn leaf(kind: &str, leading: &str, text: &str) -> AstNode {
    AstNode {
        kind: kind.to_string(),
        leading: leading.to_string(),
        text: text.to_string(),
        signature: String::new(),
        children: vec![],
    }
}

fn node(kind: &str, children: Vec<usize>) -> AstNode {
    AstNode { kind: kind.to_string(), leading: String::new(), text: String::new(), signature: String::new(), children }
}

/// `x+y` with the given spacing and last operand.
fn sum(space: &str, last: &str) -> Ast {
    Ast {
        nodes: vec![
            leaf("identifier", "", "x"),
            leaf("+", space, "+"),
            leaf("identifier", space, last),
            node("binary_expression", vec![0, 1, 2]),
        ],
    }
}

#[test]
fn source_and_isomorphism_of_trees() {
    let base = sum("", "y");
    let left = sum(" ", "y");
    let right = sum("", "z");
    assert_eq!(base.source(3), "x+y");
    assert_eq!(left.source(3), "x + y");
    assert!(base.isomorphic_to(3, &left, 3));
    assert!(!base.isomorphic_to(3, &right, 3));
    assert!(base.isomorphic_to(0, &right, 0));
    assert!(!base.isomorphic_to(0, &right, 3));
}

#[test]
fn leaders_follow_the_base_then_the_left() {
    // base has 2 nodes, left 3, right 3
    let cm = create_class_mapping(2, 3, 3, &vec![(0, 1), (1, 2)], &vec![(1, 0)], &vec![(0, 1), (2, 2)]);
    assert_eq!(cm.map_to_leader(Revision::Base, 0), 1);
    assert_eq!(cm.map_to_leader(Revision::Base, 1), 4);
    // left 1 and 2 are matched to base 0 and 1; left 0 is new
    assert_eq!(cm.map_to_leader(Revision::Left, 1), 1);
    assert_eq!(cm.map_to_leader(Revision::Left, 2), 4);
    assert_eq!(cm.map_to_leader(Revision::Left, 0), 2);
    // right 0 is matched to base 1; right 1 to left 0, which is new; right 2 to left 2,
    // which comes from the base: that edge is not followed
    assert_eq!(cm.map_to_leader(Revision::Right, 0), 4);
    assert_eq!(cm.map_to_leader(Revision::Right, 1), 2);
    assert_eq!(cm.map_to_leader(Revision::Right, 2), 3 * 2 + 2 + 1);
    assert_eq!(cm.node_at_rev(4, Revision::Left), Some(2));
    assert_eq!(cm.node_at_rev(2, Revision::Base), None);
    assert_eq!(cm.revision_set(4), RevisionSet { base: true, left: true, right: true });
    assert_eq!(cm.revision_set(2), RevisionSet { base: false, left: true, right: true });
}

#[test]
fn unchanged_needs_isomorphic_nodes_in_all_revisions() {
    let base = sum("", "y");
    let left = sum(" ", "y");
    let right = sum("", "z");
    let all = vec![(0, 0), (1, 1), (2, 2), (3, 3)];
    let cm = create_class_mapping(4, 4, 4, &all, &all, &all);
    let root = cm.map_to_leader(Revision::Base, 3);
    assert!(!is_unchanged(root, &cm, &base, &left, &right));
    assert!(is_unchanged(cm.map_to_leader(Revision::Base, 0), &cm, &base, &left, &right));
    assert!(is_unchanged(root, &cm, &base, &left, &base));
}

#[test]
fn formatting_only_change_merges_trees_without_conflict() {
    let base = sum("", "y");
    let left = sum(" ", "y");
    let right = sum("", "z");
    // y and z are not matched: z is new on the right
    let bl = vec![(0, 0), (1, 1), (2, 2), (3, 3)];
    let br = vec![(0, 0), (1, 1), (3, 3)];
    let lr = vec![(0, 0), (1, 1), (3, 3)];
    let cm = create_class_mapping(4, 4, 4, &bl, &br, &lr);
    let merged = merge_pcs(
        &pcs_of_tree(&cm.base, &base),
        &pcs_of_tree(&cm.left, &left),
        &pcs_of_tree(&cm.right, &right),
    );
    assert!(find_conflict(&merged, &vec![]).is_none());
    let root = cm.map_to_leader(Revision::Base, 3);
    let z = cm.map_to_leader(Revision::Right, 2);
    assert_eq!(children_of(&merged, root), Some(vec![1, 4, z]));
    assert_eq!(children_of(&merged, z), Some(vec![]));
    assert!(z != SENTINEL);
}
