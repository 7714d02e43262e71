use mergiraf::merge_3dm::{
    build_pcs, children_of, find_conflict, find_orphan, merge_commutative_children, merge_pcs, PcsTriple, SENTINEL,
};

fn pcs(parent: u64, children: &[u64]) -> Vec<PcsTriple> {
    build_pcs(parent, &children.to_vec())
}

fn all(parts: &[Vec<PcsTriple>]) -> Vec<PcsTriple> {
    parts.iter().flatten().copied().collect()
}

fn sorted(mut v: Vec<PcsTriple>) -> Vec<(u64, u64, u64)> {
    let mut t: Vec<(u64, u64, u64)> = v.drain(..).map(|t| (t.parent, t.child, t.successor)).collect();
    t.sort();
    t
}

#[test]
fn triples_of_a_child_list() {
    let t = pcs(1, &[2, 3]);
    let got: Vec<(u64, u64, u64)> = t.iter().map(|t| (t.parent, t.child, t.successor)).collect();
    assert_eq!(got, vec![(1, SENTINEL, 2), (1, 2, 3), (1, 3, SENTINEL)]);
    let empty = pcs(7, &[]);
    assert_eq!(empty, vec![PcsTriple { parent: 7, child: SENTINEL, successor: SENTINEL }]);
}

#[test]
fn merging_a_revision_with_itself_gives_it_back() {
    let x = all(&[pcs(1, &[2, 3]), pcs(2, &[4]), pcs(3, &[])]);
    let merged = merge_pcs(&x, &x, &x);
    assert_eq!(sorted(merged), sorted(x));
}

#[test]
fn unchanged_side_gives_the_other_side() {
    let base = all(&[pcs(1, &[2, 3])]);
    let right = all(&[pcs(1, &[3, 2, 4])]);
    assert_eq!(sorted(merge_pcs(&base, &base, &right)), sorted(right.clone()));
    assert_eq!(sorted(merge_pcs(&base, &right, &base)), sorted(right));
}

#[test]
fn disjoint_edits_merge_without_conflict() {
    // file 1 holds `fn a` (2) and `fn b` (3); their bodies are 4 and 6;
    // left adds `x` (5) to the first body, right adds `y` (7) to the second
    let frame = all(&[pcs(1, &[2, 3]), pcs(2, &[4]), pcs(3, &[6])]);
    let base = all(&[frame.clone(), pcs(4, &[]), pcs(6, &[])]);
    let left = all(&[frame.clone(), pcs(4, &[5]), pcs(6, &[])]);
    let right = all(&[frame, pcs(4, &[]), pcs(6, &[7])]);
    let merged = merge_pcs(&base, &left, &right);
    assert!(find_conflict(&merged, &vec![]).is_none());
    assert_eq!(children_of(&merged, 1), Some(vec![2, 3]));
    assert_eq!(children_of(&merged, 4), Some(vec![5]));
    assert_eq!(children_of(&merged, 6), Some(vec![7]));
    assert!(find_orphan(&merged, 1).is_none());
}

#[test]
fn same_slot_insertions_conflict() {
    // `[1,2]`: list 1 with elements 2 and 3; left inserts 4, right inserts 5 between them
    let base = pcs(1, &[2, 3]);
    let left = pcs(1, &[2, 4, 3]);
    let right = pcs(1, &[2, 5, 3]);
    let merged = merge_pcs(&base, &left, &right);
    let (a, b) = find_conflict(&merged, &vec![]).unwrap();
    assert_eq!(a.parent, 1);
    assert_eq!(b.parent, 1);
    assert!(a.child == b.child || a.successor == b.successor);
    assert_eq!(children_of(&merged, 1), None);
}

#[test]
fn delete_against_modify_leaves_an_orphan() {
    // file 1 holds `fn f` (2) whose body holds `a()` (3); left deletes f, right replaces a() by b() (4)
    let base = all(&[pcs(1, &[2]), pcs(2, &[3])]);
    let left = all(&[pcs(1, &[])]);
    let right = all(&[pcs(1, &[2]), pcs(2, &[4])]);
    let merged = merge_pcs(&base, &left, &right);
    assert_eq!(children_of(&merged, 1), Some(vec![]));
    assert_eq!(find_orphan(&merged, 1), Some(2));
}

#[test]
fn formatting_only_change_takes_the_other_edit() {
    // `x+y`: 1 holds x (2), + (3), y (4); left only changes whitespace, right replaces y by z (5)
    let base = pcs(1, &[2, 3, 4]);
    let left = pcs(1, &[2, 3, 4]);
    let right = pcs(1, &[2, 3, 5]);
    let merged = merge_pcs(&base, &left, &right);
    assert!(find_conflict(&merged, &vec![]).is_none());
    assert_eq!(children_of(&merged, 1), Some(vec![2, 3, 5]));
}

#[test]
fn commutative_parent_keeps_both_orders() {
    // imports A (2) and B (3); left adds C (4); right swaps A and B
    let merged = merge_commutative_children(&vec![2, 3], &vec![2, 3, 4], &vec![3, 2]);
    assert_eq!(merged, vec![2, 3, 4]);
    let base = pcs(1, &[2, 3]);
    let left = pcs(1, &[2, 3, 4]);
    let right = pcs(1, &[3, 2]);
    let triples = merge_pcs(&base, &left, &right);
    assert!(find_conflict(&triples, &vec![]).is_some());
    assert!(find_conflict(&triples, &vec![1]).is_none());
}

#[test]
fn commutative_merge_drops_deletions_and_adds_right_additions() {
    let merged = merge_commutative_children(&vec![1, 2, 3], &vec![1, 3, 4], &vec![5, 2, 1]);
    // 2 deleted by left, 3 deleted by right, 4 added by left, 5 added by right
    assert_eq!(merged, vec![1, 4, 5]);
    let swapped = merge_commutative_children(&vec![1, 2, 3], &vec![4, 3, 1], &vec![1, 2, 5]);
    let mut a = merged.clone();
    let mut b = swapped.clone();
    a.sort();
    b.sort();
    assert_eq!(a, b);
}
