//! Equivalence classes of nodes across the three revisions, built from the
//! three pairwise matchings, each represented by its leader.

use vstd::prelude::*;
use crate::pcs::Revision;
use crate::tree::{Ast, isomorphic};

verus! {

/// The largest number of nodes a tree may have, so that leaders fit in `u64`.
pub const MAX_TREE_SIZE: usize = 0x4000_0000;

/// The number that tells the revisions apart in a leader.
pub open spec fn rev_code(rev: Revision) -> int {
    match rev {
        Revision::Base => 0,
        Revision::Left => 1,
        Revision::Right => 2,
    }
}

/// The leader of the class whose representative is node `i` of revision `rev`.
/// It is never the sentinel 0.
pub open spec fn leader_code(rev: Revision, i: int) -> int {
    3 * i + rev_code(rev) + 1
}

/// Whether the matching `m` pairs `x` with `y`.
pub open spec fn pairs(m: Seq<(usize, usize)>, x: int, y: int) -> bool {
    exists|p: int| 0 <= p < m.len() && (#[trigger] m[p]).0 as int == x && m[p].1 as int == y
}

/// A matching pairs each node at most once on each side.
pub open spec fn injective(m: Seq<(usize, usize)>) -> bool {
    forall|p: int, q: int|
        0 <= p < m.len() && 0 <= q < m.len() && p != q ==> (#[trigger] m[p]).0 != (#[trigger] m[q]).0 && m[p].1
            != m[q].1
}

/// Every pair of `m` joins a node among the first `n1` with one among the first `n2`.
pub open spec fn within(m: Seq<(usize, usize)>, n1: int, n2: int) -> bool {
    forall|p: int| 0 <= p < m.len() ==> (#[trigger] m[p]).0 < n1 && m[p].1 < n2
}

/// The leader of node `l` of the left revision: its base match where it has one.
pub open spec fn left_leader(bl: Seq<(usize, usize)>, l: int) -> int {
    if exists|b: int| pairs(bl, b, l) {
        leader_code(Revision::Base, choose|b: int| pairs(bl, b, l))
    } else {
        leader_code(Revision::Left, l)
    }
}

/// The leader of node `r` of the right revision: its base match where it has
/// one, else its left match where that one has no base match.
pub open spec fn right_leader(bl: Seq<(usize, usize)>, br: Seq<(usize, usize)>, lr: Seq<(usize, usize)>, r: int) -> int {
    if exists|b: int| pairs(br, b, r) {
        leader_code(Revision::Base, choose|b: int| pairs(br, b, r))
    } else if exists|l: int| pairs(lr, l, r) && !(exists|b: int| pairs(bl, b, l)) {
        leader_code(Revision::Left, choose|l: int| pairs(lr, l, r) && !(exists|b: int| pairs(bl, b, l)))
    } else {
        leader_code(Revision::Right, r)
    }
}

/// The leader of each node, for each revision.
#[derive(Debug)]
pub struct ClassMapping {
    pub base: Vec<u64>,
    pub left: Vec<u64>,
    pub right: Vec<u64>,
}

/// The first node of `v` from `i` on whose leader is `leader`.
pub open spec fn first_from(v: Seq<u64>, leader: u64, i: int) -> Option<int>
    decreases v.len() - i,
{
    if i < 0 || i >= v.len() {
        None
    } else if v[i] == leader {
        Some(i)
    } else {
        first_from(v, leader, i + 1)
    }
}

/// The first node of `v` whose leader is `leader`.
pub open spec fn first_with(v: Seq<u64>, leader: u64) -> Option<int> {
    first_from(v, leader, 0)
}

/// The node that `second` pairs with `y` in `m`, if any.
fn matched_first(m: &Vec<(usize, usize)>, y: usize) -> (r: Option<usize>)
    requires
        injective(m@),
    ensures
        match r {
            Some(x) => pairs(m@, x as int, y as int) && forall|z: int| pairs(m@, z, y as int) ==> z == x,
            None => !exists|z: int| pairs(m@, z, y as int),
        },
{
    let mut p: usize = 0;
    while p < m.len()
        invariant
            p <= m@.len(),
            injective(m@),
            forall|q: int| 0 <= q < p ==> (#[trigger] m@[q]).1 != y,
        decreases m@.len() - p,
    {
        if m[p].1 == y {
            let x = m[p].0;
            assert(m@[p as int].0 == x && m@[p as int].1 == y);
            assert forall|z: int| pairs(m@, z, y as int) implies z == x by {
                let q = choose|q: int| 0 <= q < m@.len() && (#[trigger] m@[q]).0 as int == z && m@[q].1 == y;
                if q != p {
                    assert(m@[q].1 != m@[p as int].1);
                }
            }
            return Some(x);
        }
        p = p + 1;
    }
    assert forall|z: int| !pairs(m@, z, y as int) by {
        if pairs(m@, z, y as int) {
            let q = choose|q: int| 0 <= q < m@.len() && (#[trigger] m@[q]).0 as int == z && m@[q].1 == y;
        }
    }
    None
}

/// A paired node lies within its tree.
proof fn lemma_pair_within(m: Seq<(usize, usize)>, x: int, y: int, n1: int, n2: int)
    requires
        pairs(m, x, y),
        within(m, n1, n2),
    ensures
        x < n1,
        y < n2,
{
    let p = choose|p: int| 0 <= p < m.len() && (#[trigger] m[p]).0 as int == x && m[p].1 as int == y;
    assert(m[p].0 < n1);
}

/// The leader of node `i` of revision `rev`.
fn code(rev: Revision, i: usize) -> (r: u64)
    requires
        i < MAX_TREE_SIZE,
    ensures
        r == leader_code(rev, i as int),
{
    let c: u64 = match rev {
        Revision::Base => 0,
        Revision::Left => 1,
        Revision::Right => 2,
    };
    3 * (i as u64) + c + 1
}

/// Builds the classes of the nodes of three trees of `n_base`, `n_left` and
/// `n_right` nodes from the base–left, base–right and left–right matchings.
pub fn create_class_mapping(
    n_base: usize,
    n_left: usize,
    n_right: usize,
    base_left: &Vec<(usize, usize)>,
    base_right: &Vec<(usize, usize)>,
    left_right: &Vec<(usize, usize)>,
) -> (r: ClassMapping)
    requires
        n_base <= MAX_TREE_SIZE,
        n_left <= MAX_TREE_SIZE,
        n_right <= MAX_TREE_SIZE,
        injective(base_left@),
        injective(base_right@),
        injective(left_right@),
        within(base_left@, n_base as int, n_left as int),
        within(base_right@, n_base as int, n_right as int),
        within(left_right@, n_left as int, n_right as int),
    ensures
        r.base@.len() == n_base,
        r.left@.len() == n_left,
        r.right@.len() == n_right,
        forall|i: int| 0 <= i < n_base ==> r.base@[i] == leader_code(Revision::Base, i),
        forall|i: int| 0 <= i < n_left ==> r.left@[i] == left_leader(base_left@, i),
        forall|i: int| 0 <= i < n_right ==> r.right@[i] == right_leader(base_left@, base_right@, left_right@, i),
{
    let mut base: Vec<u64> = Vec::new();
    let mut i: usize = 0;
    while i < n_base
        invariant
            i <= n_base <= MAX_TREE_SIZE,
            base@.len() == i,
            forall|k: int| 0 <= k < i ==> base@[k] == leader_code(Revision::Base, k),
        decreases n_base - i,
    {
        base.push(code(Revision::Base, i));
        i = i + 1;
    }
    let mut left: Vec<u64> = Vec::new();
    let mut i: usize = 0;
    while i < n_left
        invariant
            i <= n_left <= MAX_TREE_SIZE,
            injective(base_left@),
            within(base_left@, n_base as int, n_left as int),
            n_base <= MAX_TREE_SIZE,
            left@.len() == i,
            forall|k: int| 0 <= k < i ==> left@[k] == left_leader(base_left@, k),
        decreases n_left - i,
    {
        let leader = match matched_first(base_left, i) {
            Some(b) => {
                proof {
                    lemma_pair_within(base_left@, b as int, i as int, n_base as int, n_left as int);
                }
                code(Revision::Base, b)
            },
            None => code(Revision::Left, i),
        };
        left.push(leader);
        i = i + 1;
    }
    let mut right: Vec<u64> = Vec::new();
    let mut i: usize = 0;
    while i < n_right
        invariant
            i <= n_right <= MAX_TREE_SIZE,
            n_base <= MAX_TREE_SIZE,
            n_left <= MAX_TREE_SIZE,
            injective(base_left@),
            injective(base_right@),
            injective(left_right@),
            within(base_left@, n_base as int, n_left as int),
            within(base_right@, n_base as int, n_right as int),
            within(left_right@, n_left as int, n_right as int),
            right@.len() == i,
            forall|k: int| 0 <= k < i ==> right@[k] == right_leader(base_left@, base_right@, left_right@, k),
        decreases n_right - i,
    {
        let leader = match matched_first(base_right, i) {
            Some(b) => {
                proof {
                    lemma_pair_within(base_right@, b as int, i as int, n_base as int, n_right as int);
                }
                code(Revision::Base, b)
            },
            None => match matched_first(left_right, i) {
                Some(l) => {
                    proof {
                        lemma_pair_within(left_right@, l as int, i as int, n_left as int, n_right as int);
                    }
                    match matched_first(base_left, l) {
                        Some(_) => {
                            assert forall|l2: int| !(pairs(left_right@, l2, i as int) && !(exists|b: int| pairs(base_left@, b, l2))) by {}
                            code(Revision::Right, i)
                        },
                        None => {
                            assert(pairs(left_right@, l as int, i as int) && !(exists|b: int| pairs(base_left@, b, l as int)));
                            code(Revision::Left, l)
                        },
                    }
                },
                None => code(Revision::Right, i),
            },
        };
        right.push(leader);
        i = i + 1;
    }
    ClassMapping { base, left, right }
}

/// The revisions in which a class has a node.
#[derive(Debug, Clone, Copy, PartialEq, Eq, Structural)]
pub struct RevisionSet {
    pub base: bool,
    pub left: bool,
    pub right: bool,
}

impl ClassMapping {
    /// The leaders of the nodes of one revision.
    pub open spec fn leaders(&self, rev: Revision) -> Seq<u64> {
        match rev {
            Revision::Base => self.base@,
            Revision::Left => self.left@,
            Revision::Right => self.right@,
        }
    }

    pub(crate) fn leaders_exec(&self, rev: Revision) -> (r: &Vec<u64>)
        ensures
            r@ == self.leaders(rev),
    {
        match rev {
            Revision::Base => &self.base,
            Revision::Left => &self.left,
            Revision::Right => &self.right,
        }
    }

    /// The leader of the class of node `node` of revision `rev`.
    pub fn map_to_leader(&self, rev: Revision, node: usize) -> (r: u64)
        requires
            node < self.leaders(rev).len(),
        ensures
            r == self.leaders(rev)[node as int],
    {
        self.leaders_exec(rev)[node]
    }

    /// The first node of revision `rev` in the class of `leader`, if any.
    pub fn node_at_rev(&self, leader: u64, rev: Revision) -> (r: Option<usize>)
        ensures
            match r {
                Some(i) => first_with(self.leaders(rev), leader) == Some(i as int) && i < self.leaders(rev).len()
                    && self.leaders(rev)[i as int] == leader,
                None => first_with(self.leaders(rev), leader) is None,
            },
    {
        let v = self.leaders_exec(rev);
        let mut i: usize = 0;
        while i < v.len()
            invariant
                v@ == self.leaders(rev),
                i <= v@.len(),
                first_with(v@, leader) == first_from(v@, leader, i as int),
            decreases v@.len() - i,
        {
            if v[i] == leader {
                return Some(i);
            }
            i = i + 1;
        }
        None
    }

    /// The revisions in which the class of `leader` has a node.
    pub fn revision_set(&self, leader: u64) -> (r: RevisionSet)
        ensures
            r.base == first_with(self.base@, leader) is Some,
            r.left == first_with(self.left@, leader) is Some,
            r.right == first_with(self.right@, leader) is Some,
    {
        RevisionSet {
            base: self.node_at_rev(leader, Revision::Base).is_some(),
            left: self.node_at_rev(leader, Revision::Left).is_some(),
            right: self.node_at_rev(leader, Revision::Right).is_some(),
        }
    }
}

/// Whether the class of `leader` has a node in each revision, the first of
/// which in the left and right revisions are isomorphic to the first in the base.
pub open spec fn unchanged(leader: u64, cm: ClassMapping, base: Ast, left: Ast, right: Ast) -> bool {
    match (first_with(cm.base@, leader), first_with(cm.left@, leader), first_with(cm.right@, leader)) {
        (Some(b), Some(l), Some(r)) => isomorphic(base, b, left, l) && isomorphic(base, b, right, r),
        _ => false,
    }
}

/// Checks whether a node is unchanged in all three revisions.
pub fn is_unchanged(leader: u64, class_mapping: &ClassMapping, base: &Ast, left: &Ast, right: &Ast) -> (r: bool)
    requires
        base.wf(),
        left.wf(),
        right.wf(),
        class_mapping.base@.len() == base.nodes@.len(),
        class_mapping.left@.len() == left.nodes@.len(),
        class_mapping.right@.len() == right.nodes@.len(),
    ensures
        r == unchanged(leader, *class_mapping, *base, *left, *right),
{
    let b = match class_mapping.node_at_rev(leader, Revision::Base) {
        Some(b) => b,
        None => {
            return false;
        },
    };
    let l = match class_mapping.node_at_rev(leader, Revision::Left) {
        Some(l) => l,
        None => {
            return false;
        },
    };
    let r = match class_mapping.node_at_rev(leader, Revision::Right) {
        Some(r) => r,
        None => {
            return false;
        },
    };
    base.isomorphic_to(b, left, l) && base.isomorphic_to(b, right, r)
}

} // verus!
