//! The result of a structured merge as a tree, built from the merged triples,
//! and its rendering as text with conflict markers.

use vstd::prelude::*;
use crate::class_mapping::{
    ClassMapping, first_from, first_with, create_class_mapping, injective, within, leader_code, left_leader,
    right_leader, MAX_TREE_SIZE,
};
use crate::merge_3dm::{
    lemma_child_chain_unique, is_child_chain, PcsTriple, pcs_of_children, children_of, merge_pcs, pcs_of_tree, tree_pcs, merged_set, child_leaders,
    child_leader_vec, commutative_merge_spec, merge_commutative_children,
};
use crate::merge_result::{MergeResult, FULLY_STRUCTURED_METHOD};
use crate::parsed_merge::{Chunk, MergedChunk, ParsedMerge, render_chunk, render_spec, chunk_mass, total_mass, saturate};
use crate::pcs::Revision;
use crate::settings::DisplaySettings;
use crate::text::{chars_of, push_all, same_text};
use crate::tree::{Ast, isomorphic, source_of};

verus! {

/// A merged tree.
#[derive(Debug)]
pub enum MergedTree {
    /// A subtree that every revision holding it holds alike; rendered from one of them
    ExactTree { leader: u64 },
    /// A node whose children were merged one by one
    MixedTree { leader: u64, children: Vec<MergedTree> },
    /// A node whose children could not be reconciled
    Conflict { leader: u64 },
}

/// The three trees of a merge and the classes of their nodes.
pub struct Revisions {
    pub base: Ast,
    pub left: Ast,
    pub right: Ast,
    pub class_mapping: ClassMapping,
    /// Kinds of nodes whose children may come in any order
    pub commutative_kinds: Vec<String>,
    /// Kinds of nodes that are merged as a whole rather than by descent
    pub atomic_kinds: Vec<String>,
}

impl Revisions {
    /// Each tree is well formed and each of its nodes has a leader.
    pub open spec fn wf(&self) -> bool {
        &&& self.base.wf()
        &&& self.left.wf()
        &&& self.right.wf()
        &&& self.class_mapping.base@.len() == self.base.nodes@.len()
        &&& self.class_mapping.left@.len() == self.left.nodes@.len()
        &&& self.class_mapping.right@.len() == self.right.nodes@.len()
        &&& self.base.nodes@.len() <= MAX_TREE_SIZE
        &&& self.left.nodes@.len() <= MAX_TREE_SIZE
        &&& self.right.nodes@.len() <= MAX_TREE_SIZE
    }

    /// The tree of one revision.
    pub open spec fn tree(&self, rev: Revision) -> Ast {
        match rev {
            Revision::Base => self.base,
            Revision::Left => self.left,
            Revision::Right => self.right,
        }
    }

    /// The first node of revision `rev` in the class of `leader`.
    pub open spec fn node(&self, leader: u64, rev: Revision) -> Option<int> {
        first_with(self.class_mapping.leaders(rev), leader)
    }

    /// Whether the left node of a class has another source than its base node,
    /// or has none.
    pub open spec fn left_reformatted(&self, leader: u64) -> bool {
        match (self.node(leader, Revision::Left), self.node(leader, Revision::Base)) {
            (Some(l), Some(b)) => source_of(self.left, l) != source_of(self.base, b),
            _ => true,
        }
    }

    /// The node that stands for a class when it is rendered, so that a change
    /// of formatting on one side is kept: the left node where its source differs
    /// from the base, else the right node, else the left one, else the base one.
    pub open spec fn representative(&self, leader: u64) -> Option<(Revision, int)> {
        match (self.node(leader, Revision::Left), self.node(leader, Revision::Right), self.node(leader, Revision::Base)) {
            (Some(l), _, _) if self.left_reformatted(leader) => Some((Revision::Left, l)),
            (_, Some(r), _) => Some((Revision::Right, r)),
            (Some(l), None, _) => Some((Revision::Left, l)),
            (None, None, Some(b)) => Some((Revision::Base, b)),
            (None, None, None) => None,
        }
    }

    /// Whether the node of revision `rev` in the class, if any, is isomorphic to the representative.
    pub open spec fn agrees(&self, leader: u64, rev: Revision) -> bool {
        match (self.representative(leader), self.node(leader, rev)) {
            (Some((r, i)), Some(j)) => isomorphic(self.tree(r), i, self.tree(rev), j),
            _ => true,
        }
    }

    /// Whether the class has a node, and all its nodes are isomorphic.
    pub open spec fn alike(&self, leader: u64) -> bool {
        &&& self.representative(leader) is Some
        &&& self.agrees(leader, Revision::Base)
        &&& self.agrees(leader, Revision::Left)
        &&& self.agrees(leader, Revision::Right)
    }

    /// The source of the node of revision `rev` in the class, or nothing.
    pub open spec fn side(&self, leader: u64, rev: Revision) -> Seq<char> {
        match self.node(leader, rev) {
            Some(i) => source_of(self.tree(rev), i),
            None => Seq::empty(),
        }
    }

    /// The source of the representative of the class, or nothing.
    pub open spec fn exact_text(&self, leader: u64) -> Seq<char> {
        match self.representative(leader) {
            Some((r, i)) => source_of(self.tree(r), i),
            None => Seq::empty(),
        }
    }

    /// The leading and own text of the representative of the class, or nothing.
    pub open spec fn own_text(&self, leader: u64) -> Seq<char> {
        match self.representative(leader) {
            Some((r, i)) => self.tree(r).nodes@[i].leading@ + self.tree(r).nodes@[i].text@,
            None => Seq::empty(),
        }
    }

    /// Whether the class has a node in every revision and the kind of its
    /// representative lets children come in any order.
    pub open spec fn commutative(&self, leader: u64) -> bool {
        &&& self.node(leader, Revision::Base) is Some
        &&& self.node(leader, Revision::Left) is Some
        &&& self.node(leader, Revision::Right) is Some
        &&& self.kind_listed(self.commutative_kinds@, leader)
    }

    /// Whether both sides hold the class, differently from each other and from
    /// the base.
    pub open spec fn both_sides_changed(&self, leader: u64) -> bool {
        match (self.node(leader, Revision::Left), self.node(leader, Revision::Right)) {
            (Some(l), Some(r)) => !isomorphic(self.left, l, self.right, r) && match self.node(leader, Revision::Base) {
                Some(b) => !isomorphic(self.base, b, self.left, l) && !isomorphic(self.base, b, self.right, r),
                None => true,
            },
            _ => false,
        }
    }

    /// Whether the class is taken whole: alike in all its revisions, or of an
    /// atomic kind and changed on one side at most.
    pub open spec fn settled(&self, leader: u64) -> bool {
        self.alike(leader) || (self.kind_listed(self.atomic_kinds@, leader) && !self.both_sides_changed(leader))
    }

    /// Whether the kind of the representative of the class is among `kinds`.
    pub open spec fn kind_listed(&self, kinds: Seq<String>, leader: u64) -> bool {
        match self.representative(leader) {
            Some((r, i)) => exists|k: int| 0 <= k < kinds.len() && #[trigger] kinds[k]@ == self.tree(r).nodes@[i].kind@,
            None => false,
        }
    }

    /// The leaders of the children of the class in one revision.
    pub open spec fn children_in(&self, leader: u64, rev: Revision) -> Seq<u64> {
        match self.node(leader, rev) {
            Some(i) => child_leaders(self.class_mapping.leaders(rev), self.tree(rev), i),
            None => Seq::empty(),
        }
    }

    /// The conflict that a class whose children could not be merged stands for.
    pub open spec fn conflict_chunk(&self, leader: u64) -> Chunk {
        Chunk::Conflict(
            self.side(leader, Revision::Left).push('\n'),
            self.side(leader, Revision::Base).push('\n'),
            self.side(leader, Revision::Right).push('\n'),
        )
    }
}

/// The leader at the root of a merged tree.
pub open spec fn root_leader(t: MergedTree) -> u64 {
    match t {
        MergedTree::ExactTree { leader } => leader,
        MergedTree::MixedTree { leader, .. } => leader,
        MergedTree::Conflict { leader } => leader,
    }
}

/// The leaders at the roots of `c`.
pub open spec fn roots(c: Seq<MergedTree>) -> Seq<u64> {
    c.map_values(|t: MergedTree| root_leader(t))
}

/// Whether `t` is what the merge makes of the class of its root, with `depth`
/// levels left to descend: exact where the class is taken whole; else mixed
/// with the child list that the merged triples give (or, under a commutative
/// kind, the merged set of children); a conflict only where the merge owes one:
/// no depth is left, one side deleted what the other changed below the class,
/// both sides changed an atomic class, or the merged triples under an ordered
/// class form no child list.
pub open spec fn well_built(t: MergedTree, merged: Set<PcsTriple>, forced: Set<u64>, revs: Revisions, depth: nat) -> bool
    decreases t,
{
    match t {
        MergedTree::ExactTree { leader } => revs.settled(leader),
        MergedTree::MixedTree { leader, children } => {
            &&& !revs.settled(leader)
            &&& depth > 0
            &&& !forced.contains(leader)
            &&& !revs.kind_listed(revs.atomic_kinds@, leader)
            &&& if revs.commutative(leader) {
                roots(children@) == commutative_merge_spec(
                    revs.children_in(leader, Revision::Base),
                    revs.children_in(leader, Revision::Left),
                    revs.children_in(leader, Revision::Right),
                )
            } else {
                is_child_chain(merged, leader, roots(children@))
            }
            &&& all_well_built(children@, children@.len() as int, merged, forced, revs, (depth - 1) as nat)
        },
        MergedTree::Conflict { leader } => {
            &&& !revs.settled(leader)
            &&& {
                ||| depth == 0
                ||| forced.contains(leader)
                ||| revs.kind_listed(revs.atomic_kinds@, leader)
                ||| (!revs.commutative(leader) && !exists|c: Seq<u64>| is_child_chain(merged, leader, c))
            }
        },
    }
}

/// Whether the first `k` of `c` are well built.
pub open spec fn all_well_built(c: Seq<MergedTree>, k: int, merged: Set<PcsTriple>, forced: Set<u64>, revs: Revisions, depth: nat) -> bool
    decreases c, k,
{
    if k <= 0 || k > c.len() {
        true
    } else {
        all_well_built(c, k - 1, merged, forced, revs, depth) && well_built(c[k - 1], merged, forced, revs, depth)
    }
}

/// The signature of the representative of the class, or nothing.
pub open spec fn signature_of(revs: Revisions, leader: u64) -> Seq<char> {
    match revs.representative(leader) {
        Some((r, i)) => revs.tree(r).nodes@[i].signature@,
        None => Seq::empty(),
    }
}

/// Whether two of `leaders` have the same signature, and it is not empty.
pub open spec fn siblings_clash(revs: Revisions, leaders: Seq<u64>) -> bool {
    exists|i: int, j: int|
        0 <= i < j < leaders.len() && signature_of(revs, #[trigger] leaders[i]).len() > 0
            && signature_of(revs, leaders[i]) == signature_of(revs, #[trigger] leaders[j])
}

/// Whether some node whose children were merged one by one has two children
/// with the same signature. Exact subtrees and conflicts are each taken from
/// the revisions as they are.
pub open spec fn has_signature_conflicts(t: MergedTree, revs: Revisions) -> bool
    decreases t,
{
    match t {
        MergedTree::MixedTree { children, .. } => siblings_clash(revs, roots(children@))
            || children_signature_conflicts(children@, children@.len() as int, revs),
        _ => false,
    }
}

/// Whether one of the first `k` of `c` has signature conflicts.
pub open spec fn children_signature_conflicts(c: Seq<MergedTree>, k: int, revs: Revisions) -> bool
    decreases c, k,
{
    if k <= 0 || k > c.len() {
        false
    } else {
        children_signature_conflicts(c, k - 1, revs) || has_signature_conflicts(c[k - 1], revs)
    }
}

impl Revisions {
    fn signature_exec(&self, leader: u64) -> (r: Vec<char>)
        requires
            self.wf(),
        ensures
            r@ == signature_of(*self, leader),
    {
        match self.representative_exec(leader) {
            Some((rev, i)) => chars_of(self.tree_exec(rev).nodes[i].signature.as_str()),
            None => Vec::new(),
        }
    }
}

fn same_char_vecs(a: &Vec<char>, b: &Vec<char>) -> (r: bool)
    ensures
        r == (a@ == b@),
{
    same_text(crate::text::string_of(a).as_str(), crate::text::string_of(b).as_str())
}

/// Whether two of the children of a mixed node have the same non-empty signature.
fn children_clash(children: &Vec<MergedTree>, revs: &Revisions) -> (r: bool)
    requires
        revs.wf(),
    ensures
        r == siblings_clash(*revs, roots(children@)),
{
    let ghost leaders = roots(children@);
    let mut sigs: Vec<Vec<char>> = Vec::new();
    let mut k: usize = 0;
    while k < children.len()
        invariant
            revs.wf(),
            leaders == roots(children@),
            k <= children@.len(),
            sigs@.len() == k,
            forall|m: int| 0 <= m < k ==> (#[trigger] sigs@[m])@ == signature_of(*revs, leaders[m]),
        decreases children@.len() - k,
    {
        let leader = match &children[k] {
            MergedTree::ExactTree { leader } => *leader,
            MergedTree::MixedTree { leader, .. } => *leader,
            MergedTree::Conflict { leader } => *leader,
        };
        assert(leader == leaders[k as int]);
        sigs.push(revs.signature_exec(leader));
        k = k + 1;
    }
    let mut i: usize = 0;
    while i < sigs.len()
        invariant
            leaders == roots(children@),
            sigs@.len() == leaders.len(),
            i <= sigs@.len(),
            forall|m: int| 0 <= m < sigs@.len() ==> (#[trigger] sigs@[m])@ == signature_of(*revs, leaders[m]),
            forall|a: int, b: int|
                0 <= a < b < leaders.len() && a < i ==> !(signature_of(*revs, #[trigger] leaders[a]).len() > 0
                    && signature_of(*revs, leaders[a]) == signature_of(*revs, #[trigger] leaders[b])),
        decreases sigs@.len() - i,
    {
        let mut j: usize = i + 1;
        while j < sigs.len()
            invariant
                leaders == roots(children@),
                sigs@.len() == leaders.len(),
                i < j <= sigs@.len(),
                forall|m: int| 0 <= m < sigs@.len() ==> (#[trigger] sigs@[m])@ == signature_of(*revs, leaders[m]),
                forall|b: int|
                    i < b < j ==> !(signature_of(*revs, leaders[i as int]).len() > 0 && signature_of(*revs, leaders[i as int])
                        == signature_of(*revs, #[trigger] leaders[b])),
            decreases sigs@.len() - j,
        {
            if sigs[i].len() > 0 && same_char_vecs(&sigs[i], &sigs[j]) {
                assert(sigs@[i as int]@ == signature_of(*revs, leaders[i as int]));
                assert(sigs@[j as int]@ == signature_of(*revs, leaders[j as int]));
                return true;
            }
            j = j + 1;
        }
        i = i + 1;
    }
    false
}

/// A signature conflict among the first `k` children stays among more of them.
proof fn lemma_children_signature_conflicts_grow(c: Seq<MergedTree>, k: int, m: int, revs: Revisions)
    requires
        0 <= k <= m <= c.len(),
        children_signature_conflicts(c, k, revs),
    ensures
        children_signature_conflicts(c, m, revs),
    decreases m - k,
{
    if k < m {
        lemma_children_signature_conflicts_grow(c, k, m - 1, revs);
    }
}

/// Whether `t` has signature conflicts.
fn find_signature_conflicts(t: &MergedTree, revs: &Revisions) -> (r: bool)
    requires
        revs.wf(),
    ensures
        r == has_signature_conflicts(*t, *revs),
    decreases t,
{
    match t {
        MergedTree::MixedTree { children, .. } => {
            if children_clash(children, revs) {
                return true;
            }
            let mut k: usize = 0;
            while k < children.len()
                invariant
                    revs.wf(),
                    (*t) is MixedTree && (*t)->MixedTree_children == *children,
                    k <= children@.len(),
                    !children_signature_conflicts(children@, k as int, *revs),
                decreases children@.len() - k,
            {
                proof {
                    assert(decreases_to!(*t => (*t)->MixedTree_children));
                    assert(decreases_to!(*children => children@));
                    assert(decreases_to!(children@ => children@[k as int]));
                }
                if find_signature_conflicts(&children[k], revs) {
                    proof {
                        lemma_children_signature_conflicts_grow(children@, k + 1, children@.len() as int, *revs);
                    }
                    return true;
                }
                k = k + 1;
            }
            false
        },
        _ => false,
    }
}

/// The text of a merged tree.
pub open spec fn render_tree(t: MergedTree, revs: Revisions, settings: DisplaySettings) -> Seq<char>
    decreases t,
{
    match t {
        MergedTree::ExactTree { leader } => revs.exact_text(leader),
        MergedTree::MixedTree { leader, children } => revs.own_text(leader) + render_children(
            children@,
            children@.len() as int,
            revs,
            settings,
        ),
        MergedTree::Conflict { leader } => render_chunk(revs.conflict_chunk(leader), settings),
    }
}

/// The text of the first `k` of `c`, in order.
pub open spec fn render_children(c: Seq<MergedTree>, k: int, revs: Revisions, settings: DisplaySettings) -> Seq<char>
    decreases c, k,
{
    if k <= 0 || k > c.len() {
        Seq::empty()
    } else {
        render_children(c, k - 1, revs, settings) + render_tree(c[k - 1], revs, settings)
    }
}

impl Revisions {
    fn tree_exec(&self, rev: Revision) -> (r: &Ast)
        ensures
            *r == self.tree(rev),
    {
        match rev {
            Revision::Base => &self.base,
            Revision::Left => &self.left,
            Revision::Right => &self.right,
        }
    }

    fn node_exec(&self, leader: u64, rev: Revision) -> (r: Option<usize>)
        requires
            self.wf(),
        ensures
            match r {
                Some(i) => self.node(leader, rev) == Some(i as int) && i < self.tree(rev).nodes@.len(),
                None => self.node(leader, rev) is None,
            },
    {
        self.class_mapping.node_at_rev(leader, rev)
    }

    fn representative_exec(&self, leader: u64) -> (r: Option<(Revision, usize)>)
        requires
            self.wf(),
        ensures
            match r {
                Some((rev, i)) => self.representative(leader) == Some((rev, i as int)) && i
                    < self.tree(rev).nodes@.len(),
                None => self.representative(leader) is None,
            },
    {
        let l = self.node_exec(leader, Revision::Left);
        let r = self.node_exec(leader, Revision::Right);
        let b = self.node_exec(leader, Revision::Base);
        let reformatted = match (l, b) {
            (Some(li), Some(bi)) => !same_text(self.left.source(li).as_str(), self.base.source(bi).as_str()),
            _ => true,
        };
        match (l, r, b) {
            (Some(li), _, _) if reformatted => Some((Revision::Left, li)),
            (_, Some(ri), _) => Some((Revision::Right, ri)),
            (Some(li), None, _) => Some((Revision::Left, li)),
            (None, None, Some(bi)) => Some((Revision::Base, bi)),
            (None, None, None) => None,
        }
    }

    fn agrees_exec(&self, leader: u64, rev: Revision) -> (r: bool)
        requires
            self.wf(),
        ensures
            r == self.agrees(leader, rev),
    {
        match (self.representative_exec(leader), self.node_exec(leader, rev)) {
            (Some((r, i)), Some(j)) => self.tree_exec(r).isomorphic_to(i, self.tree_exec(rev), j),
            _ => true,
        }
    }

    /// Whether the class of `leader` has a node, and all its nodes are isomorphic.
    pub fn is_alike(&self, leader: u64) -> (r: bool)
        requires
            self.wf(),
        ensures
            r == self.alike(leader),
    {
        self.representative_exec(leader).is_some() && self.agrees_exec(leader, Revision::Base)
            && self.agrees_exec(leader, Revision::Left) && self.agrees_exec(leader, Revision::Right)
    }
}

impl Revisions {
    /// Whether the kind of the representative of the class is among `kinds`.
    fn is_kind_listed(&self, kinds: &Vec<String>, leader: u64) -> (r: bool)
        requires
            self.wf(),
        ensures
            r == self.kind_listed(kinds@, leader),
    {
        match self.representative_exec(leader) {
            Some((r, i)) => {
                let kind = &self.tree_exec(r).nodes[i].kind;
                let mut k: usize = 0;
                while k < kinds.len()
                    invariant
                        self.wf(),
                        self.representative(leader) == Some((r, i as int)),
                        i < self.tree(r).nodes@.len(),
                        *kind == self.tree(r).nodes@[i as int].kind,
                        k <= kinds@.len(),
                        forall|j: int| 0 <= j < k ==> #[trigger] kinds@[j]@ != kind@,
                    decreases kinds@.len() - k,
                {
                    if same_text(kinds[k].as_str(), kind.as_str()) {
                        assert(kinds@[k as int]@ == self.tree(r).nodes@[i as int].kind@);
                        return true;
                    }
                    k = k + 1;
                }
                false
            },
            None => false,
        }
    }

    fn is_both_sides_changed(&self, leader: u64) -> (r: bool)
        requires
            self.wf(),
        ensures
            r == self.both_sides_changed(leader),
    {
        match (self.node_exec(leader, Revision::Left), self.node_exec(leader, Revision::Right)) {
            (Some(l), Some(r)) => !self.left.isomorphic_to(l, &self.right, r) && match self.node_exec(
                leader,
                Revision::Base,
            ) {
                Some(b) => !self.base.isomorphic_to(b, &self.left, l) && !self.base.isomorphic_to(b, &self.right, r),
                None => true,
            },
            _ => false,
        }
    }

    /// Whether the class has a node in every revision and the kind of its
    /// representative lets children come in any order.
    fn is_commutative(&self, leader: u64) -> (r: bool)
        requires
            self.wf(),
        ensures
            r == self.commutative(leader),
    {
        self.node_exec(leader, Revision::Base).is_some() && self.node_exec(leader, Revision::Left).is_some()
            && self.node_exec(leader, Revision::Right).is_some() && self.is_kind_listed(&self.commutative_kinds, leader)
    }

    /// The leaders of the children of the class in one revision.
    fn children_in_exec(&self, leader: u64, rev: Revision) -> (r: Vec<u64>)
        requires
            self.wf(),
        ensures
            r@ == self.children_in(leader, rev),
    {
        match self.node_exec(leader, rev) {
            Some(i) => child_leader_vec(self.class_mapping.leaders_exec(rev), self.tree_exec(rev), i),
            None => Vec::new(),
        }
    }
}

/// Builds the merged tree of the class of `leader` from the merged triples,
/// descending at most `depth` levels. A class alike in all its revisions is
/// exact, and so is one of an atomic kind that at most one side changed; deeper
/// classes, those in `forced`, atomic ones that both sides changed and those
/// whose children do not form one list become conflicts; the children of a
/// commutative class are merged as a set.
pub fn build_merged_tree(
    merged: &Vec<PcsTriple>,
    forced: &Vec<u64>,
    revs: &Revisions,
    leader: u64,
    depth: usize,
) -> (r: MergedTree)
    requires
        revs.wf(),
    ensures
        root_leader(r) == leader,
        well_built(r, merged@.to_set(), forced@.to_set(), *revs, depth as nat),
    decreases depth, 1nat,
{
    if revs.is_alike(leader) {
        return MergedTree::ExactTree { leader };
    }
    if revs.is_kind_listed(&revs.atomic_kinds, leader) {
        if revs.is_both_sides_changed(leader) {
            return MergedTree::Conflict { leader };
        }
        return MergedTree::ExactTree { leader };
    }
    if depth == 0 || crate::merge_3dm::contains_leader(forced, leader) {
        return MergedTree::Conflict { leader };
    }
    if revs.is_commutative(leader) {
        let leaders = merge_commutative_children(
            &revs.children_in_exec(leader, Revision::Base),
            &revs.children_in_exec(leader, Revision::Left),
            &revs.children_in_exec(leader, Revision::Right),
        );
        let children = build_children(merged, forced, revs, &leaders, depth);
        return MergedTree::MixedTree { leader, children };
    }
    match children_of(merged, leader) {
        None => MergedTree::Conflict { leader },
        Some(leaders) => {
            let children = build_children(merged, forced, revs, &leaders, depth);
            MergedTree::MixedTree { leader, children }
        },
    }
}

/// Builds the merged trees of the classes of `leaders`, one level below `depth`.
fn build_children(
    merged: &Vec<PcsTriple>,
    forced: &Vec<u64>,
    revs: &Revisions,
    leaders: &Vec<u64>,
    depth: usize,
) -> (children: Vec<MergedTree>)
    requires
        revs.wf(),
        depth > 0,
    ensures
        roots(children@) == leaders@,
        all_well_built(children@, children@.len() as int, merged@.to_set(), forced@.to_set(), *revs, (depth - 1) as nat),
    decreases depth, 0nat,
{
    let mut children: Vec<MergedTree> = Vec::new();
    let mut k: usize = 0;
    while k < leaders.len()
        invariant
            revs.wf(),
            depth > 0,
            k <= leaders@.len(),
            children@.len() == k,
            roots(children@) == leaders@.subrange(0, k as int),
            all_well_built(children@, k as int, merged@.to_set(), forced@.to_set(), *revs, (depth - 1) as nat),
        decreases leaders@.len() - k,
    {
        let ghost before = children@;
        let child = build_merged_tree(merged, forced, revs, leaders[k], depth - 1);
        children.push(child);
        assert(roots(children@) =~= leaders@.subrange(0, k + 1));
        proof {
            lemma_all_well_built_same_prefix(children@, before, k as int, merged@.to_set(), forced@.to_set(), *revs, (depth - 1) as nat);
        }
        k = k + 1;
    }
    assert(leaders@.subrange(0, k as int) =~= leaders@);
    children
}

/// Whether the first `k` trees are well built depends on those alone.
proof fn lemma_all_well_built_same_prefix(c: Seq<MergedTree>, d: Seq<MergedTree>, k: int, merged: Set<PcsTriple>, forced: Set<u64>, revs: Revisions, depth: nat)
    requires
        0 <= k <= c.len(),
        k <= d.len(),
        forall|j: int| 0 <= j < k ==> c[j] == d[j],
    ensures
        all_well_built(c, k, merged, forced, revs, depth) == all_well_built(d, k, merged, forced, revs, depth),
    decreases k,
{
    if k > 0 {
        lemma_all_well_built_same_prefix(c, d, k - 1, merged, forced, revs, depth);
    }
}

/// The number of conflicts in a merged tree.
pub open spec fn tree_conflicts(t: MergedTree) -> nat
    decreases t,
{
    match t {
        MergedTree::ExactTree { .. } => 0,
        MergedTree::MixedTree { children, .. } => children_conflicts(children@, children@.len() as int),
        MergedTree::Conflict { .. } => 1,
    }
}

/// The number of conflicts in the first `k` of `c`.
pub open spec fn children_conflicts(c: Seq<MergedTree>, k: int) -> nat
    decreases c, k,
{
    if k <= 0 || k > c.len() {
        0
    } else {
        children_conflicts(c, k - 1) + tree_conflicts(c[k - 1])
    }
}

/// The bytes inside conflict markers in a merged tree.
pub open spec fn tree_mass(t: MergedTree, revs: Revisions) -> nat
    decreases t,
{
    match t {
        MergedTree::ExactTree { .. } => 0,
        MergedTree::MixedTree { children, .. } => children_mass(children@, children@.len() as int, revs),
        MergedTree::Conflict { leader } => chunk_mass(revs.conflict_chunk(leader)),
    }
}

/// The bytes inside conflict markers in the first `k` of `c`.
pub open spec fn children_mass(c: Seq<MergedTree>, k: int, revs: Revisions) -> nat
    decreases c, k,
{
    if k <= 0 || k > c.len() {
        0
    } else {
        children_mass(c, k - 1, revs) + tree_mass(c[k - 1], revs)
    }
}

impl Revisions {
    fn push_side(&self, leader: u64, rev: Revision, out: &mut Vec<char>)
        requires
            self.wf(),
        ensures
            final(out)@ == old(out)@ + self.side(leader, rev).push('\n'),
    {
        match self.node_exec(leader, rev) {
            Some(i) => {
                push_all(out, &chars_of(self.tree_exec(rev).source(i).as_str()));
            },
            None => {},
        }
        out.push('\n');
        assert(out@ =~= old(out)@ + self.side(leader, rev).push('\n'));
    }

    /// The conflict that the class of `leader` stands for, as a parsed chunk.
    fn conflict_of(&self, leader: u64) -> (r: ParsedMerge)
        requires
            self.wf(),
        ensures
            r@ == seq![self.conflict_chunk(leader)],
    {
        let mut l: Vec<char> = Vec::new();
        let mut b: Vec<char> = Vec::new();
        let mut rt: Vec<char> = Vec::new();
        self.push_side(leader, Revision::Left, &mut l);
        self.push_side(leader, Revision::Base, &mut b);
        self.push_side(leader, Revision::Right, &mut rt);
        let mut chunks: Vec<MergedChunk> = Vec::new();
        chunks.push(
            MergedChunk::Conflict { left: crate::text::string_of(&l), base: crate::text::string_of(&b), right: crate::text::string_of(&rt) },
        );
        let r = ParsedMerge { chunks };
        assert(r@ =~= seq![self.conflict_chunk(leader)]);
        r
    }
}

/// Appends the text of `t` to `out`, and returns its number of conflicts and
/// its conflict mass, each saturated.
fn push_render(t: &MergedTree, revs: &Revisions, settings: &DisplaySettings, out: &mut Vec<char>) -> (r: (usize, usize))
    requires
        revs.wf(),
    ensures
        final(out)@ == old(out)@ + render_tree(*t, *revs, *settings),
        r.0 == saturate(tree_conflicts(*t)),
        r.1 == saturate(tree_mass(*t, *revs)),
    decreases t,
{
    match t {
        MergedTree::ExactTree { leader } => {
            match revs.representative_exec(*leader) {
                Some((rev, i)) => {
                    push_all(out, &chars_of(revs.tree_exec(rev).source(i).as_str()));
                },
                None => {},
            }
            (0, 0)
        },
        MergedTree::Conflict { leader } => {
            let pm = revs.conflict_of(*leader);
            let text = pm.render(settings);
            let mass = pm.conflict_mass();
            push_all(out, &chars_of(text.as_str()));
            assert(render_spec(seq![revs.conflict_chunk(*leader)], *settings) == render_spec(
                seq![revs.conflict_chunk(*leader)].drop_last(),
                *settings,
            ) + render_chunk(revs.conflict_chunk(*leader), *settings));
            assert(seq![revs.conflict_chunk(*leader)].drop_last() =~= Seq::<Chunk>::empty());
            assert(total_mass(seq![revs.conflict_chunk(*leader)]) == total_mass(
                seq![revs.conflict_chunk(*leader)].drop_last(),
            ) + chunk_mass(revs.conflict_chunk(*leader)));
            (1, mass)
        },
        MergedTree::MixedTree { leader, children } => {
            match revs.representative_exec(*leader) {
                Some((rev, i)) => {
                    let node = &revs.tree_exec(rev).nodes[i];
                    push_all(out, &chars_of(node.leading.as_str()));
                    push_all(out, &chars_of(node.text.as_str()));
                },
                None => {},
            }
            let ghost own = out@;
            assert(own == old(out)@ + revs.own_text(*leader));
            let mut count: usize = 0;
            let mut mass: usize = 0;
            let mut k: usize = 0;
            while k < children.len()
                invariant
                    revs.wf(),
                    (*t) is MixedTree && (*t)->MixedTree_children == *children,
                    k <= children@.len(),
                    out@ == own + render_children(children@, k as int, *revs, *settings),
                    count == saturate(children_conflicts(children@, k as int)),
                    mass == saturate(children_mass(children@, k as int, *revs)),
                decreases children@.len() - k,
            {
                proof {
                    assert(decreases_to!(*t => (*t)->MixedTree_children));
                    assert(decreases_to!(*children => children@));
                    assert(decreases_to!(children@ => children@[k as int]));
                }
                let (c, m) = push_render(&children[k], revs, settings, out);
                count = count.saturating_add(c);
                mass = mass.saturating_add(m);
                k = k + 1;
            }
            (count, mass)
        },
    }
}

impl MergedTree {
    /// The text of this merged tree, with conflicts displayed as `settings` says.
    pub fn render(&self, revs: &Revisions, settings: &DisplaySettings) -> (r: String)
        requires
            revs.wf(),
        ensures
            r@ == render_tree(*self, *revs, *settings),
    {
        let mut out: Vec<char> = Vec::new();
        let _ = push_render(self, revs, settings, &mut out);
        assert(out@ =~= render_tree(*self, *revs, *settings));
        crate::text::string_of(&out)
    }
}

impl Revisions {
    /// The three trees of a merge, their nodes in classes after the base–left,
    /// base–right and left–right matchings (pairs of node indices).
    pub fn new(
        base: Ast,
        left: Ast,
        right: Ast,
        base_left: &Vec<(usize, usize)>,
        base_right: &Vec<(usize, usize)>,
        left_right: &Vec<(usize, usize)>,
        commutative_kinds: Vec<String>,
        atomic_kinds: Vec<String>,
    ) -> (r: Revisions)
        requires
            base.wf(),
            left.wf(),
            right.wf(),
            base.nodes@.len() <= MAX_TREE_SIZE,
            left.nodes@.len() <= MAX_TREE_SIZE,
            right.nodes@.len() <= MAX_TREE_SIZE,
            injective(base_left@),
            injective(base_right@),
            injective(left_right@),
            within(base_left@, base.nodes@.len() as int, left.nodes@.len() as int),
            within(base_right@, base.nodes@.len() as int, right.nodes@.len() as int),
            within(left_right@, left.nodes@.len() as int, right.nodes@.len() as int),
        ensures
            r.wf(),
            r.base == base,
            r.left == left,
            r.right == right,
            r.commutative_kinds == commutative_kinds,
            r.atomic_kinds == atomic_kinds,
            forall|i: int| 0 <= i < base.nodes@.len() ==> r.class_mapping.base@[i] == leader_code(Revision::Base, i),
            forall|i: int| 0 <= i < left.nodes@.len() ==> r.class_mapping.left@[i] == left_leader(base_left@, i),
            forall|i: int|
                0 <= i < right.nodes@.len() ==> r.class_mapping.right@[i] == right_leader(
                    base_left@,
                    base_right@,
                    left_right@,
                    i,
                ),
    {
        let class_mapping = create_class_mapping(
            base.nodes.len(),
            left.nodes.len(),
            right.nodes.len(),
            base_left,
            base_right,
            left_right,
        );
        Revisions { base, left, right, class_mapping, commutative_kinds, atomic_kinds }
    }
}

/// How many levels the merge descends: the number of nodes of the three trees.
pub open spec fn depth_bound(revs: Revisions) -> nat {
    (revs.base.nodes@.len() + revs.left.nodes@.len() + revs.right.nodes@.len()) as nat
}

/// The triples that the three revisions merge into.
pub open spec fn merged_triples(revs: Revisions) -> Set<PcsTriple> {
    merged_set(
        tree_pcs(revs.class_mapping.base@, revs.base).to_set(),
        tree_pcs(revs.class_mapping.left@, revs.left).to_set(),
        tree_pcs(revs.class_mapping.right@, revs.right).to_set(),
    )
}

/// Whether leader `x` has no place among the merged triples: neither as a
/// child nor as a successor.
pub open spec fn unplaced(merged: Set<PcsTriple>, x: u64) -> bool {
    !exists|t: PcsTriple| #[trigger] merged.contains(t) && (t.child == x || t.successor == x)
}

/// Whether a side holds the class of `x` with another shape than the base.
pub open spec fn modified(revs: Revisions, x: u64, rev: Revision) -> bool {
    match (revs.node(x, Revision::Base), revs.node(x, rev)) {
        (Some(b), Some(i)) => !isomorphic(revs.base, b, revs.tree(rev), i),
        _ => false,
    }
}

/// Whether one side deleted the class of `x` while the other changed it.
pub open spec fn deleted_and_modified(revs: Revisions, merged: Set<PcsTriple>, x: u64) -> bool {
    &&& x != crate::merge_3dm::SENTINEL
    &&& unplaced(merged, x)
    &&& (modified(revs, x, Revision::Left) || modified(revs, x, Revision::Right))
}

/// The base parents of classes that one side deleted and the other changed:
/// their children conflict.
pub open spec fn edit_delete_parents(revs: Revisions) -> Set<u64> {
    Set::new(
        |q: u64|
            exists|t: PcsTriple|
                #[trigger] tree_pcs(revs.class_mapping.base@, revs.base).contains(t) && t.parent == q
                    && deleted_and_modified(revs, merged_triples(revs), t.child),
    )
}

/// Whether `x` has no place among `merged`.
fn is_unplaced(merged: &Vec<PcsTriple>, x: u64) -> (r: bool)
    ensures
        r == unplaced(merged@.to_set(), x),
{
    let mut i: usize = 0;
    while i < merged.len()
        invariant
            i <= merged@.len(),
            forall|j: int| 0 <= j < i ==> !((#[trigger] merged@[j]).child == x || merged@[j].successor == x),
        decreases merged@.len() - i,
    {
        let t = merged[i];
        if t.child == x || t.successor == x {
            assert(merged@.to_set().contains(merged@[i as int]));
            return false;
        }
        i = i + 1;
    }
    assert forall|t: PcsTriple| #[trigger] merged@.to_set().contains(t) implies !(t.child == x || t.successor == x) by {
        let j = choose|j: int| 0 <= j < merged@.len() && merged@[j] == t;
    }
    true
}

impl Revisions {
    fn is_modified(&self, x: u64, rev: Revision) -> (r: bool)
        requires
            self.wf(),
        ensures
            r == modified(*self, x, rev),
    {
        match (self.node_exec(x, Revision::Base), self.node_exec(x, rev)) {
            (Some(b), Some(i)) => !self.base.isomorphic_to(b, self.tree_exec(rev), i),
            _ => false,
        }
    }
}

/// The base parents of the children that one side deleted and the other changed.
fn collect_edit_delete_parents(merged: &Vec<PcsTriple>, base_pcs: &Vec<PcsTriple>, revs: &Revisions) -> (forced: Vec<u64>)
    requires
        revs.wf(),
    ensures
        forall|q: u64|
            #[trigger] forced@.contains(q) <==> exists|t: PcsTriple|
                #[trigger] base_pcs@.contains(t) && t.parent == q && deleted_and_modified(*revs, merged@.to_set(), t.child),
{
    let mut forced: Vec<u64> = Vec::new();
    let mut i: usize = 0;
    while i < base_pcs.len()
        invariant
            revs.wf(),
            i <= base_pcs@.len(),
            forall|q: u64|
                #[trigger] forced@.contains(q) <==> exists|j: int|
                    0 <= j < i && (#[trigger] base_pcs@[j]).parent == q && deleted_and_modified(*revs, merged@.to_set(), base_pcs@[j].child),
        decreases base_pcs@.len() - i,
    {
        let t = base_pcs[i];
        let ghost prev = forced@;
        if t.child != crate::merge_3dm::SENTINEL && is_unplaced(merged, t.child) && (revs.is_modified(t.child, Revision::Left)
            || revs.is_modified(t.child, Revision::Right)) {
            forced.push(t.parent);
        }
        assert forall|q: u64|
            #[trigger] forced@.contains(q) <==> exists|j: int|
                0 <= j < i + 1 && (#[trigger] base_pcs@[j]).parent == q && deleted_and_modified(*revs, merged@.to_set(), base_pcs@[j].child) by {
            if forced@.contains(q) && !prev.contains(q) {
                let k = choose|k: int| 0 <= k < forced@.len() && forced@[k] == q;
                assert(k == prev.len());
                assert(base_pcs@[i as int].parent == q);
            }
            if prev.contains(q) {
                let k = choose|k: int| 0 <= k < prev.len() && prev[k] == q;
                assert(forced@[k] == q);
            }
            if exists|j: int| 0 <= j < i + 1 && (#[trigger] base_pcs@[j]).parent == q && deleted_and_modified(*revs, merged@.to_set(), base_pcs@[j].child) {
                let j = choose|j: int| 0 <= j < i + 1 && (#[trigger] base_pcs@[j]).parent == q && deleted_and_modified(*revs, merged@.to_set(), base_pcs@[j].child);
                if j == i {
                    assert(forced@[forced@.len() - 1] == q);
                }
            }
        }
        i = i + 1;
    }
    assert forall|q: u64|
        #[trigger] forced@.contains(q) <==> exists|t: PcsTriple|
            #[trigger] base_pcs@.contains(t) && t.parent == q && deleted_and_modified(*revs, merged@.to_set(), t.child) by {
        if exists|t: PcsTriple| #[trigger] base_pcs@.contains(t) && t.parent == q && deleted_and_modified(*revs, merged@.to_set(), t.child) {
            let t = choose|t: PcsTriple| #[trigger] base_pcs@.contains(t) && t.parent == q && deleted_and_modified(*revs, merged@.to_set(), t.child);
            let j = choose|j: int| 0 <= j < base_pcs@.len() && base_pcs@[j] == t;
            assert(base_pcs@[j].parent == q && deleted_and_modified(*revs, merged@.to_set(), base_pcs@[j].child));
        }
        if exists|j: int| 0 <= j < i && (#[trigger] base_pcs@[j]).parent == q && deleted_and_modified(*revs, merged@.to_set(), base_pcs@[j].child) {
            let j = choose|j: int| 0 <= j < i && (#[trigger] base_pcs@[j]).parent == q && deleted_and_modified(*revs, merged@.to_set(), base_pcs@[j].child);
            assert(base_pcs@.contains(base_pcs@[j]));
        }
    }
    forced
}

/// Whether `r` is what the merge gives through the merged tree `t`: `t` is well
/// built from the class of the base root, and `r` holds its text, conflicts,
/// conflict mass and signature conflicts.
pub open spec fn merge_outcome(t: MergedTree, revs: Revisions, settings: DisplaySettings, r: MergeResult) -> bool {
    &&& root_leader(t) == revs.class_mapping.base@.last()
    &&& well_built(t, merged_triples(revs), edit_delete_parents(revs), revs, depth_bound(revs))
    &&& r.contents@ == render_tree(t, revs, settings)
    &&& r.conflict_count == saturate(tree_conflicts(t))
    &&& r.conflict_mass == saturate(tree_mass(t, revs))
    &&& r.has_additional_issues == has_signature_conflicts(t, revs)
}

/// Two results that the merge can give on the same revisions and settings agree
/// on text, conflicts, conflict mass and additional issues.
pub proof fn lemma_structured_merge_deterministic(
    revs: Revisions,
    settings: DisplaySettings,
    t1: MergedTree,
    r1: MergeResult,
    t2: MergedTree,
    r2: MergeResult,
)
    requires
        merge_outcome(t1, revs, settings, r1),
        merge_outcome(t2, revs, settings, r2),
    ensures
        r1.contents@ == r2.contents@,
        r1.conflict_count == r2.conflict_count,
        r1.conflict_mass == r2.conflict_mass,
        r1.has_additional_issues == r2.has_additional_issues,
{
    lemma_well_built_outcome_unique(
        t1,
        t2,
        merged_triples(revs),
        edit_delete_parents(revs),
        revs,
        depth_bound(revs),
        settings,
    );
}

/// Merges the three revisions: their triples are merged, the merged tree is
/// built from the class of the base root, and rendered with its conflicts.
/// Siblings merged one by one that share a signature are reported as an
/// additional issue.
pub fn structured_merge(revs: &Revisions, settings: &DisplaySettings) -> (r: MergeResult)
    requires
        revs.wf(),
    ensures
        exists|t: MergedTree| #[trigger] merge_outcome(t, *revs, *settings, r),
        r.method@ == FULLY_STRUCTURED_METHOD@,
{
    let base_pcs = pcs_of_tree(&revs.class_mapping.base, &revs.base);
    let left_pcs = pcs_of_tree(&revs.class_mapping.left, &revs.left);
    let right_pcs = pcs_of_tree(&revs.class_mapping.right, &revs.right);
    let merged = merge_pcs(&base_pcs, &left_pcs, &right_pcs);
    let forced = collect_edit_delete_parents(&merged, &base_pcs, revs);
    assert(forced@.to_set() =~= edit_delete_parents(*revs));
    let root = revs.class_mapping.base[revs.class_mapping.base.len() - 1];
    let depth = revs.base.nodes.len() + revs.left.nodes.len() + revs.right.nodes.len();
    let tree = build_merged_tree(&merged, &forced, revs, root, depth);
    let mut out: Vec<char> = Vec::new();
    let (count, mass) = push_render(&tree, revs, settings, &mut out);
    let issues = find_signature_conflicts(&tree, revs);
    assert(out@ =~= render_tree(tree, *revs, *settings));
    let r = MergeResult {
        contents: crate::text::string_of(&out),
        conflict_count: count,
        conflict_mass: mass,
        method: FULLY_STRUCTURED_METHOD,
        has_additional_issues: issues,
    };
    assert(merge_outcome(tree, *revs, *settings, r));
    r
}

/// The first node from `j` on whose leader is `x` is `k`, where no node
/// between them has that leader.
proof fn lemma_first_from(v: Seq<u64>, x: u64, j: int, k: int)
    requires
        0 <= j <= k < v.len(),
        v[k] == x,
        forall|m: int| j <= m < k ==> v[m] != x,
    ensures
        first_from(v, x, j) == Some(k),
    decreases k - j,
{
    if j < k {
        lemma_first_from(v, x, j + 1, k);
    }
}

/// A tree merged with itself, each node in the class of its copies, gives its
/// own source back, whatever merged tree the merge builds.
pub proof fn lemma_merge_with_itself_gives_source(revs: Revisions, t: MergedTree, settings: DisplaySettings)
    requires
        revs.wf(),
        revs.left == revs.base,
        revs.right == revs.base,
        forall|i: int| 0 <= i < revs.base.nodes@.len() ==> #[trigger] revs.class_mapping.base@[i] == leader_code(Revision::Base, i),
        revs.class_mapping.left@ == revs.class_mapping.base@,
        revs.class_mapping.right@ == revs.class_mapping.base@,
        root_leader(t) == revs.class_mapping.base@.last(),
        well_built(t, merged_triples(revs), edit_delete_parents(revs), revs, depth_bound(revs)),
    ensures
        render_tree(t, revs, settings) == source_of(revs.base, revs.base.nodes@.len() - 1),
{
    let n = revs.base.nodes@.len() as int;
    let v = revs.class_mapping.base@;
    let root = v[n - 1];
    assert forall|m: int| 0 <= m < n - 1 implies v[m] != root by {
        assert(v[m] == leader_code(Revision::Base, m));
        assert(root == leader_code(Revision::Base, n - 1));
    }
    lemma_first_from(v, root, 0, n - 1);
    assert(revs.node(root, Revision::Base) == Some(n - 1));
    assert(revs.node(root, Revision::Left) == Some(n - 1));
    assert(revs.node(root, Revision::Right) == Some(n - 1));
    assert(!revs.left_reformatted(root));
    assert(revs.representative(root) == Some((Revision::Right, n - 1)));
    crate::tree::lemma_isomorphic_reflexive(revs.base, n - 1);
    assert(revs.alike(root));
    assert(t is ExactTree);
}

/// The first `k` well-built trees of a list are well built.
proof fn lemma_all_well_built_elem(
    c: Seq<MergedTree>,
    k: int,
    j: int,
    merged: Set<PcsTriple>,
    forced: Set<u64>,
    revs: Revisions,
    depth: nat,
)
    requires
        0 <= j < k <= c.len(),
        all_well_built(c, k, merged, forced, revs, depth),
    ensures
        well_built(c[j], merged, forced, revs, depth),
    decreases k,
{
    if j < k - 1 {
        lemma_all_well_built_elem(c, k - 1, j, merged, forced, revs, depth);
    }
}

/// Two well-built trees of one class give the same text, conflicts, conflict
/// mass and signature conflicts: the merge is a function of its inputs.
pub proof fn lemma_well_built_outcome_unique(
    t1: MergedTree,
    t2: MergedTree,
    merged: Set<PcsTriple>,
    forced: Set<u64>,
    revs: Revisions,
    depth: nat,
    settings: DisplaySettings,
)
    requires
        well_built(t1, merged, forced, revs, depth),
        well_built(t2, merged, forced, revs, depth),
        root_leader(t1) == root_leader(t2),
    ensures
        render_tree(t1, revs, settings) == render_tree(t2, revs, settings),
        tree_conflicts(t1) == tree_conflicts(t2),
        tree_mass(t1, revs) == tree_mass(t2, revs),
        has_signature_conflicts(t1, revs) == has_signature_conflicts(t2, revs),
    decreases t1,
{
    let leader = root_leader(t1);
    if revs.settled(leader) || t1 is Conflict && t2 is Conflict {
        assert(t1 == t2);
    } else {
        match (t1, t2) {
            (MergedTree::MixedTree { children: ch1, .. }, MergedTree::MixedTree { children: ch2, .. }) => {
                if revs.commutative(leader) {
                    assert(roots(ch1@) == roots(ch2@));
                } else {
                    lemma_child_chain_unique(merged, leader, roots(ch1@), roots(ch2@));
                }
                assert(decreases_to!(t1 => ch1));
                lemma_children_outcome_unique(ch1@, ch2@, ch1@.len() as int, merged, forced, revs, (depth - 1) as nat, settings);
            },
            (MergedTree::MixedTree { children: ch1, .. }, _) => {
                assert(!revs.commutative(leader) ==> is_child_chain(merged, leader, roots(ch1@)));
            },
            (_, MergedTree::MixedTree { children: ch2, .. }) => {
                assert(!revs.commutative(leader) ==> is_child_chain(merged, leader, roots(ch2@)));
            },
            _ => {},
        }
    }
}

/// Lists of well-built trees with the same roots give the same text,
/// conflicts, conflict mass and signature conflicts.
proof fn lemma_children_outcome_unique(
    c1: Seq<MergedTree>,
    c2: Seq<MergedTree>,
    k: int,
    merged: Set<PcsTriple>,
    forced: Set<u64>,
    revs: Revisions,
    depth: nat,
    settings: DisplaySettings,
)
    requires
        all_well_built(c1, c1.len() as int, merged, forced, revs, depth),
        all_well_built(c2, c2.len() as int, merged, forced, revs, depth),
        roots(c1) == roots(c2),
        0 <= k <= c1.len(),
    ensures
        render_children(c1, k, revs, settings) == render_children(c2, k, revs, settings),
        children_conflicts(c1, k) == children_conflicts(c2, k),
        children_mass(c1, k, revs) == children_mass(c2, k, revs),
        children_signature_conflicts(c1, k, revs) == children_signature_conflicts(c2, k, revs),
    decreases c1, k,
{
    assert(c1.len() == roots(c1).len());
    assert(c2.len() == roots(c2).len());
    if k > 0 {
        lemma_children_outcome_unique(c1, c2, k - 1, merged, forced, revs, depth, settings);
        lemma_all_well_built_elem(c1, c1.len() as int, k - 1, merged, forced, revs, depth);
        lemma_all_well_built_elem(c2, c2.len() as int, k - 1, merged, forced, revs, depth);
        assert(roots(c1)[k - 1] == roots(c2)[k - 1]);
        assert(roots(c1)[k - 1] == root_leader(c1[k - 1]));
        assert(roots(c2)[k - 1] == root_leader(c2[k - 1]));
        lemma_well_built_outcome_unique(c1[k - 1], c2[k - 1], merged, forced, revs, depth, settings);
    }
}

} // verus!
