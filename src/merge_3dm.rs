//! The three-way merge of Parent–Child–Successor triples: each revision's tree
//! becomes a set of triples over class leaders, the three sets are merged, and
//! the merged set is checked for conflicts and read back as child lists.

use vstd::prelude::*;
use crate::tree::Ast;

verus! {

/// The leader that stands for the slot before the first child and after the
/// last one.
pub const SENTINEL: u64 = 0;

/// "Under `parent`, `child` is followed by `successor`", over class leaders.
#[derive(Debug, Clone, Copy, PartialEq, Eq, Structural)]
pub struct PcsTriple {
    pub parent: u64,
    pub child: u64,
    pub successor: u64,
}

/// The `i`-th child, or the sentinel outside the list.
pub open spec fn slot(children: Seq<u64>, i: int) -> u64 {
    if 0 <= i < children.len() {
        children[i]
    } else {
        SENTINEL
    }
}

/// The triples that a list of children gives under `parent`: the sentinel
/// followed by the first child, each child by the next, the last by the sentinel.
pub open spec fn pcs_of_children(parent: u64, children: Seq<u64>) -> Seq<PcsTriple> {
    Seq::new(
        children.len() + 1,
        |i: int| PcsTriple { parent, child: slot(children, i - 1), successor: slot(children, i) },
    )
}

/// The merged set of triples: those kept by all three revisions, and those that
/// the left or the right revision added, less those that either deleted.
pub open spec fn merged_set(base: Set<PcsTriple>, left: Set<PcsTriple>, right: Set<PcsTriple>) -> Set<PcsTriple> {
    base.intersect(left).intersect(right).union(left.difference(base)).union(right.difference(base)).difference(
        base.difference(left),
    ).difference(base.difference(right))
}

/// The triples that the children of `parent` give.
pub fn build_pcs(parent: u64, children: &Vec<u64>) -> (r: Vec<PcsTriple>)
    ensures
        r@ == pcs_of_children(parent, children@),
{
    let ghost want = pcs_of_children(parent, children@);
    let mut r: Vec<PcsTriple> = Vec::new();
    let first = if children.len() > 0 {
        children[0]
    } else {
        SENTINEL
    };
    r.push(PcsTriple { parent, child: SENTINEL, successor: first });
    assert(r@ =~= want.subrange(0, 1));
    let mut k: usize = 0;
    while k < children.len()
        invariant
            k <= children@.len(),
            want == pcs_of_children(parent, children@),
            r@ == want.subrange(0, k + 1),
        decreases children@.len() - k,
    {
        let successor = if k + 1 < children.len() {
            children[k + 1]
        } else {
            SENTINEL
        };
        r.push(PcsTriple { parent, child: children[k], successor });
        k = k + 1;
        assert(r@ =~= want.subrange(0, k + 1));
    }
    assert(r@ =~= want);
    r
}

/// Whether `t` is among `v`.
fn contains_triple(v: &Vec<PcsTriple>, t: PcsTriple) -> (r: bool)
    ensures
        r == v@.contains(t),
{
    let mut i: usize = 0;
    while i < v.len()
        invariant
            i <= v@.len(),
            forall|j: int| 0 <= j < i ==> v@[j] != t,
        decreases v@.len() - i,
    {
        if v[i] == t {
            return true;
        }
        i = i + 1;
    }
    false
}

/// What a prefix one element longer contains.
proof fn lemma_prefix_contains(s: Seq<PcsTriple>, i: int, u: PcsTriple)
    requires
        0 <= i < s.len(),
    ensures
        s.subrange(0, i + 1).contains(u) <==> (s.subrange(0, i).contains(u) || s[i] == u),
{
    if s.subrange(0, i + 1).contains(u) {
        let k = choose|k: int| 0 <= k < i + 1 && #[trigger] s.subrange(0, i + 1)[k] == u;
        if k < i {
            assert(s.subrange(0, i)[k] == u);
        }
    }
    if s.subrange(0, i).contains(u) {
        let k = choose|k: int| 0 <= k < i && #[trigger] s.subrange(0, i)[k] == u;
        assert(s.subrange(0, i + 1)[k] == u);
    }
    if s[i] == u {
        assert(s.subrange(0, i + 1)[i] == u);
    }
}

/// What a sequence contains after an element was pushed or not.
proof fn lemma_after_push(prev: Seq<PcsTriple>, t: PcsTriple, pushed: bool, now: Seq<PcsTriple>, u: PcsTriple)
    requires
        now == if pushed {
            prev.push(t)
        } else {
            prev
        },
    ensures
        now.contains(u) <==> (prev.contains(u) || (pushed && u == t)),
{
    if pushed {
        if now.contains(u) {
            let k = choose|k: int| 0 <= k < now.len() && #[trigger] now[k] == u;
            if k < prev.len() {
                assert(prev[k] == u);
            }
        }
        if prev.contains(u) {
            let k = choose|k: int| 0 <= k < prev.len() && #[trigger] prev[k] == u;
            assert(now[k] == u);
        }
        assert(now[prev.len() as int] == t);
    }
}

/// Merges the triples of the three revisions, keeping each triple once.
pub fn merge_pcs(base: &Vec<PcsTriple>, left: &Vec<PcsTriple>, right: &Vec<PcsTriple>) -> (r: Vec<PcsTriple>)
    ensures
        r@.to_set() == merged_set(base@.to_set(), left@.to_set(), right@.to_set()),
        r@.no_duplicates(),
{
    let mut out: Vec<PcsTriple> = Vec::new();
    let mut i: usize = 0;
    while i < base.len()
        invariant
            i <= base@.len(),
            out@.no_duplicates(),
            forall|t: PcsTriple| #[trigger] out@.contains(t) <==> (base@.subrange(0, i as int).contains(t)
                && left@.contains(t) && right@.contains(t)),
        decreases base@.len() - i,
    {
        let t = base[i];
        let ghost prev = out@;
        let keep = contains_triple(left, t) && contains_triple(right, t);
        let pushed = keep && !contains_triple(&out, t);
        if pushed {
            out.push(t);
        }
        i = i + 1;
        assert forall|u: PcsTriple| #[trigger] out@.contains(u) <==> (base@.subrange(0, i as int).contains(u)
            && left@.contains(u) && right@.contains(u)) by {
            lemma_prefix_contains(base@, i - 1, u);
            lemma_after_push(prev, t, pushed, out@, u);
        }
    }
    assert(base@.subrange(0, i as int) =~= base@);
    let mut j: usize = 0;
    while j < left.len()
        invariant
            j <= left@.len(),
            out@.no_duplicates(),
            forall|t: PcsTriple| #[trigger] out@.contains(t) <==> ((base@.contains(t) && left@.contains(t)
                && right@.contains(t)) || (left@.subrange(0, j as int).contains(t) && !base@.contains(t))),
        decreases left@.len() - j,
    {
        let t = left[j];
        let ghost prev = out@;
        let keep = !contains_triple(base, t);
        let pushed = keep && !contains_triple(&out, t);
        if pushed {
            out.push(t);
        }
        j = j + 1;
        assert forall|u: PcsTriple| #[trigger] out@.contains(u) <==> ((base@.contains(u) && left@.contains(u)
            && right@.contains(u)) || (left@.subrange(0, j as int).contains(u) && !base@.contains(u))) by {
            lemma_prefix_contains(left@, j - 1, u);
            lemma_after_push(prev, t, pushed, out@, u);
        }
    }
    assert(left@.subrange(0, j as int) =~= left@);
    let mut k: usize = 0;
    while k < right.len()
        invariant
            k <= right@.len(),
            out@.no_duplicates(),
            forall|t: PcsTriple| #[trigger] out@.contains(t) <==> ((base@.contains(t) && left@.contains(t)
                && right@.contains(t)) || (left@.contains(t) && !base@.contains(t)) || (right@.subrange(
                0,
                k as int,
            ).contains(t) && !base@.contains(t))),
        decreases right@.len() - k,
    {
        let t = right[k];
        let ghost prev = out@;
        let keep = !contains_triple(base, t);
        let pushed = keep && !contains_triple(&out, t);
        if pushed {
            out.push(t);
        }
        k = k + 1;
        assert forall|u: PcsTriple| #[trigger] out@.contains(u) <==> ((base@.contains(u) && left@.contains(u)
            && right@.contains(u)) || (left@.contains(u) && !base@.contains(u)) || (right@.subrange(
            0,
            k as int,
        ).contains(u) && !base@.contains(u))) by {
            lemma_prefix_contains(right@, k - 1, u);
            lemma_after_push(prev, t, pushed, out@, u);
        }
    }
    assert(right@.subrange(0, k as int) =~= right@);
    assert(out@.to_set() =~= merged_set(base@.to_set(), left@.to_set(), right@.to_set()));
    out
}

/// Merging a revision with itself on all three sides gives it back.
pub proof fn lemma_merge_identity(x: Set<PcsTriple>)
    ensures
        merged_set(x, x, x) == x,
{
    assert(merged_set(x, x, x) =~= x);
}

/// Where one side did not change the base, the merge gives the other side.
pub proof fn lemma_merge_one_side_unchanged(base: Set<PcsTriple>, other: Set<PcsTriple>)
    ensures
        merged_set(base, base, other) == other,
        merged_set(base, other, base) == other,
{
    assert(merged_set(base, base, other) =~= other);
    assert(merged_set(base, other, base) =~= other);
}

/// Two triples that cannot both hold: under one parent, a child with two
/// successors, or a successor with two predecessors.
pub open spec fn clash(a: PcsTriple, b: PcsTriple) -> bool {
    a != b && a.parent == b.parent && (a.child == b.child || a.successor == b.successor)
}

/// Whether `x` is among `v`.
pub(crate) fn contains_leader(v: &Vec<u64>, x: u64) -> (r: bool)
    ensures
        r == v@.contains(x),
{
    let mut i: usize = 0;
    while i < v.len()
        invariant
            i <= v@.len(),
            forall|j: int| 0 <= j < i ==> v@[j] != x,
        decreases v@.len() - i,
    {
        if v[i] == x {
            return true;
        }
        i = i + 1;
    }
    false
}

/// Finds two merged triples that clash under a parent whose children are
/// ordered (one not in `commutative`), if there are any.
pub fn find_conflict(merged: &Vec<PcsTriple>, commutative: &Vec<u64>) -> (r: Option<(PcsTriple, PcsTriple)>)
    ensures
        match r {
            Some((a, b)) => merged@.contains(a) && merged@.contains(b) && clash(a, b)
                && !commutative@.contains(a.parent),
            None => forall|a: PcsTriple, b: PcsTriple|
                #![trigger merged@.contains(a), merged@.contains(b)]
                merged@.contains(a) && merged@.contains(b) && !commutative@.contains(a.parent) ==> !clash(a, b),
        },
{
    let mut i: usize = 0;
    while i < merged.len()
        invariant
            i <= merged@.len(),
            forall|x: int, y: int|
                0 <= x < i && 0 <= y < merged@.len() && !commutative@.contains(merged@[x].parent) ==> !clash(
                    #[trigger] merged@[x],
                    #[trigger] merged@[y],
                ),
        decreases merged@.len() - i,
    {
        let a = merged[i];
        if !contains_leader(commutative, a.parent) {
            let mut j: usize = 0;
            while j < merged.len()
                invariant
                    i < merged@.len(),
                    j <= merged@.len(),
                    a == merged@[i as int],
                    !commutative@.contains(a.parent),
                    forall|x: int, y: int|
                        0 <= x < i && 0 <= y < merged@.len() && !commutative@.contains(merged@[x].parent) ==> !clash(
                            #[trigger] merged@[x],
                            #[trigger] merged@[y],
                        ),
                    forall|y: int| 0 <= y < j ==> !clash(a, #[trigger] merged@[y]),
                decreases merged@.len() - j,
            {
                let b = merged[j];
                if a != b && a.parent == b.parent && (a.child == b.child || a.successor == b.successor) {
                    assert(merged@.contains(a) && merged@.contains(b) && merged@[j as int] == b);
                    return Some((a, b));
                }
                j = j + 1;
            }
        }
        i = i + 1;
    }
    assert forall|a: PcsTriple, b: PcsTriple|
        #![trigger merged@.contains(a), merged@.contains(b)]
        merged@.contains(a) && merged@.contains(b) && !commutative@.contains(a.parent) implies !clash(a, b) by {
        let x = choose|x: int| 0 <= x < merged@.len() && merged@[x] == a;
        let y = choose|y: int| 0 <= y < merged@.len() && merged@[y] == b;
        assert(!clash(merged@[x], merged@[y]));
    }
    None
}

/// The first triple of `merged` under `parent` whose child is `child`.
fn find_next(merged: &Vec<PcsTriple>, parent: u64, child: u64) -> (r: Option<PcsTriple>)
    ensures
        match r {
            Some(t) => merged@.contains(t) && t.parent == parent && t.child == child,
            None => forall|t: PcsTriple| #[trigger] merged@.contains(t) ==> !(t.parent == parent && t.child == child),
        },
{
    let mut i: usize = 0;
    while i < merged.len()
        invariant
            i <= merged@.len(),
            forall|j: int| 0 <= j < i ==> !((#[trigger] merged@[j]).parent == parent && merged@[j].child == child),
        decreases merged@.len() - i,
    {
        let t = merged[i];
        if t.parent == parent && t.child == child {
            assert(merged@[i as int] == t);
            return Some(t);
        }
        i = i + 1;
    }
    assert forall|t: PcsTriple| #[trigger] merged@.contains(t) implies !(t.parent == parent && t.child == child) by {
        let j = choose|j: int| 0 <= j < merged@.len() && merged@[j] == t;
    }
    None
}

/// Whether every triple of `a` is among `b`.
fn all_among(a: &Vec<PcsTriple>, b: &Vec<PcsTriple>) -> (r: bool)
    ensures
        r == (forall|t: PcsTriple| #[trigger] a@.contains(t) ==> b@.contains(t)),
{
    let mut i: usize = 0;
    while i < a.len()
        invariant
            i <= a@.len(),
            forall|j: int| 0 <= j < i ==> b@.contains(#[trigger] a@[j]),
        decreases a@.len() - i,
    {
        if !contains_triple(b, a[i]) {
            assert(a@.contains(a@[i as int]));
            return false;
        }
        i = i + 1;
    }
    assert forall|t: PcsTriple| #[trigger] a@.contains(t) implies b@.contains(t) by {
        let j = choose|j: int| 0 <= j < a@.len() && a@[j] == t;
    }
    true
}

/// Whether every triple of `a` under `parent` is among `b`.
fn all_under_among(a: &Vec<PcsTriple>, parent: u64, b: &Vec<PcsTriple>) -> (r: bool)
    ensures
        r == (forall|t: PcsTriple| #[trigger] a@.contains(t) && t.parent == parent ==> b@.contains(t)),
{
    let mut i: usize = 0;
    while i < a.len()
        invariant
            i <= a@.len(),
            forall|j: int| 0 <= j < i && (#[trigger] a@[j]).parent == parent ==> b@.contains(a@[j]),
        decreases a@.len() - i,
    {
        if a[i].parent == parent && !contains_triple(b, a[i]) {
            assert(a@.contains(a@[i as int]));
            return false;
        }
        i = i + 1;
    }
    assert forall|t: PcsTriple| #[trigger] a@.contains(t) && t.parent == parent implies b@.contains(t) by {
        let j = choose|j: int| 0 <= j < a@.len() && a@[j] == t;
    }
    true
}

/// The merged triples under `parent`.
pub open spec fn under(merged: Set<PcsTriple>, parent: u64) -> Set<PcsTriple> {
    merged.filter(|t: PcsTriple| t.parent == parent)
}

/// Whether `c` is a list of distinct children, none of them the sentinel,
/// whose triples under `parent` are exactly the merged ones.
pub open spec fn is_child_chain(merged: Set<PcsTriple>, parent: u64, c: Seq<u64>) -> bool {
    &&& c.no_duplicates()
    &&& !c.contains(SENTINEL)
    &&& pcs_of_children(parent, c).to_set() == under(merged, parent)
}

/// The triples of distinct children, none of them the sentinel, are distinct.
proof fn lemma_chain_triples_distinct(parent: u64, c: Seq<u64>)
    requires
        c.no_duplicates(),
        !c.contains(SENTINEL),
    ensures
        pcs_of_children(parent, c).no_duplicates(),
        pcs_of_children(parent, c).to_set().len() == c.len() + 1,
{
    let p = pcs_of_children(parent, c);
    assert forall|i: int, j: int| 0 <= i < p.len() && 0 <= j < p.len() && i != j implies p[i] != p[j] by {
        if i > 0 && j > 0 {
            assert(c[i - 1] != c[j - 1]);
        } else if i == 0 {
            assert(c[j - 1] != SENTINEL) by {
                if c[j - 1] == SENTINEL {
                    assert(c.contains(SENTINEL));
                }
            }
        } else {
            assert(c[i - 1] != SENTINEL) by {
                if c[i - 1] == SENTINEL {
                    assert(c.contains(SENTINEL));
                }
            }
        }
    }
    p.unique_seq_to_set();
}

/// Whether the leaders of `v` are distinct and none is the sentinel.
fn distinct_non_sentinel(v: &Vec<u64>) -> (r: bool)
    ensures
        r == (v@.no_duplicates() && !v@.contains(SENTINEL)),
{
    let mut i: usize = 0;
    while i < v.len()
        invariant
            i <= v@.len(),
            forall|a: int| 0 <= a < i ==> v@[a] != SENTINEL,
            forall|a: int, b: int| 0 <= a < i && 0 <= b < v@.len() && a != b ==> v@[a] != v@[b],
        decreases v@.len() - i,
    {
        if v[i] == SENTINEL {
            assert(v@.contains(v@[i as int]));
            return false;
        }
        let mut j: usize = 0;
        while j < v.len()
            invariant
                i < v@.len(),
                j <= v@.len(),
                forall|b: int| 0 <= b < j && b != i ==> v@[i as int] != v@[b],
            decreases v@.len() - j,
        {
            if j != i && v[j] == v[i] {
                return false;
            }
            j = j + 1;
        }
        i = i + 1;
    }
    true
}

/// The triples of two child chains of one parent agree from the first on.
proof fn lemma_chains_agree(merged: Set<PcsTriple>, parent: u64, c1: Seq<u64>, c2: Seq<u64>, i: int)
    requires
        is_child_chain(merged, parent, c1),
        is_child_chain(merged, parent, c2),
        c1.len() == c2.len(),
        0 <= i <= c1.len(),
    ensures
        pcs_of_children(parent, c1)[i] == pcs_of_children(parent, c2)[i],
    decreases i,
{
    let p1 = pcs_of_children(parent, c1);
    let p2 = pcs_of_children(parent, c2);
    if i > 0 {
        lemma_chains_agree(merged, parent, c1, c2, i - 1);
        assert(p1[i - 1].successor == p2[i - 1].successor);
    }
    assert(p1.to_set().contains(p1[i]));
    assert(p2.to_set().contains(p1[i]));
    let m = choose|m: int| 0 <= m < p2.len() && p2[m] == p1[i];
    if m != i {
        // the two triples have the same child: the children at m - 1 and i - 1 agree
        assert(slot(c2, m - 1) == slot(c2, i - 1));
        if m > 0 && i > 0 {
            assert(c2[m - 1] == c2[i - 1]);
        } else if m == 0 {
            assert(c2.contains(c2[i - 1]));
        } else {
            assert(c2.contains(c2[m - 1]));
        }
    }
}

/// Merged triples under a parent form at most one child chain.
pub proof fn lemma_child_chain_unique(merged: Set<PcsTriple>, parent: u64, c1: Seq<u64>, c2: Seq<u64>)
    requires
        is_child_chain(merged, parent, c1),
        is_child_chain(merged, parent, c2),
    ensures
        c1 == c2,
{
    lemma_chain_triples_distinct(parent, c1);
    lemma_chain_triples_distinct(parent, c2);
    assert(c1.len() == c2.len());
    assert forall|k: int| 0 <= k < c1.len() implies c1[k] == c2[k] by {
        lemma_chains_agree(merged, parent, c1, c2, k);
    }
    assert(c1 =~= c2);
}

/// The children of `parent` that the merged triples give, read from the
/// sentinel on: there are some exactly where such a list exists, and they are
/// then distinct, none is the sentinel, and the triples under `parent` are
/// exactly those of the list.
pub fn children_of(merged: &Vec<PcsTriple>, parent: u64) -> (r: Option<Vec<u64>>)
    ensures
        match r {
            Some(c) => is_child_chain(merged@.to_set(), parent, c@),
            None => !exists|c: Seq<u64>| is_child_chain(merged@.to_set(), parent, c),
        },
{
    let ghost has_chain = exists|c: Seq<u64>| is_child_chain(merged@.to_set(), parent, c);
    let ghost w: Seq<u64> = if has_chain {
        choose|c: Seq<u64>| is_child_chain(merged@.to_set(), parent, c)
    } else {
        Seq::empty()
    };
    proof {
        if has_chain {
            lemma_chain_triples_distinct(parent, w);
            let want = under(merged@.to_set(), parent);
            vstd::seq_lib::seq_to_set_is_finite(merged@);
            assert(want.subset_of(merged@.to_set()));
            vstd::set_lib::lemma_len_subset(want, merged@.to_set());
            merged@.lemma_cardinality_of_set();
            assert(w.len() + 1 <= merged@.len());
        }
    }
    let mut children: Vec<u64> = Vec::new();
    let mut cur: u64 = SENTINEL;
    let mut steps: usize = 0;
    loop
        invariant
            children@.len() <= steps,
            steps <= merged@.len(),
            has_chain == exists|c: Seq<u64>| is_child_chain(merged@.to_set(), parent, c),
            has_chain ==> is_child_chain(merged@.to_set(), parent, w),
            has_chain ==> w.len() + 1 <= merged@.len(),
            has_chain ==> steps <= w.len() && children@ == w.subrange(0, steps as int) && cur == slot(w, steps - 1),
        ensures
            children@.len() < merged@.len(),
            has_chain ==> children@ == w,
        decreases merged@.len() - steps,
    {
        if steps == merged.len() {
            assert(!has_chain);
            return None;
        }
        let ghost want = under(merged@.to_set(), parent);
        let ghost expected = pcs_of_children(parent, w)[steps as int];
        proof {
            if has_chain {
                assert(pcs_of_children(parent, w).to_set().contains(expected));
                assert(want.contains(expected));
                assert(merged@.contains(expected));
                assert(expected.parent == parent && expected.child == cur);
            }
        }
        match find_next(merged, parent, cur) {
            None => {
                assert(!has_chain);
                return None;
            },
            Some(t) => {
                proof {
                    if has_chain {
                        assert(want.contains(t));
                        assert(pcs_of_children(parent, w).to_set().contains(t));
                        let m = choose|m: int| 0 <= m < pcs_of_children(parent, w).len() && pcs_of_children(parent, w)[m] == t;
                        lemma_chain_triples_distinct(parent, w);
                        if m != steps {
                            assert(slot(w, m - 1) == slot(w, steps - 1));
                            if m > 0 && steps > 0 {
                                assert(w[m - 1] == w[steps - 1]);
                            } else if m == 0 {
                                assert(w.contains(w[steps - 1]));
                            } else {
                                assert(w.contains(w[m - 1]));
                            }
                        }
                        assert(t == expected);
                        if steps < w.len() {
                            assert(w.contains(w[steps as int]));
                        }
                    }
                }
                if t.successor == SENTINEL {
                    proof {
                        if has_chain {
                            assert(children@ =~= w);
                        }
                    }
                    break;
                }
                children.push(t.successor);
                cur = t.successor;
                proof {
                    if has_chain {
                        assert(children@ =~= w.subrange(0, steps + 1));
                    }
                }
            },
        }
        steps = steps + 1;
    }
    let total = merged.len();
    assert(children@.len() < total);
    let pcs = build_pcs(parent, &children);
    let ghost want = under(merged@.to_set(), parent);
    if all_under_among(merged, parent, &pcs) && all_among(&pcs, merged) && distinct_non_sentinel(&children) {
        assert forall|t: PcsTriple| pcs@.to_set().contains(t) <==> #[trigger] want.contains(t) by {
            if pcs@.contains(t) {
                let j = choose|j: int| 0 <= j < pcs@.len() && pcs@[j] == t;
            }
        }
        assert(pcs@.to_set() =~= want);
        Some(children)
    } else {
        proof {
            if has_chain {
                assert(pcs@ == pcs_of_children(parent, w));
                assert forall|t: PcsTriple| #[trigger] merged@.contains(t) && t.parent == parent implies pcs@.contains(t) by {
                    assert(merged@.to_set().contains(t));
                    assert(want.contains(t));
                    assert(pcs@.to_set().contains(t));
                }
                assert forall|t: PcsTriple| #[trigger] pcs@.contains(t) implies merged@.contains(t) by {
                    assert(pcs@.to_set().contains(t));
                    assert(want.contains(t));
                }
            }
        }
        None
    }
}

/// The children that a merge keeps under a parent whose children may come in
/// any order: those of the left revision that the right one did not delete,
/// then those that only the right revision added.
pub open spec fn commutative_merge_spec(base: Seq<u64>, left: Seq<u64>, right: Seq<u64>) -> Seq<u64> {
    left.filter(|x: u64| !base.contains(x) || right.contains(x)) + right.filter(
        |x: u64| !base.contains(x) && !left.contains(x),
    )
}

/// Merges the children of a parent whose children may come in any order.
pub fn merge_commutative_children(base: &Vec<u64>, left: &Vec<u64>, right: &Vec<u64>) -> (r: Vec<u64>)
    ensures
        r@ == commutative_merge_spec(base@, left@, right@),
{
    let ghost keep_left = |x: u64| !base@.contains(x) || right@.contains(x);
    let ghost keep_right = |x: u64| !base@.contains(x) && !left@.contains(x);
    let mut out: Vec<u64> = Vec::new();
    let mut i: usize = 0;
    while i < left.len()
        invariant
            i <= left@.len(),
            keep_left == (|x: u64| !base@.contains(x) || right@.contains(x)),
            out@ == left@.subrange(0, i as int).filter(keep_left),
        decreases left@.len() - i,
    {
        assert(left@.subrange(0, i + 1).drop_last() =~= left@.subrange(0, i as int));
        proof {
            reveal(Seq::filter);
        }
        let x = left[i];
        if !contains_leader(base, x) || contains_leader(right, x) {
            out.push(x);
        }
        i = i + 1;
    }
    assert(left@.subrange(0, i as int) =~= left@);
    let ghost first = out@;
    let mut j: usize = 0;
    while j < right.len()
        invariant
            j <= right@.len(),
            keep_right == (|x: u64| !base@.contains(x) && !left@.contains(x)),
            out@ == first + right@.subrange(0, j as int).filter(keep_right),
        decreases right@.len() - j,
    {
        assert(right@.subrange(0, j + 1).drop_last() =~= right@.subrange(0, j as int));
        proof {
            reveal(Seq::filter);
        }
        let x = right[j];
        if !contains_leader(base, x) && !contains_leader(left, x) {
            out.push(x);
        }
        j = j + 1;
        assert(out@ =~= first + right@.subrange(0, j as int).filter(keep_right));
    }
    assert(right@.subrange(0, j as int) =~= right@);
    out
}

/// A filtered sequence holds the elements of the sequence that pass the filter.
proof fn lemma_filter_contains_iff(s: Seq<u64>, p: spec_fn(u64) -> bool, x: u64)
    ensures
        s.filter(p).contains(x) <==> (s.contains(x) && p(x)),
{
    broadcast use vstd::seq_lib::group_filter_ensures;

    if s.filter(p).contains(x) {
        s.lemma_filter_contains_rev(p, x);
        let k = choose|k: int| 0 <= k < s.filter(p).len() && s.filter(p)[k] == x;
        s.lemma_filter_pred(p, k);
    }
    if s.contains(x) && p(x) {
        let k = choose|k: int| 0 <= k < s.len() && s[k] == x;
        s.lemma_filter_contains(p, k);
    }
}

/// A concatenation holds what either part holds.
proof fn lemma_concat_contains(a: Seq<u64>, b: Seq<u64>, x: u64)
    ensures
        (a + b).contains(x) <==> (a.contains(x) || b.contains(x)),
{
    if (a + b).contains(x) {
        let k = choose|k: int| 0 <= k < (a + b).len() && (a + b)[k] == x;
        if k < a.len() {
            assert(a[k] == x);
        } else {
            assert(b[k - a.len()] == x);
        }
    }
    if a.contains(x) {
        let k = choose|k: int| 0 <= k < a.len() && a[k] == x;
        assert((a + b)[k] == x);
    }
    if b.contains(x) {
        let k = choose|k: int| 0 <= k < b.len() && b[k] == x;
        assert((a + b)[k + a.len()] == x);
    }
}

/// A child is kept under a commutative parent exactly when one side has it and
/// neither side deleted it.
pub proof fn lemma_commutative_merge_members(base: Seq<u64>, left: Seq<u64>, right: Seq<u64>, x: u64)
    ensures
        commutative_merge_spec(base, left, right).contains(x) <==> ((left.contains(x) || right.contains(x)) && (
        !base.contains(x) || (left.contains(x) && right.contains(x)))),
{
    let kl = |y: u64| !base.contains(y) || right.contains(y);
    let kr = |y: u64| !base.contains(y) && !left.contains(y);
    lemma_concat_contains(left.filter(kl), right.filter(kr), x);
    lemma_filter_contains_iff(left, kl, x);
    lemma_filter_contains_iff(right, kr, x);
}

/// Under a commutative parent, reordering the children of either side does not
/// change which children the merge keeps.
pub proof fn lemma_commutative_merge_order_free(
    base: Seq<u64>,
    left1: Seq<u64>,
    right1: Seq<u64>,
    left2: Seq<u64>,
    right2: Seq<u64>,
)
    requires
        left1.to_set() == left2.to_set(),
        right1.to_set() == right2.to_set(),
    ensures
        commutative_merge_spec(base, left1, right1).to_set() == commutative_merge_spec(base, left2, right2).to_set(),
{
    assert forall|x: u64|
        commutative_merge_spec(base, left1, right1).to_set().contains(x)
            <==> #[trigger] commutative_merge_spec(base, left2, right2).to_set().contains(x) by {
        lemma_commutative_merge_members(base, left1, right1, x);
        lemma_commutative_merge_members(base, left2, right2, x);
        assert(left1.to_set().contains(x) == left1.contains(x));
        assert(left2.to_set().contains(x) == left2.contains(x));
        assert(right1.to_set().contains(x) == right1.contains(x));
        assert(right2.to_set().contains(x) == right2.contains(x));
    }
    assert(commutative_merge_spec(base, left1, right1).to_set() =~= commutative_merge_spec(base, left2, right2).to_set());
}

/// Whether leader `x` has a place among the merged triples: as a child or as a
/// successor of some triple.
pub open spec fn placed(merged: Seq<PcsTriple>, x: u64) -> bool {
    exists|t: PcsTriple| #[trigger] merged.contains(t) && (t.child == x || t.successor == x)
}

/// Finds a parent other than `root` that has children among the merged triples
/// but no place itself: one side deleted it while the other changed its children.
pub fn find_orphan(merged: &Vec<PcsTriple>, root: u64) -> (r: Option<u64>)
    ensures
        match r {
            Some(p) => p != root && (exists|t: PcsTriple| #[trigger] merged@.contains(t) && t.parent == p)
                && !placed(merged@, p),
            None => forall|t: PcsTriple| #[trigger] merged@.contains(t) && t.parent != root ==> placed(merged@, t.parent),
        },
{
    let mut i: usize = 0;
    while i < merged.len()
        invariant
            i <= merged@.len(),
            forall|j: int| 0 <= j < i && (#[trigger] merged@[j]).parent != root ==> placed(merged@, merged@[j].parent),
        decreases merged@.len() - i,
    {
        let p = merged[i].parent;
        if p != root {
            let mut k: usize = 0;
            let mut found = false;
            while k < merged.len() && !found
                invariant
                    k <= merged@.len(),
                    found ==> placed(merged@, p),
                    !found ==> forall|m: int| 0 <= m < k ==> !((#[trigger] merged@[m]).child == p || merged@[m].successor == p),
                decreases merged@.len() - k,
            {
                if merged[k].child == p || merged[k].successor == p {
                    assert(merged@.contains(merged@[k as int]));
                    found = true;
                }
                k = k + 1;
            }
            if !found {
                assert(merged@.contains(merged@[i as int]));
                assert forall|t: PcsTriple| #[trigger] merged@.contains(t) implies !(t.child == p || t.successor == p) by {
                    let m = choose|m: int| 0 <= m < merged@.len() && merged@[m] == t;
                }
                return Some(p);
            }
        }
        i = i + 1;
    }
    assert forall|t: PcsTriple| #[trigger] merged@.contains(t) && t.parent != root implies placed(merged@, t.parent) by {
        let j = choose|j: int| 0 <= j < merged@.len() && merged@[j] == t;
    }
    None
}

/// The merge of triple lists depends on which triples each holds, not on
/// their order: lists with the same triples give the same merged set.
pub proof fn lemma_merge_order_independent(
    base1: Seq<PcsTriple>,
    left1: Seq<PcsTriple>,
    right1: Seq<PcsTriple>,
    base2: Seq<PcsTriple>,
    left2: Seq<PcsTriple>,
    right2: Seq<PcsTriple>,
)
    requires
        base1.to_set() == base2.to_set(),
        left1.to_set() == left2.to_set(),
        right1.to_set() == right2.to_set(),
    ensures
        merged_set(base1.to_set(), left1.to_set(), right1.to_set()) == merged_set(
            base2.to_set(),
            left2.to_set(),
            right2.to_set(),
        ),
{
}

/// The leaders of the children of node `i`.
pub open spec fn child_leaders(leaders: Seq<u64>, a: Ast, i: int) -> Seq<u64> {
    Seq::new(a.arity(i) as nat, |k: int| leaders[a.child(i, k)])
}

/// The triples of the first `n` nodes of a tree whose nodes have `leaders`.
pub open spec fn tree_pcs_upto(leaders: Seq<u64>, a: Ast, n: int) -> Seq<PcsTriple>
    decreases n,
{
    if n <= 0 {
        Seq::empty()
    } else {
        tree_pcs_upto(leaders, a, n - 1) + pcs_of_children(leaders[n - 1], child_leaders(leaders, a, n - 1))
    }
}

/// The triples of a whole tree whose nodes have `leaders`.
pub open spec fn tree_pcs(leaders: Seq<u64>, a: Ast) -> Seq<PcsTriple> {
    tree_pcs_upto(leaders, a, a.nodes@.len() as int)
}

/// The leaders of the children of node `i`.
pub fn child_leader_vec(leaders: &Vec<u64>, a: &Ast, i: usize) -> (r: Vec<u64>)
    requires
        a.wf(),
        leaders@.len() == a.nodes@.len(),
        i < a.nodes@.len(),
    ensures
        r@ == child_leaders(leaders@, *a, i as int),
{
    let node = &a.nodes[i];
    let mut cl: Vec<u64> = Vec::new();
    let mut k: usize = 0;
    while k < node.children.len()
        invariant
            a.wf(),
            leaders@.len() == a.nodes@.len(),
            i < a.nodes@.len(),
            *node == a.nodes@[i as int],
            k <= node.children@.len(),
            cl@ == child_leaders(leaders@, *a, i as int).subrange(0, k as int),
        decreases node.children@.len() - k,
    {
        let c = node.children[k];
        assert(a.child(i as int, k as int) == c);
        cl.push(leaders[c]);
        k = k + 1;
        assert(cl@ =~= child_leaders(leaders@, *a, i as int).subrange(0, k as int));
    }
    assert(cl@ =~= child_leaders(leaders@, *a, i as int));
    cl
}

/// The triples of a tree, each node standing for its class by its leader.
pub fn pcs_of_tree(leaders: &Vec<u64>, a: &Ast) -> (r: Vec<PcsTriple>)
    requires
        a.wf(),
        leaders@.len() == a.nodes@.len(),
    ensures
        r@ == tree_pcs(leaders@, *a),
{
    let mut r: Vec<PcsTriple> = Vec::new();
    let mut i: usize = 0;
    while i < a.nodes.len()
        invariant
            a.wf(),
            leaders@.len() == a.nodes@.len(),
            i <= a.nodes@.len(),
            r@ == tree_pcs_upto(leaders@, *a, i as int),
        decreases a.nodes@.len() - i,
    {
        let cl = child_leader_vec(leaders, a, i);
        let t = build_pcs(leaders[i], &cl);
        let ghost before = r@;
        let mut m: usize = 0;
        while m < t.len()
            invariant
                m <= t@.len(),
                r@ == before + t@.subrange(0, m as int),
            decreases t@.len() - m,
        {
            r.push(t[m]);
            m = m + 1;
            assert(r@ =~= before + t@.subrange(0, m as int));
        }
        assert(t@.subrange(0, m as int) =~= t@);
        i = i + 1;
    }
    r
}

/// How often a filtered sequence holds `x`: as often as the sequence where `x`
/// passes the filter, else never.
proof fn lemma_filter_count(s: Seq<u64>, p: spec_fn(u64) -> bool, x: u64)
    ensures
        s.filter(p).to_multiset().count(x) == if p(x) {
            s.to_multiset().count(x)
        } else {
            0
        },
    decreases s.len(),
{
    broadcast use vstd::multiset::group_multiset_axioms;

    reveal(Seq::filter);
    if s.len() == 0 {
        s.to_multiset_ensures();
        s.filter(p).to_multiset_ensures();
    } else {
        let d = s.drop_last();
        lemma_filter_count(d, p, s.last());
        lemma_filter_count(d, p, x);
        assert(s =~= d.push(s.last()));
        d.to_multiset_ensures();
        d.filter(p).to_multiset_ensures();
        if p(s.last()) {
            assert(s.filter(p) == d.filter(p).push(s.last()));
        } else {
            assert(s.filter(p) == d.filter(p));
        }
    }
}

/// How often a concatenation holds `x`: the sum over its parts.
proof fn lemma_concat_count(a: Seq<u64>, b: Seq<u64>, x: u64)
    ensures
        (a + b).to_multiset().count(x) == a.to_multiset().count(x) + b.to_multiset().count(x),
    decreases b.len(),
{
    broadcast use vstd::multiset::group_multiset_axioms;

    if b.len() == 0 {
        assert(a + b =~= a);
        b.to_multiset_ensures();
    } else {
        let d = b.drop_last();
        lemma_concat_count(a, d, x);
        assert(b =~= d.push(b.last()));
        assert(a + b =~= (a + d).push(b.last()));
        d.to_multiset_ensures();
        (a + d).to_multiset_ensures();
    }
}

/// Under a commutative parent, reordering the children of either side does not
/// change the multiset of children that the merge keeps.
pub proof fn lemma_commutative_merge_multiset_order_free(
    base: Seq<u64>,
    left1: Seq<u64>,
    right1: Seq<u64>,
    left2: Seq<u64>,
    right2: Seq<u64>,
)
    requires
        left1.to_multiset() == left2.to_multiset(),
        right1.to_multiset() == right2.to_multiset(),
    ensures
        commutative_merge_spec(base, left1, right1).to_multiset() == commutative_merge_spec(
            base,
            left2,
            right2,
        ).to_multiset(),
{
    left1.to_multiset_ensures();
    left2.to_multiset_ensures();
    right1.to_multiset_ensures();
    right2.to_multiset_ensures();
    let kl1 = |y: u64| !base.contains(y) || right1.contains(y);
    let kr1 = |y: u64| !base.contains(y) && !left1.contains(y);
    let kl2 = |y: u64| !base.contains(y) || right2.contains(y);
    let kr2 = |y: u64| !base.contains(y) && !left2.contains(y);
    assert forall|x: u64|
        commutative_merge_spec(base, left1, right1).to_multiset().count(x) == #[trigger] commutative_merge_spec(
            base,
            left2,
            right2,
        ).to_multiset().count(x) by {
        lemma_concat_count(left1.filter(kl1), right1.filter(kr1), x);
        lemma_concat_count(left2.filter(kl2), right2.filter(kr2), x);
        lemma_filter_count(left1, kl1, x);
        lemma_filter_count(right1, kr1, x);
        lemma_filter_count(left2, kl2, x);
        lemma_filter_count(right2, kr2, x);
        assert(right1.contains(x) == (right1.to_multiset().count(x) > 0));
        assert(right2.contains(x) == (right2.to_multiset().count(x) > 0));
        assert(left1.contains(x) == (left1.to_multiset().count(x) > 0));
        assert(left2.contains(x) == (left2.to_multiset().count(x) > 0));
    }
    assert(commutative_merge_spec(base, left1, right1).to_multiset() =~= commutative_merge_spec(
        base,
        left2,
        right2,
    ).to_multiset());
}

} // verus!
