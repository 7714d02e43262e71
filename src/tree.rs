//! Syntax trees held in an arena: each node knows its kind, its own text and
//! the indices of its children, which come before it.

use vstd::prelude::*;
use crate::text::{chars_of, string_of, push_all, same_text};

verus! {

/// A node of a syntax tree.
#[derive(Debug)]
pub struct AstNode {
    /// The grammar kind of the node
    pub kind: String,
    /// The whitespace and comments that precede the node's own text
    pub leading: String,
    /// The node's own text (for leaves)
    pub text: String,
    /// The node's signature as the grammar's signature extractor gives it (a
    /// method's name and parameter types), or empty where it has none
    pub signature: String,
    /// The indices of the node's children, in order
    pub children: Vec<usize>,
}

/// A syntax tree: its nodes, each after its children; the root is the last.
#[derive(Debug)]
pub struct Ast {
    pub nodes: Vec<AstNode>,
}

impl Ast {
    /// Every child comes before its parent, and there is a root.
    pub open spec fn wf(&self) -> bool {
        &&& self.nodes@.len() > 0
        &&& forall|i: int, k: int|
            0 <= i < self.nodes@.len() && 0 <= k < self.nodes@[i].children@.len() ==> #[trigger] self.nodes@[i].children@[k]
                < i
    }

    /// The number of children of node `i`.
    pub open spec fn arity(&self, i: int) -> int {
        self.nodes@[i].children@.len() as int
    }

    /// The `k`-th child of node `i`.
    pub open spec fn child(&self, i: int, k: int) -> int {
        self.nodes@[i].children@[k] as int
    }
}

/// The source of node `i`: its leading text and own text, then the source of
/// its first `k` children.
pub open spec fn source_prefix(a: Ast, i: int, k: int) -> Seq<char>
    decreases i, k,
{
    if i < 0 || i >= a.nodes@.len() || k <= 0 || k > a.arity(i) {
        a.nodes@[i].leading@ + a.nodes@[i].text@
    } else {
        let c = a.child(i, k - 1);
        if 0 <= c < i {
            source_prefix(a, i, k - 1) + source_prefix(a, c, a.arity(c))
        } else {
            source_prefix(a, i, k - 1)
        }
    }
}

/// The source of the subtree at node `i`.
pub open spec fn source_of(a: Ast, i: int) -> Seq<char> {
    source_prefix(a, i, a.arity(i))
}

/// Whether nodes `i` of `a` and `j` of `b` have the same kind and text, and
/// isomorphic first `k` children; leading whitespace and comments do not count.
pub open spec fn iso_prefix(a: Ast, i: int, b: Ast, j: int, k: int) -> bool
    decreases i, k,
{
    if i < 0 || i >= a.nodes@.len() || k <= 0 || k > a.arity(i) {
        a.nodes@[i].kind@ == b.nodes@[j].kind@ && a.nodes@[i].text@ == b.nodes@[j].text@
    } else {
        let c = a.child(i, k - 1);
        let d = b.child(j, k - 1);
        if 0 <= c < i {
            iso_prefix(a, i, b, j, k - 1) && a.arity(c) == b.arity(d) && iso_prefix(a, c, b, d, a.arity(c))
        } else {
            false
        }
    }
}

/// Agreement on the first children carries over to fewer children, and to
/// kind and text.
proof fn lemma_iso_prefix_shorter(a: Ast, i: int, b: Ast, j: int, k: int, m: int)
    requires
        0 <= m <= k <= a.arity(i),
        iso_prefix(a, i, b, j, k),
    ensures
        iso_prefix(a, i, b, j, m),
        a.nodes@[i].kind@ == b.nodes@[j].kind@ && a.nodes@[i].text@ == b.nodes@[j].text@,
    decreases k,
{
    if !(i < 0 || i >= a.nodes@.len() || k <= 0 || k > a.arity(i)) {
        lemma_iso_prefix_shorter(a, i, b, j, k - 1, if m == k { k - 1 } else { m });
    }
}

/// Every subtree of a well-formed tree agrees with itself on its first `k` children.
proof fn lemma_iso_prefix_reflexive(a: Ast, i: int, k: int)
    requires
        a.wf(),
        0 <= i < a.nodes@.len(),
        0 <= k <= a.arity(i),
    ensures
        iso_prefix(a, i, a, i, k),
    decreases i, k,
{
    if k > 0 {
        lemma_iso_prefix_reflexive(a, i, k - 1);
        let c = a.child(i, k - 1);
        assert(a.nodes@[i].children@[k - 1] < i);
        lemma_iso_prefix_reflexive(a, c, a.arity(c));
    }
}

/// Every subtree of a well-formed tree is isomorphic to itself.
pub proof fn lemma_isomorphic_reflexive(a: Ast, i: int)
    requires
        a.wf(),
        0 <= i < a.nodes@.len(),
    ensures
        isomorphic(a, i, a, i),
{
    lemma_iso_prefix_reflexive(a, i, a.arity(i));
}

/// Whether the subtrees at `i` in `a` and `j` in `b` are isomorphic.
pub open spec fn isomorphic(a: Ast, i: int, b: Ast, j: int) -> bool {
    a.arity(i) == b.arity(j) && iso_prefix(a, i, b, j, a.arity(i))
}

impl Ast {
    /// Whether the subtree at `i` is isomorphic to the subtree at `j` of `other`:
    /// the same kinds and texts, in the same shape.
    pub fn isomorphic_to(&self, i: usize, other: &Ast, j: usize) -> (r: bool)
        requires
            self.wf(),
            other.wf(),
            i < self.nodes@.len(),
            j < other.nodes@.len(),
        ensures
            r == isomorphic(*self, i as int, *other, j as int),
        decreases i,
    {
        let n = &self.nodes[i];
        let m = &other.nodes[j];
        if n.children.len() != m.children.len() {
            return false;
        }
        if !same_text(n.kind.as_str(), m.kind.as_str()) || !same_text(n.text.as_str(), m.text.as_str()) {
            proof {
                if iso_prefix(*self, i as int, *other, j as int, n.children@.len() as int) {
                    lemma_iso_prefix_shorter(*self, i as int, *other, j as int, n.children@.len() as int, 0);
                }
            }
            return false;
        }
        let mut k: usize = 0;
        while k < n.children.len()
            invariant
                self.wf(),
                other.wf(),
                i < self.nodes@.len(),
                j < other.nodes@.len(),
                *n == self.nodes@[i as int],
                *m == other.nodes@[j as int],
                n.children@.len() == m.children@.len(),
                k <= n.children@.len(),
                iso_prefix(*self, i as int, *other, j as int, k as int),
            decreases n.children@.len() - k,
        {
            let c = n.children[k];
            let d = m.children[k];
            assert(self.child(i as int, k as int) == c);
            assert(c < i);
            assert(d < j);
            if self.nodes[c].children.len() != other.nodes[d].children.len() || !self.isomorphic_to(c, other, d) {
                proof {
                    if iso_prefix(*self, i as int, *other, j as int, n.children@.len() as int) {
                        lemma_iso_prefix_shorter(
                            *self,
                            i as int,
                            *other,
                            j as int,
                            n.children@.len() as int,
                            k + 1,
                        );
                    }
                }
                return false;
            }
            k = k + 1;
        }
        true
    }

    /// The source text of the subtree at `i`.
    pub fn source(&self, i: usize) -> (r: String)
        requires
            self.wf(),
            i < self.nodes@.len(),
        ensures
            r@ == source_of(*self, i as int),
    {
        let mut out: Vec<char> = Vec::new();
        self.push_source(i, &mut out);
        string_of(&out)
    }

    fn push_source(&self, i: usize, out: &mut Vec<char>)
        requires
            self.wf(),
            i < self.nodes@.len(),
        ensures
            final(out)@ == old(out)@ + source_of(*self, i as int),
        decreases i,
    {
        let n = &self.nodes[i];
        push_all(out, &chars_of(n.leading.as_str()));
        push_all(out, &chars_of(n.text.as_str()));
        let mut k: usize = 0;
        while k < n.children.len()
            invariant
                self.wf(),
                i < self.nodes@.len(),
                *n == self.nodes@[i as int],
                k <= n.children@.len(),
                out@ == old(out)@ + source_prefix(*self, i as int, k as int),
            decreases n.children@.len() - k,
        {
            let c = n.children[k];
            assert(self.child(i as int, k as int) == c);
            assert(c < i);
            self.push_source(c, out);
            k = k + 1;
        }
    }
}

} // verus!
