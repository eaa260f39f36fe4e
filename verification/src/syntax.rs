//! The syntax-tree model the analysis works on.
//!
//! A tree is an arena of nodes in preorder: every node stores its kind, its
//! full source text, and the indices of its children, and every child index
//! is strictly greater than the index of its parent.  That ordering is the
//! tree's well-formedness invariant; every traversal terminates because
//! recursion only ever moves to strictly larger indices.

use vstd::prelude::*;

verus! {

/// One node of a parsed source file.
pub struct SyntaxNode {
    /// The grammar production this node was parsed as.
    pub kind: String,
    /// The full source text this node covers.
    pub text: String,
    /// Indices of the node's children, in source order.
    pub children: Vec<usize>,
}

/// A parsed source file: nodes in preorder, the root at index zero.
pub struct SyntaxTree {
    pub nodes: Vec<SyntaxNode>,
}

/// A parsed source file together with the name it came from.
pub struct SourceTree {
    pub file: String,
    pub tree: SyntaxTree,
}

/// Every child index points forward and stays in bounds.
pub open spec fn wf_nodes(nodes: Seq<SyntaxNode>) -> bool {
    forall|i: int, j: int|
        0 <= i < nodes.len() && 0 <= j < nodes[i].children@.len() ==> i < #[trigger] nodes[i].children@[j]
            && nodes[i].children@[j] < nodes.len()
}

impl SyntaxTree {
    /// Well-formedness: child indices point forward and stay in bounds.
    pub open spec fn wf(&self) -> bool {
        wf_nodes(self.nodes@)
    }

    /// Number of nodes.
    pub fn len(&self) -> (r: usize)
        ensures
            r == self.nodes@.len(),
    {
        self.nodes.len()
    }

    /// Check the well-formedness invariant of an arbitrary node arena.
    pub fn check_wf(&self) -> (r: bool)
        ensures
            r == self.wf(),
    {
        let n = self.nodes.len();
        let mut i: usize = 0;
        while i < n
            invariant
                n == self.nodes@.len(),
                0 <= i <= n,
                forall|a: int, j: int|
                    0 <= a < i && 0 <= j < self.nodes@[a].children@.len() ==> a
                        < #[trigger] self.nodes@[a].children@[j] && self.nodes@[a].children@[j]
                        < n,
            decreases n - i,
        {
            let m = self.nodes[i].children.len();
            let mut j: usize = 0;
            while j < m
                invariant
                    n == self.nodes@.len(),
                    0 <= i < n,
                    m == self.nodes@[i as int].children@.len(),
                    0 <= j <= m,
                    forall|k: int|
                        0 <= k < j ==> i < #[trigger] self.nodes@[i as int].children@[k]
                            && self.nodes@[i as int].children@[k] < n,
                decreases m - j,
            {
                let c = self.nodes[i].children[j];
                if c <= i || c >= n {
                    return false;
                }
                j += 1;
            }
            i += 1;
        }
        true
    }
}

} // verus!
