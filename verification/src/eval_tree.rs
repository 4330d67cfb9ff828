//! The result tree of one pattern's search: an arena of nodes, each owning its
//! verdict and the indices of its children, with parent links back to the
//! root, and an export to the DOT graph description language.

use vstd::prelude::*;
use vstd::string::StringSliceAdditionalSpecFns;

use crate::fmt::{dec_repr, fmt_dec};
use crate::oracle::EvalResults;
use crate::text::{bytes_eq, push_all, push_str_bytes};

verus! {

/// A failed tree operation.
#[derive(Debug, Clone, Copy, PartialEq, Eq, Structural)]
pub enum TreeError {
    /// No node carries the parent name under which a child was to be attached.
    ParentNotFound,
}

impl TreeError {
    /// The fixed message under which this error is reported.
    pub fn message(&self) -> (r: &'static str)
        ensures
            r@ == "Parent node not found"@,
    {
        "Parent node not found"
    }
}

/// One explored candidate in the result tree: its identity as the node name,
/// its verdict pair, the arena indices of its children, and its parent's
/// arena index (`None` only for the root).
pub struct EvalNode {
    pub name: Vec<u8>,
    pub res: EvalResults,
    pub children: Vec<usize>,
    pub parent: Option<usize>,
}

/// The DOT fill colour under which a verdict pair is drawn.
pub open spec fn color_repr(res: EvalResults) -> Seq<u8> {
    if res.0 is Error || res.1 is Error {
        "red".spec_bytes()
    } else if res.0 is TP && res.1 is TN {
        "green".spec_bytes()
    } else if res.0 is TP {
        "blue".spec_bytes()
    } else if res.1 is FP {
        "gray".spec_bytes()
    } else {
        "orange".spec_bytes()
    }
}

/// The edge line drawn from a node's parent, if it has one.
pub open spec fn edge_dot(id: nat, parent: Option<usize>) -> Seq<u8> {
    match parent {
        None => Seq::<u8>::empty(),
        Some(p) => "node".spec_bytes() + dec_repr(p as nat) + " -> node".spec_bytes() + dec_repr(id)
            + ";\n".spec_bytes(),
    }
}

/// The DOT lines of one node: its labelled, coloured statement and the edge
/// from its parent.
pub open spec fn node_dot(name: Seq<u8>, res: EvalResults, id: nat, parent: Option<usize>) -> Seq<
    u8,
> {
    "node".spec_bytes() + dec_repr(id) + " [label=\"".spec_bytes() + name
        + "\" style=filled fillcolor=".spec_bytes() + color_repr(res) + "];\n".spec_bytes()
        + edge_dot(id, parent)
}

/// The DOT lines of the nodes from index `i` on.
pub open spec fn dot_body(nodes: Seq<EvalNode>, i: int) -> Seq<u8>
    decreases nodes.len() - i,
{
    if 0 <= i < nodes.len() {
        node_dot(nodes[i].name@, nodes[i].res, i as nat, nodes[i].parent) + dot_body(nodes, i + 1)
    } else {
        Seq::<u8>::empty()
    }
}

/// The whole DOT description of a tree's nodes.
pub open spec fn dot_repr(nodes: Seq<EvalNode>) -> Seq<u8> {
    "digraph EvalTree {\n".spec_bytes() + "node [shape=ellipse];\n".spec_bytes() + dot_body(
        nodes,
        0,
    ) + "}".spec_bytes()
}

impl EvalNode {
    /// A fresh node with no children and no parent yet.
    pub fn new(name: Vec<u8>, res: EvalResults) -> (n: EvalNode)
        ensures
            n.name == name,
            n.res == res,
            n.children@.len() == 0,
            n.parent is None,
    {
        EvalNode { name, res, children: Vec::new(), parent: None }
    }

    /// This node's DOT lines, drawn under arena index `id`.
    pub fn to_dot(&self, id: usize) -> (r: Vec<u8>)
        ensures
            r@ == node_dot(self.name@, self.res, id as nat, self.parent),
    {
        let mut out: Vec<u8> = Vec::new();
        push_str_bytes(&mut out, "node");
        let idb = fmt_dec(id);
        push_all(&mut out, &idb);
        push_str_bytes(&mut out, " [label=\"");
        push_all(&mut out, &self.name);
        push_str_bytes(&mut out, "\" style=filled fillcolor=");
        let color: &str = if matches!(self.res.0, crate::oracle::EvalResult::Error) || matches!(
            self.res.1,
            crate::oracle::EvalResult::Error,
        ) {
            "red"
        } else if matches!(self.res.0, crate::oracle::EvalResult::TP) && matches!(
            self.res.1,
            crate::oracle::EvalResult::TN,
        ) {
            "green"
        } else if matches!(self.res.0, crate::oracle::EvalResult::TP) {
            "blue"
        } else if matches!(self.res.1, crate::oracle::EvalResult::FP) {
            "gray"
        } else {
            "orange"
        };
        proof {
            assert(color.spec_bytes() == color_repr(self.res));
        }
        push_str_bytes(&mut out, color);
        push_str_bytes(&mut out, "];\n");
        match self.parent {
            None => {
                proof {
                    assert(out@ =~= node_dot(self.name@, self.res, id as nat, self.parent));
                }
            },
            Some(p) => {
                push_str_bytes(&mut out, "node");
                let pb = fmt_dec(p);
                push_all(&mut out, &pb);
                push_str_bytes(&mut out, " -> node");
                let idb2 = fmt_dec(id);
                push_all(&mut out, &idb2);
                push_str_bytes(&mut out, ";\n");
                proof {
                    assert(out@ =~= node_dot(self.name@, self.res, id as nat, self.parent));
                }
            },
        }
        out
    }
}

/// The smallest index at or after `i` whose node carries `name`, or -1.
pub open spec fn find_from(nodes: Seq<EvalNode>, name: Seq<u8>, i: int) -> int
    decreases nodes.len() - i,
{
    if i < 0 || i >= nodes.len() {
        -1
    } else if nodes[i].name@ == name {
        i
    } else {
        find_from(nodes, name, i + 1)
    }
}

/// The smallest index whose node carries `name`, or -1.
pub open spec fn find_name(nodes: Seq<EvalNode>, name: Seq<u8>) -> int {
    find_from(nodes, name, 0)
}

/// What a successful name search gives: an index in range carrying the name.
pub proof fn lemma_find_from_props(nodes: Seq<EvalNode>, name: Seq<u8>, i: int)
    requires
        0 <= i <= nodes.len(),
    ensures
        find_from(nodes, name, i) >= 0 ==> i <= find_from(nodes, name, i) < nodes.len() && nodes[
            find_from(nodes, name, i)
        ].name@ == name,
        find_from(nodes, name, i) < 0 ==> forall|k: int|
            i <= k < nodes.len() ==> (#[trigger] nodes[k]).name@ != name,
    decreases nodes.len() - i,
{
    if i < nodes.len() && nodes[i].name@ != name {
        lemma_find_from_props(nodes, name, i + 1);
    }
}

/// The result tree of one pattern's search. Node 0, when present, is the
/// root; every later node's parent was added before it.
pub struct EvalTree {
    pub nodes: Vec<EvalNode>,
}

impl EvalTree {
    /// Structural well-formedness: the root has no parent, every other node
    /// points to an earlier parent, and every child list points forward to
    /// nodes that point back.
    pub open spec fn wf(self) -> bool {
        &&& self.nodes@.len() > 0 ==> self.nodes@[0].parent is None
        &&& forall|i: int|
            1 <= i < self.nodes@.len() ==> ((#[trigger] self.nodes@[i]).parent matches Some(p) && p
                < i)
        &&& forall|i: int, k: int|
            0 <= i < self.nodes@.len() && 0 <= k < self.nodes@[i].children@.len() ==> i < (
            #[trigger] self.nodes@[i].children@[k]) < self.nodes@.len()
            && self.nodes@[self.nodes@[i].children@[k] as int].parent == Some(i as usize)
    }

    /// An empty tree.
    pub fn new() -> (t: EvalTree)
        ensures
            t.nodes@.len() == 0,
            t.wf(),
    {
        EvalTree { nodes: Vec::new() }
    }

    /// How many nodes the tree holds; also the next discovery index.
    pub fn count_nodes(&self) -> (n: usize)
        ensures
            n == self.nodes@.len(),
    {
        self.nodes.len()
    }

    /// The distance of node `i` from the root along parent links.
    pub open spec fn level(self, i: int) -> nat
        decreases i,
    {
        if 0 <= i < self.nodes@.len() {
            match self.nodes@[i].parent {
                None => 0,
                Some(p) => if p < i {
                    1 + self.level(p as int)
                } else {
                    0
                },
            }
        } else {
            0
        }
    }

    /// A node's distance from the root depends only on the parent links of the
    /// nodes up to it: growing the tree, or touching children lists, does not
    /// move it.
    pub proof fn lemma_level_unchanged(t0: EvalTree, t1: EvalTree, i: int)
        requires
            0 <= i < t0.nodes@.len(),
            t0.nodes@.len() <= t1.nodes@.len(),
            forall|k: int|
                0 <= k < t0.nodes@.len() ==> (#[trigger] t1.nodes@[k]).parent
                    == t0.nodes@[k].parent,
        ensures
            t1.level(i) == t0.level(i),
        decreases i,
    {
        match t0.nodes@[i].parent {
            None => {},
            Some(p) => {
                if p < i {
                    EvalTree::lemma_level_unchanged(t0, t1, p as int);
                }
            },
        }
    }

    /// Makes `root` the tree's single node.
    pub fn set_root(&mut self, root: EvalNode)
        requires
            old(self).nodes@.len() == 0,
            root.children@.len() == 0,
            root.parent is None,
        ensures
            final(self).nodes@ == old(self).nodes@.push(root),
            final(self).wf(),
    {
        self.nodes.push(root);
    }

    /// The arena index of the first node named `name`.
    pub fn get_node(&self, name: &Vec<u8>) -> (r: Option<usize>)
        ensures
            match r {
                Option::Some(i) => find_name(self.nodes@, name@) == i,
                Option::None => find_name(self.nodes@, name@) < 0,
            },
    {
        let mut i: usize = 0;
        let n = self.nodes.len();
        while i < n
            invariant
                n == self.nodes@.len(),
                i <= n,
                find_from(self.nodes@, name@, 0) == find_from(self.nodes@, name@, i as int),
            decreases n - i,
        {
            if bytes_eq(&self.nodes[i].name, name) {
                return Some(i);
            }
            i += 1;
        }
        None
    }

    /// Attaches a node named `child_name` carrying `res` under the first node
    /// named `parent_name`; fails, changing nothing, when no node carries that
    /// parent name.
    pub fn add_child(&mut self, parent_name: &Vec<u8>, child_name: Vec<u8>, res: EvalResults) -> (r:
        Result<(), TreeError>)
        requires
            old(self).wf(),
        ensures
            final(self).wf(),
            r is Ok <==> find_name(old(self).nodes@, parent_name@) >= 0,
            r is Err ==> final(self).nodes@ == old(self).nodes@,
            r is Ok ==> ({
                let p = find_name(old(self).nodes@, parent_name@);
                let m = old(self).nodes@.len() as int;
                &&& final(self).nodes@.len() == m + 1
                &&& final(self).nodes@[m].name@ == child_name@
                &&& final(self).nodes@[m].res == res
                &&& final(self).nodes@[m].children@.len() == 0
                &&& final(self).nodes@[m].parent == Some(p as usize)
                &&& forall|k: int| 0 <= k < m && k != p ==> final(self).nodes@[k] == old(
                    self,
                ).nodes@[k]
                &&& final(self).nodes@[p].name == old(self).nodes@[p].name
                &&& final(self).nodes@[p].res == old(self).nodes@[p].res
                &&& final(self).nodes@[p].parent == old(self).nodes@[p].parent
                &&& final(self).nodes@[p].children@ == old(self).nodes@[p].children@.push(
                    m as usize,
                )
            }),
    {
        proof {
            lemma_find_from_props(self.nodes@, parent_name@, 0);
        }
        match self.get_node(parent_name) {
            None => Err(TreeError::ParentNotFound),
            Some(p) => {
                let child_idx = self.nodes.len();
                let mut child = EvalNode::new(child_name, res);
                child.parent = Some(p);
                self.nodes.push(child);
                self.nodes[p].children.push(child_idx);
                Ok(())
            },
        }
    }

    /// The DOT description of the whole tree: a directed graph of all nodes in
    /// arena order, each labelled with its name and coloured by its verdict.
    pub fn to_dot(&self) -> (r: Vec<u8>)
        ensures
            r@ == dot_repr(self.nodes@),
    {
        let mut out: Vec<u8> = Vec::new();
        push_str_bytes(&mut out, "digraph EvalTree {\n");
        push_str_bytes(&mut out, "node [shape=ellipse];\n");
        let n = self.nodes.len();
        let mut i: usize = 0;
        while i < n
            invariant
                n == self.nodes@.len(),
                i <= n,
                out@ + dot_body(self.nodes@, i as int) == "digraph EvalTree {\n".spec_bytes()
                    + "node [shape=ellipse];\n".spec_bytes() + dot_body(self.nodes@, 0),
            decreases n - i,
        {
            let line = self.nodes[i].to_dot(i);
            proof {
                assert(out@ + (node_dot(self.nodes@[i as int].name@, self.nodes@[i as int].res,
                    i as nat, self.nodes@[i as int].parent) + dot_body(self.nodes@, i + 1)) =~= (out@
                    + node_dot(self.nodes@[i as int].name@, self.nodes@[i as int].res, i as nat,
                self.nodes@[i as int].parent)) + dot_body(self.nodes@, i + 1));
            }
            push_all(&mut out, &line);
            i += 1;
        }
        push_str_bytes(&mut out, "}");
        proof {
            assert(dot_body(self.nodes@, n as int) =~= Seq::<u8>::empty());
            assert(out@ =~= dot_repr(self.nodes@));
        }
        out
    }
}

} // verus!
