use vstd::prelude::*;

verus! {

use crate::node_handler::NodeHandler;
use crate::BinaryOperation;

/// One stored internal node: a decision on `variable`, following `low`
/// when the variable is 0 and `high` when it is 1.
#[derive(Clone, Copy, Debug)]
pub struct Node {
    pub variable: usize,
    pub low: NodeHandler,
    pub high: NodeHandler,
}

/// Rank of a handle: terminals sit at 0, the node with arena index `i` at
/// `i + 1`. In a well-formed store every child of a node has smaller rank
/// than the node itself, so rank is the termination measure for every walk
/// of a diagram.
pub open spec fn rank(h: NodeHandler) -> nat {
    match h {
        NodeHandler::Leaf(_) => 0,
        NodeHandler::Node(i) => i as nat + 1,
    }
}

/// The handle refers into the store: it is a terminal, or its index names
/// a stored node. This is invariant (W), well-formedness.
pub open spec fn handle_inv(nodes: Seq<Node>, h: NodeHandler) -> bool {
    match h {
        NodeHandler::Leaf(_) => true,
        NodeHandler::Node(i) => i < nodes.len(),
    }
}

/// The handle is a terminal, or a stored node whose decision variable is
/// at least `v`. Used to state the ordering obligations between a node and
/// the subdiagrams hung below it.
pub open spec fn above(nodes: Seq<Node>, h: NodeHandler, v: int) -> bool {
    match h {
        NodeHandler::Leaf(_) => true,
        NodeHandler::Node(i) => i < nodes.len() && nodes[i as int].variable >= v,
    }
}

/// What the node at index `i` may hang below itself: a terminal, or an
/// earlier node with a strictly larger variable. The index bound makes the
/// arena acyclic; the variable bound is invariant (O), ordering.
pub open spec fn child_inv(nodes: Seq<Node>, i: int, c: NodeHandler) -> bool {
    match c {
        NodeHandler::Leaf(_) => true,
        NodeHandler::Node(j) => j < i && nodes[j as int].variable > nodes[i].variable,
    }
}

/// The node at index `i` keeps the local invariants: both children are
/// acceptable per [`child_inv`], and the children differ — invariant (N),
/// non-redundancy.
pub open spec fn node_inv_at(nodes: Seq<Node>, i: int) -> bool {
    &&& child_inv(nodes, i, nodes[i].low)
    &&& child_inv(nodes, i, nodes[i].high)
    &&& nodes[i].low != nodes[i].high
}

/// The whole store is canonical: every node keeps its local invariants,
/// and no two distinct nodes carry the same `(variable, low, high)` triple
/// — invariant (U), uniqueness.
pub open spec fn diagram_inv(nodes: Seq<Node>) -> bool {
    &&& forall|i: int| 0 <= i < nodes.len() ==> node_inv_at(nodes, i)
    &&& forall|i: int, j: int|
        0 <= i < nodes.len() && 0 <= j < nodes.len() && i != j ==> !(#[trigger] nodes[i].variable
            == #[trigger] nodes[j].variable && nodes[i].low == nodes[j].low && nodes[i].high
            == nodes[j].high)
}

/// The Boolean function a handle denotes: descend from the handle, taking
/// the high child where the assignment sets the node's variable and the low
/// child where it clears it, until a terminal is reached.
///
/// The guards keep the recursion well-founded on arbitrary sequences; in a
/// store satisfying [`diagram_inv`] they are always taken.
pub open spec fn eval(nodes: Seq<Node>, h: NodeHandler, a: spec_fn(usize) -> bool) -> bool
    decreases rank(h),
{
    match h {
        NodeHandler::Leaf(b) => b,
        NodeHandler::Node(i) => if i < nodes.len() {
            let n = nodes[i as int];
            let c = if a(n.variable) {
                n.high
            } else {
                n.low
            };
            if rank(c) < rank(h) {
                eval(nodes, c, a)
            } else {
                false
            }
        } else {
            false
        },
    }
}

/// Every variable stored anywhere in the arena lies below `bound`. The
/// engine's operations preserve any such bound that also covers what they
/// are asked to build, so a store grown from a renamed formula mentions
/// only variables its name table can resolve.
pub open spec fn vars_below(nodes: Seq<Node>, bound: int) -> bool {
    forall|k: int| 0 <= k < nodes.len() ==> (#[trigger] nodes[k].variable) < bound
}

/// The total assignment a finite vector of Booleans stands for: variables
/// beyond its end are 0.
pub open spec fn assign_of(s: Seq<bool>) -> spec_fn(usize) -> bool {
    |v: usize| v < s.len() && s[v as int]
}

/// The truth table of a binary connective.
pub open spec fn op_eval(op: BinaryOperation, x: bool, y: bool) -> bool {
    match op {
        BinaryOperation::And => x && y,
        BinaryOperation::Or => x || y,
        BinaryOperation::Implication => !x || y,
        BinaryOperation::Equivalence => x == y,
    }
}

/// The store grew only at the end: every node of `pre` is still stored,
/// unchanged, at its old index. Handles therefore stay valid and keep
/// their meaning across any operation of the engine.
pub open spec fn extends(pre: Seq<Node>, post: Seq<Node>) -> bool {
    pre.len() <= post.len() && forall|i: int| 0 <= i < pre.len() ==> post[i] == pre[i]
}

/// A handle that sits at or above `v` keeps doing so when the store grows.
pub proof fn lemma_above_extends(pre: Seq<Node>, post: Seq<Node>, h: NodeHandler, v: int)
    requires
        extends(pre, post),
        above(pre, h, v),
    ensures
        above(post, h, v),
{
    match h {
        NodeHandler::Leaf(_) => {},
        NodeHandler::Node(i) => {
            assert(post[i as int] == pre[i as int]);
        },
    }
}

pub proof fn lemma_extends_trans(a: Seq<Node>, b: Seq<Node>, c: Seq<Node>)
    requires
        extends(a, b),
        extends(b, c),
    ensures
        extends(a, c),
{
    assert forall|i: int| 0 <= i < a.len() implies c[i] == a[i] by {
        assert(b[i] == a[i]);
    }
}

/// Growing the store does not change the function any existing handle
/// denotes.
pub proof fn lemma_eval_extends(
    pre: Seq<Node>,
    post: Seq<Node>,
    h: NodeHandler,
    a: spec_fn(usize) -> bool,
)
    requires
        diagram_inv(pre),
        extends(pre, post),
        handle_inv(pre, h),
    ensures
        eval(post, h, a) == eval(pre, h, a),
    decreases rank(h),
{
    match h {
        NodeHandler::Leaf(_) => {},
        NodeHandler::Node(i) => {
            assert(node_inv_at(pre, i as int));
            assert(post[i as int] == pre[i as int]);
            let n = pre[i as int];
            let c = if a(n.variable) {
                n.high
            } else {
                n.low
            };
            lemma_eval_extends(pre, post, c, a);
        },
    }
}

/// The shared node store. It owns every internal node, keeps the canonical
/// invariants, and serves lookups by triple; all mutation goes through
/// [`BinaryDecisionDiagram::add_node_if_necessary`].
#[derive(Debug)]
pub struct BinaryDecisionDiagram {
    pub nodes: Vec<Node>,
}

impl View for BinaryDecisionDiagram {
    type V = Seq<Node>;

    open spec fn view(&self) -> Seq<Node> {
        self.nodes@
    }
}

impl Default for BinaryDecisionDiagram {
    /// An empty store: no internal nodes yet, only the two terminals.
    fn default() -> (r: Self)
        ensures
            r@ == Seq::<Node>::empty(),
            r.inv(),
    {
        let r = BinaryDecisionDiagram { nodes: Vec::new() };
        proof {
            assert(r.nodes@ =~= Seq::<Node>::empty());
        }
        r
    }
}

impl BinaryDecisionDiagram {
    /// The canonical-form invariants (O), (U), (N), (W) of the store.
    pub open spec fn inv(&self) -> bool {
        diagram_inv(self@)
    }

    /// How many internal nodes the store holds.
    pub fn node_count(&self) -> (r: usize)
        ensures
            r == self@.len(),
    {
        self.nodes.len()
    }

    /// Read one stored node.
    pub fn node_at(&self, i: usize) -> (r: Node)
        requires
            i < self@.len(),
        ensures
            r == self@[i as int],
    {
        self.nodes[i]
    }

    /// The terminal handle for a Boolean value.
    pub fn get_leaf(value: bool) -> (r: NodeHandler)
        ensures
            r == NodeHandler::Leaf(value),
    {
        NodeHandler::Leaf(value)
    }

    /// Both terminal handles, `(⊥, ⊤)`.
    pub fn get_leaves() -> (r: (NodeHandler, NodeHandler))
        ensures
            r == (NodeHandler::Leaf(false), NodeHandler::Leaf(true)),
    {
        (Self::get_leaf(false), Self::get_leaf(true))
    }

    /// Append a genuinely new node. Callers must have ruled the two
    /// reduction rules out: the children differ, and no stored node already
    /// carries the triple.
    fn add_node(&mut self, variable: usize, children: (NodeHandler, NodeHandler)) -> (r:
        NodeHandler)
        requires
            old(self).inv(),
            handle_inv(old(self)@, children.0),
            handle_inv(old(self)@, children.1),
            above(old(self)@, children.0, variable + 1),
            above(old(self)@, children.1, variable + 1),
            children.0 != children.1,
            forall|k: int|
                0 <= k < old(self)@.len() ==> !(#[trigger] old(self)@[k].variable == variable
                    && old(self)@[k].low == children.0 && old(self)@[k].high == children.1),
        ensures
            final(self).inv(),
            extends(old(self)@, final(self)@),
            final(self)@.len() == old(self)@.len() + 1,
            final(self)@[old(self)@.len() as int] == (Node {
                variable,
                low: children.0,
                high: children.1,
            }),
            r == NodeHandler::Node(old(self)@.len() as usize),
    {
        let index = self.nodes.len();
        self.nodes.push(Node { variable, low: children.0, high: children.1 });
        proof {
            let pre = old(self)@;
            let post = self@;
            assert forall|i: int| 0 <= i < post.len() implies node_inv_at(post, i) by {
                if i < pre.len() {
                    assert(node_inv_at(pre, i));
                    assert(post[i] == pre[i]);
                    match pre[i].low {
                        NodeHandler::Leaf(_) => {},
                        NodeHandler::Node(j) => {
                            assert(post[j as int] == pre[j as int]);
                        },
                    }
                    match pre[i].high {
                        NodeHandler::Leaf(_) => {},
                        NodeHandler::Node(j) => {
                            assert(post[j as int] == pre[j as int]);
                        },
                    }
                } else {
                    assert(i == pre.len());
                    match children.0 {
                        NodeHandler::Leaf(_) => {},
                        NodeHandler::Node(j) => {
                            assert(post[j as int] == pre[j as int]);
                        },
                    }
                    match children.1 {
                        NodeHandler::Leaf(_) => {},
                        NodeHandler::Node(j) => {
                            assert(post[j as int] == pre[j as int]);
                        },
                    }
                }
            }
        }
        NodeHandler::Node(index)
    }

    /// Intern the triple `(variable, children.0, children.1)`: hand back
    /// the child itself when the two children coincide, an existing node
    /// with this triple when one is stored, and a fresh node otherwise.
    ///
    /// The result denotes the function that follows `children.0` where the
    /// assignment clears `variable` and `children.1` where it sets it.
    pub fn add_node_if_necessary(
        &mut self,
        variable: usize,
        children: (NodeHandler, NodeHandler),
    ) -> (r: NodeHandler)
        requires
            old(self).inv(),
            handle_inv(old(self)@, children.0),
            handle_inv(old(self)@, children.1),
            above(old(self)@, children.0, variable + 1),
            above(old(self)@, children.1, variable + 1),
        ensures
            final(self).inv(),
            extends(old(self)@, final(self)@),
            handle_inv(final(self)@, r),
            above(final(self)@, r, variable as int),
            children.0 == children.1 ==> r == children.0 && final(self)@ == old(self)@,
            children.0 != children.1 ==> (r matches NodeHandler::Node(i) && i < final(self)@.len()
                && final(self)@[i as int] == (Node { variable, low: children.0, high: children.1 })),
            final(self)@.len() <= old(self)@.len() + 1,
            (exists|k: int|
                0 <= k < old(self)@.len() && old(self)@[k] == (Node {
                    variable,
                    low: children.0,
                    high: children.1,
                })) ==> final(self)@ == old(self)@,
            forall|b: int|
                vars_below(old(self)@, b) && variable < b ==> vars_below(final(self)@, b),
            forall|a: spec_fn(usize) -> bool|
                #[trigger] eval(final(self)@, r, a) == if a(variable) {
                    eval(old(self)@, children.1, a)
                } else {
                    eval(old(self)@, children.0, a)
                },
    {
        if children.0 == children.1 {
            proof {
                assert forall|a: spec_fn(usize) -> bool|
                    #[trigger] eval(self@, children.0, a) == if a(variable) {
                        eval(old(self)@, children.1, a)
                    } else {
                        eval(old(self)@, children.0, a)
                    } by {}
            }
            return children.0;
        }
        let count = self.nodes.len();
        let mut idx: usize = 0;
        while idx < count
            invariant
                self@ == old(self)@,
                self.inv(),
                count == self@.len(),
                idx <= count,
                forall|k: int|
                    0 <= k < idx ==> !(#[trigger] self@[k].variable == variable && self@[k].low
                        == children.0 && self@[k].high == children.1),
            decreases count - idx,
        {
            let node = self.nodes[idx];
            if node.variable == variable && node.low == children.0 && node.high == children.1 {
                let r = NodeHandler::Node(idx);
                proof {
                    assert(node_inv_at(self@, idx as int));
                    assert forall|a: spec_fn(usize) -> bool|
                        #[trigger] eval(self@, r, a) == if a(variable) {
                            eval(old(self)@, children.1, a)
                        } else {
                            eval(old(self)@, children.0, a)
                        } by {}
                }
                return r;
            }
            idx += 1;
        }
        let r = self.add_node(variable, children);
        proof {
            let pre = old(self)@;
            let post = self@;
            assert forall|a: spec_fn(usize) -> bool|
                #[trigger] eval(post, r, a) == if a(variable) {
                    eval(pre, children.1, a)
                } else {
                    eval(pre, children.0, a)
                } by {
                let c = if a(variable) {
                    children.1
                } else {
                    children.0
                };
                assert(eval(post, r, a) == eval(post, c, a));
                lemma_eval_extends(pre, post, c, a);
            }
        }
        r
    }

    /// The elementary diagram for one variable: a node with `low = ⊥` and
    /// `high = ⊤`, denoting the function that is the variable itself.
    pub fn add_variable(&mut self, variable: usize) -> (r: NodeHandler)
        requires
            old(self).inv(),
        ensures
            final(self).inv(),
            extends(old(self)@, final(self)@),
            handle_inv(final(self)@, r),
            above(final(self)@, r, variable as int),
            r matches NodeHandler::Node(i) && i < final(self)@.len() && final(self)@[i as int] == (
            Node { variable, low: NodeHandler::Leaf(false), high: NodeHandler::Leaf(true) }),
            final(self)@.len() <= old(self)@.len() + 1,
            (exists|k: int|
                0 <= k < old(self)@.len() && old(self)@[k] == (Node {
                    variable,
                    low: NodeHandler::Leaf(false),
                    high: NodeHandler::Leaf(true),
                })) ==> final(self)@ == old(self)@,
            forall|b: int|
                vars_below(old(self)@, b) && variable < b ==> vars_below(final(self)@, b),
            forall|a: spec_fn(usize) -> bool| #[trigger] eval(final(self)@, r, a) == a(variable),
    {
        let leaves = Self::get_leaves();
        let r = self.add_node_if_necessary(variable, leaves);
        proof {
            assert forall|a: spec_fn(usize) -> bool| #[trigger] eval(self@, r, a) == a(variable)
                by {}
        }
        r
    }
}

} // verus!
