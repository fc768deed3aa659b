use vstd::prelude::*;

verus! {

use vstd::string::StringExecFns;

use crate::binary_decision_diagram::{
    handle_inv, node_inv_at, rank, vars_below, BinaryDecisionDiagram, Node,
};
use crate::node_handler::NodeHandler;

/// The single character of a decimal digit.
pub open spec fn digit_str_view(d: nat) -> Seq<char> {
    if d == 0 {
        "0"@
    } else if d == 1 {
        "1"@
    } else if d == 2 {
        "2"@
    } else if d == 3 {
        "3"@
    } else if d == 4 {
        "4"@
    } else if d == 5 {
        "5"@
    } else if d == 6 {
        "6"@
    } else if d == 7 {
        "7"@
    } else if d == 8 {
        "8"@
    } else {
        "9"@
    }
}

/// The decimal numeral of `n`, most significant digit first.
pub open spec fn dec_str(n: nat) -> Seq<char>
    decreases n,
{
    if n < 10 {
        digit_str_view(n)
    } else {
        dec_str(n / 10) + digit_str_view(n % 10)
    }
}

fn digit_str(d: usize) -> (s: &'static str)
    requires
        d < 10,
    ensures
        s@ == digit_str_view(d as nat),
{
    if d == 0 {
        "0"
    } else if d == 1 {
        "1"
    } else if d == 2 {
        "2"
    } else if d == 3 {
        "3"
    } else if d == 4 {
        "4"
    } else if d == 5 {
        "5"
    } else if d == 6 {
        "6"
    } else if d == 7 {
        "7"
    } else if d == 8 {
        "8"
    } else {
        "9"
    }
}

/// Append the decimal numeral of `n` to `out`.
fn push_number(out: &mut String, n: usize)
    ensures
        final(out)@ == old(out)@ + dec_str(n as nat),
    decreases n,
{
    if n < 10 {
        out.append(digit_str(n));
    } else {
        push_number(out, n / 10);
        out.append(digit_str(n % 10));
        proof {
            assert(out@ =~= old(out)@ + dec_str(n as nat));
        }
    }
}

/// How many nodes already carry a DOT identifier; identifiers of internal
/// nodes start at 2, so the mark 0 reads as "not yet assigned".
pub open spec fn assigned_total(visited: Seq<nat>) -> nat
    decreases visited.len(),
{
    if visited.len() == 0 {
        0
    } else {
        assigned_total(visited.drop_last()) + if visited.last() != 0 {
            1nat
        } else {
            0nat
        }
    }
}

proof fn lemma_assigned_total_le_len(visited: Seq<nat>)
    ensures
        assigned_total(visited) <= visited.len(),
    decreases visited.len(),
{
    if visited.len() > 0 {
        lemma_assigned_total_le_len(visited.drop_last());
    }
}

proof fn lemma_assigned_total_zeros(visited: Seq<nat>)
    requires
        forall|i: int| 0 <= i < visited.len() ==> visited[i] == 0,
    ensures
        assigned_total(visited) == 0,
    decreases visited.len(),
{
    if visited.len() > 0 {
        lemma_assigned_total_zeros(visited.drop_last());
    }
}

proof fn lemma_assigned_total_update(visited: Seq<nat>, j: int, v: nat)
    requires
        0 <= j < visited.len(),
        visited[j] == 0,
        v != 0,
    ensures
        assigned_total(visited.update(j, v)) == assigned_total(visited) + 1,
    decreases visited.len(),
{
    let t = visited.update(j, v);
    if j == visited.len() - 1 {
        assert(t.drop_last() =~= visited.drop_last());
    } else {
        assert(t.drop_last() =~= visited.drop_last().update(j, v));
        lemma_assigned_total_update(visited.drop_last(), j, v);
        assert(t.last() == visited.last());
    }
}

/// The visit marks as unbounded integers, for the specification state.
pub open spec fn nats_of(s: Seq<usize>) -> Seq<nat> {
    s.map_values(|x: usize| x as nat)
}

proof fn lemma_nats_of_update(s: Seq<usize>, j: int, v: usize)
    requires
        0 <= j < s.len(),
    ensures
        nats_of(s.update(j, v)) =~= nats_of(s).update(j, v as nat),
{
}

/// One DOT node-declaration line, `id [label="name"]`.
pub open spec fn label_line(id: nat, name: Seq<char>) -> Seq<char> {
    dec_str(id) + " [label=\""@ + name + "\"]\n"@
}

/// One DOT edge line, `parent -> child [label="0"|"1"]`.
pub open spec fn edge_line(parent: nat, child: nat, side: bool) -> Seq<char> {
    dec_str(parent) + " -> "@ + dec_str(child) + (if side {
        " [label=\"1\"]\n"@
    } else {
        " [label=\"0\"]\n"@
    })
}

/// First sight of a handle during rendering: terminals read as the fixed
/// identifiers 0 and 1; a node already seen reads as its recorded
/// identifier; an unseen node takes the next identifier, emits its label
/// line, and is recorded. The result is the emitted text, the counter, the
/// marks, the handle's identifier, and whether it was newly assigned.
#[verifier::opaque]
pub open spec fn spec_get_index(
    nodes: Seq<Node>,
    table: Seq<String>,
    h: NodeHandler,
    next: nat,
    visited: Seq<nat>,
) -> (Seq<char>, nat, Seq<nat>, nat, bool) {
    match h {
        NodeHandler::Leaf(b) => (
            Seq::<char>::empty(),
            next,
            visited,
            if b {
                1nat
            } else {
                0nat
            },
            false,
        ),
        NodeHandler::Node(i) => if visited[i as int] != 0 {
            (Seq::<char>::empty(), next, visited, visited[i as int], false)
        } else {
            (
                label_line(next, table[nodes[i as int].variable as int]@),
                next + 1,
                visited.update(i as int, next),
                next,
                true,
            )
        },
    }
}

/// The text the renderer emits below one internal handle: the handle's
/// own first-sight line, the first-sight lines of its two children, the
/// two edge lines, then the subtrees of whichever children were newly
/// assigned, left first. A handle already seen, or a terminal, emits
/// nothing.
#[verifier::opaque]
pub open spec fn spec_fmt_rec(
    nodes: Seq<Node>,
    table: Seq<String>,
    h: NodeHandler,
    next: nat,
    visited: Seq<nat>,
) -> (Seq<char>, nat, Seq<nat>)
    decreases rank(h),
{
    match h {
        NodeHandler::Leaf(_) => (Seq::<char>::empty(), next, visited),
        NodeHandler::Node(i) => if i < nodes.len() {
            let n = nodes[i as int];
            let (t0, next0, vis0, parent_id, _) = spec_get_index(nodes, table, h, next, visited);
            let (t1, next1, vis1, left_id, left_new) = spec_get_index(
                nodes,
                table,
                n.low,
                next0,
                vis0,
            );
            let (t2, next2, vis2, right_id, right_new) = spec_get_index(
                nodes,
                table,
                n.high,
                next1,
                vis1,
            );
            let edges = edge_line(parent_id, left_id, false) + edge_line(parent_id, right_id, true);
            let (t3, next3, vis3) = if left_new && rank(n.low) < rank(h) {
                spec_fmt_rec(nodes, table, n.low, next2, vis2)
            } else {
                (Seq::<char>::empty(), next2, vis2)
            };
            let (t4, next4, vis4) = if right_new && rank(n.high) < rank(h) {
                spec_fmt_rec(nodes, table, n.high, next3, vis3)
            } else {
                (Seq::<char>::empty(), next3, vis3)
            };
            (t0 + t1 + t2 + edges + t3 + t4, next4, vis4)
        } else {
            (Seq::<char>::empty(), next, visited)
        },
    }
}

/// The whole DOT document for a diagram rooted at `root`: a terminal root
/// prints only its own labeled node; an internal root prints both terminal
/// nodes and then the traversal, with internal identifiers assigned from 2
/// in first-visit order.
pub open spec fn spec_dot(nodes: Seq<Node>, table: Seq<String>, root: NodeHandler) -> Seq<char> {
    match root {
        NodeHandler::Leaf(b) => if b {
            "digraph{\n"@ + "1 [label=\"true\"]\n"@ + "}\n"@
        } else {
            "digraph{\n"@ + "0 [label=\"false\"]\n"@ + "}\n"@
        },
        NodeHandler::Node(_) => "digraph{\n"@ + "0 [label=\"false\"]\n"@ + "1 [label=\"true\"]\n"@
            + spec_fmt_rec(nodes, table, root, 2, Seq::new(nodes.len(), |i: int| 0nat)).0 + "}\n"@,
    }
}

/// One unfolding of [`spec_fmt_rec`] at an internal node, spelled out
/// step by step so that callers can match their own intermediate states
/// against it.
#[verifier::rlimit(100)]
proof fn lemma_fmt_rec_unfold(
    nodes: Seq<Node>,
    table: Seq<String>,
    i: usize,
    next_in: nat,
    vis_in: Seq<nat>,
)
    requires
        i < nodes.len(),
        rank(nodes[i as int].low) < rank(NodeHandler::Node(i)),
        rank(nodes[i as int].high) < rank(NodeHandler::Node(i)),
    ensures
        ({
            let h = NodeHandler::Node(i);
            let n = nodes[i as int];
            let (t0, next0, vis0, pid, pnew) = spec_get_index(nodes, table, h, next_in, vis_in);
            let (t1, next1, vis1, lid, lnew) = spec_get_index(nodes, table, n.low, next0, vis0);
            let (t2, next2, vis2, rid, rnew) = spec_get_index(nodes, table, n.high, next1, vis1);
            let edges = edge_line(pid, lid, false) + edge_line(pid, rid, true);
            let (t3, next3, vis3) = if lnew {
                spec_fmt_rec(nodes, table, n.low, next2, vis2)
            } else {
                (Seq::<char>::empty(), next2, vis2)
            };
            let (t4, next4, vis4) = if rnew {
                spec_fmt_rec(nodes, table, n.high, next3, vis3)
            } else {
                (Seq::<char>::empty(), next3, vis3)
            };
            spec_fmt_rec(nodes, table, h, next_in, vis_in) == (
                t0 + t1 + t2 + edges + t3 + t4,
                next4,
                vis4,
            )
        }),
{
    reveal(spec_fmt_rec);
}

/// First sight of a handle: return its DOT identifier, assigning the next
/// one and emitting its label line when the handle is an unseen node. The
/// flag reports a fresh assignment.
fn get_index(
    diagram: &BinaryDecisionDiagram,
    inverse_table: &Vec<String>,
    h: NodeHandler,
    out: &mut String,
    next: &mut usize,
    visited: &mut Vec<usize>,
) -> (r: (usize, bool))
    requires
        diagram.inv(),
        handle_inv(diagram@, h),
        vars_below(diagram@, inverse_table@.len() as int),
        old(visited)@.len() == diagram@.len(),
        *old(next) == 2 + assigned_total(nats_of(old(visited)@)),
        diagram@.len() + 2 <= usize::MAX,
    ensures
        final(visited)@.len() == old(visited)@.len(),
        *final(next) == 2 + assigned_total(nats_of(final(visited)@)),
        ({
            let (text, snext, svis, sid, snew) = spec_get_index(
                diagram@,
                inverse_table@,
                h,
                *old(next) as nat,
                nats_of(old(visited)@),
            );
            &&& final(out)@ == old(out)@ + text
            &&& *final(next) as nat == snext
            &&& nats_of(final(visited)@) == svis
            &&& r.0 as nat == sid
            &&& r.1 == snew
        }),
{
    proof {
        reveal(spec_get_index);
    }
    match h {
        NodeHandler::Leaf(value) => {
            proof {
                assert(out@ =~= old(out)@ + Seq::<char>::empty());
            }
            if value {
                (1, false)
            } else {
                (0, false)
            }
        },
        NodeHandler::Node(i) => {
            let mark = visited[i];
            if mark != 0 {
                proof {
                    assert(out@ =~= old(out)@ + Seq::<char>::empty());
                }
                (mark, false)
            } else {
                let id = *next;
                let node = diagram.node_at(i);
                push_number(out, id);
                out.append(" [label=\"");
                out.append(inverse_table[node.variable].as_str());
                out.append("\"]\n");
                visited.set(i, id);
                proof {
                    lemma_nats_of_update(old(visited)@, i as int, id);
                    lemma_assigned_total_update(nats_of(old(visited)@), i as int, id as nat);
                    lemma_assigned_total_le_len(nats_of(visited@));
                    assert(out@ =~= old(out)@ + label_line(
                        id as nat,
                        inverse_table@[node.variable as int]@,
                    ));
                    assert(nats_of(visited@) == nats_of(old(visited)@).update(i as int, id as nat));
                }
                *next = id + 1;
                (id, true)
            }
        },
    }
}

/// The exported result of one construction: the root handle of the
/// diagram, together with the table taking each dense variable identifier
/// back to the variable name the formula used.
pub struct FormulaRoot(pub NodeHandler, pub Vec<String>);

impl FormulaRoot {
    pub fn new(node_handler: NodeHandler, inverse_table: Vec<String>) -> (r: FormulaRoot)
        ensures
            r.0 == node_handler,
            r.1 == inverse_table,
    {
        FormulaRoot(node_handler, inverse_table)
    }

    /// Emit the DOT text below one handle, as [`spec_fmt_rec`] states it.
    #[verifier::rlimit(100)]
    fn fmt_reclusive(
        diagram: &BinaryDecisionDiagram,
        inverse_table: &Vec<String>,
        h: NodeHandler,
        out: &mut String,
        next: &mut usize,
        visited: &mut Vec<usize>,
    )
        requires
            diagram.inv(),
            handle_inv(diagram@, h),
            vars_below(diagram@, inverse_table@.len() as int),
            old(visited)@.len() == diagram@.len(),
            *old(next) == 2 + assigned_total(nats_of(old(visited)@)),
            diagram@.len() + 2 <= usize::MAX,
        ensures
            final(visited)@.len() == old(visited)@.len(),
            *final(next) == 2 + assigned_total(nats_of(final(visited)@)),
            ({
                let (text, snext, svis) = spec_fmt_rec(
                    diagram@,
                    inverse_table@,
                    h,
                    *old(next) as nat,
                    nats_of(old(visited)@),
                );
                &&& final(out)@ == old(out)@ + text
                &&& *final(next) as nat == snext
                &&& nats_of(final(visited)@) == svis
            }),
        decreases rank(h),
    {
        match h {
            NodeHandler::Leaf(_) => {
                proof {
                    reveal(spec_fmt_rec);
                    assert(out@ =~= old(out)@ + Seq::<char>::empty());
                }
            },
            NodeHandler::Node(i) => {
                let ghost nodes = diagram@;
                let ghost table = inverse_table@;
                let ghost next_in = *old(next) as nat;
                let ghost vis_in = nats_of(old(visited)@);
                let ghost out0 = out@;
                let node = diagram.node_at(i);
                proof {
                    assert(node_inv_at(diagram@, i as int));
                }
                let (parent_id, _) = get_index(diagram, inverse_table, h, out, next, visited);
                let ghost out_a = out@;
                let ghost next0 = *next as nat;
                let ghost vis0 = nats_of(visited@);
                let (left_id, left_new) = get_index(
                    diagram,
                    inverse_table,
                    node.low,
                    out,
                    next,
                    visited,
                );
                let ghost out_b = out@;
                let ghost next1 = *next as nat;
                let ghost vis1 = nats_of(visited@);
                let (right_id, right_new) = get_index(
                    diagram,
                    inverse_table,
                    node.high,
                    out,
                    next,
                    visited,
                );
                let ghost out_c = out@;
                let ghost next2 = *next as nat;
                let ghost vis2 = nats_of(visited@);
                let ghost edges = edge_line(parent_id as nat, left_id as nat, false) + edge_line(
                    parent_id as nat,
                    right_id as nat,
                    true,
                );
                push_number(out, parent_id);
                out.append(" -> ");
                push_number(out, left_id);
                out.append(" [label=\"0\"]\n");
                push_number(out, parent_id);
                out.append(" -> ");
                push_number(out, right_id);
                out.append(" [label=\"1\"]\n");
                proof {
                    assert(out@ =~= out_c + edges);
                }
                let ghost out_d = out@;
                if left_new {
                    Self::fmt_reclusive(diagram, inverse_table, node.low, out, next, visited);
                }
                let ghost out_e = out@;
                let ghost next3 = *next as nat;
                let ghost vis3 = nats_of(visited@);
                if right_new {
                    Self::fmt_reclusive(diagram, inverse_table, node.high, out, next, visited);
                }
                proof {
                    let sg0 = spec_get_index(nodes, table, h, next_in, vis_in);
                    let sg1 = spec_get_index(nodes, table, node.low, next0, vis0);
                    let sg2 = spec_get_index(nodes, table, node.high, next1, vis1);
                    assert(out_a == out0 + sg0.0 && next0 == sg0.1 && vis0 == sg0.2 && parent_id
                        as nat == sg0.3);
                    assert(out_b == out_a + sg1.0 && next1 == sg1.1 && vis1 == sg1.2 && left_id
                        as nat == sg1.3 && left_new == sg1.4);
                    assert(out_c == out_b + sg2.0 && next2 == sg2.1 && vis2 == sg2.2 && right_id
                        as nat == sg2.3 && right_new == sg2.4);
                    let sf3 = (if left_new {
                        spec_fmt_rec(nodes, table, node.low, next2, vis2)
                    } else {
                        (Seq::<char>::empty(), next2, vis2)
                    });
                    let sf4 = (if right_new {
                        spec_fmt_rec(nodes, table, node.high, next3, vis3)
                    } else {
                        (Seq::<char>::empty(), next3, vis3)
                    });
                    assert(out_e == out_d + sf3.0 && next3 == sf3.1 && vis3 == sf3.2);
                    assert(out@ == out_e + sf4.0 && *next as nat == sf4.1 && nats_of(visited@)
                        == sf4.2);
                    lemma_fmt_rec_unfold(nodes, table, i, next_in, vis_in);
                    let whole = spec_fmt_rec(nodes, table, h, next_in, vis_in);
                    assert(whole.0 == sg0.0 + sg1.0 + sg2.0 + edges + sf3.0 + sf4.0);
                    assert(whole.1 == sf4.1 && whole.2 == sf4.2);
                    assert(out@ =~= out0 + whole.0);
                }
            },
        }
    }

    /// Render the diagram as a Graphviz DOT document: exactly the text
    /// [`spec_dot`] states for this root and name table.
    pub fn generic_fmt(&self, diagram: &BinaryDecisionDiagram) -> (out: String)
        requires
            diagram.inv(),
            handle_inv(diagram@, self.0),
            vars_below(diagram@, self.1@.len() as int),
            diagram@.len() + 2 <= usize::MAX,
        ensures
            out@ == spec_dot(diagram@, self.1@, self.0),
    {
        let mut out = String::new();
        out.append("digraph{\n");
        match self.0 {
            NodeHandler::Node(_) => {
                out.append("0 [label=\"false\"]\n");
                out.append("1 [label=\"true\"]\n");
                let mut next: usize = 2;
                let count = diagram.node_count();
                let mut visited: Vec<usize> = Vec::new();
                let mut k: usize = 0;
                while k < count
                    invariant
                        k <= count,
                        visited@.len() == k,
                        forall|j: int| 0 <= j < k ==> visited@[j] == 0,
                    decreases count - k,
                {
                    visited.push(0);
                    k += 1;
                }
                proof {
                    lemma_assigned_total_zeros(nats_of(visited@));
                    assert(nats_of(visited@) =~= Seq::new(diagram@.len(), |i: int| 0nat));
                }
                Self::fmt_reclusive(diagram, &self.1, self.0, &mut out, &mut next, &mut visited);
                out.append("}\n");
                proof {
                    assert(out@ =~= spec_dot(diagram@, self.1@, self.0));
                }
                out
            },
            NodeHandler::Leaf(value) => {
                if value {
                    out.append("1 [label=\"true\"]\n");
                } else {
                    out.append("0 [label=\"false\"]\n");
                }
                out.append("}\n");
                proof {
                    assert(out@ =~= spec_dot(diagram@, self.1@, self.0));
                }
                out
            },
        }
    }
}

} // verus!
