//! The general laws of the graph, proved once and for all over the
//! mathematical model. Each law speaks about the transition functions that
//! the executable operations are specified against, so it applies after any
//! sequence of graph operations.

use vstd::prelude::*;

use crate::model::{
    detach_all, detach_node, drop_entry, edge_added, edge_removed, has_entry, has_neighbor,
    ids_wf, lemma_detach_all_pointwise, lemma_drop_entry_absent, lemma_drop_entry_distinct,
    lemma_drop_entry_elements, lemma_drop_entry_len, lemma_has_entry_witness,
    lemma_has_handle_witness, lemma_with_edge_pointwise, lemma_without_edge_pointwise,
    lemma_without_neighbor_absent, lemma_without_neighbor_has, lemma_without_neighbor_push,
    wf_view, with_edge, with_node, without_edge, without_node, GraphView, NodeData, NodeView,
};
use crate::types::NodeHandle;

verus! {

/// After `remove_node`, the removed node is gone and no remaining node's
/// adjacency list mentions it: enumerating the neighbors of every remaining
/// node never yields the removed handle. This holds for every graph state,
/// hence after any sequence of operations.
pub proof fn lemma_removed_node_fully_detached(g: GraphView, id: u64)
    ensures
        forall|i: int|
            0 <= i < without_node(g, id).nodes.len() ==> {
                &&& (#[trigger] without_node(g, id).nodes[i]).id != id
                &&& !has_neighbor(without_node(g, id).nodes[i].node, id)
            },
{
    lemma_drop_entry_elements(g.nodes, id);
    lemma_detach_all_pointwise(drop_entry(g.nodes, id), id);
    assert forall|i: int| 0 <= i < without_node(g, id).nodes.len() implies {
        &&& (#[trigger] without_node(g, id).nodes[i]).id != id
        &&& !has_neighbor(without_node(g, id).nodes[i].node, id)
    } by {
        let r = drop_entry(g.nodes, id);
        assert(without_node(g, id).nodes[i] == detach_node(r[i], id));
        lemma_without_neighbor_has(r[i].node.neighbors, id, id);
    }
}

/// `remove_node` is idempotent: removing the same handle twice produces the
/// same graph state as removing it once.
pub proof fn lemma_remove_node_idempotent(g: GraphView, id: u64)
    ensures
        without_node(without_node(g, id), id) == without_node(g, id),
{
    let d = without_node(g, id).nodes;
    lemma_removed_node_fully_detached(g, id);
    assert(!has_entry(d, id)) by {
        if has_entry(d, id) {
            let k = lemma_has_entry_witness(d, id);
        }
    }
    lemma_drop_entry_absent(d, id);
    lemma_detach_all_pointwise(d, id);
    assert forall|i: int| 0 <= i < d.len() implies #[trigger] detach_all(d, id)[i] == d[i] by {
        assert(detach_all(d, id)[i] == detach_node(d[i], id));
        assert(!has_neighbor(d[i].node, id));
        lemma_without_neighbor_absent(d[i].node.neighbors, id);
        assert(detach_node(d[i], id) =~~= d[i]);
    }
    assert(without_node(without_node(g, id), id).nodes =~~= d);
    assert(without_node(without_node(g, id), id) =~~= without_node(g, id));
}

/// `add_edge(a, b)` followed immediately by `remove_edge(a, b)` restores the
/// adjacency lists of both nodes exactly, provided no `a`–`b` adjacency (in
/// particular no duplicate edge) was present beforehand.
pub proof fn lemma_edge_round_trip(g: GraphView, a: u64, b: u64)
    requires
        wf_view(g),
        a != b,
        forall|i: int|
            0 <= i < g.nodes.len() && (#[trigger] g.nodes[i]).id == a ==> !has_neighbor(
                g.nodes[i].node,
                b,
            ),
        forall|i: int|
            0 <= i < g.nodes.len() && (#[trigger] g.nodes[i]).id == b ==> !has_neighbor(
                g.nodes[i].node,
                a,
            ),
    ensures
        without_edge(with_edge(g, a, b), a, b) == g,
{
    if has_entry(g.nodes, a) && has_entry(g.nodes, b) {
        lemma_with_edge_pointwise(g, a, b);
        let t = with_edge(g, a, b);
        lemma_without_edge_pointwise(t, a, b);
        assert forall|i: int| 0 <= i < g.nodes.len() implies #[trigger] without_edge(
            t,
            a,
            b,
        ).nodes[i] == g.nodes[i] by {
            assert(t.nodes[i] == edge_added(g.nodes[i], a, b));
            assert(without_edge(t, a, b).nodes[i] == edge_removed(t.nodes[i], a, b));
            let e = g.nodes[i];
            if e.id == a {
                lemma_without_neighbor_push(e.node.neighbors, (NodeHandle { id: b }), b);
                lemma_without_neighbor_absent(e.node.neighbors, b);
                assert(edge_removed(edge_added(e, a, b), a, b) =~~= e);
            } else if e.id == b {
                lemma_without_neighbor_push(e.node.neighbors, (NodeHandle { id: a }), a);
                lemma_without_neighbor_absent(e.node.neighbors, a);
                assert(edge_removed(edge_added(e, a, b), a, b) =~~= e);
            } else {
                assert(edge_removed(edge_added(e, a, b), a, b) =~~= e);
            }
        }
        assert(without_edge(t, a, b).nodes =~~= g.nodes);
        assert(without_edge(t, a, b) =~~= g);
    } else {
        lemma_without_edge_pointwise(g, a, b);
        assert forall|i: int| 0 <= i < g.nodes.len() implies #[trigger] without_edge(
            g,
            a,
            b,
        ).nodes[i] == g.nodes[i] by {
            let e = g.nodes[i];
            if e.id == a {
                assert(has_entry(g.nodes, a)) by {
                    assert(g.nodes[i].id == a);
                }
                assert(!has_neighbor(e.node, b)) by {
                    if has_neighbor(e.node, b) {
                        let k = lemma_has_handle_witness(e.node.neighbors, b);
                        assert(has_entry(g.nodes, e.node.neighbors[k].id));
                    }
                }
                lemma_without_neighbor_absent(e.node.neighbors, b);
                assert(edge_removed(e, a, b) =~~= e);
            } else if e.id == b {
                assert(has_entry(g.nodes, b)) by {
                    assert(g.nodes[i].id == b);
                }
                assert(!has_neighbor(e.node, a)) by {
                    if has_neighbor(e.node, a) {
                        let k = lemma_has_handle_witness(e.node.neighbors, a);
                        assert(has_entry(g.nodes, e.node.neighbors[k].id));
                    }
                }
                lemma_without_neighbor_absent(e.node.neighbors, a);
                assert(edge_removed(e, a, b) =~~= e);
            } else {
                assert(edge_removed(e, a, b) =~~= e);
            }
        }
        assert(without_edge(g, a, b).nodes =~~= g.nodes);
        assert(without_edge(g, a, b) =~~= g);
    }
}

/// Edges are symmetric in every well-formed graph: one member's adjacency
/// list mentions another member exactly when the converse holds.
pub proof fn lemma_edges_symmetric(g: GraphView, i: int, j: int)
    requires
        wf_view(g),
        0 <= i < g.nodes.len(),
        0 <= j < g.nodes.len(),
    ensures
        has_neighbor(g.nodes[i].node, g.nodes[j].id) <==> has_neighbor(
            g.nodes[j].node,
            g.nodes[i].id,
        ),
{
    if has_neighbor(g.nodes[i].node, g.nodes[j].id) {
        assert(has_neighbor(g.nodes[j].node, g.nodes[i].id));
    }
    if has_neighbor(g.nodes[j].node, g.nodes[i].id) {
        assert(has_neighbor(g.nodes[i].node, g.nodes[j].id));
    }
}

/// One graph operation, as a value, for stating laws about whole operation
/// sequences.
pub enum GraphOp {
    CreateNode(NodeData),
    RemoveNode(u64),
    AddEdge(u64, u64),
    RemoveEdge(u64, u64),
}

/// The state transition of one operation.
pub open spec fn apply_op(g: GraphView, op: GraphOp) -> GraphView {
    match op {
        GraphOp::CreateNode(data) => with_node(g, data),
        GraphOp::RemoveNode(id) => without_node(g, id),
        GraphOp::AddEdge(a, b) => with_edge(g, a, b),
        GraphOp::RemoveEdge(a, b) => without_edge(g, a, b),
    }
}

/// The state after a whole sequence of operations, applied in order.
pub open spec fn apply_ops(g: GraphView, ops: Seq<GraphOp>) -> GraphView
    decreases ops.len(),
{
    if ops.len() == 0 {
        g
    } else {
        apply_ops(apply_op(g, ops[0]), ops.drop_first())
    }
}

/// How many node creations a sequence of operations contains.
pub open spec fn count_creates(ops: Seq<GraphOp>) -> int
    decreases ops.len(),
{
    if ops.len() == 0 {
        0
    } else {
        (match ops[0] {
            GraphOp::CreateNode(_) => 1int,
            _ => 0int,
        }) + count_creates(ops.drop_first())
    }
}

/// How many node removals a sequence of operations contains.
pub open spec fn count_removes(ops: Seq<GraphOp>) -> int
    decreases ops.len(),
{
    if ops.len() == 0 {
        0
    } else {
        (match ops[0] {
            GraphOp::RemoveNode(_) => 1int,
            _ => 0int,
        }) + count_removes(ops.drop_first())
    }
}

/// True when every removal in the sequence succeeds: at the moment it is
/// applied, its handle still refers to a member. A repeated removal of the
/// same handle therefore does not qualify.
pub open spec fn removes_succeed(g: GraphView, ops: Seq<GraphOp>) -> bool
    decreases ops.len(),
{
    if ops.len() == 0 {
        true
    } else {
        (match ops[0] {
            GraphOp::RemoveNode(id) => has_entry(g.nodes, id),
            _ => true,
        }) && removes_succeed(apply_op(g, ops[0]), ops.drop_first())
    }
}

proof fn lemma_counts_nonneg(ops: Seq<GraphOp>)
    ensures
        count_creates(ops) >= 0,
        count_removes(ops) >= 0,
    decreases ops.len(),
{
    if ops.len() == 0 {
    } else {
        lemma_counts_nonneg(ops.drop_first());
    }
}

/// One operation keeps the identifier discipline and changes the node count
/// by exactly one for a creation, minus one for a successful removal, and
/// not at all otherwise.
proof fn lemma_apply_op_count(g: GraphView, op: GraphOp)
    requires
        ids_wf(g),
        op matches GraphOp::CreateNode(_) ==> g.next_id < u64::MAX as int,
    ensures
        ids_wf(apply_op(g, op)),
        apply_op(g, op).nodes.len() == g.nodes.len() + (match op {
            GraphOp::CreateNode(_) => 1int,
            GraphOp::RemoveNode(id) => if has_entry(g.nodes, id) {
                -1int
            } else {
                0int
            },
            _ => 0int,
        }),
        apply_op(g, op).next_id == g.next_id + (match op {
            GraphOp::CreateNode(_) => 1int,
            _ => 0int,
        }),
{
    match op {
        GraphOp::CreateNode(data) => {
            let h = with_node(g, data);
            let nv = (NodeView { id: g.next_id as u64, node: data });
            let t = g.nodes.push(nv);
            assert forall|i: int, j: int|
                0 <= i < t.len() && 0 <= j < t.len() && i != j
                implies #[trigger] t[i].id != #[trigger] t[j].id by {
                if i < g.nodes.len() && j < g.nodes.len() {
                    assert(g.nodes[i].id != g.nodes[j].id);
                } else if i < g.nodes.len() {
                    assert(g.nodes[i].id < g.next_id);
                } else if j < g.nodes.len() {
                    assert(g.nodes[j].id < g.next_id);
                }
            }
            assert forall|i: int| 0 <= i < t.len() implies (#[trigger] t[i].id) < h.next_id by {
                if i < g.nodes.len() {
                    assert(g.nodes[i].id < g.next_id);
                }
            }
        },
        GraphOp::RemoveNode(id) => {
            let r = drop_entry(g.nodes, id);
            lemma_drop_entry_distinct(g.nodes, id);
            lemma_drop_entry_elements(g.nodes, id);
            lemma_drop_entry_len(g.nodes, id);
            lemma_detach_all_pointwise(r, id);
            let d = detach_all(r, id);
            assert forall|i: int, j: int|
                0 <= i < d.len() && 0 <= j < d.len() && i != j
                implies #[trigger] d[i].id != #[trigger] d[j].id by {
                assert(d[i] == detach_node(r[i], id));
                assert(d[j] == detach_node(r[j], id));
                assert(r[i].id != r[j].id);
            }
            assert forall|i: int| 0 <= i < d.len() implies (#[trigger] d[i].id)
                < without_node(g, id).next_id by {
                assert(d[i] == detach_node(r[i], id));
                let m = choose|m: int| 0 <= m < g.nodes.len() && r[i] == g.nodes[m];
                assert(g.nodes[m].id < g.next_id);
            }
        },
        GraphOp::AddEdge(a, b) => {
            if has_entry(g.nodes, a) && has_entry(g.nodes, b) {
                lemma_with_edge_pointwise(g, a, b);
                let t = with_edge(g, a, b).nodes;
                assert forall|i: int, j: int|
                    0 <= i < t.len() && 0 <= j < t.len() && i != j
                    implies #[trigger] t[i].id != #[trigger] t[j].id by {
                    assert(t[i] == edge_added(g.nodes[i], a, b));
                    assert(t[j] == edge_added(g.nodes[j], a, b));
                    assert(g.nodes[i].id != g.nodes[j].id);
                }
                assert forall|i: int| 0 <= i < t.len() implies (#[trigger] t[i].id)
                    < with_edge(g, a, b).next_id by {
                    assert(t[i] == edge_added(g.nodes[i], a, b));
                    assert(g.nodes[i].id < g.next_id);
                }
            }
        },
        GraphOp::RemoveEdge(a, b) => {
            lemma_without_edge_pointwise(g, a, b);
            let t = without_edge(g, a, b).nodes;
            assert forall|i: int, j: int|
                0 <= i < t.len() && 0 <= j < t.len() && i != j
                implies #[trigger] t[i].id != #[trigger] t[j].id by {
                assert(t[i] == edge_removed(g.nodes[i], a, b));
                assert(t[j] == edge_removed(g.nodes[j], a, b));
                assert(g.nodes[i].id != g.nodes[j].id);
            }
            assert forall|i: int| 0 <= i < t.len() implies (#[trigger] t[i].id)
                < without_edge(g, a, b).next_id by {
                assert(t[i] == edge_removed(g.nodes[i], a, b));
                assert(g.nodes[i].id < g.next_id);
            }
        },
    }
}

/// Node count after a sequence of operations: each creation adds one node
/// and each successful removal takes one away, so after `n` creations and
/// `k` successful removals the count has grown by exactly `n - k`.
pub proof fn lemma_node_count(g: GraphView, ops: Seq<GraphOp>)
    requires
        ids_wf(g),
        removes_succeed(g, ops),
        g.next_id + count_creates(ops) <= u64::MAX as int,
    ensures
        apply_ops(g, ops).nodes.len() == g.nodes.len() + count_creates(ops) - count_removes(ops),
    decreases ops.len(),
{
    if ops.len() == 0 {
    } else {
        let rest = ops.drop_first();
        lemma_counts_nonneg(rest);
        lemma_apply_op_count(g, ops[0]);
        lemma_node_count(apply_op(g, ops[0]), rest);
    }
}

} // verus!
