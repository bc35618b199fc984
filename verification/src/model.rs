//! The mathematical model of the graph: ghost descriptions of nodes, the
//! transition functions that the executable operations are specified against,
//! and the well-formedness invariant with its preservation lemmas.

use vstd::prelude::*;

use crate::types::{NodeHandle, TerritoryType};

verus! {

/// Ghost description of what one node holds: its display name, its territory
/// classification, and its adjacency list of neighbor handles.
#[verifier::ext_equal]
pub struct NodeData {
    pub name: Seq<char>,
    pub attributes: TerritoryType,
    pub neighbors: Seq<NodeHandle>,
}

/// Ghost description of one graph slot: the node's identifier and its data.
#[verifier::ext_equal]
pub struct NodeView {
    pub id: u64,
    pub node: NodeData,
}

/// Ghost description of a whole graph: the node slots in insertion order and
/// the next identifier to hand out.
#[verifier::ext_equal]
pub struct GraphView {
    pub nodes: Seq<NodeView>,
    pub next_id: int,
}

/// True when some handle in `s` carries the identifier `id`.
pub open spec fn has_handle(s: Seq<NodeHandle>, id: u64) -> bool {
    exists|k: int| 0 <= k < s.len() && s[k].id == id
}

/// True when some node slot in `s` carries the identifier `id`.
pub open spec fn has_entry(s: Seq<NodeView>, id: u64) -> bool {
    exists|i: int| 0 <= i < s.len() && s[i].id == id
}

/// An index of the node slot carrying `id`; under distinct identifiers it is
/// the only one.
pub open spec fn entry_index(s: Seq<NodeView>, id: u64) -> int {
    choose|i: int| 0 <= i < s.len() && s[i].id == id
}

/// The node slot carrying `id`; meaningful when `has_entry(s, id)` holds.
pub open spec fn entry_for(s: Seq<NodeView>, id: u64) -> NodeView {
    s[entry_index(s, id)]
}

/// True when the adjacency list of `n` mentions the identifier `id`.
pub open spec fn has_neighbor(n: NodeData, id: u64) -> bool {
    has_handle(n.neighbors, id)
}

/// The adjacency list `s` with every handle for `id` removed.
pub open spec fn without_neighbor(s: Seq<NodeHandle>, id: u64) -> Seq<NodeHandle>
    decreases s.len(),
{
    if s.len() == 0 {
        Seq::empty()
    } else {
        let rest = without_neighbor(s.drop_last(), id);
        if s.last().id == id {
            rest
        } else {
            rest.push(s.last())
        }
    }
}

/// The slot sequence `s` with every slot carrying `id` removed.
pub open spec fn drop_entry(s: Seq<NodeView>, id: u64) -> Seq<NodeView>
    decreases s.len(),
{
    if s.len() == 0 {
        Seq::empty()
    } else {
        let rest = drop_entry(s.drop_last(), id);
        if s.last().id == id {
            rest
        } else {
            rest.push(s.last())
        }
    }
}

/// One slot with every adjacency reference to `id` removed.
pub open spec fn detach_node(e: NodeView, id: u64) -> NodeView {
    NodeView {
        id: e.id,
        node: NodeData {
            name: e.node.name,
            attributes: e.node.attributes,
            neighbors: without_neighbor(e.node.neighbors, id),
        },
    }
}

/// Every slot of `s` with its adjacency references to `id` removed.
pub open spec fn detach_all(s: Seq<NodeView>, id: u64) -> Seq<NodeView> {
    s.map_values(|e: NodeView| detach_node(e, id))
}

/// One slot after `add_edge(a, b)`: the slot for `a` gains a handle to `b`,
/// the slot for `b` gains a handle to `a`, every other slot is unchanged.
pub open spec fn edge_added(e: NodeView, a: u64, b: u64) -> NodeView {
    if e.id == a {
        NodeView {
            id: e.id,
            node: NodeData {
                name: e.node.name,
                attributes: e.node.attributes,
                neighbors: e.node.neighbors.push(NodeHandle { id: b }),
            },
        }
    } else if e.id == b {
        NodeView {
            id: e.id,
            node: NodeData {
                name: e.node.name,
                attributes: e.node.attributes,
                neighbors: e.node.neighbors.push(NodeHandle { id: a }),
            },
        }
    } else {
        e
    }
}

/// One slot after `remove_edge(a, b)`: the slot for `a` loses every handle to
/// `b`, the slot for `b` loses every handle to `a`, every other slot is
/// unchanged.
pub open spec fn edge_removed(e: NodeView, a: u64, b: u64) -> NodeView {
    if e.id == a {
        NodeView {
            id: e.id,
            node: NodeData {
                name: e.node.name,
                attributes: e.node.attributes,
                neighbors: without_neighbor(e.node.neighbors, b),
            },
        }
    } else if e.id == b {
        NodeView {
            id: e.id,
            node: NodeData {
                name: e.node.name,
                attributes: e.node.attributes,
                neighbors: without_neighbor(e.node.neighbors, a),
            },
        }
    } else {
        e
    }
}

/// The graph after a node with data `data` is inserted: it is appended with
/// the next identifier, and the identifier counter advances.
pub open spec fn with_node(g: GraphView, data: NodeData) -> GraphView {
    GraphView {
        nodes: g.nodes.push(NodeView { id: g.next_id as u64, node: data }),
        next_id: g.next_id + 1,
    }
}

/// The graph after `remove_node(id)`: the slot for `id` is gone, and no
/// remaining adjacency list mentions `id`.
pub open spec fn without_node(g: GraphView, id: u64) -> GraphView {
    GraphView { nodes: detach_all(drop_entry(g.nodes, id), id), next_id: g.next_id }
}

/// The graph after `add_edge(a, b)`: a no-op unless both nodes are members;
/// otherwise each of the two gains one adjacency entry for the other.
pub open spec fn with_edge(g: GraphView, a: u64, b: u64) -> GraphView {
    if has_entry(g.nodes, a) && has_entry(g.nodes, b) {
        GraphView { nodes: g.nodes.map_values(|e: NodeView| edge_added(e, a, b)), next_id: g.next_id }
    } else {
        g
    }
}

/// The graph after `remove_edge(a, b)`: all adjacency entries between the two
/// nodes are gone; everything else is unchanged.
pub open spec fn without_edge(g: GraphView, a: u64, b: u64) -> GraphView {
    GraphView {
        nodes: g.nodes.map_values(|e: NodeView| edge_removed(e, a, b)),
        next_id: g.next_id,
    }
}

/// No two slots carry the same identifier.
pub open spec fn distinct_ids(s: Seq<NodeView>) -> bool {
    forall|i: int, j: int|
        0 <= i < s.len() && 0 <= j < s.len() && i != j ==> #[trigger] s[i].id != #[trigger] s[j].id
}

/// Every identifier in use lies below the counter, and the counter itself is
/// in the machine range.
pub open spec fn ids_bounded(g: GraphView) -> bool {
    &&& 0 <= g.next_id <= u64::MAX as int
    &&& forall|i: int| 0 <= i < g.nodes.len() ==> (#[trigger] g.nodes[i].id) < g.next_id
}

/// The identifier discipline of a graph: slots are distinct and below the
/// counter.
pub open spec fn ids_wf(g: GraphView) -> bool {
    distinct_ids(g.nodes) && ids_bounded(g)
}

/// Every adjacency entry refers to a current member and never to its own
/// node: no dangling references and no self-loops.
pub open spec fn neighbors_wf(s: Seq<NodeView>) -> bool {
    forall|i: int, k: int|
        0 <= i < s.len() && 0 <= k < s[i].node.neighbors.len() ==> {
            &&& has_entry(s, (#[trigger] s[i].node.neighbors[k]).id)
            &&& s[i].node.neighbors[k].id != s[i].id
        }
}

/// Adjacency is symmetric: whenever one member's list mentions another
/// member, the converse holds too.
pub open spec fn symmetric_nodes(s: Seq<NodeView>) -> bool {
    forall|i: int, j: int|
        0 <= i < s.len() && 0 <= j < s.len() && #[trigger] has_neighbor(s[i].node, s[j].id)
            ==> has_neighbor(s[j].node, s[i].id)
}

/// Well-formedness of a graph: the identifier discipline, no dangling or
/// self adjacency entries, and symmetric adjacency. Every operation of the
/// executable graph preserves it.
pub open spec fn wf_view(g: GraphView) -> bool {
    ids_wf(g) && neighbors_wf(g.nodes) && symmetric_nodes(g.nodes)
}

/// An index at which `s` carries the identifier `x`.
pub proof fn lemma_has_handle_witness(s: Seq<NodeHandle>, x: u64) -> (k: int)
    requires
        has_handle(s, x),
    ensures
        0 <= k < s.len() && s[k].id == x,
{
    choose|k: int| 0 <= k < s.len() && s[k].id == x
}

/// An index at which `s` carries the slot identifier `x`.
pub proof fn lemma_has_entry_witness(s: Seq<NodeView>, x: u64) -> (i: int)
    requires
        has_entry(s, x),
    ensures
        0 <= i < s.len() && s[i].id == x,
{
    choose|i: int| 0 <= i < s.len() && s[i].id == x
}

proof fn lemma_has_handle_drop_last(s: Seq<NodeHandle>, x: u64)
    requires
        s.len() > 0,
    ensures
        has_handle(s, x) <==> (has_handle(s.drop_last(), x) || s.last().id == x),
{
    if has_handle(s, x) {
        let k = lemma_has_handle_witness(s, x);
        if k < s.len() - 1 {
            assert(s.drop_last()[k].id == x);
        }
    }
    if has_handle(s.drop_last(), x) {
        let k = lemma_has_handle_witness(s.drop_last(), x);
        assert(s[k].id == x);
    }
    if s.last().id == x {
        assert(s[s.len() - 1].id == x);
    }
}

proof fn lemma_has_entry_drop_last(s: Seq<NodeView>, x: u64)
    requires
        s.len() > 0,
    ensures
        has_entry(s, x) <==> (has_entry(s.drop_last(), x) || s.last().id == x),
{
    if has_entry(s, x) {
        let k = lemma_has_entry_witness(s, x);
        if k < s.len() - 1 {
            assert(s.drop_last()[k].id == x);
        }
    }
    if has_entry(s.drop_last(), x) {
        let k = lemma_has_entry_witness(s.drop_last(), x);
        assert(s[k].id == x);
    }
    if s.last().id == x {
        assert(s[s.len() - 1].id == x);
    }
}

/// Pushing a handle extends handle membership by exactly that handle's
/// identifier.
pub proof fn lemma_has_handle_push(s: Seq<NodeHandle>, h: NodeHandle, x: u64)
    ensures
        has_handle(s.push(h), x) <==> (has_handle(s, x) || h.id == x),
{
    if has_handle(s, x) {
        let k = lemma_has_handle_witness(s, x);
        assert(s.push(h)[k].id == x);
    }
    if h.id == x {
        assert(s.push(h)[s.len() as int].id == x);
    }
    if has_handle(s.push(h), x) {
        let k = lemma_has_handle_witness(s.push(h), x);
        if k < s.len() {
            assert(s[k].id == x);
        }
    }
}

/// Pushing a slot extends slot membership by exactly that slot's identifier.
pub proof fn lemma_has_entry_push(s: Seq<NodeView>, e: NodeView, x: u64)
    ensures
        has_entry(s.push(e), x) <==> (has_entry(s, x) || e.id == x),
{
    if has_entry(s, x) {
        let k = lemma_has_entry_witness(s, x);
        assert(s.push(e)[k].id == x);
    }
    if e.id == x {
        assert(s.push(e)[s.len() as int].id == x);
    }
    if has_entry(s.push(e), x) {
        let k = lemma_has_entry_witness(s.push(e), x);
        if k < s.len() {
            assert(s[k].id == x);
        }
    }
}

/// Every handle kept by `without_neighbor` comes from the original list and
/// never carries the removed identifier.
pub proof fn lemma_without_neighbor_elements(s: Seq<NodeHandle>, id: u64)
    ensures
        without_neighbor(s, id).len() <= s.len(),
        forall|k: int|
            0 <= k < without_neighbor(s, id).len() ==> {
                &&& (#[trigger] without_neighbor(s, id)[k]).id != id
                &&& has_handle(s, without_neighbor(s, id)[k].id)
            },
    decreases s.len(),
{
    if s.len() == 0 {
    } else {
        lemma_without_neighbor_elements(s.drop_last(), id);
        let rest = without_neighbor(s.drop_last(), id);
        assert forall|x: u64| has_handle(s.drop_last(), x) implies has_handle(s, x) by {
            let k = lemma_has_handle_witness(s.drop_last(), x);
            assert(s[k].id == x);
        }
        if s.last().id != id {
            assert(without_neighbor(s, id) == rest.push(s.last()));
            assert(s[s.len() - 1].id == s.last().id);
            assert(has_handle(s, s.last().id));
        }
    }
}

/// `without_neighbor` keeps exactly the identifiers other than the removed
/// one.
pub proof fn lemma_without_neighbor_has(s: Seq<NodeHandle>, id: u64, x: u64)
    ensures
        has_handle(without_neighbor(s, id), x) <==> (x != id && has_handle(s, x)),
    decreases s.len(),
{
    if s.len() == 0 {
        if has_handle(without_neighbor(s, id), x) {
            let k = lemma_has_handle_witness(without_neighbor(s, id), x);
        }
        if has_handle(s, x) {
            let k = lemma_has_handle_witness(s, x);
        }
    } else {
        lemma_without_neighbor_has(s.drop_last(), id, x);
        lemma_has_handle_drop_last(s, x);
        let rest = without_neighbor(s.drop_last(), id);
        if s.last().id == id {
            assert(without_neighbor(s, id) == rest);
        } else {
            assert(without_neighbor(s, id) == rest.push(s.last()));
            lemma_has_handle_push(rest, s.last(), x);
        }
    }
}

/// Removing an identifier that a list never mentions leaves the list as it
/// was.
pub proof fn lemma_without_neighbor_absent(s: Seq<NodeHandle>, id: u64)
    requires
        !has_handle(s, id),
    ensures
        without_neighbor(s, id) == s,
    decreases s.len(),
{
    if s.len() == 0 {
        assert(without_neighbor(s, id) =~= s);
    } else {
        lemma_has_handle_drop_last(s, id);
        lemma_without_neighbor_absent(s.drop_last(), id);
        assert(s.last().id != id);
        assert(without_neighbor(s, id) =~= s);
    }
}

/// How `without_neighbor` acts on a list extended by one handle.
pub proof fn lemma_without_neighbor_push(s: Seq<NodeHandle>, h: NodeHandle, id: u64)
    ensures
        without_neighbor(s.push(h), id) == if h.id == id {
            without_neighbor(s, id)
        } else {
            without_neighbor(s, id).push(h)
        },
{
    let t = s.push(h);
    assert(t.drop_last() =~= s);
    assert(t.last() == h);
}

/// True when `e` is one of the slots of `s`.
pub open spec fn is_slot_of(e: NodeView, s: Seq<NodeView>) -> bool {
    exists|j: int| 0 <= j < s.len() && e == s[j]
}

/// Every slot kept by `drop_entry` is one of the original slots and never
/// carries the removed identifier.
pub proof fn lemma_drop_entry_elements(s: Seq<NodeView>, id: u64)
    ensures
        drop_entry(s, id).len() <= s.len(),
        forall|i: int|
            0 <= i < drop_entry(s, id).len() ==> {
                &&& (#[trigger] drop_entry(s, id)[i]).id != id
                &&& is_slot_of(drop_entry(s, id)[i], s)
            },
    decreases s.len(),
{
    if s.len() == 0 {
    } else {
        lemma_drop_entry_elements(s.drop_last(), id);
        let rest = drop_entry(s.drop_last(), id);
        assert forall|i: int| 0 <= i < rest.len() implies is_slot_of(#[trigger] rest[i], s) by {
            let j = choose|j: int| 0 <= j < s.drop_last().len() && rest[i] == s.drop_last()[j];
            assert(rest[i] == s[j]);
        }
        if s.last().id != id {
            assert(drop_entry(s, id) == rest.push(s.last()));
            assert(drop_entry(s, id)[rest.len() as int] == s[s.len() - 1]);
        }
    }
}

/// `drop_entry` keeps exactly the slot identifiers other than the removed
/// one.
pub proof fn lemma_drop_entry_has(s: Seq<NodeView>, id: u64, x: u64)
    ensures
        has_entry(drop_entry(s, id), x) <==> (x != id && has_entry(s, x)),
    decreases s.len(),
{
    if s.len() == 0 {
        if has_entry(drop_entry(s, id), x) {
            let k = lemma_has_entry_witness(drop_entry(s, id), x);
        }
        if has_entry(s, x) {
            let k = lemma_has_entry_witness(s, x);
        }
    } else {
        lemma_drop_entry_has(s.drop_last(), id, x);
        lemma_has_entry_drop_last(s, x);
        let rest = drop_entry(s.drop_last(), id);
        if s.last().id == id {
            assert(drop_entry(s, id) == rest);
        } else {
            assert(drop_entry(s, id) == rest.push(s.last()));
            lemma_has_entry_push(rest, s.last(), x);
        }
    }
}

/// Dropping a slot identifier that no slot carries leaves the sequence as it
/// was.
pub proof fn lemma_drop_entry_absent(s: Seq<NodeView>, id: u64)
    requires
        !has_entry(s, id),
    ensures
        drop_entry(s, id) == s,
    decreases s.len(),
{
    if s.len() == 0 {
        assert(drop_entry(s, id) =~= s);
    } else {
        lemma_has_entry_drop_last(s, id);
        lemma_drop_entry_absent(s.drop_last(), id);
        assert(s.last().id != id);
        assert(drop_entry(s, id) =~= s);
    }
}

/// How `drop_entry` acts on a sequence extended by one slot.
pub proof fn lemma_drop_entry_push(s: Seq<NodeView>, e: NodeView, id: u64)
    ensures
        drop_entry(s.push(e), id) == if e.id == id {
            drop_entry(s, id)
        } else {
            drop_entry(s, id).push(e)
        },
{
    let t = s.push(e);
    assert(t.drop_last() =~= s);
    assert(t.last() == e);
}

/// Dropping a slot preserves distinctness of the remaining identifiers.
pub proof fn lemma_drop_entry_distinct(s: Seq<NodeView>, id: u64)
    requires
        distinct_ids(s),
    ensures
        distinct_ids(drop_entry(s, id)),
    decreases s.len(),
{
    if s.len() == 0 {
    } else {
        assert forall|i: int, j: int|
            0 <= i < s.drop_last().len() && 0 <= j < s.drop_last().len() && i != j
            implies #[trigger] s.drop_last()[i].id != #[trigger] s.drop_last()[j].id by {
            assert(s[i].id != s[j].id);
        }
        lemma_drop_entry_distinct(s.drop_last(), id);
        lemma_drop_entry_elements(s.drop_last(), id);
        let rest = drop_entry(s.drop_last(), id);
        if s.last().id != id {
            let t = rest.push(s.last());
            assert forall|i: int, j: int|
                0 <= i < t.len() && 0 <= j < t.len() && i != j
                implies #[trigger] t[i].id != #[trigger] t[j].id by {
                if i < rest.len() && j < rest.len() {
                    assert(rest[i].id != rest[j].id);
                } else if i < rest.len() {
                    let m = choose|m: int|
                        0 <= m < s.drop_last().len() && rest[i] == s.drop_last()[m];
                    assert(s[m].id != s[s.len() - 1].id);
                } else {
                    let m = choose|m: int|
                        0 <= m < s.drop_last().len() && rest[j] == s.drop_last()[m];
                    assert(s[m].id != s[s.len() - 1].id);
                }
            }
        }
    }
}

/// Dropping a slot removes exactly one slot when the identifier is present
/// and distinct, and none when it is absent.
pub proof fn lemma_drop_entry_len(s: Seq<NodeView>, id: u64)
    requires
        distinct_ids(s),
    ensures
        drop_entry(s, id).len() == if has_entry(s, id) {
            s.len() - 1
        } else {
            s.len() as int
        },
    decreases s.len(),
{
    if s.len() == 0 {
        if has_entry(s, id) {
            let k = lemma_has_entry_witness(s, id);
        }
    } else {
        assert forall|i: int, j: int|
            0 <= i < s.drop_last().len() && 0 <= j < s.drop_last().len() && i != j
            implies #[trigger] s.drop_last()[i].id != #[trigger] s.drop_last()[j].id by {
            assert(s[i].id != s[j].id);
        }
        lemma_drop_entry_len(s.drop_last(), id);
        lemma_has_entry_drop_last(s, id);
        if s.last().id == id {
            assert(has_entry(s, id)) by {
                assert(s[s.len() - 1].id == id);
            }
            assert(!has_entry(s.drop_last(), id)) by {
                if has_entry(s.drop_last(), id) {
                    let k = lemma_has_entry_witness(s.drop_last(), id);
                    assert(s[k].id != s[s.len() - 1].id);
                }
            }
        }
    }
}

/// `detach_all` rewrites each slot pointwise.
pub proof fn lemma_detach_all_pointwise(s: Seq<NodeView>, id: u64)
    ensures
        detach_all(s, id).len() == s.len(),
        forall|i: int|
            0 <= i < s.len() ==> #[trigger] detach_all(s, id)[i] == detach_node(s[i], id),
{
}

/// Adding an edge between two members rewrites each slot pointwise.
pub proof fn lemma_with_edge_pointwise(g: GraphView, a: u64, b: u64)
    requires
        has_entry(g.nodes, a),
        has_entry(g.nodes, b),
    ensures
        with_edge(g, a, b).next_id == g.next_id,
        with_edge(g, a, b).nodes.len() == g.nodes.len(),
        forall|i: int|
            0 <= i < g.nodes.len()
                ==> #[trigger] with_edge(g, a, b).nodes[i] == edge_added(g.nodes[i], a, b),
{
}

/// Removing an edge rewrites each slot pointwise.
pub proof fn lemma_without_edge_pointwise(g: GraphView, a: u64, b: u64)
    ensures
        without_edge(g, a, b).next_id == g.next_id,
        without_edge(g, a, b).nodes.len() == g.nodes.len(),
        forall|i: int|
            0 <= i < g.nodes.len()
                ==> #[trigger] without_edge(g, a, b).nodes[i] == edge_removed(g.nodes[i], a, b),
{
}

/// Removing a node removes exactly one slot when the handle matches a member
/// of a well-identified graph, and none otherwise.
pub proof fn lemma_without_node_len(g: GraphView, id: u64)
    requires
        distinct_ids(g.nodes),
    ensures
        without_node(g, id).nodes.len() == if has_entry(g.nodes, id) {
            g.nodes.len() - 1
        } else {
            g.nodes.len() as int
        },
{
    lemma_drop_entry_len(g.nodes, id);
    lemma_detach_all_pointwise(drop_entry(g.nodes, id), id);
}

/// Inserting a node preserves well-formedness.
pub proof fn lemma_with_node_wf(g: GraphView, data: NodeData)
    requires
        wf_view(g),
        g.next_id < u64::MAX as int,
        data.neighbors == Seq::<NodeHandle>::empty(),
    ensures
        wf_view(with_node(g, data)),
{
    let s = g.nodes;
    let nid = g.next_id as u64;
    let nv = (NodeView { id: nid, node: data });
    let t = s.push(nv);
    let h = with_node(g, data);
    assert(h.nodes == t);
    assert forall|i: int, j: int|
        0 <= i < t.len() && 0 <= j < t.len() && i != j
        implies #[trigger] t[i].id != #[trigger] t[j].id by {
        if i < s.len() && j < s.len() {
            assert(s[i].id != s[j].id);
        } else if i < s.len() {
            assert(s[i].id < g.next_id);
        } else if j < s.len() {
            assert(s[j].id < g.next_id);
        }
    }
    assert forall|i: int| 0 <= i < t.len() implies (#[trigger] t[i].id) < h.next_id by {
        if i < s.len() {
            assert(s[i].id < g.next_id);
        }
    }
    assert forall|i: int, k: int|
        0 <= i < t.len() && 0 <= k < t[i].node.neighbors.len()
        implies has_entry(t, (#[trigger] t[i].node.neighbors[k]).id)
            && t[i].node.neighbors[k].id != t[i].id by {
        if i < s.len() {
            assert(s[i].node.neighbors[k] == t[i].node.neighbors[k]);
            lemma_has_entry_push(s, nv, t[i].node.neighbors[k].id);
        } else {
            assert(t[i] == nv);
        }
    }
    assert forall|i: int, j: int|
        0 <= i < t.len() && 0 <= j < t.len() && #[trigger] has_neighbor(t[i].node, t[j].id)
        implies has_neighbor(t[j].node, t[i].id) by {
        if i < s.len() {
            if j < s.len() {
                assert(has_neighbor(s[i].node, s[j].id));
                assert(has_neighbor(s[j].node, s[i].id));
                let kk = lemma_has_handle_witness(s[j].node.neighbors, s[i].id);
                assert(t[j].node.neighbors[kk].id == t[i].id);
            } else {
                let k = lemma_has_handle_witness(s[i].node.neighbors, nid);
                assert(has_entry(s, s[i].node.neighbors[k].id));
                let m = lemma_has_entry_witness(s, nid);
                assert(s[m].id < g.next_id);
                assert(false);
            }
        } else {
            let k = lemma_has_handle_witness(t[i].node.neighbors, t[j].id);
            assert(false);
        }
    }
}

/// Removing a node preserves well-formedness.
pub proof fn lemma_without_node_wf(g: GraphView, id: u64)
    requires
        wf_view(g),
    ensures
        wf_view(without_node(g, id)),
{
    let s = g.nodes;
    let r = drop_entry(s, id);
    let d = detach_all(r, id);
    lemma_drop_entry_elements(s, id);
    lemma_drop_entry_distinct(s, id);
    lemma_detach_all_pointwise(r, id);
    let h = without_node(g, id);
    assert(h.nodes == d);
    assert forall|i: int, j: int|
        0 <= i < d.len() && 0 <= j < d.len() && i != j
        implies #[trigger] d[i].id != #[trigger] d[j].id by {
        assert(d[i] == detach_node(r[i], id));
        assert(d[j] == detach_node(r[j], id));
        assert(r[i].id != r[j].id);
    }
    assert forall|i: int| 0 <= i < d.len() implies (#[trigger] d[i].id) < h.next_id by {
        assert(d[i] == detach_node(r[i], id));
        let m = choose|m: int| 0 <= m < s.len() && r[i] == s[m];
        assert(s[m].id < g.next_id);
    }
    assert forall|i: int, k: int|
        0 <= i < d.len() && 0 <= k < d[i].node.neighbors.len()
        implies has_entry(d, (#[trigger] d[i].node.neighbors[k]).id)
            && d[i].node.neighbors[k].id != d[i].id by {
        assert(d[i] == detach_node(r[i], id));
        lemma_without_neighbor_elements(r[i].node.neighbors, id);
        let x = d[i].node.neighbors[k].id;
        let m = choose|m: int| 0 <= m < s.len() && r[i] == s[m];
        let kk = lemma_has_handle_witness(s[m].node.neighbors, x);
        assert(has_entry(s, s[m].node.neighbors[kk].id));
        assert(s[m].node.neighbors[kk].id != s[m].id);
        lemma_drop_entry_has(s, id, x);
        let mm = lemma_has_entry_witness(r, x);
        assert(d[mm] == detach_node(r[mm], id));
        assert(d[mm].id == x);
    }
    assert forall|i: int, j: int|
        0 <= i < d.len() && 0 <= j < d.len() && #[trigger] has_neighbor(d[i].node, d[j].id)
        implies has_neighbor(d[j].node, d[i].id) by {
        assert(d[i] == detach_node(r[i], id));
        assert(d[j] == detach_node(r[j], id));
        lemma_without_neighbor_has(r[i].node.neighbors, id, d[j].id);
        let mi = choose|m: int| 0 <= m < s.len() && r[i] == s[m];
        let mj = choose|m: int| 0 <= m < s.len() && r[j] == s[m];
        assert(has_neighbor(s[mi].node, s[mj].id));
        assert(has_neighbor(s[mj].node, s[mi].id));
        lemma_without_neighbor_has(r[j].node.neighbors, id, s[mi].id);
        assert(r[i].id != id);
    }
}

/// Adding an edge between two distinct nodes preserves well-formedness.
pub proof fn lemma_with_edge_wf(g: GraphView, a: u64, b: u64)
    requires
        wf_view(g),
        a != b,
    ensures
        wf_view(with_edge(g, a, b)),
{
    if has_entry(g.nodes, a) && has_entry(g.nodes, b) {
        let s = g.nodes;
        lemma_with_edge_pointwise(g, a, b);
        let h = with_edge(g, a, b);
        let t = h.nodes;
        assert forall|i: int, j: int|
            0 <= i < t.len() && 0 <= j < t.len() && i != j
            implies #[trigger] t[i].id != #[trigger] t[j].id by {
            assert(t[i] == edge_added(s[i], a, b));
            assert(t[j] == edge_added(s[j], a, b));
            assert(s[i].id != s[j].id);
        }
        assert forall|i: int| 0 <= i < t.len() implies (#[trigger] t[i].id) < h.next_id by {
            assert(t[i] == edge_added(s[i], a, b));
            assert(s[i].id < g.next_id);
        }
        assert forall|i: int, k: int|
            0 <= i < t.len() && 0 <= k < t[i].node.neighbors.len()
            implies has_entry(t, (#[trigger] t[i].node.neighbors[k]).id)
                && t[i].node.neighbors[k].id != t[i].id by {
            assert(t[i] == edge_added(s[i], a, b));
            let x = t[i].node.neighbors[k].id;
            let old_nb = s[i].node.neighbors;
            if k < old_nb.len() {
                assert(old_nb[k] == t[i].node.neighbors[k]);
                assert(has_entry(s, old_nb[k].id));
            } else {
                if s[i].id == a {
                    assert(x == b);
                } else {
                    assert(s[i].id == b && x == a);
                }
            }
            let m = lemma_has_entry_witness(s, x);
            assert(t[m] == edge_added(s[m], a, b));
            assert(t[m].id == x);
        }
        assert forall|i: int, j: int|
            0 <= i < t.len() && 0 <= j < t.len() && #[trigger] has_neighbor(t[i].node, t[j].id)
            implies has_neighbor(t[j].node, t[i].id) by {
            assert(t[i] == edge_added(s[i], a, b));
            assert(t[j] == edge_added(s[j], a, b));
            let k = lemma_has_handle_witness(t[i].node.neighbors, t[j].id);
            let old_nb = s[i].node.neighbors;
            let old_nb_j = s[j].node.neighbors;
            if k < old_nb.len() {
                assert(old_nb[k] == t[i].node.neighbors[k]);
                assert(has_neighbor(s[i].node, s[j].id));
                assert(has_neighbor(s[j].node, s[i].id));
                let kk = lemma_has_handle_witness(old_nb_j, s[i].id);
                assert(t[j].node.neighbors[kk].id == t[i].id);
            } else {
                if s[i].id == a {
                    assert(t[j].id == b);
                    assert(s[j].id == b);
                    assert(t[j].node.neighbors[old_nb_j.len() as int].id == a);
                } else {
                    assert(s[i].id == b);
                    assert(t[j].id == a);
                    assert(s[j].id == a);
                    assert(t[j].node.neighbors[old_nb_j.len() as int].id == b);
                }
            }
        }
    }
}

/// Removing an edge preserves well-formedness.
pub proof fn lemma_without_edge_wf(g: GraphView, a: u64, b: u64)
    requires
        wf_view(g),
    ensures
        wf_view(without_edge(g, a, b)),
{
    let s = g.nodes;
    lemma_without_edge_pointwise(g, a, b);
    let h = without_edge(g, a, b);
    let t = h.nodes;
    assert forall|i: int, j: int|
        0 <= i < t.len() && 0 <= j < t.len() && i != j
        implies #[trigger] t[i].id != #[trigger] t[j].id by {
        assert(t[i] == edge_removed(s[i], a, b));
        assert(t[j] == edge_removed(s[j], a, b));
        assert(s[i].id != s[j].id);
    }
    assert forall|i: int| 0 <= i < t.len() implies (#[trigger] t[i].id) < h.next_id by {
        assert(t[i] == edge_removed(s[i], a, b));
        assert(s[i].id < g.next_id);
    }
    assert forall|i: int, k: int|
        0 <= i < t.len() && 0 <= k < t[i].node.neighbors.len()
        implies has_entry(t, (#[trigger] t[i].node.neighbors[k]).id)
            && t[i].node.neighbors[k].id != t[i].id by {
        assert(t[i] == edge_removed(s[i], a, b));
        lemma_without_neighbor_elements(s[i].node.neighbors, b);
        lemma_without_neighbor_elements(s[i].node.neighbors, a);
        let x = t[i].node.neighbors[k].id;
        let kk = lemma_has_handle_witness(s[i].node.neighbors, x);
        assert(has_entry(s, s[i].node.neighbors[kk].id));
        assert(s[i].node.neighbors[kk].id != s[i].id);
        let m = lemma_has_entry_witness(s, x);
        assert(t[m] == edge_removed(s[m], a, b));
        assert(t[m].id == x);
    }
    assert forall|i: int, j: int|
        0 <= i < t.len() && 0 <= j < t.len() && #[trigger] has_neighbor(t[i].node, t[j].id)
        implies has_neighbor(t[j].node, t[i].id) by {
        assert(t[i] == edge_removed(s[i], a, b));
        assert(t[j] == edge_removed(s[j], a, b));
        lemma_without_neighbor_has(s[i].node.neighbors, a, t[j].id);
        lemma_without_neighbor_has(s[i].node.neighbors, b, t[j].id);
        assert(has_neighbor(s[i].node, s[j].id));
        assert(has_neighbor(s[j].node, s[i].id));
        lemma_without_neighbor_has(s[j].node.neighbors, a, s[i].id);
        lemma_without_neighbor_has(s[j].node.neighbors, b, s[i].id);
        if s[j].id == a {
            if s[i].id == b {
                assert(!has_neighbor(t[i].node, t[j].id));
            }
        } else if s[j].id == b {
            if s[i].id == a {
                assert(!has_neighbor(t[i].node, t[j].id));
            }
        }
    }
}

} // verus!
