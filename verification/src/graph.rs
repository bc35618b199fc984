//! The executable graph: an arena of nodes addressed by opaque handles, with
//! verified node and edge operations.
//!
//! The graph owns every node. Adjacency lists store handles, not references,
//! so removing a node cannot leave a dangling pointer: `remove_node` erases
//! the node's slot and every adjacency entry for it in one operation, and a
//! handle kept by a caller across that removal simply stops matching.

use vstd::prelude::*;

use crate::model::{
    detach_all, detach_node, drop_entry, edge_added, edge_removed, entry_for, entry_index,
    has_entry, has_neighbor, lemma_drop_entry_elements, lemma_drop_entry_push,
    lemma_has_entry_witness, lemma_with_edge_pointwise, lemma_with_edge_wf, lemma_with_node_wf,
    lemma_without_edge_pointwise, lemma_without_edge_wf, lemma_without_neighbor_has,
    lemma_without_neighbor_push, lemma_without_node_len, lemma_without_node_wf, wf_view,
    without_edge, without_neighbor, without_node, with_edge, with_node, GraphView, NodeData,
    NodeView,
};
use crate::types::{NodeHandle, TerritoryType};

verus! {

/// One territory node: a display name, a territory classification, and the
/// adjacency list of neighbor handles.
pub struct Node {
    name: String,
    attributes: TerritoryType,
    neighbors: Vec<NodeHandle>,
}

impl View for Node {
    type V = NodeData;

    closed spec fn view(&self) -> NodeData {
        NodeData { name: self.name@, attributes: self.attributes, neighbors: self.neighbors@ }
    }
}

impl Node {
    /// A fresh node with the given name and classification and no neighbors.
    pub fn new(name: String, attributes: TerritoryType) -> (n: Node)
        ensures
            n@ == (NodeData { name: name@, attributes, neighbors: Seq::empty() }),
    {
        let n = Node { name, attributes, neighbors: Vec::new() };
        proof {
            assert(n@ =~~= (NodeData {
                name: n.name@,
                attributes: n.attributes,
                neighbors: Seq::empty(),
            }));
        }
        n
    }
}

/// One arena slot: the node and the identifier its handles carry.
struct Entry {
    id: u64,
    node: Node,
}

impl View for Entry {
    type V = NodeView;

    closed spec fn view(&self) -> NodeView {
        NodeView { id: self.id, node: self.node@ }
    }
}

spec fn entries_view(s: Seq<Entry>) -> Seq<NodeView> {
    s.map_values(|e: Entry| e@)
}

/// Removes every handle carrying `id` from the list, in place.
fn retain_without(v: &mut Vec<NodeHandle>, id: u64)
    ensures
        final(v)@ == without_neighbor(old(v)@, id),
{
    let n = v.len();
    let mut out: Vec<NodeHandle> = Vec::new();
    proof {
        assert(old(v)@.take(0) =~= Seq::<NodeHandle>::empty());
        assert(out@ =~= without_neighbor(old(v)@.take(0), id));
    }
    let mut i: usize = 0;
    while i < n
        invariant
            n == old(v)@.len(),
            i <= n,
            v@ == old(v)@,
            out@ == without_neighbor(old(v)@.take(i as int), id),
        decreases n - i,
    {
        let x = v[i];
        if x.id != id {
            out.push(x);
        }
        proof {
            assert(old(v)@.take(i as int + 1) =~= old(v)@.take(i as int).push(old(v)@[i as int]));
            lemma_without_neighbor_push(old(v)@.take(i as int), old(v)@[i as int], id);
        }
        i += 1;
    }
    proof {
        assert(old(v)@.take(n as int) =~= old(v)@);
    }
    *v = out;
}

/// The undirected territory graph. It holds the authoritative collection of
/// nodes; callers address nodes through `NodeHandle` values it hands out.
pub struct Graph {
    nodes: Vec<Entry>,
    next_id: u64,
}

impl View for Graph {
    type V = GraphView;

    closed spec fn view(&self) -> GraphView {
        GraphView { nodes: entries_view(self.nodes@), next_id: self.next_id as int }
    }
}

impl Graph {
    /// Well-formedness: distinct identifiers below the counter, no dangling
    /// or self adjacency entries, symmetric adjacency. Established by `new`
    /// and preserved by every operation.
    pub open spec fn wf(&self) -> bool {
        wf_view(self@)
    }

    /// An empty graph.
    pub fn new() -> (g: Graph)
        ensures
            g@.nodes == Seq::<NodeView>::empty(),
            g@.next_id == 0,
            g.wf(),
    {
        let g = Graph { nodes: Vec::new(), next_id: 0 };
        proof {
            assert(entries_view(g.nodes@) =~= Seq::<NodeView>::empty());
        }
        g
    }

    /// The index of the slot whose identifier is `id`, if any.
    fn find_index(&self, id: u64) -> (r: Option<usize>)
        ensures
            match r {
                Some(i) => i < self@.nodes.len() && self@.nodes[i as int].id == id,
                None => !has_entry(self@.nodes, id),
            },
    {
        let n = self.nodes.len();
        let mut i: usize = 0;
        while i < n
            invariant
                n == self.nodes@.len(),
                i <= n,
                forall|j: int| 0 <= j < i ==> (#[trigger] entries_view(self.nodes@)[j]).id != id,
            decreases n - i,
        {
            proof {
                assert(entries_view(self.nodes@)[i as int] == self.nodes@[i as int]@);
            }
            if self.nodes[i].id == id {
                return Some(i);
            }
            i += 1;
        }
        proof {
            if has_entry(self@.nodes, id) {
                let k = lemma_has_entry_witness(self@.nodes, id);
            }
        }
        None
    }

    /// Whether `h` refers to a current member of the graph.
    pub fn contains(&self, h: &NodeHandle) -> (r: bool)
        ensures
            r == has_entry(self@.nodes, h.id),
    {
        match self.find_index(h.id) {
            Some(i) => {
                proof {
                    assert(self@.nodes[i as int].id == h.id);
                }
                true
            },
            None => false,
        }
    }

    /// The number of nodes currently in the graph.
    pub fn node_count(&self) -> (n: usize)
        ensures
            n == self@.nodes.len(),
    {
        self.nodes.len()
    }

    /// Inserts `node` into the graph and returns the handle that identifies
    /// it from now on.
    pub fn add_node(&mut self, node: Node) -> (h: NodeHandle)
        requires
            old(self)@.next_id < u64::MAX as int,
        ensures
            final(self)@ == with_node(old(self)@, node@),
            h.id as int == old(self)@.next_id,
            has_entry(final(self)@.nodes, h.id),
            old(self).wf() && node@.neighbors == Seq::<NodeHandle>::empty() ==> final(self).wf(),
    {
        let ghost g0 = self@;
        let ghost nd = node@;
        let id = self.next_id;
        self.next_id = id + 1;
        self.nodes.push(Entry { id, node });
        proof {
            assert(entries_view(self.nodes@) =~~= g0.nodes.push((NodeView { id, node: nd })));
            assert(self@ =~~= with_node(g0, nd));
            assert(self@.nodes[g0.nodes.len() as int].id == id);
            if wf_view(g0) && nd.neighbors =~= Seq::<NodeHandle>::empty() {
                lemma_with_node_wf(g0, nd);
            }
        }
        NodeHandle { id }
    }

    /// Allocates a node with the given classification and name, inserts it,
    /// and returns its handle.
    pub fn create_node(&mut self, attributes: TerritoryType, name: String) -> (h: NodeHandle)
        requires
            old(self)@.next_id < u64::MAX as int,
        ensures
            final(self)@ == with_node(
                old(self)@,
                (NodeData { name: name@, attributes, neighbors: Seq::empty() }),
            ),
            h.id as int == old(self)@.next_id,
            has_entry(final(self)@.nodes, h.id),
            old(self).wf() ==> final(self).wf(),
    {
        let node = Node::new(name, attributes);
        self.add_node(node)
    }

    /// Removes the node `h` refers to, detaching it from every remaining
    /// adjacency list. A handle that matches no current member makes the call
    /// a no-op, so removal is idempotent and stale handles are harmless.
    pub fn remove_node(&mut self, h: &NodeHandle)
        ensures
            final(self)@ == without_node(old(self)@, h.id),
            old(self).wf() ==> final(self).wf(),
            old(self).wf() ==> final(self)@.nodes.len() == (if has_entry(
                old(self)@.nodes,
                h.id,
            ) {
                old(self)@.nodes.len() - 1
            } else {
                old(self)@.nodes.len() as int
            }),
            forall|i: int|
                0 <= i < final(self)@.nodes.len() ==> {
                    &&& (#[trigger] final(self)@.nodes[i]).id != h.id
                    &&& !has_neighbor(final(self)@.nodes[i].node, h.id)
                },
    {
        let ghost g0 = self@;
        let ghost pre = self.nodes@;
        let id = h.id;
        let n = self.nodes.len();
        let mut out: Vec<Entry> = Vec::new();
        proof {
            assert(pre.take(0) =~= Seq::<Entry>::empty());
            assert(entries_view(pre.take(0)) =~= Seq::<NodeView>::empty());
            assert(drop_entry(entries_view(pre.take(0)), id) =~= Seq::<NodeView>::empty());
            assert(entries_view(out@) =~= detach_all(
                drop_entry(entries_view(pre.take(0)), id),
                id,
            ));
        }
        let mut i: usize = 0;
        while i < n
            invariant
                n == pre.len(),
                i <= n,
                self.nodes@ == pre.skip(i as int),
                self.next_id as int == g0.next_id,
                entries_view(out@) == detach_all(drop_entry(entries_view(pre.take(i as int)), id), id),
            decreases n - i,
        {
            let ghost prev_taken = entries_view(pre.take(i as int));
            let mut e = self.nodes.remove(0);
            proof {
                assert(pre.skip(i as int)[0] == pre[i as int]);
                assert(self.nodes@ =~= pre.skip(i as int + 1));
            }
            let ghost e0 = e@;
            if e.id != id {
                retain_without(&mut e.node.neighbors, id);
                proof {
                    assert(e@ =~~= detach_node(e0, id));
                }
                out.push(e);
            }
            proof {
                assert(pre.take(i as int + 1) =~= pre.take(i as int).push(pre[i as int]));
                assert(entries_view(pre.take(i as int + 1)) =~~= prev_taken.push(e0));
                lemma_drop_entry_push(prev_taken, e0, id);
                if e0.id != id {
                    assert(detach_all(drop_entry(prev_taken, id).push(e0), id) =~~= detach_all(
                        drop_entry(prev_taken, id),
                        id,
                    ).push(detach_node(e0, id)));
                    assert(entries_view(out@) =~~= detach_all(
                        drop_entry(entries_view(pre.take(i as int + 1)), id),
                        id,
                    ));
                } else {
                    assert(entries_view(out@) =~~= detach_all(
                        drop_entry(entries_view(pre.take(i as int + 1)), id),
                        id,
                    ));
                }
            }
            i += 1;
        }
        self.nodes = out;
        proof {
            assert(pre.take(n as int) =~= pre);
            assert(g0.nodes == entries_view(pre));
            assert(self@ =~~= without_node(g0, id));
            if wf_view(g0) {
                lemma_without_node_wf(g0, id);
                lemma_without_node_len(g0, id);
            }
            lemma_drop_entry_elements(g0.nodes, id);
            crate::model::lemma_detach_all_pointwise(drop_entry(g0.nodes, id), id);
            assert forall|k: int| 0 <= k < self@.nodes.len() implies {
                &&& (#[trigger] self@.nodes[k]).id != id
                &&& !has_neighbor(self@.nodes[k].node, id)
            } by {
                let r = drop_entry(g0.nodes, id);
                assert(self@.nodes[k] == detach_node(r[k], id));
                lemma_without_neighbor_has(r[k].node.neighbors, id, id);
            }
        }
    }

    /// Adds the undirected edge between the two nodes: each gains one
    /// adjacency entry for the other. A no-op unless both handles refer to
    /// current members. Callers must not pass the same node twice, and a
    /// repeated call leaves a duplicate pair of entries.
    pub fn add_edge(&mut self, h1: &NodeHandle, h2: &NodeHandle)
        requires
            h1.id != h2.id,
        ensures
            final(self)@ == with_edge(old(self)@, h1.id, h2.id),
            old(self).wf() ==> final(self).wf(),
    {
        let ghost g0 = self@;
        let p1 = self.contains(h1);
        let p2 = self.contains(h2);
        if !p1 || !p2 {
            return;
        }
        let a = h1.id;
        let b = h2.id;
        let ghost pre = self.nodes@;
        let n = self.nodes.len();
        let mut out: Vec<Entry> = Vec::new();
        let mut i: usize = 0;
        while i < n
            invariant
                n == pre.len(),
                i <= n,
                self.nodes@ == pre.skip(i as int),
                self.next_id as int == g0.next_id,
                g0.nodes == entries_view(pre),
                a != b,
                out@.len() == i,
                forall|j: int|
                    0 <= j < i ==> #[trigger] entries_view(out@)[j] == edge_added(
                        entries_view(pre)[j],
                        a,
                        b,
                    ),
            decreases n - i,
        {
            let ghost old_out = out@;
            let mut e = self.nodes.remove(0);
            proof {
                assert(pre.skip(i as int)[0] == pre[i as int]);
                assert(self.nodes@ =~= pre.skip(i as int + 1));
            }
            let ghost e0 = e@;
            if e.id == a {
                e.node.neighbors.push(NodeHandle { id: b });
            } else if e.id == b {
                e.node.neighbors.push(NodeHandle { id: a });
            }
            proof {
                assert(e@ =~~= edge_added(e0, a, b));
            }
            out.push(e);
            proof {
                assert(entries_view(pre)[i as int] == pre[i as int]@);
                assert forall|j: int| 0 <= j < i + 1 implies #[trigger] entries_view(out@)[j]
                    == edge_added(entries_view(pre)[j], a, b) by {
                    if j < i {
                        assert(entries_view(out@)[j] == entries_view(old_out)[j]);
                    } else {
                        assert(entries_view(out@)[j] == e@);
                    }
                }
            }
            i += 1;
        }
        self.nodes = out;
        proof {
            assert(has_entry(g0.nodes, a) && has_entry(g0.nodes, b));
            lemma_with_edge_pointwise(g0, a, b);
            assert(self@.nodes =~~= with_edge(g0, a, b).nodes);
            assert(self@ =~~= with_edge(g0, a, b));
            if wf_view(g0) {
                lemma_with_edge_wf(g0, a, b);
            }
        }
    }

    /// Removes every adjacency entry between the two nodes, in both
    /// directions. A no-op when no such edge exists or when a handle matches
    /// no current member.
    pub fn remove_edge(&mut self, h1: &NodeHandle, h2: &NodeHandle)
        ensures
            final(self)@ == without_edge(old(self)@, h1.id, h2.id),
            old(self).wf() ==> final(self).wf(),
    {
        let ghost g0 = self@;
        let a = h1.id;
        let b = h2.id;
        let ghost pre = self.nodes@;
        let n = self.nodes.len();
        let mut out: Vec<Entry> = Vec::new();
        let mut i: usize = 0;
        while i < n
            invariant
                n == pre.len(),
                i <= n,
                self.nodes@ == pre.skip(i as int),
                self.next_id as int == g0.next_id,
                g0.nodes == entries_view(pre),
                out@.len() == i,
                forall|j: int|
                    0 <= j < i ==> #[trigger] entries_view(out@)[j] == edge_removed(
                        entries_view(pre)[j],
                        a,
                        b,
                    ),
            decreases n - i,
        {
            let ghost old_out = out@;
            let mut e = self.nodes.remove(0);
            proof {
                assert(pre.skip(i as int)[0] == pre[i as int]);
                assert(self.nodes@ =~= pre.skip(i as int + 1));
            }
            let ghost e0 = e@;
            if e.id == a {
                retain_without(&mut e.node.neighbors, b);
            } else if e.id == b {
                retain_without(&mut e.node.neighbors, a);
            }
            proof {
                assert(e@ =~~= edge_removed(e0, a, b));
            }
            out.push(e);
            proof {
                assert(entries_view(pre)[i as int] == pre[i as int]@);
                assert forall|j: int| 0 <= j < i + 1 implies #[trigger] entries_view(out@)[j]
                    == edge_removed(entries_view(pre)[j], a, b) by {
                    if j < i {
                        assert(entries_view(out@)[j] == entries_view(old_out)[j]);
                    } else {
                        assert(entries_view(out@)[j] == e@);
                    }
                }
            }
            i += 1;
        }
        self.nodes = out;
        proof {
            lemma_without_edge_pointwise(g0, a, b);
            assert(self@.nodes =~~= without_edge(g0, a, b).nodes);
            assert(self@ =~~= without_edge(g0, a, b));
            if wf_view(g0) {
                lemma_without_edge_wf(g0, a, b);
            }
        }
    }

    /// The handles of all current members, in insertion order.
    pub fn handles(&self) -> (r: Vec<NodeHandle>)
        ensures
            r@.len() == self@.nodes.len(),
            forall|i: int|
                0 <= i < r@.len() ==> #[trigger] r@[i] == (NodeHandle { id: self@.nodes[i].id }),
    {
        let n = self.nodes.len();
        let mut out: Vec<NodeHandle> = Vec::new();
        let mut i: usize = 0;
        while i < n
            invariant
                n == self.nodes@.len(),
                i <= n,
                out@.len() == i,
                forall|j: int|
                    0 <= j < i ==> #[trigger] out@[j] == (NodeHandle {
                        id: entries_view(self.nodes@)[j].id,
                    }),
            decreases n - i,
        {
            let h = NodeHandle { id: self.nodes[i].id };
            out.push(h);
            proof {
                assert(entries_view(self.nodes@)[i as int] == self.nodes@[i as int]@);
            }
            i += 1;
        }
        out
    }

    /// The current neighbors of the node `h` refers to, in adjacency-list
    /// order. Under the graph invariant every entry refers to a live member,
    /// so nothing needs filtering; a stale `h` yields the empty list.
    pub fn neighbors(&self, h: &NodeHandle) -> (r: Vec<NodeHandle>)
        requires
            self.wf(),
        ensures
            has_entry(self@.nodes, h.id) ==> r@ == entry_for(self@.nodes, h.id).node.neighbors,
            !has_entry(self@.nodes, h.id) ==> r@ == Seq::<NodeHandle>::empty(),
    {
        match self.find_index(h.id) {
            Some(i) => {
                let e = &self.nodes[i];
                let m = e.node.neighbors.len();
                let mut out: Vec<NodeHandle> = Vec::new();
                let mut k: usize = 0;
                while k < m
                    invariant
                        m == e.node.neighbors@.len(),
                        k <= m,
                        out@ == e.node.neighbors@.take(k as int),
                    decreases m - k,
                {
                    let x = e.node.neighbors[k];
                    out.push(x);
                    proof {
                        assert(e.node.neighbors@.take(k as int + 1) =~= e.node.neighbors@.take(
                            k as int,
                        ).push(e.node.neighbors@[k as int]));
                    }
                    k += 1;
                }
                proof {
                    assert(e.node.neighbors@.take(m as int) =~= e.node.neighbors@);
                    assert(has_entry(self@.nodes, h.id)) by {
                        assert(self@.nodes[i as int].id == h.id);
                    }
                    let j = entry_index(self@.nodes, h.id);
                    assert(0 <= j < self@.nodes.len() && self@.nodes[j].id == h.id);
                    assert(j == i as int);
                    assert(self@.nodes[i as int] == self.nodes@[i as int]@);
                }
                out
            },
            None => Vec::new(),
        }
    }

    /// The display name of the node `h` refers to, or `None` for a stale
    /// handle.
    pub fn node_name(&self, h: &NodeHandle) -> (r: Option<&String>)
        requires
            self.wf(),
        ensures
            match r {
                Some(name) => has_entry(self@.nodes, h.id) && name@ == entry_for(
                    self@.nodes,
                    h.id,
                ).node.name,
                None => !has_entry(self@.nodes, h.id),
            },
    {
        match self.find_index(h.id) {
            Some(i) => {
                proof {
                    assert(has_entry(self@.nodes, h.id)) by {
                        assert(self@.nodes[i as int].id == h.id);
                    }
                    let j = entry_index(self@.nodes, h.id);
                    assert(0 <= j < self@.nodes.len() && self@.nodes[j].id == h.id);
                    assert(j == i as int);
                    assert(self@.nodes[i as int] == self.nodes@[i as int]@);
                }
                Some(&self.nodes[i].node.name)
            },
            None => None,
        }
    }

    /// The territory classification of the node `h` refers to, or `None` for
    /// a stale handle.
    pub fn classification(&self, h: &NodeHandle) -> (r: Option<&TerritoryType>)
        requires
            self.wf(),
        ensures
            match r {
                Some(t) => has_entry(self@.nodes, h.id) && *t == entry_for(
                    self@.nodes,
                    h.id,
                ).node.attributes,
                None => !has_entry(self@.nodes, h.id),
            },
    {
        match self.find_index(h.id) {
            Some(i) => {
                proof {
                    assert(has_entry(self@.nodes, h.id)) by {
                        assert(self@.nodes[i as int].id == h.id);
                    }
                    let j = entry_index(self@.nodes, h.id);
                    assert(0 <= j < self@.nodes.len() && self@.nodes[j].id == h.id);
                    assert(j == i as int);
                    assert(self@.nodes[i as int] == self.nodes@[i as int]@);
                }
                Some(&self.nodes[i].node.attributes)
            },
            None => None,
        }
    }
}

} // verus!
