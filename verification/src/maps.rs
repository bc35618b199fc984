//! Sample map construction: the example boards the test suite exercises.

use vstd::prelude::*;

use crate::graph::{Graph, Node};
use crate::model::{edge_added, has_entry, lemma_with_edge_pointwise};
use crate::types::{
    is_core_supply, is_normal_land, is_sea, LandType, NodeHandle, SupplyType, TerritoryType,
};

verus! {

/// The three-node Turkey map: Constantinople, Smyrna and Ankara, each a
/// Turkish home supply center, fully interconnected as a triangle.
pub fn gen_test_turkey() -> (g: Graph)
    ensures
        g.wf(),
        g@.nodes.len() == 3,
        g@.next_id == 3,
        g@.nodes[0].id == 0,
        g@.nodes[1].id == 1,
        g@.nodes[2].id == 2,
        g@.nodes[0].node.name == "Constantinople"@,
        g@.nodes[1].node.name == "Smyrna"@,
        g@.nodes[2].node.name == "Ankara"@,
        is_core_supply(g@.nodes[0].node.attributes, "Turkey"@),
        is_core_supply(g@.nodes[1].node.attributes, "Turkey"@),
        is_core_supply(g@.nodes[2].node.attributes, "Turkey"@),
        g@.nodes[0].node.neighbors == seq![(NodeHandle { id: 2 }), (NodeHandle { id: 1 })],
        g@.nodes[1].node.neighbors == seq![(NodeHandle { id: 0 }), (NodeHandle { id: 2 })],
        g@.nodes[2].node.neighbors == seq![(NodeHandle { id: 0 }), (NodeHandle { id: 1 })],
{
    let mut g = Graph::new();

    let con = Node::new(
        "Constantinople".to_string(),
        TerritoryType::Land(LandType::SupplyCenter(SupplyType::Core("Turkey".to_string()))),
    );
    proof {
        assert(is_core_supply(con@.attributes, "Turkey"@));
    }
    let smy = Node::new(
        "Smyrna".to_string(),
        TerritoryType::Land(LandType::SupplyCenter(SupplyType::Core("Turkey".to_string()))),
    );
    proof {
        assert(is_core_supply(smy@.attributes, "Turkey"@));
    }
    let ank = Node::new(
        "Ankara".to_string(),
        TerritoryType::Land(LandType::SupplyCenter(SupplyType::Core("Turkey".to_string()))),
    );
    proof {
        assert(is_core_supply(ank@.attributes, "Turkey"@));
    }

    let con = g.add_node(con);
    let smy = g.add_node(smy);
    let ank = g.add_node(ank);
    proof {
        assert(g@.nodes.len() == 3);
        assert(g@.nodes[0].id == 0);
        assert(g@.nodes[0].node.name == "Constantinople"@);
        assert(g@.nodes[0].node.neighbors =~= Seq::<NodeHandle>::empty());
        assert(g@.nodes[1].id == 1);
        assert(g@.nodes[1].node.name == "Smyrna"@);
        assert(g@.nodes[1].node.neighbors =~= Seq::<NodeHandle>::empty());
        assert(g@.nodes[2].id == 2);
        assert(g@.nodes[2].node.name == "Ankara"@);
        assert(g@.nodes[2].node.neighbors =~= Seq::<NodeHandle>::empty());
    }

    let ghost s0 = g@;
    proof {
        assert(s0.nodes[0].id == 0);
        assert(s0.nodes[2].id == 2);
        assert(has_entry(s0.nodes, 0));
        assert(has_entry(s0.nodes, 2));
    }
    g.add_edge(&con, &ank);
    proof {
        lemma_with_edge_pointwise(s0, 0, 2);
        assert(g@.nodes[0] == edge_added(s0.nodes[0], 0, 2));
        assert(g@.nodes[1] == edge_added(s0.nodes[1], 0, 2));
        assert(g@.nodes[2] == edge_added(s0.nodes[2], 0, 2));
        assert(g@.nodes[0].node.neighbors =~= seq![(NodeHandle { id: 2 })]);
        assert(g@.nodes[1].node.neighbors =~= Seq::<NodeHandle>::empty());
        assert(g@.nodes[2].node.neighbors =~= seq![(NodeHandle { id: 0 })]);
    }

    let ghost s1 = g@;
    proof {
        assert(s1.nodes[0].id == 0);
        assert(s1.nodes[1].id == 1);
        assert(has_entry(s1.nodes, 0));
        assert(has_entry(s1.nodes, 1));
    }
    g.add_edge(&con, &smy);
    proof {
        lemma_with_edge_pointwise(s1, 0, 1);
        assert(g@.nodes[0] == edge_added(s1.nodes[0], 0, 1));
        assert(g@.nodes[1] == edge_added(s1.nodes[1], 0, 1));
        assert(g@.nodes[2] == edge_added(s1.nodes[2], 0, 1));
        assert(g@.nodes[0].node.neighbors =~= seq![(NodeHandle { id: 2 }), (NodeHandle { id: 1 })]);
        assert(g@.nodes[1].node.neighbors =~= seq![(NodeHandle { id: 0 })]);
        assert(g@.nodes[2].node.neighbors =~= seq![(NodeHandle { id: 0 })]);
    }

    let ghost s2 = g@;
    proof {
        assert(s2.nodes[2].id == 2);
        assert(s2.nodes[1].id == 1);
        assert(has_entry(s2.nodes, 2));
        assert(has_entry(s2.nodes, 1));
    }
    g.add_edge(&ank, &smy);
    proof {
        lemma_with_edge_pointwise(s2, 2, 1);
        assert(g@.nodes[0] == edge_added(s2.nodes[0], 2, 1));
        assert(g@.nodes[1] == edge_added(s2.nodes[1], 2, 1));
        assert(g@.nodes[2] == edge_added(s2.nodes[2], 2, 1));
        assert(g@.nodes[0].node.neighbors =~= seq![(NodeHandle { id: 2 }), (NodeHandle { id: 1 })]);
        assert(g@.nodes[1].node.neighbors =~= seq![(NodeHandle { id: 0 }), (NodeHandle { id: 2 })]);
        assert(g@.nodes[2].node.neighbors =~= seq![(NodeHandle { id: 0 }), (NodeHandle { id: 1 })]);
    }
    g
}

/// One stage of wiring the regional map's adjacencies.
fn region_edges_1(g: &mut Graph)
    requires
        old(g).wf(),
        old(g)@.nodes.len() == 8,
        old(g)@.next_id == 8,
        old(g)@.nodes[0].id == 0,
        old(g)@.nodes[1].id == 1,
        old(g)@.nodes[2].id == 2,
        old(g)@.nodes[3].id == 3,
        old(g)@.nodes[4].id == 4,
        old(g)@.nodes[5].id == 5,
        old(g)@.nodes[6].id == 6,
        old(g)@.nodes[7].id == 7,
        old(g)@.nodes[0].node.neighbors == Seq::<NodeHandle>::empty(),
        old(g)@.nodes[1].node.neighbors == Seq::<NodeHandle>::empty(),
        old(g)@.nodes[2].node.neighbors == Seq::<NodeHandle>::empty(),
        old(g)@.nodes[3].node.neighbors == Seq::<NodeHandle>::empty(),
        old(g)@.nodes[4].node.neighbors == Seq::<NodeHandle>::empty(),
        old(g)@.nodes[5].node.neighbors == Seq::<NodeHandle>::empty(),
        old(g)@.nodes[6].node.neighbors == Seq::<NodeHandle>::empty(),
        old(g)@.nodes[7].node.neighbors == Seq::<NodeHandle>::empty(),
    ensures
        final(g).wf(),
        final(g)@.nodes.len() == 8,
        final(g)@.next_id == 8,
        final(g)@.nodes[0].id == 0,
        final(g)@.nodes[1].id == 1,
        final(g)@.nodes[2].id == 2,
        final(g)@.nodes[3].id == 3,
        final(g)@.nodes[4].id == 4,
        final(g)@.nodes[5].id == 5,
        final(g)@.nodes[6].id == 6,
        final(g)@.nodes[7].id == 7,
        forall|i: int| 0 <= i < 8 ==> (#[trigger] final(g)@.nodes[i]).node.name == old(g)@.nodes[i].node.name,
        forall|i: int| 0 <= i < 8 ==> (#[trigger] final(g)@.nodes[i]).node.attributes == old(g)@.nodes[i].node.attributes,
        final(g)@.nodes[0].node.neighbors == seq![(NodeHandle { id: 2 }), (NodeHandle { id: 1 }), (NodeHandle { id: 4 })],
        final(g)@.nodes[1].node.neighbors == seq![(NodeHandle { id: 0 })],
        final(g)@.nodes[2].node.neighbors == seq![(NodeHandle { id: 0 })],
        final(g)@.nodes[3].node.neighbors == Seq::<NodeHandle>::empty(),
        final(g)@.nodes[4].node.neighbors == seq![(NodeHandle { id: 0 })],
        final(g)@.nodes[5].node.neighbors == Seq::<NodeHandle>::empty(),
        final(g)@.nodes[6].node.neighbors == Seq::<NodeHandle>::empty(),
        final(g)@.nodes[7].node.neighbors == Seq::<NodeHandle>::empty(),
{
    let ghost s0 = g@;
    proof {
        assert(s0.nodes[0].id == 0);
        assert(s0.nodes[2].id == 2);
        assert(has_entry(s0.nodes, 0));
        assert(has_entry(s0.nodes, 2));
    }
    g.add_edge(&(NodeHandle { id: 0 }), &(NodeHandle { id: 2 }));
    proof {
        lemma_with_edge_pointwise(s0, 0, 2);
        assert(g@.nodes[0] == edge_added(s0.nodes[0], 0, 2));
        assert(g@.nodes[1] == edge_added(s0.nodes[1], 0, 2));
        assert(g@.nodes[2] == edge_added(s0.nodes[2], 0, 2));
        assert(g@.nodes[3] == edge_added(s0.nodes[3], 0, 2));
        assert(g@.nodes[4] == edge_added(s0.nodes[4], 0, 2));
        assert(g@.nodes[5] == edge_added(s0.nodes[5], 0, 2));
        assert(g@.nodes[6] == edge_added(s0.nodes[6], 0, 2));
        assert(g@.nodes[7] == edge_added(s0.nodes[7], 0, 2));
        assert(g@.nodes[0].node.neighbors =~= seq![(NodeHandle { id: 2 })]);
        assert(g@.nodes[1].node.neighbors =~= Seq::<NodeHandle>::empty());
        assert(g@.nodes[2].node.neighbors =~= seq![(NodeHandle { id: 0 })]);
        assert(g@.nodes[3].node.neighbors =~= Seq::<NodeHandle>::empty());
        assert(g@.nodes[4].node.neighbors =~= Seq::<NodeHandle>::empty());
        assert(g@.nodes[5].node.neighbors =~= Seq::<NodeHandle>::empty());
        assert(g@.nodes[6].node.neighbors =~= Seq::<NodeHandle>::empty());
        assert(g@.nodes[7].node.neighbors =~= Seq::<NodeHandle>::empty());
    }

    let ghost s1 = g@;
    proof {
        assert(s1.nodes[0].id == 0);
        assert(s1.nodes[1].id == 1);
        assert(has_entry(s1.nodes, 0));
        assert(has_entry(s1.nodes, 1));
    }
    g.add_edge(&(NodeHandle { id: 0 }), &(NodeHandle { id: 1 }));
    proof {
        lemma_with_edge_pointwise(s1, 0, 1);
        assert(g@.nodes[0] == edge_added(s1.nodes[0], 0, 1));
        assert(g@.nodes[1] == edge_added(s1.nodes[1], 0, 1));
        assert(g@.nodes[2] == edge_added(s1.nodes[2], 0, 1));
        assert(g@.nodes[3] == edge_added(s1.nodes[3], 0, 1));
        assert(g@.nodes[4] == edge_added(s1.nodes[4], 0, 1));
        assert(g@.nodes[5] == edge_added(s1.nodes[5], 0, 1));
        assert(g@.nodes[6] == edge_added(s1.nodes[6], 0, 1));
        assert(g@.nodes[7] == edge_added(s1.nodes[7], 0, 1));
        assert(g@.nodes[0].node.neighbors =~= seq![(NodeHandle { id: 2 }), (NodeHandle { id: 1 })]);
        assert(g@.nodes[1].node.neighbors =~= seq![(NodeHandle { id: 0 })]);
        assert(g@.nodes[2].node.neighbors =~= seq![(NodeHandle { id: 0 })]);
        assert(g@.nodes[3].node.neighbors =~= Seq::<NodeHandle>::empty());
        assert(g@.nodes[4].node.neighbors =~= Seq::<NodeHandle>::empty());
        assert(g@.nodes[5].node.neighbors =~= Seq::<NodeHandle>::empty());
        assert(g@.nodes[6].node.neighbors =~= Seq::<NodeHandle>::empty());
        assert(g@.nodes[7].node.neighbors =~= Seq::<NodeHandle>::empty());
    }

    let ghost s2 = g@;
    proof {
        assert(s2.nodes[0].id == 0);
        assert(s2.nodes[4].id == 4);
        assert(has_entry(s2.nodes, 0));
        assert(has_entry(s2.nodes, 4));
    }
    g.add_edge(&(NodeHandle { id: 0 }), &(NodeHandle { id: 4 }));
    proof {
        lemma_with_edge_pointwise(s2, 0, 4);
        assert(g@.nodes[0] == edge_added(s2.nodes[0], 0, 4));
        assert(g@.nodes[1] == edge_added(s2.nodes[1], 0, 4));
        assert(g@.nodes[2] == edge_added(s2.nodes[2], 0, 4));
        assert(g@.nodes[3] == edge_added(s2.nodes[3], 0, 4));
        assert(g@.nodes[4] == edge_added(s2.nodes[4], 0, 4));
        assert(g@.nodes[5] == edge_added(s2.nodes[5], 0, 4));
        assert(g@.nodes[6] == edge_added(s2.nodes[6], 0, 4));
        assert(g@.nodes[7] == edge_added(s2.nodes[7], 0, 4));
        assert(g@.nodes[0].node.neighbors =~= seq![(NodeHandle { id: 2 }), (NodeHandle { id: 1 }), (NodeHandle { id: 4 })]);
        assert(g@.nodes[1].node.neighbors =~= seq![(NodeHandle { id: 0 })]);
        assert(g@.nodes[2].node.neighbors =~= seq![(NodeHandle { id: 0 })]);
        assert(g@.nodes[3].node.neighbors =~= Seq::<NodeHandle>::empty());
        assert(g@.nodes[4].node.neighbors =~= seq![(NodeHandle { id: 0 })]);
        assert(g@.nodes[5].node.neighbors =~= Seq::<NodeHandle>::empty());
        assert(g@.nodes[6].node.neighbors =~= Seq::<NodeHandle>::empty());
        assert(g@.nodes[7].node.neighbors =~= Seq::<NodeHandle>::empty());
    }
}

/// One stage of wiring the regional map's adjacencies.
fn region_edges_2(g: &mut Graph)
    requires
        old(g).wf(),
        old(g)@.nodes.len() == 8,
        old(g)@.next_id == 8,
        old(g)@.nodes[0].id == 0,
        old(g)@.nodes[1].id == 1,
        old(g)@.nodes[2].id == 2,
        old(g)@.nodes[3].id == 3,
        old(g)@.nodes[4].id == 4,
        old(g)@.nodes[5].id == 5,
        old(g)@.nodes[6].id == 6,
        old(g)@.nodes[7].id == 7,
        old(g)@.nodes[0].node.neighbors == seq![(NodeHandle { id: 2 }), (NodeHandle { id: 1 }), (NodeHandle { id: 4 })],
        old(g)@.nodes[1].node.neighbors == seq![(NodeHandle { id: 0 })],
        old(g)@.nodes[2].node.neighbors == seq![(NodeHandle { id: 0 })],
        old(g)@.nodes[3].node.neighbors == Seq::<NodeHandle>::empty(),
        old(g)@.nodes[4].node.neighbors == seq![(NodeHandle { id: 0 })],
        old(g)@.nodes[5].node.neighbors == Seq::<NodeHandle>::empty(),
        old(g)@.nodes[6].node.neighbors == Seq::<NodeHandle>::empty(),
        old(g)@.nodes[7].node.neighbors == Seq::<NodeHandle>::empty(),
    ensures
        final(g).wf(),
        final(g)@.nodes.len() == 8,
        final(g)@.next_id == 8,
        final(g)@.nodes[0].id == 0,
        final(g)@.nodes[1].id == 1,
        final(g)@.nodes[2].id == 2,
        final(g)@.nodes[3].id == 3,
        final(g)@.nodes[4].id == 4,
        final(g)@.nodes[5].id == 5,
        final(g)@.nodes[6].id == 6,
        final(g)@.nodes[7].id == 7,
        forall|i: int| 0 <= i < 8 ==> (#[trigger] final(g)@.nodes[i]).node.name == old(g)@.nodes[i].node.name,
        forall|i: int| 0 <= i < 8 ==> (#[trigger] final(g)@.nodes[i]).node.attributes == old(g)@.nodes[i].node.attributes,
        final(g)@.nodes[0].node.neighbors == seq![(NodeHandle { id: 2 }), (NodeHandle { id: 1 }), (NodeHandle { id: 4 })],
        final(g)@.nodes[1].node.neighbors == seq![(NodeHandle { id: 0 }), (NodeHandle { id: 2 })],
        final(g)@.nodes[2].node.neighbors == seq![(NodeHandle { id: 0 }), (NodeHandle { id: 4 }), (NodeHandle { id: 1 }), (NodeHandle { id: 6 })],
        final(g)@.nodes[3].node.neighbors == Seq::<NodeHandle>::empty(),
        final(g)@.nodes[4].node.neighbors == seq![(NodeHandle { id: 0 }), (NodeHandle { id: 2 })],
        final(g)@.nodes[5].node.neighbors == Seq::<NodeHandle>::empty(),
        final(g)@.nodes[6].node.neighbors == seq![(NodeHandle { id: 2 })],
        final(g)@.nodes[7].node.neighbors == Seq::<NodeHandle>::empty(),
{
    let ghost s0 = g@;
    proof {
        assert(s0.nodes[2].id == 2);
        assert(s0.nodes[4].id == 4);
        assert(has_entry(s0.nodes, 2));
        assert(has_entry(s0.nodes, 4));
    }
    g.add_edge(&(NodeHandle { id: 2 }), &(NodeHandle { id: 4 }));
    proof {
        lemma_with_edge_pointwise(s0, 2, 4);
        assert(g@.nodes[0] == edge_added(s0.nodes[0], 2, 4));
        assert(g@.nodes[1] == edge_added(s0.nodes[1], 2, 4));
        assert(g@.nodes[2] == edge_added(s0.nodes[2], 2, 4));
        assert(g@.nodes[3] == edge_added(s0.nodes[3], 2, 4));
        assert(g@.nodes[4] == edge_added(s0.nodes[4], 2, 4));
        assert(g@.nodes[5] == edge_added(s0.nodes[5], 2, 4));
        assert(g@.nodes[6] == edge_added(s0.nodes[6], 2, 4));
        assert(g@.nodes[7] == edge_added(s0.nodes[7], 2, 4));
        assert(g@.nodes[0].node.neighbors =~= seq![(NodeHandle { id: 2 }), (NodeHandle { id: 1 }), (NodeHandle { id: 4 })]);
        assert(g@.nodes[1].node.neighbors =~= seq![(NodeHandle { id: 0 })]);
        assert(g@.nodes[2].node.neighbors =~= seq![(NodeHandle { id: 0 }), (NodeHandle { id: 4 })]);
        assert(g@.nodes[3].node.neighbors =~= Seq::<NodeHandle>::empty());
        assert(g@.nodes[4].node.neighbors =~= seq![(NodeHandle { id: 0 }), (NodeHandle { id: 2 })]);
        assert(g@.nodes[5].node.neighbors =~= Seq::<NodeHandle>::empty());
        assert(g@.nodes[6].node.neighbors =~= Seq::<NodeHandle>::empty());
        assert(g@.nodes[7].node.neighbors =~= Seq::<NodeHandle>::empty());
    }

    let ghost s1 = g@;
    proof {
        assert(s1.nodes[2].id == 2);
        assert(s1.nodes[1].id == 1);
        assert(has_entry(s1.nodes, 2));
        assert(has_entry(s1.nodes, 1));
    }
    g.add_edge(&(NodeHandle { id: 2 }), &(NodeHandle { id: 1 }));
    proof {
        lemma_with_edge_pointwise(s1, 2, 1);
        assert(g@.nodes[0] == edge_added(s1.nodes[0], 2, 1));
        assert(g@.nodes[1] == edge_added(s1.nodes[1], 2, 1));
        assert(g@.nodes[2] == edge_added(s1.nodes[2], 2, 1));
        assert(g@.nodes[3] == edge_added(s1.nodes[3], 2, 1));
        assert(g@.nodes[4] == edge_added(s1.nodes[4], 2, 1));
        assert(g@.nodes[5] == edge_added(s1.nodes[5], 2, 1));
        assert(g@.nodes[6] == edge_added(s1.nodes[6], 2, 1));
        assert(g@.nodes[7] == edge_added(s1.nodes[7], 2, 1));
        assert(g@.nodes[0].node.neighbors =~= seq![(NodeHandle { id: 2 }), (NodeHandle { id: 1 }), (NodeHandle { id: 4 })]);
        assert(g@.nodes[1].node.neighbors =~= seq![(NodeHandle { id: 0 }), (NodeHandle { id: 2 })]);
        assert(g@.nodes[2].node.neighbors =~= seq![(NodeHandle { id: 0 }), (NodeHandle { id: 4 }), (NodeHandle { id: 1 })]);
        assert(g@.nodes[3].node.neighbors =~= Seq::<NodeHandle>::empty());
        assert(g@.nodes[4].node.neighbors =~= seq![(NodeHandle { id: 0 }), (NodeHandle { id: 2 })]);
        assert(g@.nodes[5].node.neighbors =~= Seq::<NodeHandle>::empty());
        assert(g@.nodes[6].node.neighbors =~= Seq::<NodeHandle>::empty());
        assert(g@.nodes[7].node.neighbors =~= Seq::<NodeHandle>::empty());
    }

    let ghost s2 = g@;
    proof {
        assert(s2.nodes[2].id == 2);
        assert(s2.nodes[6].id == 6);
        assert(has_entry(s2.nodes, 2));
        assert(has_entry(s2.nodes, 6));
    }
    g.add_edge(&(NodeHandle { id: 2 }), &(NodeHandle { id: 6 }));
    proof {
        lemma_with_edge_pointwise(s2, 2, 6);
        assert(g@.nodes[0] == edge_added(s2.nodes[0], 2, 6));
        assert(g@.nodes[1] == edge_added(s2.nodes[1], 2, 6));
        assert(g@.nodes[2] == edge_added(s2.nodes[2], 2, 6));
        assert(g@.nodes[3] == edge_added(s2.nodes[3], 2, 6));
        assert(g@.nodes[4] == edge_added(s2.nodes[4], 2, 6));
        assert(g@.nodes[5] == edge_added(s2.nodes[5], 2, 6));
        assert(g@.nodes[6] == edge_added(s2.nodes[6], 2, 6));
        assert(g@.nodes[7] == edge_added(s2.nodes[7], 2, 6));
        assert(g@.nodes[0].node.neighbors =~= seq![(NodeHandle { id: 2 }), (NodeHandle { id: 1 }), (NodeHandle { id: 4 })]);
        assert(g@.nodes[1].node.neighbors =~= seq![(NodeHandle { id: 0 }), (NodeHandle { id: 2 })]);
        assert(g@.nodes[2].node.neighbors =~= seq![(NodeHandle { id: 0 }), (NodeHandle { id: 4 }), (NodeHandle { id: 1 }), (NodeHandle { id: 6 })]);
        assert(g@.nodes[3].node.neighbors =~= Seq::<NodeHandle>::empty());
        assert(g@.nodes[4].node.neighbors =~= seq![(NodeHandle { id: 0 }), (NodeHandle { id: 2 })]);
        assert(g@.nodes[5].node.neighbors =~= Seq::<NodeHandle>::empty());
        assert(g@.nodes[6].node.neighbors =~= seq![(NodeHandle { id: 2 })]);
        assert(g@.nodes[7].node.neighbors =~= Seq::<NodeHandle>::empty());
    }
}

/// One stage of wiring the regional map's adjacencies.
fn region_edges_3(g: &mut Graph)
    requires
        old(g).wf(),
        old(g)@.nodes.len() == 8,
        old(g)@.next_id == 8,
        old(g)@.nodes[0].id == 0,
        old(g)@.nodes[1].id == 1,
        old(g)@.nodes[2].id == 2,
        old(g)@.nodes[3].id == 3,
        old(g)@.nodes[4].id == 4,
        old(g)@.nodes[5].id == 5,
        old(g)@.nodes[6].id == 6,
        old(g)@.nodes[7].id == 7,
        old(g)@.nodes[0].node.neighbors == seq![(NodeHandle { id: 2 }), (NodeHandle { id: 1 }), (NodeHandle { id: 4 })],
        old(g)@.nodes[1].node.neighbors == seq![(NodeHandle { id: 0 }), (NodeHandle { id: 2 })],
        old(g)@.nodes[2].node.neighbors == seq![(NodeHandle { id: 0 }), (NodeHandle { id: 4 }), (NodeHandle { id: 1 }), (NodeHandle { id: 6 })],
        old(g)@.nodes[3].node.neighbors == Seq::<NodeHandle>::empty(),
        old(g)@.nodes[4].node.neighbors == seq![(NodeHandle { id: 0 }), (NodeHandle { id: 2 })],
        old(g)@.nodes[5].node.neighbors == Seq::<NodeHandle>::empty(),
        old(g)@.nodes[6].node.neighbors == seq![(NodeHandle { id: 2 })],
        old(g)@.nodes[7].node.neighbors == Seq::<NodeHandle>::empty(),
    ensures
        final(g).wf(),
        final(g)@.nodes.len() == 8,
        final(g)@.next_id == 8,
        final(g)@.nodes[0].id == 0,
        final(g)@.nodes[1].id == 1,
        final(g)@.nodes[2].id == 2,
        final(g)@.nodes[3].id == 3,
        final(g)@.nodes[4].id == 4,
        final(g)@.nodes[5].id == 5,
        final(g)@.nodes[6].id == 6,
        final(g)@.nodes[7].id == 7,
        forall|i: int| 0 <= i < 8 ==> (#[trigger] final(g)@.nodes[i]).node.name == old(g)@.nodes[i].node.name,
        forall|i: int| 0 <= i < 8 ==> (#[trigger] final(g)@.nodes[i]).node.attributes == old(g)@.nodes[i].node.attributes,
        final(g)@.nodes[0].node.neighbors == seq![(NodeHandle { id: 2 }), (NodeHandle { id: 1 }), (NodeHandle { id: 4 })],
        final(g)@.nodes[1].node.neighbors == seq![(NodeHandle { id: 0 }), (NodeHandle { id: 2 }), (NodeHandle { id: 5 }), (NodeHandle { id: 6 }), (NodeHandle { id: 7 })],
        final(g)@.nodes[2].node.neighbors == seq![(NodeHandle { id: 0 }), (NodeHandle { id: 4 }), (NodeHandle { id: 1 }), (NodeHandle { id: 6 })],
        final(g)@.nodes[3].node.neighbors == Seq::<NodeHandle>::empty(),
        final(g)@.nodes[4].node.neighbors == seq![(NodeHandle { id: 0 }), (NodeHandle { id: 2 })],
        final(g)@.nodes[5].node.neighbors == seq![(NodeHandle { id: 1 })],
        final(g)@.nodes[6].node.neighbors == seq![(NodeHandle { id: 2 }), (NodeHandle { id: 1 })],
        final(g)@.nodes[7].node.neighbors == seq![(NodeHandle { id: 1 })],
{
    let ghost s0 = g@;
    proof {
        assert(s0.nodes[1].id == 1);
        assert(s0.nodes[5].id == 5);
        assert(has_entry(s0.nodes, 1));
        assert(has_entry(s0.nodes, 5));
    }
    g.add_edge(&(NodeHandle { id: 1 }), &(NodeHandle { id: 5 }));
    proof {
        lemma_with_edge_pointwise(s0, 1, 5);
        assert(g@.nodes[0] == edge_added(s0.nodes[0], 1, 5));
        assert(g@.nodes[1] == edge_added(s0.nodes[1], 1, 5));
        assert(g@.nodes[2] == edge_added(s0.nodes[2], 1, 5));
        assert(g@.nodes[3] == edge_added(s0.nodes[3], 1, 5));
        assert(g@.nodes[4] == edge_added(s0.nodes[4], 1, 5));
        assert(g@.nodes[5] == edge_added(s0.nodes[5], 1, 5));
        assert(g@.nodes[6] == edge_added(s0.nodes[6], 1, 5));
        assert(g@.nodes[7] == edge_added(s0.nodes[7], 1, 5));
        assert(g@.nodes[0].node.neighbors =~= seq![(NodeHandle { id: 2 }), (NodeHandle { id: 1 }), (NodeHandle { id: 4 })]);
        assert(g@.nodes[1].node.neighbors =~= seq![(NodeHandle { id: 0 }), (NodeHandle { id: 2 }), (NodeHandle { id: 5 })]);
        assert(g@.nodes[2].node.neighbors =~= seq![(NodeHandle { id: 0 }), (NodeHandle { id: 4 }), (NodeHandle { id: 1 }), (NodeHandle { id: 6 })]);
        assert(g@.nodes[3].node.neighbors =~= Seq::<NodeHandle>::empty());
        assert(g@.nodes[4].node.neighbors =~= seq![(NodeHandle { id: 0 }), (NodeHandle { id: 2 })]);
        assert(g@.nodes[5].node.neighbors =~= seq![(NodeHandle { id: 1 })]);
        assert(g@.nodes[6].node.neighbors =~= seq![(NodeHandle { id: 2 })]);
        assert(g@.nodes[7].node.neighbors =~= Seq::<NodeHandle>::empty());
    }

    let ghost s1 = g@;
    proof {
        assert(s1.nodes[1].id == 1);
        assert(s1.nodes[6].id == 6);
        assert(has_entry(s1.nodes, 1));
        assert(has_entry(s1.nodes, 6));
    }
    g.add_edge(&(NodeHandle { id: 1 }), &(NodeHandle { id: 6 }));
    proof {
        lemma_with_edge_pointwise(s1, 1, 6);
        assert(g@.nodes[0] == edge_added(s1.nodes[0], 1, 6));
        assert(g@.nodes[1] == edge_added(s1.nodes[1], 1, 6));
        assert(g@.nodes[2] == edge_added(s1.nodes[2], 1, 6));
        assert(g@.nodes[3] == edge_added(s1.nodes[3], 1, 6));
        assert(g@.nodes[4] == edge_added(s1.nodes[4], 1, 6));
        assert(g@.nodes[5] == edge_added(s1.nodes[5], 1, 6));
        assert(g@.nodes[6] == edge_added(s1.nodes[6], 1, 6));
        assert(g@.nodes[7] == edge_added(s1.nodes[7], 1, 6));
        assert(g@.nodes[0].node.neighbors =~= seq![(NodeHandle { id: 2 }), (NodeHandle { id: 1 }), (NodeHandle { id: 4 })]);
        assert(g@.nodes[1].node.neighbors =~= seq![(NodeHandle { id: 0 }), (NodeHandle { id: 2 }), (NodeHandle { id: 5 }), (NodeHandle { id: 6 })]);
        assert(g@.nodes[2].node.neighbors =~= seq![(NodeHandle { id: 0 }), (NodeHandle { id: 4 }), (NodeHandle { id: 1 }), (NodeHandle { id: 6 })]);
        assert(g@.nodes[3].node.neighbors =~= Seq::<NodeHandle>::empty());
        assert(g@.nodes[4].node.neighbors =~= seq![(NodeHandle { id: 0 }), (NodeHandle { id: 2 })]);
        assert(g@.nodes[5].node.neighbors =~= seq![(NodeHandle { id: 1 })]);
        assert(g@.nodes[6].node.neighbors =~= seq![(NodeHandle { id: 2 }), (NodeHandle { id: 1 })]);
        assert(g@.nodes[7].node.neighbors =~= Seq::<NodeHandle>::empty());
    }

    let ghost s2 = g@;
    proof {
        assert(s2.nodes[1].id == 1);
        assert(s2.nodes[7].id == 7);
        assert(has_entry(s2.nodes, 1));
        assert(has_entry(s2.nodes, 7));
    }
    g.add_edge(&(NodeHandle { id: 1 }), &(NodeHandle { id: 7 }));
    proof {
        lemma_with_edge_pointwise(s2, 1, 7);
        assert(g@.nodes[0] == edge_added(s2.nodes[0], 1, 7));
        assert(g@.nodes[1] == edge_added(s2.nodes[1], 1, 7));
        assert(g@.nodes[2] == edge_added(s2.nodes[2], 1, 7));
        assert(g@.nodes[3] == edge_added(s2.nodes[3], 1, 7));
        assert(g@.nodes[4] == edge_added(s2.nodes[4], 1, 7));
        assert(g@.nodes[5] == edge_added(s2.nodes[5], 1, 7));
        assert(g@.nodes[6] == edge_added(s2.nodes[6], 1, 7));
        assert(g@.nodes[7] == edge_added(s2.nodes[7], 1, 7));
        assert(g@.nodes[0].node.neighbors =~= seq![(NodeHandle { id: 2 }), (NodeHandle { id: 1 }), (NodeHandle { id: 4 })]);
        assert(g@.nodes[1].node.neighbors =~= seq![(NodeHandle { id: 0 }), (NodeHandle { id: 2 }), (NodeHandle { id: 5 }), (NodeHandle { id: 6 }), (NodeHandle { id: 7 })]);
        assert(g@.nodes[2].node.neighbors =~= seq![(NodeHandle { id: 0 }), (NodeHandle { id: 4 }), (NodeHandle { id: 1 }), (NodeHandle { id: 6 })]);
        assert(g@.nodes[3].node.neighbors =~= Seq::<NodeHandle>::empty());
        assert(g@.nodes[4].node.neighbors =~= seq![(NodeHandle { id: 0 }), (NodeHandle { id: 2 })]);
        assert(g@.nodes[5].node.neighbors =~= seq![(NodeHandle { id: 1 })]);
        assert(g@.nodes[6].node.neighbors =~= seq![(NodeHandle { id: 2 }), (NodeHandle { id: 1 })]);
        assert(g@.nodes[7].node.neighbors =~= seq![(NodeHandle { id: 1 })]);
    }
}

/// One stage of wiring the regional map's adjacencies.
fn region_edges_4(g: &mut Graph)
    requires
        old(g).wf(),
        old(g)@.nodes.len() == 8,
        old(g)@.next_id == 8,
        old(g)@.nodes[0].id == 0,
        old(g)@.nodes[1].id == 1,
        old(g)@.nodes[2].id == 2,
        old(g)@.nodes[3].id == 3,
        old(g)@.nodes[4].id == 4,
        old(g)@.nodes[5].id == 5,
        old(g)@.nodes[6].id == 6,
        old(g)@.nodes[7].id == 7,
        old(g)@.nodes[0].node.neighbors == seq![(NodeHandle { id: 2 }), (NodeHandle { id: 1 }), (NodeHandle { id: 4 })],
        old(g)@.nodes[1].node.neighbors == seq![(NodeHandle { id: 0 }), (NodeHandle { id: 2 }), (NodeHandle { id: 5 }), (NodeHandle { id: 6 }), (NodeHandle { id: 7 })],
        old(g)@.nodes[2].node.neighbors == seq![(NodeHandle { id: 0 }), (NodeHandle { id: 4 }), (NodeHandle { id: 1 }), (NodeHandle { id: 6 })],
        old(g)@.nodes[3].node.neighbors == Seq::<NodeHandle>::empty(),
        old(g)@.nodes[4].node.neighbors == seq![(NodeHandle { id: 0 }), (NodeHandle { id: 2 })],
        old(g)@.nodes[5].node.neighbors == seq![(NodeHandle { id: 1 })],
        old(g)@.nodes[6].node.neighbors == seq![(NodeHandle { id: 2 }), (NodeHandle { id: 1 })],
        old(g)@.nodes[7].node.neighbors == seq![(NodeHandle { id: 1 })],
    ensures
        final(g).wf(),
        final(g)@.nodes.len() == 8,
        final(g)@.next_id == 8,
        final(g)@.nodes[0].id == 0,
        final(g)@.nodes[1].id == 1,
        final(g)@.nodes[2].id == 2,
        final(g)@.nodes[3].id == 3,
        final(g)@.nodes[4].id == 4,
        final(g)@.nodes[5].id == 5,
        final(g)@.nodes[6].id == 6,
        final(g)@.nodes[7].id == 7,
        forall|i: int| 0 <= i < 8 ==> (#[trigger] final(g)@.nodes[i]).node.name == old(g)@.nodes[i].node.name,
        forall|i: int| 0 <= i < 8 ==> (#[trigger] final(g)@.nodes[i]).node.attributes == old(g)@.nodes[i].node.attributes,
        final(g)@.nodes[0].node.neighbors == seq![(NodeHandle { id: 2 }), (NodeHandle { id: 1 }), (NodeHandle { id: 4 })],
        final(g)@.nodes[1].node.neighbors == seq![(NodeHandle { id: 0 }), (NodeHandle { id: 2 }), (NodeHandle { id: 5 }), (NodeHandle { id: 6 }), (NodeHandle { id: 7 })],
        final(g)@.nodes[2].node.neighbors == seq![(NodeHandle { id: 0 }), (NodeHandle { id: 4 }), (NodeHandle { id: 1 }), (NodeHandle { id: 6 })],
        final(g)@.nodes[3].node.neighbors == seq![(NodeHandle { id: 4 }), (NodeHandle { id: 6 })],
        final(g)@.nodes[4].node.neighbors == seq![(NodeHandle { id: 0 }), (NodeHandle { id: 2 }), (NodeHandle { id: 3 })],
        final(g)@.nodes[5].node.neighbors == seq![(NodeHandle { id: 1 }), (NodeHandle { id: 7 })],
        final(g)@.nodes[6].node.neighbors == seq![(NodeHandle { id: 2 }), (NodeHandle { id: 1 }), (NodeHandle { id: 3 })],
        final(g)@.nodes[7].node.neighbors == seq![(NodeHandle { id: 1 }), (NodeHandle { id: 5 })],
{
    let ghost s0 = g@;
    proof {
        assert(s0.nodes[3].id == 3);
        assert(s0.nodes[4].id == 4);
        assert(has_entry(s0.nodes, 3));
        assert(has_entry(s0.nodes, 4));
    }
    g.add_edge(&(NodeHandle { id: 3 }), &(NodeHandle { id: 4 }));
    proof {
        lemma_with_edge_pointwise(s0, 3, 4);
        assert(g@.nodes[0] == edge_added(s0.nodes[0], 3, 4));
        assert(g@.nodes[1] == edge_added(s0.nodes[1], 3, 4));
        assert(g@.nodes[2] == edge_added(s0.nodes[2], 3, 4));
        assert(g@.nodes[3] == edge_added(s0.nodes[3], 3, 4));
        assert(g@.nodes[4] == edge_added(s0.nodes[4], 3, 4));
        assert(g@.nodes[5] == edge_added(s0.nodes[5], 3, 4));
        assert(g@.nodes[6] == edge_added(s0.nodes[6], 3, 4));
        assert(g@.nodes[7] == edge_added(s0.nodes[7], 3, 4));
        assert(g@.nodes[0].node.neighbors =~= seq![(NodeHandle { id: 2 }), (NodeHandle { id: 1 }), (NodeHandle { id: 4 })]);
        assert(g@.nodes[1].node.neighbors =~= seq![(NodeHandle { id: 0 }), (NodeHandle { id: 2 }), (NodeHandle { id: 5 }), (NodeHandle { id: 6 }), (NodeHandle { id: 7 })]);
        assert(g@.nodes[2].node.neighbors =~= seq![(NodeHandle { id: 0 }), (NodeHandle { id: 4 }), (NodeHandle { id: 1 }), (NodeHandle { id: 6 })]);
        assert(g@.nodes[3].node.neighbors =~= seq![(NodeHandle { id: 4 })]);
        assert(g@.nodes[4].node.neighbors =~= seq![(NodeHandle { id: 0 }), (NodeHandle { id: 2 }), (NodeHandle { id: 3 })]);
        assert(g@.nodes[5].node.neighbors =~= seq![(NodeHandle { id: 1 })]);
        assert(g@.nodes[6].node.neighbors =~= seq![(NodeHandle { id: 2 }), (NodeHandle { id: 1 })]);
        assert(g@.nodes[7].node.neighbors =~= seq![(NodeHandle { id: 1 })]);
    }

    let ghost s1 = g@;
    proof {
        assert(s1.nodes[3].id == 3);
        assert(s1.nodes[6].id == 6);
        assert(has_entry(s1.nodes, 3));
        assert(has_entry(s1.nodes, 6));
    }
    g.add_edge(&(NodeHandle { id: 3 }), &(NodeHandle { id: 6 }));
    proof {
        lemma_with_edge_pointwise(s1, 3, 6);
        assert(g@.nodes[0] == edge_added(s1.nodes[0], 3, 6));
        assert(g@.nodes[1] == edge_added(s1.nodes[1], 3, 6));
        assert(g@.nodes[2] == edge_added(s1.nodes[2], 3, 6));
        assert(g@.nodes[3] == edge_added(s1.nodes[3], 3, 6));
        assert(g@.nodes[4] == edge_added(s1.nodes[4], 3, 6));
        assert(g@.nodes[5] == edge_added(s1.nodes[5], 3, 6));
        assert(g@.nodes[6] == edge_added(s1.nodes[6], 3, 6));
        assert(g@.nodes[7] == edge_added(s1.nodes[7], 3, 6));
        assert(g@.nodes[0].node.neighbors =~= seq![(NodeHandle { id: 2 }), (NodeHandle { id: 1 }), (NodeHandle { id: 4 })]);
        assert(g@.nodes[1].node.neighbors =~= seq![(NodeHandle { id: 0 }), (NodeHandle { id: 2 }), (NodeHandle { id: 5 }), (NodeHandle { id: 6 }), (NodeHandle { id: 7 })]);
        assert(g@.nodes[2].node.neighbors =~= seq![(NodeHandle { id: 0 }), (NodeHandle { id: 4 }), (NodeHandle { id: 1 }), (NodeHandle { id: 6 })]);
        assert(g@.nodes[3].node.neighbors =~= seq![(NodeHandle { id: 4 }), (NodeHandle { id: 6 })]);
        assert(g@.nodes[4].node.neighbors =~= seq![(NodeHandle { id: 0 }), (NodeHandle { id: 2 }), (NodeHandle { id: 3 })]);
        assert(g@.nodes[5].node.neighbors =~= seq![(NodeHandle { id: 1 })]);
        assert(g@.nodes[6].node.neighbors =~= seq![(NodeHandle { id: 2 }), (NodeHandle { id: 1 }), (NodeHandle { id: 3 })]);
        assert(g@.nodes[7].node.neighbors =~= seq![(NodeHandle { id: 1 })]);
    }

    let ghost s2 = g@;
    proof {
        assert(s2.nodes[5].id == 5);
        assert(s2.nodes[7].id == 7);
        assert(has_entry(s2.nodes, 5));
        assert(has_entry(s2.nodes, 7));
    }
    g.add_edge(&(NodeHandle { id: 5 }), &(NodeHandle { id: 7 }));
    proof {
        lemma_with_edge_pointwise(s2, 5, 7);
        assert(g@.nodes[0] == edge_added(s2.nodes[0], 5, 7));
        assert(g@.nodes[1] == edge_added(s2.nodes[1], 5, 7));
        assert(g@.nodes[2] == edge_added(s2.nodes[2], 5, 7));
        assert(g@.nodes[3] == edge_added(s2.nodes[3], 5, 7));
        assert(g@.nodes[4] == edge_added(s2.nodes[4], 5, 7));
        assert(g@.nodes[5] == edge_added(s2.nodes[5], 5, 7));
        assert(g@.nodes[6] == edge_added(s2.nodes[6], 5, 7));
        assert(g@.nodes[7] == edge_added(s2.nodes[7], 5, 7));
        assert(g@.nodes[0].node.neighbors =~= seq![(NodeHandle { id: 2 }), (NodeHandle { id: 1 }), (NodeHandle { id: 4 })]);
        assert(g@.nodes[1].node.neighbors =~= seq![(NodeHandle { id: 0 }), (NodeHandle { id: 2 }), (NodeHandle { id: 5 }), (NodeHandle { id: 6 }), (NodeHandle { id: 7 })]);
        assert(g@.nodes[2].node.neighbors =~= seq![(NodeHandle { id: 0 }), (NodeHandle { id: 4 }), (NodeHandle { id: 1 }), (NodeHandle { id: 6 })]);
        assert(g@.nodes[3].node.neighbors =~= seq![(NodeHandle { id: 4 }), (NodeHandle { id: 6 })]);
        assert(g@.nodes[4].node.neighbors =~= seq![(NodeHandle { id: 0 }), (NodeHandle { id: 2 }), (NodeHandle { id: 3 })]);
        assert(g@.nodes[5].node.neighbors =~= seq![(NodeHandle { id: 1 }), (NodeHandle { id: 7 })]);
        assert(g@.nodes[6].node.neighbors =~= seq![(NodeHandle { id: 2 }), (NodeHandle { id: 1 }), (NodeHandle { id: 3 })]);
        assert(g@.nodes[7].node.neighbors =~= seq![(NodeHandle { id: 1 }), (NodeHandle { id: 5 })]);
    }
}

/// One stage of wiring the regional map's adjacencies.
fn region_edges_5(g: &mut Graph)
    requires
        old(g).wf(),
        old(g)@.nodes.len() == 8,
        old(g)@.next_id == 8,
        old(g)@.nodes[0].id == 0,
        old(g)@.nodes[1].id == 1,
        old(g)@.nodes[2].id == 2,
        old(g)@.nodes[3].id == 3,
        old(g)@.nodes[4].id == 4,
        old(g)@.nodes[5].id == 5,
        old(g)@.nodes[6].id == 6,
        old(g)@.nodes[7].id == 7,
        old(g)@.nodes[0].node.neighbors == seq![(NodeHandle { id: 2 }), (NodeHandle { id: 1 }), (NodeHandle { id: 4 })],
        old(g)@.nodes[1].node.neighbors == seq![(NodeHandle { id: 0 }), (NodeHandle { id: 2 }), (NodeHandle { id: 5 }), (NodeHandle { id: 6 }), (NodeHandle { id: 7 })],
        old(g)@.nodes[2].node.neighbors == seq![(NodeHandle { id: 0 }), (NodeHandle { id: 4 }), (NodeHandle { id: 1 }), (NodeHandle { id: 6 })],
        old(g)@.nodes[3].node.neighbors == seq![(NodeHandle { id: 4 }), (NodeHandle { id: 6 })],
        old(g)@.nodes[4].node.neighbors == seq![(NodeHandle { id: 0 }), (NodeHandle { id: 2 }), (NodeHandle { id: 3 })],
        old(g)@.nodes[5].node.neighbors == seq![(NodeHandle { id: 1 }), (NodeHandle { id: 7 })],
        old(g)@.nodes[6].node.neighbors == seq![(NodeHandle { id: 2 }), (NodeHandle { id: 1 }), (NodeHandle { id: 3 })],
        old(g)@.nodes[7].node.neighbors == seq![(NodeHandle { id: 1 }), (NodeHandle { id: 5 })],
    ensures
        final(g).wf(),
        final(g)@.nodes.len() == 8,
        final(g)@.next_id == 8,
        final(g)@.nodes[0].id == 0,
        final(g)@.nodes[1].id == 1,
        final(g)@.nodes[2].id == 2,
        final(g)@.nodes[3].id == 3,
        final(g)@.nodes[4].id == 4,
        final(g)@.nodes[5].id == 5,
        final(g)@.nodes[6].id == 6,
        final(g)@.nodes[7].id == 7,
        forall|i: int| 0 <= i < 8 ==> (#[trigger] final(g)@.nodes[i]).node.name == old(g)@.nodes[i].node.name,
        forall|i: int| 0 <= i < 8 ==> (#[trigger] final(g)@.nodes[i]).node.attributes == old(g)@.nodes[i].node.attributes,
        final(g)@.nodes[0].node.neighbors == seq![(NodeHandle { id: 2 }), (NodeHandle { id: 1 }), (NodeHandle { id: 4 })],
        final(g)@.nodes[1].node.neighbors == seq![(NodeHandle { id: 0 }), (NodeHandle { id: 2 }), (NodeHandle { id: 5 }), (NodeHandle { id: 6 }), (NodeHandle { id: 7 })],
        final(g)@.nodes[2].node.neighbors == seq![(NodeHandle { id: 0 }), (NodeHandle { id: 4 }), (NodeHandle { id: 1 }), (NodeHandle { id: 6 })],
        final(g)@.nodes[3].node.neighbors == seq![(NodeHandle { id: 4 }), (NodeHandle { id: 6 })],
        final(g)@.nodes[4].node.neighbors == seq![(NodeHandle { id: 0 }), (NodeHandle { id: 2 }), (NodeHandle { id: 3 }), (NodeHandle { id: 6 })],
        final(g)@.nodes[5].node.neighbors == seq![(NodeHandle { id: 1 }), (NodeHandle { id: 7 })],
        final(g)@.nodes[6].node.neighbors == seq![(NodeHandle { id: 2 }), (NodeHandle { id: 1 }), (NodeHandle { id: 3 }), (NodeHandle { id: 4 }), (NodeHandle { id: 7 })],
        final(g)@.nodes[7].node.neighbors == seq![(NodeHandle { id: 1 }), (NodeHandle { id: 5 }), (NodeHandle { id: 6 })],
{
    let ghost s0 = g@;
    proof {
        assert(s0.nodes[4].id == 4);
        assert(s0.nodes[6].id == 6);
        assert(has_entry(s0.nodes, 4));
        assert(has_entry(s0.nodes, 6));
    }
    g.add_edge(&(NodeHandle { id: 4 }), &(NodeHandle { id: 6 }));
    proof {
        lemma_with_edge_pointwise(s0, 4, 6);
        assert(g@.nodes[0] == edge_added(s0.nodes[0], 4, 6));
        assert(g@.nodes[1] == edge_added(s0.nodes[1], 4, 6));
        assert(g@.nodes[2] == edge_added(s0.nodes[2], 4, 6));
        assert(g@.nodes[3] == edge_added(s0.nodes[3], 4, 6));
        assert(g@.nodes[4] == edge_added(s0.nodes[4], 4, 6));
        assert(g@.nodes[5] == edge_added(s0.nodes[5], 4, 6));
        assert(g@.nodes[6] == edge_added(s0.nodes[6], 4, 6));
        assert(g@.nodes[7] == edge_added(s0.nodes[7], 4, 6));
        assert(g@.nodes[0].node.neighbors =~= seq![(NodeHandle { id: 2 }), (NodeHandle { id: 1 }), (NodeHandle { id: 4 })]);
        assert(g@.nodes[1].node.neighbors =~= seq![(NodeHandle { id: 0 }), (NodeHandle { id: 2 }), (NodeHandle { id: 5 }), (NodeHandle { id: 6 }), (NodeHandle { id: 7 })]);
        assert(g@.nodes[2].node.neighbors =~= seq![(NodeHandle { id: 0 }), (NodeHandle { id: 4 }), (NodeHandle { id: 1 }), (NodeHandle { id: 6 })]);
        assert(g@.nodes[3].node.neighbors =~= seq![(NodeHandle { id: 4 }), (NodeHandle { id: 6 })]);
        assert(g@.nodes[4].node.neighbors =~= seq![(NodeHandle { id: 0 }), (NodeHandle { id: 2 }), (NodeHandle { id: 3 }), (NodeHandle { id: 6 })]);
        assert(g@.nodes[5].node.neighbors =~= seq![(NodeHandle { id: 1 }), (NodeHandle { id: 7 })]);
        assert(g@.nodes[6].node.neighbors =~= seq![(NodeHandle { id: 2 }), (NodeHandle { id: 1 }), (NodeHandle { id: 3 }), (NodeHandle { id: 4 })]);
        assert(g@.nodes[7].node.neighbors =~= seq![(NodeHandle { id: 1 }), (NodeHandle { id: 5 })]);
    }

    let ghost s1 = g@;
    proof {
        assert(s1.nodes[6].id == 6);
        assert(s1.nodes[7].id == 7);
        assert(has_entry(s1.nodes, 6));
        assert(has_entry(s1.nodes, 7));
    }
    g.add_edge(&(NodeHandle { id: 6 }), &(NodeHandle { id: 7 }));
    proof {
        lemma_with_edge_pointwise(s1, 6, 7);
        assert(g@.nodes[0] == edge_added(s1.nodes[0], 6, 7));
        assert(g@.nodes[1] == edge_added(s1.nodes[1], 6, 7));
        assert(g@.nodes[2] == edge_added(s1.nodes[2], 6, 7));
        assert(g@.nodes[3] == edge_added(s1.nodes[3], 6, 7));
        assert(g@.nodes[4] == edge_added(s1.nodes[4], 6, 7));
        assert(g@.nodes[5] == edge_added(s1.nodes[5], 6, 7));
        assert(g@.nodes[6] == edge_added(s1.nodes[6], 6, 7));
        assert(g@.nodes[7] == edge_added(s1.nodes[7], 6, 7));
        assert(g@.nodes[0].node.neighbors =~= seq![(NodeHandle { id: 2 }), (NodeHandle { id: 1 }), (NodeHandle { id: 4 })]);
        assert(g@.nodes[1].node.neighbors =~= seq![(NodeHandle { id: 0 }), (NodeHandle { id: 2 }), (NodeHandle { id: 5 }), (NodeHandle { id: 6 }), (NodeHandle { id: 7 })]);
        assert(g@.nodes[2].node.neighbors =~= seq![(NodeHandle { id: 0 }), (NodeHandle { id: 4 }), (NodeHandle { id: 1 }), (NodeHandle { id: 6 })]);
        assert(g@.nodes[3].node.neighbors =~= seq![(NodeHandle { id: 4 }), (NodeHandle { id: 6 })]);
        assert(g@.nodes[4].node.neighbors =~= seq![(NodeHandle { id: 0 }), (NodeHandle { id: 2 }), (NodeHandle { id: 3 }), (NodeHandle { id: 6 })]);
        assert(g@.nodes[5].node.neighbors =~= seq![(NodeHandle { id: 1 }), (NodeHandle { id: 7 })]);
        assert(g@.nodes[6].node.neighbors =~= seq![(NodeHandle { id: 2 }), (NodeHandle { id: 1 }), (NodeHandle { id: 3 }), (NodeHandle { id: 4 }), (NodeHandle { id: 7 })]);
        assert(g@.nodes[7].node.neighbors =~= seq![(NodeHandle { id: 1 }), (NodeHandle { id: 5 }), (NodeHandle { id: 6 })]);
    }
}

/// The eight-node regional map around Turkey: the three Turkish home supply
/// centers, Sevastopol, two seas and two ordinary land territories, with the
/// adjacencies of the board.
pub fn gen_test_turkey_region() -> (g: Graph)
    ensures
        g.wf(),
        g@.nodes.len() == 8,
        g@.next_id == 8,
        g@.nodes[0].id == 0,
        g@.nodes[1].id == 1,
        g@.nodes[2].id == 2,
        g@.nodes[3].id == 3,
        g@.nodes[4].id == 4,
        g@.nodes[5].id == 5,
        g@.nodes[6].id == 6,
        g@.nodes[7].id == 7,
        g@.nodes[0].node.name == "Constantinople"@,
        g@.nodes[1].node.name == "Smyrna"@,
        g@.nodes[2].node.name == "Ankara"@,
        g@.nodes[3].node.name == "Sevastopol"@,
        g@.nodes[4].node.name == "Black Sea"@,
        g@.nodes[5].node.name == "Eastern Mediterranean"@,
        g@.nodes[6].node.name == "Armenia"@,
        g@.nodes[7].node.name == "Syria"@,
        is_core_supply(g@.nodes[0].node.attributes, "Turkey"@),
        is_core_supply(g@.nodes[1].node.attributes, "Turkey"@),
        is_core_supply(g@.nodes[2].node.attributes, "Turkey"@),
        is_core_supply(g@.nodes[3].node.attributes, "Russia"@),
        is_sea(g@.nodes[4].node.attributes),
        is_sea(g@.nodes[5].node.attributes),
        is_normal_land(g@.nodes[6].node.attributes),
        is_normal_land(g@.nodes[7].node.attributes),
        g@.nodes[0].node.neighbors == seq![(NodeHandle { id: 2 }), (NodeHandle { id: 1 }), (NodeHandle { id: 4 })],
        g@.nodes[1].node.neighbors == seq![(NodeHandle { id: 0 }), (NodeHandle { id: 2 }), (NodeHandle { id: 5 }), (NodeHandle { id: 6 }), (NodeHandle { id: 7 })],
        g@.nodes[2].node.neighbors == seq![(NodeHandle { id: 0 }), (NodeHandle { id: 4 }), (NodeHandle { id: 1 }), (NodeHandle { id: 6 })],
        g@.nodes[3].node.neighbors == seq![(NodeHandle { id: 4 }), (NodeHandle { id: 6 })],
        g@.nodes[4].node.neighbors == seq![(NodeHandle { id: 0 }), (NodeHandle { id: 2 }), (NodeHandle { id: 3 }), (NodeHandle { id: 6 })],
        g@.nodes[5].node.neighbors == seq![(NodeHandle { id: 1 }), (NodeHandle { id: 7 })],
        g@.nodes[6].node.neighbors == seq![(NodeHandle { id: 2 }), (NodeHandle { id: 1 }), (NodeHandle { id: 3 }), (NodeHandle { id: 4 }), (NodeHandle { id: 7 })],
        g@.nodes[7].node.neighbors == seq![(NodeHandle { id: 1 }), (NodeHandle { id: 5 }), (NodeHandle { id: 6 })],
{
    let mut g = Graph::new();

    let con = Node::new(
        "Constantinople".to_string(),
        TerritoryType::Land(LandType::SupplyCenter(SupplyType::Core("Turkey".to_string()))),
    );
    proof {
        assert(is_core_supply(con@.attributes, "Turkey"@));
    }
    let smy = Node::new(
        "Smyrna".to_string(),
        TerritoryType::Land(LandType::SupplyCenter(SupplyType::Core("Turkey".to_string()))),
    );
    proof {
        assert(is_core_supply(smy@.attributes, "Turkey"@));
    }
    let ank = Node::new(
        "Ankara".to_string(),
        TerritoryType::Land(LandType::SupplyCenter(SupplyType::Core("Turkey".to_string()))),
    );
    proof {
        assert(is_core_supply(ank@.attributes, "Turkey"@));
    }
    let sev = Node::new(
        "Sevastopol".to_string(),
        TerritoryType::Land(LandType::SupplyCenter(SupplyType::Core("Russia".to_string()))),
    );
    proof {
        assert(is_core_supply(sev@.attributes, "Russia"@));
    }
    let bla = Node::new("Black Sea".to_string(), TerritoryType::Sea);
    proof {
        assert(is_sea(bla@.attributes));
    }
    let eas = Node::new("Eastern Mediterranean".to_string(), TerritoryType::Sea);
    proof {
        assert(is_sea(eas@.attributes));
    }
    let arm = Node::new("Armenia".to_string(), TerritoryType::Land(LandType::Normal));
    proof {
        assert(is_normal_land(arm@.attributes));
    }
    let syr = Node::new("Syria".to_string(), TerritoryType::Land(LandType::Normal));
    proof {
        assert(is_normal_land(syr@.attributes));
    }

    let con = g.add_node(con);
    let smy = g.add_node(smy);
    let ank = g.add_node(ank);
    let sev = g.add_node(sev);
    let bla = g.add_node(bla);
    let eas = g.add_node(eas);
    let arm = g.add_node(arm);
    let syr = g.add_node(syr);
    proof {
        assert(g@.nodes.len() == 8);
        assert(g@.nodes[0].id == 0);
        assert(g@.nodes[0].node.name == "Constantinople"@);
        assert(g@.nodes[0].node.neighbors =~= Seq::<NodeHandle>::empty());
        assert(g@.nodes[1].id == 1);
        assert(g@.nodes[1].node.name == "Smyrna"@);
        assert(g@.nodes[1].node.neighbors =~= Seq::<NodeHandle>::empty());
        assert(g@.nodes[2].id == 2);
        assert(g@.nodes[2].node.name == "Ankara"@);
        assert(g@.nodes[2].node.neighbors =~= Seq::<NodeHandle>::empty());
        assert(g@.nodes[3].id == 3);
        assert(g@.nodes[3].node.name == "Sevastopol"@);
        assert(g@.nodes[3].node.neighbors =~= Seq::<NodeHandle>::empty());
        assert(g@.nodes[4].id == 4);
        assert(g@.nodes[4].node.name == "Black Sea"@);
        assert(g@.nodes[4].node.neighbors =~= Seq::<NodeHandle>::empty());
        assert(g@.nodes[5].id == 5);
        assert(g@.nodes[5].node.name == "Eastern Mediterranean"@);
        assert(g@.nodes[5].node.neighbors =~= Seq::<NodeHandle>::empty());
        assert(g@.nodes[6].id == 6);
        assert(g@.nodes[6].node.name == "Armenia"@);
        assert(g@.nodes[6].node.neighbors =~= Seq::<NodeHandle>::empty());
        assert(g@.nodes[7].id == 7);
        assert(g@.nodes[7].node.name == "Syria"@);
        assert(g@.nodes[7].node.neighbors =~= Seq::<NodeHandle>::empty());
    }

    region_edges_1(&mut g);
    region_edges_2(&mut g);
    region_edges_3(&mut g);
    region_edges_4(&mut g);
    region_edges_5(&mut g);
    g
}

} // verus!
