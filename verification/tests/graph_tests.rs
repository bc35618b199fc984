use std::collections::HashMap;

use territory_graph::graph::{Graph, Node};
use territory_graph::maps::{gen_test_turkey, gen_test_turkey_region};
use territory_graph::types::{LandType, NodeHandle, SupplyType, TerritoryType};

fn name_map(g: &Graph) -> HashMap<String, NodeHandle> {
    let mut m: HashMap<String, NodeHandle> = HashMap::new();
    for h in g.handles() {
        let name = g.node_name(&h).expect("handle from handles() must be live").clone();
        m.insert(name, h);
    }
    m
}

fn neighbor_names(g: &Graph, h: &NodeHandle) -> Vec<String> {
    let mut out: Vec<String> = Vec::new();
    for n in g.neighbors(h) {
        out.push(g.node_name(&n).expect("neighbors must be live").clone());
    }
    out
}

#[test]
fn test_turkey_nodes() {
    let turkey = gen_test_turkey();

    // Build a map from node names to handles for easy access
    let mut node_map: HashMap<String, NodeHandle> = HashMap::new();
    for node_ref in turkey.handles() {
        let name = turkey.node_name(&node_ref).expect("node must be live").clone();
        node_map.insert(name, node_ref);
    }

    // Check that all expected nodes are present
    let expected_nodes = vec!["Constantinople", "Ankara", "Smyrna"];
    assert_eq!(node_map.len(), expected_nodes.len());

    for name in &expected_nodes {
        assert!(
            node_map.contains_key(*name),
            "Node '{}' is missing from the graph",
            name
        );
    }
}

#[test]
fn turkey_triangle_shape() {
    let turkey = gen_test_turkey();
    assert_eq!(turkey.node_count(), 3);
    for h in turkey.handles() {
        assert_eq!(turkey.neighbors(&h).len(), 2);
    }
}

#[test]
fn turkey_nodes_are_turkish_supply_centers() {
    let turkey = gen_test_turkey();
    for h in turkey.handles() {
        let t = turkey.classification(&h).expect("node must be live");
        assert!(matches!(
            t,
            TerritoryType::Land(LandType::SupplyCenter(SupplyType::Core(p))) if p == "Turkey"
        ));
    }
}

#[test]
fn region_shape_and_black_sea_adjacency() {
    let region = gen_test_turkey_region();
    assert_eq!(region.node_count(), 8);

    // Count adjacency entries: every undirected edge contributes two.
    let mut entries: usize = 0;
    for h in region.handles() {
        entries += region.neighbors(&h).len();
    }
    assert_eq!(entries % 2, 0);
    assert_eq!(entries / 2, 14);

    let m = name_map(&region);
    assert_eq!(m.len(), 8);
    for name in [
        "Constantinople",
        "Smyrna",
        "Ankara",
        "Sevastopol",
        "Black Sea",
        "Eastern Mediterranean",
        "Armenia",
        "Syria",
    ] {
        assert!(m.contains_key(name), "Node '{}' is missing from the graph", name);
    }
    let bla = m["Black Sea"];
    let mut names = neighbor_names(&region, &bla);
    names.sort();
    assert_eq!(
        names,
        vec!["Ankara", "Armenia", "Constantinople", "Sevastopol"]
    );
}

#[test]
fn region_classifications() {
    let region = gen_test_turkey_region();
    let m = name_map(&region);
    assert!(matches!(
        region.classification(&m["Black Sea"]).unwrap(),
        TerritoryType::Sea
    ));
    assert!(matches!(
        region.classification(&m["Eastern Mediterranean"]).unwrap(),
        TerritoryType::Sea
    ));
    assert!(matches!(
        region.classification(&m["Armenia"]).unwrap(),
        TerritoryType::Land(LandType::Normal)
    ));
    assert!(matches!(
        region.classification(&m["Syria"]).unwrap(),
        TerritoryType::Land(LandType::Normal)
    ));
    assert!(matches!(
        region.classification(&m["Sevastopol"]).unwrap(),
        TerritoryType::Land(LandType::SupplyCenter(SupplyType::Core(p))) if p == "Russia"
    ));
}

#[test]
fn remove_ankara_from_turkey() {
    let mut turkey = gen_test_turkey();
    let m = name_map(&turkey);
    let ank = m["Ankara"];
    let con = m["Constantinople"];
    let smy = m["Smyrna"];

    turkey.remove_node(&ank);

    assert_eq!(turkey.node_count(), 2);
    assert!(!turkey.contains(&ank));
    let con_nb = turkey.neighbors(&con);
    let smy_nb = turkey.neighbors(&smy);
    assert_eq!(con_nb, vec![smy]);
    assert_eq!(smy_nb, vec![con]);
    for h in turkey.handles() {
        for n in turkey.neighbors(&h) {
            assert_ne!(n, ank);
        }
    }
}

#[test]
fn removed_node_never_enumerated_as_neighbor() {
    let mut region = gen_test_turkey_region();
    let m = name_map(&region);
    let smy = m["Smyrna"];

    region.remove_node(&smy);

    assert_eq!(region.node_count(), 7);
    for h in region.handles() {
        assert_ne!(h, smy);
        for n in region.neighbors(&h) {
            assert_ne!(n, smy);
        }
    }
}

#[test]
fn remove_node_is_idempotent() {
    let mut once = gen_test_turkey_region();
    let mut twice = gen_test_turkey_region();
    let m = name_map(&once);
    let ank = m["Ankara"];

    once.remove_node(&ank);
    twice.remove_node(&ank);
    twice.remove_node(&ank);

    assert_eq!(once.node_count(), twice.node_count());
    let handles_once = once.handles();
    let handles_twice = twice.handles();
    assert_eq!(handles_once, handles_twice);
    for h in handles_once {
        assert_eq!(once.neighbors(&h), twice.neighbors(&h));
        assert_eq!(once.node_name(&h), twice.node_name(&h));
    }
}

#[test]
fn add_then_remove_edge_restores_lists() {
    let mut region = gen_test_turkey_region();
    let m = name_map(&region);
    // Constantinople and Sevastopol are not adjacent on this board.
    let con = m["Constantinople"];
    let sev = m["Sevastopol"];
    let con_before = region.neighbors(&con);
    let sev_before = region.neighbors(&sev);
    assert!(!con_before.contains(&sev));

    region.add_edge(&con, &sev);
    assert!(region.neighbors(&con).contains(&sev));
    assert!(region.neighbors(&sev).contains(&con));
    region.remove_edge(&con, &sev);

    assert_eq!(region.neighbors(&con), con_before);
    assert_eq!(region.neighbors(&sev), sev_before);
}

#[test]
fn edges_are_symmetric() {
    let region = gen_test_turkey_region();
    let handles = region.handles();
    for a in &handles {
        for b in &handles {
            let a_sees_b = region.neighbors(a).contains(b);
            let b_sees_a = region.neighbors(b).contains(a);
            assert_eq!(a_sees_b, b_sees_a);
        }
    }
}

#[test]
fn node_count_tracks_creates_and_removes() {
    let mut g = Graph::new();
    let mut handles: Vec<NodeHandle> = Vec::new();
    for i in 0..5 {
        let name = format!("Province {}", i);
        handles.push(g.create_node(TerritoryType::Land(LandType::Normal), name));
    }
    assert_eq!(g.node_count(), 5);
    g.remove_node(&handles[1]);
    g.remove_node(&handles[3]);
    assert_eq!(g.node_count(), 3);
}

#[test]
fn duplicate_edge_then_remove_leaves_no_entries() {
    // `add_edge` does not deduplicate, so a repeated call leaves two entries
    // per side; `remove_edge` removes every entry between the pair, so one
    // removal leaves zero entries. This pins down the hardened behavior.
    let mut turkey = gen_test_turkey();
    let m = name_map(&turkey);
    let con = m["Constantinople"];
    let ank = m["Ankara"];
    assert!(turkey.neighbors(&con).contains(&ank));

    turkey.add_edge(&con, &ank);
    let dup_count = turkey.neighbors(&con).iter().filter(|h| **h == ank).count();
    assert_eq!(dup_count, 2);

    turkey.remove_edge(&con, &ank);
    assert!(!turkey.neighbors(&con).contains(&ank));
    assert!(!turkey.neighbors(&ank).contains(&con));
    let residual = turkey.neighbors(&con).iter().filter(|h| **h == ank).count();
    assert_eq!(residual, 0);
}

#[test]
fn stale_handles_are_harmless() {
    let mut g = gen_test_turkey();
    let m = name_map(&g);
    let smy = m["Smyrna"];
    let con = m["Constantinople"];

    g.remove_node(&smy);
    assert!(!g.contains(&smy));
    assert_eq!(g.neighbors(&smy), Vec::<NodeHandle>::new());
    assert_eq!(g.node_name(&smy), None);
    assert!(g.classification(&smy).is_none());

    // Removing again is a no-op.
    g.remove_node(&smy);
    assert_eq!(g.node_count(), 2);

    // Edge operations with a stale endpoint change nothing.
    let con_before = g.neighbors(&con);
    g.add_edge(&con, &smy);
    assert_eq!(g.neighbors(&con), con_before);
    g.remove_edge(&con, &smy);
    assert_eq!(g.neighbors(&con), con_before);
}

#[test]
fn create_node_and_accessors() {
    let mut g = Graph::new();
    let h = g.create_node(TerritoryType::Sea, "North Sea".to_string());
    assert!(g.contains(&h));
    assert_eq!(g.node_count(), 1);
    assert_eq!(g.node_name(&h).unwrap(), "North Sea");
    assert!(matches!(g.classification(&h).unwrap(), TerritoryType::Sea));
    assert!(g.neighbors(&h).is_empty());
    assert_eq!(g.handles(), vec![h]);
}

#[test]
fn add_node_returns_live_handle() {
    let mut g = Graph::new();
    let node = Node::new(
        "Rumania".to_string(),
        TerritoryType::Land(LandType::SupplyCenter(SupplyType::Neutral)),
    );
    let h = g.add_node(node);
    assert!(g.contains(&h));
    assert_eq!(g.node_name(&h).unwrap(), "Rumania");
    assert!(matches!(
        g.classification(&h).unwrap(),
        TerritoryType::Land(LandType::SupplyCenter(SupplyType::Neutral))
    ));
}
