use simple_electronics::components::nodes::NodeTy;
use simple_electronics::components::{
    Connected, Connection, ConnectionTy, Entity, Pos, Record, Wire,
};
use simple_electronics::store::GraphStore;
use simple_electronics::systems::cleanup_sys::run_cleanup_systems;

fn wire(store: &mut GraphStore) -> Entity {
    store.build_entity(Some(Record::Wire(Wire { signal: true })), None).unwrap()
}

fn bare_node(store: &mut GraphStore, kind: NodeTy) -> Entity {
    store.build_entity(Some(Record::Node(Connected::new(kind))), None).unwrap()
}

fn port(store: &mut GraphStore, node: Entity, ty: ConnectionTy, w: Option<Entity>) -> Entity {
    let record = Connection { wire: w, ty, index: 0, node };
    store.build_entity(Some(Record::Port(record)), None).unwrap()
}

fn alive(store: &GraphStore) -> Vec<Entity> {
    (0..store.len()).filter_map(|i| store.entity_at(i)).collect()
}

#[test]
fn the_sweep_of_an_empty_store_does_nothing() {
    let mut store = GraphStore::new();
    run_cleanup_systems(&mut store);
    assert_eq!(store.len(), 0);
}

#[test]
fn the_sweep_leaves_a_consistent_store_alone() {
    let mut store = GraphStore::new();
    let a = bare_node(&mut store, NodeTy::On);
    let b = bare_node(&mut store, NodeTy::Not);
    let w = wire(&mut store);
    let half = wire(&mut store);
    let _pa = port(&mut store, a, ConnectionTy::Output, Some(w));
    let _pb = port(&mut store, b, ConnectionTy::Input, Some(w));
    let _pc = port(&mut store, b, ConnectionTy::Output, Some(half));
    let bare = store.build_entity(None, Some(Pos::from_vec(0, 0))).unwrap();
    store.queue_delete(bare);
    let before = alive(&store);
    run_cleanup_systems(&mut store);
    assert_eq!(alive(&store), before);
    assert!(store.is_doomed(bare));
    assert_eq!(store.wire(w), Some(Wire { signal: true }));
    run_cleanup_systems(&mut store);
    assert_eq!(alive(&store), before);
}

#[test]
fn a_wire_that_no_port_binds_is_swept() {
    let mut store = GraphStore::new();
    let a = bare_node(&mut store, NodeTy::On);
    let loose = wire(&mut store);
    let kept = wire(&mut store);
    let p = port(&mut store, a, ConnectionTy::Output, Some(kept));
    run_cleanup_systems(&mut store);
    assert!(!store.is_alive(loose));
    assert_eq!(alive(&store), vec![a, kept, p]);
}

#[test]
fn a_port_without_its_node_is_swept_with_its_wire() {
    let mut store = GraphStore::new();
    let a = bare_node(&mut store, NodeTy::On);
    let b = bare_node(&mut store, NodeTy::Not);
    let w = wire(&mut store);
    let pa = port(&mut store, a, ConnectionTy::Output, Some(w));
    let pb = port(&mut store, b, ConnectionTy::Input, Some(w));
    store.queue_delete(a);
    // Nothing is gone before the maintenance point, so nothing dangles yet.
    run_cleanup_systems(&mut store);
    assert_eq!(alive(&store), vec![a, b, w, pa, pb]);
    store.apply_deletions();
    run_cleanup_systems(&mut store);
    assert_eq!(alive(&store), vec![b, pb]);
    // The surviving port still names the wire, and finds nothing there.
    assert_eq!(store.port(pb).unwrap().wire, Some(w));
    assert_eq!(store.wire(w), None);
}

#[test]
fn a_port_whose_owner_is_not_a_node_is_swept() {
    let mut store = GraphStore::new();
    let not_a_node = wire(&mut store);
    let p = port(&mut store, not_a_node, ConnectionTy::Input, None);
    let q = port(&mut store, Entity { index: 900, generation: 1 }, ConnectionTy::Input, None);
    run_cleanup_systems(&mut store);
    assert!(!store.is_alive(p));
    assert!(!store.is_alive(q));
    assert!(!store.is_alive(not_a_node));
    assert_eq!(alive(&store), vec![]);
}

#[test]
fn after_the_sweep_nothing_dangles() {
    let mut store = GraphStore::new();
    let mut nodes = Vec::new();
    for kind in [NodeTy::On, NodeTy::Off, NodeTy::And, NodeTy::Not, NodeTy::Xor] {
        nodes.push(bare_node(&mut store, kind));
    }
    let mut wires = Vec::new();
    for _ in 0..6 {
        wires.push(wire(&mut store));
    }
    let links = [(0, 0), (2, 0), (1, 1), (2, 1), (2, 2), (3, 2), (3, 3), (4, 3), (4, 4)];
    for (n, w) in links {
        port(&mut store, nodes[n], ConnectionTy::Input, Some(wires[w]));
    }
    for victim in [2, 4] {
        store.queue_delete(nodes[victim]);
        store.apply_deletions();
        run_cleanup_systems(&mut store);
        for i in 0..store.len() {
            if let Some(p) = store.port_at(i) {
                assert!(store.node(p.node).is_some());
            }
            if store.wire_at(i).is_some() {
                let w = store.entity_at(i).unwrap();
                let binders = (0..store.len())
                    .filter(|k| matches!(store.port_at(*k), Some(p) if p.wire == Some(w)))
                    .count();
                assert!(binders >= 1);
            }
        }
    }
    // Nodes 0, 1 and 3 are left, with one, one and two ports, and no wire.
    assert_eq!(alive(&store).len(), 3 + 4);
    assert!((0..store.len()).all(|i| store.wire_at(i).is_none()));
}
