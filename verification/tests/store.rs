use simple_electronics::components::nodes::NodeTy;
use simple_electronics::components::{
    Connected, Connection, ConnectionTy, Entity, Pos, Record, Wire,
};
use simple_electronics::registry::REGISTRY_CAPACITY;
use simple_electronics::store::GraphStore;

#[test]
fn a_new_store_is_empty() {
    let store = GraphStore::new();
    assert_eq!(store.len(), 0);
    assert_eq!(store.room(), REGISTRY_CAPACITY);
    assert_eq!(store.entity_at(0), None);
    assert!(!store.is_alive(Entity { index: 0, generation: 1 }));
}

#[test]
fn created_entities_are_distinct_and_alive() {
    let mut store = GraphStore::new();
    let a = store.create_entity().unwrap();
    let b = store.create_entity().unwrap();
    let c = store.create_entity().unwrap();
    assert_ne!(a.index, b.index);
    assert_ne!(a.index, c.index);
    assert_ne!(b.index, c.index);
    assert!(a.generation > 0 && b.generation > 0 && c.generation > 0);
    for e in [a, b, c] {
        assert!(store.is_alive(e));
        assert_eq!(store.entity_at(e.index as usize), Some(e));
        assert_eq!(store.get(e), None);
        assert_eq!(store.position(e), None);
        assert!(!store.is_doomed(e));
    }
    assert_eq!(store.len(), 3);
    assert_eq!(store.room(), REGISTRY_CAPACITY - 3);
}

#[test]
fn the_first_entity_takes_the_first_slot() {
    let mut store = GraphStore::new();
    let a = store.create_entity().unwrap();
    assert_eq!(a, Entity { index: 0, generation: 1 });
    let b = store.create_entity().unwrap();
    assert_eq!(b, Entity { index: 1, generation: 1 });
}

#[test]
fn deletion_waits_for_the_maintenance_point() {
    let mut store = GraphStore::new();
    let a = store.create_entity().unwrap();
    let b = store.create_entity().unwrap();
    assert!(store.attach(a, Record::Wire(Wire { signal: true })));
    assert!(store.queue_delete(a));
    assert!(store.is_alive(a));
    assert!(store.is_doomed(a));
    assert!(!store.is_doomed(b));
    assert_eq!(store.wire(a), Some(Wire { signal: true }));
    store.apply_deletions();
    assert!(!store.is_alive(a));
    assert!(!store.is_doomed(a));
    assert_eq!(store.get(a), None);
    assert_eq!(store.wire(a), None);
    assert!(store.is_alive(b));
    assert_eq!(store.entity_at(a.index as usize), None);
}

#[test]
fn deleting_a_dead_entity_is_tolerated() {
    let mut store = GraphStore::new();
    let a = store.create_entity().unwrap();
    assert!(store.queue_delete(a));
    assert!(store.queue_delete(a));
    store.apply_deletions();
    assert!(!store.queue_delete(a));
    store.apply_deletions();
    assert!(!store.is_alive(a));
    assert!(!store.queue_delete(Entity { index: 40, generation: 1 }));
}

#[test]
fn a_freed_slot_is_reused_under_a_new_generation() {
    let mut store = GraphStore::new();
    let a = store.create_entity().unwrap();
    let b = store.create_entity().unwrap();
    store.queue_delete(a);
    store.apply_deletions();
    let c = store.create_entity().unwrap();
    assert_eq!(c.index, a.index);
    assert_eq!(c.generation, a.generation + 1);
    assert!(store.is_alive(c));
    assert!(!store.is_alive(a));
    assert!(store.is_alive(b));
    assert_eq!(store.len(), 2);
    assert_eq!(store.room(), REGISTRY_CAPACITY - 3);
}

#[test]
fn a_slot_never_returns_to_a_generation_it_had() {
    let mut store = GraphStore::new();
    let keep = store.create_entity().unwrap();
    let mut seen = Vec::new();
    for round in 0..20 {
        let e = store.create_entity().unwrap();
        assert_eq!(e.generation, round + 1);
        for old in &seen {
            assert_ne!(e, *old);
            assert!(!store.is_alive(*old));
        }
        seen.push(e);
        store.queue_delete(e);
        store.apply_deletions();
    }
    assert!(store.is_alive(keep));
    assert_eq!(keep.generation, 1);
    assert_eq!(store.room(), REGISTRY_CAPACITY - 21);
}

#[test]
fn an_old_reference_finds_nothing_in_a_reused_slot() {
    let mut store = GraphStore::new();
    let a = store.build_entity(Some(Record::Wire(Wire { signal: true })), None).unwrap();
    store.queue_delete(a);
    store.apply_deletions();
    let c = store.build_entity(Some(Record::Wire(Wire { signal: false })), None).unwrap();
    assert_eq!(c.index, a.index);
    assert_eq!(store.wire(a), None);
    assert_eq!(store.wire(c), Some(Wire { signal: false }));
    assert!(!store.attach(a, Record::Wire(Wire { signal: true })));
    assert!(!store.place(a, Pos::from_vec(0, 0)));
    assert_eq!(store.wire(c), Some(Wire { signal: false }));
    assert_eq!(store.position(c), None);
}

#[test]
fn attaching_replaces_the_role() {
    let mut store = GraphStore::new();
    let e = store.create_entity().unwrap();
    let owner = store.create_entity().unwrap();
    assert!(store.attach(e, Record::Wire(Wire { signal: true })));
    assert_eq!(store.wire(e), Some(Wire { signal: true }));
    assert_eq!(store.wire_at(e.index as usize), Some(Wire { signal: true }));
    let port = Connection { wire: None, ty: ConnectionTy::Input, index: 1, node: owner };
    assert!(store.attach(e, Record::Port(port)));
    assert_eq!(store.wire(e), None);
    assert_eq!(store.port(e), Some(port));
    assert_eq!(store.port_at(e.index as usize), Some(port));
    assert!(store.attach(e, Record::Node(Connected::new(NodeTy::Xor))));
    assert_eq!(store.port(e), None);
    assert_eq!(store.node(e), Some(&Connected::new(NodeTy::Xor)));
    assert_eq!(store.node_at(e.index as usize), Some(&Connected::new(NodeTy::Xor)));
    assert_eq!(store.get(e), Some(&Record::Node(Connected::new(NodeTy::Xor))));
    assert_eq!(store.record_at(e.index as usize), store.get(e));
    assert_eq!(store.get(owner), None);
}

#[test]
fn placement_is_kept_beside_the_role() {
    let mut store = GraphStore::new();
    let e = store.build_entity(Some(Record::Wire(Wire { signal: false })), Some(Pos::from_vec(80, 0)))
        .unwrap();
    assert_eq!(store.position(e), Some(Pos::from_vec(75, 0)));
    assert!(store.place(e, Pos::from_vec_unrounded(3, 4)));
    assert_eq!(store.position(e), Some(Pos::from_vec_unrounded(3, 4)));
    assert_eq!(store.wire(e), Some(Wire { signal: false }));
}

#[test]
fn every_node_in_the_store_has_the_arity_of_its_kind() {
    let mut store = GraphStore::new();
    let kinds = [NodeTy::On, NodeTy::Not, NodeTy::Nand, NodeTy::Wire, NodeTy::Xnor];
    for kind in kinds {
        store.build_entity(Some(Record::Node(Connected::new(kind))), None).unwrap();
    }
    for i in 0..store.len() {
        let node = store.node_at(i).unwrap();
        assert_eq!(node.inputs().len(), node.node().inputs());
        assert_eq!(node.outputs().len(), node.node().outputs());
    }
}

#[test]
fn a_long_run_of_creations_and_deletions_keeps_the_store_in_order() {
    let mut store = GraphStore::new();
    let mut alive: Vec<Entity> = Vec::new();
    let mut dead: Vec<Entity> = Vec::new();
    let mut last_generation: Vec<i32> = Vec::new();
    let mut created = 0;
    let mut seed: u32 = 12345;
    for _ in 0..2000 {
        seed = seed.wrapping_mul(1_103_515_245).wrapping_add(12345);
        let roll = (seed >> 16) % 5;
        if roll < 3 || alive.is_empty() {
            let e = store.create_entity().unwrap();
            created += 1;
            assert!((e.index as usize) < created);
            assert!(e.generation >= 1 && e.generation as usize <= created);
            if (e.index as usize) >= last_generation.len() {
                last_generation.resize(e.index as usize + 1, 0);
            }
            assert_eq!(e.generation, last_generation[e.index as usize] + 1);
            last_generation[e.index as usize] = e.generation;
            assert!(!alive.contains(&e));
            assert!(!dead.contains(&e));
            assert!(alive.iter().all(|other| other.index != e.index));
            alive.push(e);
        } else {
            let pick = (seed >> 8) as usize % alive.len();
            let e = alive.swap_remove(pick);
            if roll == 3 {
                assert!(store.queue_delete(e));
                assert!(store.is_alive(e));
                store.apply_deletions();
            } else {
                assert!(store.queue_delete(e));
                assert!(store.queue_delete(e));
                store.apply_deletions();
                store.apply_deletions();
            }
            dead.push(e);
        }
        assert_eq!(store.room(), REGISTRY_CAPACITY - created);
        assert!(store.len() <= created);
        for e in &alive {
            assert!(store.is_alive(*e));
            assert_eq!(store.entity_at(e.index as usize), Some(*e));
        }
        for e in dead.iter().rev().take(20) {
            assert!(!store.is_alive(*e));
        }
    }
    assert!(dead.len() > 500);
    assert!(dead.iter().all(|e| !store.is_alive(*e)));
}

#[test]
fn a_full_store_creates_nothing() {
    let mut store = GraphStore::new();
    let mut last = None;
    for _ in 0..REGISTRY_CAPACITY {
        last = store.create_entity();
        assert!(last.is_some());
    }
    let last = last.unwrap();
    assert_eq!(last.index as usize, REGISTRY_CAPACITY - 1);
    assert_eq!(store.room(), 0);
    assert_eq!(store.create_entity(), None);
    assert_eq!(store.build_entity(Some(Record::Wire(Wire { signal: true })), None), None);
    assert_eq!(store.len(), REGISTRY_CAPACITY);
    // Deleting frees a slot but not the count of creations.
    store.queue_delete(last);
    store.apply_deletions();
    assert_eq!(store.create_entity(), None);
    assert_eq!(store.room(), 0);
}

#[test]
fn one_pass_lists_what_is_placed_in_slot_order() {
    let mut store = GraphStore::new();
    assert_eq!(store.placements(), vec![]);
    let a = store.build_entity(None, Some(Pos::from_vec_unrounded(1, 2))).unwrap();
    let b = store.create_entity().unwrap();
    let c = store.build_entity(Some(Record::Wire(Wire { signal: true })), Some(Pos::from_vec(80, 80)))
        .unwrap();
    let d = store.build_entity(None, Some(Pos::from_vec_unrounded(5, 6))).unwrap();
    assert_eq!(
        store.placements(),
        vec![
            (a, Pos::from_vec_unrounded(1, 2)),
            (c, Pos::from_vec_unrounded(75, 75)),
            (d, Pos::from_vec_unrounded(5, 6)),
        ]
    );
    let pass = store.placements();
    store.queue_delete(a);
    assert_eq!(store.placements(), pass);
    store.apply_deletions();
    store.place(b, Pos::from_vec_unrounded(0, 0));
    assert_eq!(pass.len(), 3);
    assert_eq!(
        store.placements(),
        vec![
            (b, Pos::from_vec_unrounded(0, 0)),
            (c, Pos::from_vec_unrounded(75, 75)),
            (d, Pos::from_vec_unrounded(5, 6)),
        ]
    );
}
