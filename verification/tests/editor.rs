use simple_electronics::components::nodes::NodeTy;
use simple_electronics::components::{
    Connection, ConnectionTy, Entity, Orientation, Pos, Record, Wire,
};
use simple_electronics::registry::REGISTRY_CAPACITY;
use simple_electronics::resources::{
    AddingNode, MousePos, UIState, UiSignal, UiSignals,
};
use simple_electronics::store::GraphStore;
use simple_electronics::systems::place_node_sys::{place_node, PlaceNodeSys};
use simple_electronics::systems::place_wire_sys::{is_free_port, place_wire, port_holds};
use simple_electronics::systems::simulation_systems::tick;
use simple_electronics::ui::mouse_click::{
    delete_at, handle_mouse_click, handle_mouse_right_click, handle_signal, handle_signals,
    set_deleting,
};
use simple_electronics::ui::pointer::{find_target, is_within_reach, reach_of, HIT_RADIUS};

fn place(store: &mut GraphStore, kind: NodeTy, x: i32, y: i32) -> Entity {
    PlaceNodeSys::new(kind).run(store, MousePos(x, y)).unwrap()
}

fn input(store: &GraphStore, node: Entity, slot: usize) -> Entity {
    store.node(node).unwrap().inputs()[slot].unwrap()
}

fn output(store: &GraphStore, node: Entity, slot: usize) -> Entity {
    store.node(node).unwrap().outputs()[slot].unwrap()
}

fn at(store: &GraphStore, e: Entity) -> MousePos {
    let pos = store.position(e).unwrap();
    MousePos(pos.x, pos.y)
}

fn click_on(store: &mut GraphStore, state: &mut UIState, e: Entity) {
    let mouse = at(store, e);
    handle_mouse_click(store, state, mouse);
}

fn right_click_on(store: &mut GraphStore, state: &mut UIState, e: Entity) {
    let mouse = at(store, e);
    handle_mouse_right_click(store, state, mouse);
}

fn wire_click_on(store: &mut GraphStore, state: &mut UIState, e: Entity) {
    let mouse = at(store, e);
    place_wire(store, state, mouse);
}

/// Draws a wire from port `from` to port `to` with two primary clicks.
fn connect(store: &mut GraphStore, from: Entity, to: Entity) -> Entity {
    let mut state = UIState::Nothing;
    click_on(store, &mut state, from);
    let wire = match state {
        UIState::AddingWire { wire_entity, .. } => wire_entity,
        other => panic!("no wire was started: {:?}", other),
    };
    click_on(store, &mut state, to);
    assert_eq!(state, UIState::Nothing);
    assert_eq!(store.port(from).unwrap().wire, Some(wire));
    assert_eq!(store.port(to).unwrap().wire, Some(wire));
    wire
}

fn count_alive(store: &GraphStore) -> usize {
    (0..store.len()).filter(|i| store.entity_at(*i).is_some()).count()
}

#[test]
fn placing_a_node_makes_the_node_and_its_ports() {
    let mut store = GraphStore::new();
    let node = place(&mut store, NodeTy::And, 310, 140);
    assert_eq!(count_alive(&store), 4);
    assert_eq!(store.room(), REGISTRY_CAPACITY - 4);
    assert_eq!(store.position(node), Some(Pos { orientation: Orientation::Right, x: 300, y: 150 }));
    let connected = store.node(node).unwrap();
    assert_eq!(connected.node(), NodeTy::And);
    assert_eq!(connected.inputs().len(), 2);
    assert_eq!(connected.outputs().len(), 1);

    let expected = [
        (input(&store, node, 0), ConnectionTy::Input, 0, (260, 115)),
        (input(&store, node, 1), ConnectionTy::Input, 1, (260, 165)),
        (output(&store, node, 0), ConnectionTy::Output, 0, (360, 140)),
    ];
    for (port, ty, index, (x, y)) in expected {
        assert_eq!(store.port(port), Some(Connection { wire: None, ty, index, node }));
        assert_eq!(store.position(port), Some(Pos { orientation: Orientation::Right, x, y }));
        assert!(is_free_port(&store, port));
        assert!(!store.is_doomed(port));
    }
}

#[test]
fn placing_a_source_makes_one_port() {
    let mut store = GraphStore::new();
    let node = place(&mut store, NodeTy::On, 0, 0);
    assert_eq!(count_alive(&store), 2);
    assert_eq!(store.node(node).unwrap().inputs().len(), 0);
    let port = output(&store, node, 0);
    assert_eq!(store.position(port), Some(Pos::from_vec_unrounded(50, 0)));
}

#[test]
fn placing_changes_nothing_that_was_there() {
    let mut store = GraphStore::new();
    let first = place(&mut store, NodeTy::Not, 0, 0);
    let before_node = store.node(first).unwrap().duplicate();
    let port = input(&store, first, 0);
    let before_port = store.port(port);
    let second = place(&mut store, NodeTy::Xor, 500, 500);
    assert_ne!(first, second);
    assert_eq!(store.node(first), Some(&before_node));
    assert_eq!(store.port(port), before_port);
    assert_eq!(count_alive(&store), 3 + 4);
}

#[test]
fn a_node_whose_ports_fall_off_the_canvas_is_not_placed() {
    let mut store = GraphStore::new();
    let sys = PlaceNodeSys::new(NodeTy::And);
    assert_eq!(sys.run(&mut store, MousePos(i32::MAX - 49, 0)), None);
    assert_eq!(sys.run(&mut store, MousePos(i32::MIN + 49, 0)), None);
    assert_eq!(sys.run(&mut store, MousePos(0, i32::MAX - 24)), None);
    assert_eq!(sys.run(&mut store, MousePos(0, i32::MIN + 24)), None);
    assert_eq!(store.len(), 0);
    assert_eq!(store.room(), REGISTRY_CAPACITY);
    assert!(sys.run(&mut store, MousePos(i32::MAX - 50, i32::MIN + 25)).is_some());
    // A source has no input port and a single, level output port.
    let source = PlaceNodeSys::new(NodeTy::On);
    assert!(source.run(&mut store, MousePos(i32::MIN, i32::MAX)).is_some());
    assert_eq!(source.run(&mut store, MousePos(i32::MAX, 0)), None);
}

#[test]
fn a_click_places_the_pending_node_and_ends_the_gesture() {
    let mut store = GraphStore::new();
    let mut state = UIState::AddingNode(NodeTy::Nor);
    assert_eq!(state.adding_node(), AddingNode(Some(NodeTy::Nor)));
    assert!(state.adding_wire().0.is_none());
    handle_mouse_click(&mut store, &mut state, MousePos(10, 10));
    assert_eq!(state, UIState::Nothing);
    assert!(state.is_idle());
    assert_eq!(count_alive(&store), 4);
    let node = store.entity_at(0).unwrap();
    assert_eq!(store.node(node).unwrap().node(), NodeTy::Nor);
    assert_eq!(store.position(node), Some(Pos::from_vec(0, 0)));
}

#[test]
fn a_click_that_cannot_place_leaves_the_gesture_pending() {
    let mut store = GraphStore::new();
    let mut state = UIState::AddingNode(NodeTy::Nor);
    handle_mouse_click(&mut store, &mut state, MousePos(i32::MAX, 0));
    assert_eq!(state, UIState::AddingNode(NodeTy::Nor));
    assert_eq!(store.len(), 0);
}

#[test]
fn the_hit_radius_is_strict() {
    assert_eq!(HIT_RADIUS, 35);
    let pos = Pos::from_vec_unrounded(100, 100);
    assert!(is_within_reach(pos, MousePos(100, 100)));
    assert!(is_within_reach(pos, MousePos(134, 100)));
    assert!(!is_within_reach(pos, MousePos(135, 100)));
    assert!(!is_within_reach(pos, MousePos(100, 65)));
    assert!(is_within_reach(pos, MousePos(100, 66)));
    // 24 * 24 + 25 * 25 = 1201 < 1225 <= 25 * 25 + 25 * 25
    assert!(is_within_reach(pos, MousePos(124, 125)));
    assert!(!is_within_reach(pos, MousePos(125, 125)));
    assert!(!is_within_reach(Pos::from_vec_unrounded(i32::MAX, 0), MousePos(i32::MIN, 0)));
}

#[test]
fn the_distance_is_measured_exactly() {
    let pos = Pos::from_vec_unrounded(100, 100);
    assert_eq!(reach_of(pos, MousePos(100, 100)), Some(0));
    assert_eq!(reach_of(pos, MousePos(103, 96)), Some(25));
    assert_eq!(reach_of(pos, MousePos(76, 75)), Some(1201));
    assert_eq!(reach_of(pos, MousePos(66, 100)), Some(1156));
    assert_eq!(reach_of(pos, MousePos(65, 100)), None);
    assert_eq!(reach_of(pos, MousePos(75, 75)), None);
}

#[test]
fn a_click_is_aimed_at_the_nearest_entity_in_reach() {
    let mut store = GraphStore::new();
    let first = store.build_entity(None, Some(Pos::from_vec_unrounded(0, 0))).unwrap();
    let second = store.build_entity(None, Some(Pos::from_vec_unrounded(10, 0))).unwrap();
    let third = store.build_entity(None, Some(Pos::from_vec_unrounded(10, 0))).unwrap();
    let _unplaced = store.create_entity().unwrap();
    assert_eq!(find_target(&store, MousePos(4, 0), false), Some(first));
    assert_eq!(find_target(&store, MousePos(6, 0), false), Some(second));
    assert_eq!(find_target(&store, MousePos(40, 0), false), Some(second));
    assert_eq!(find_target(&store, MousePos(-30, 0), false), Some(first));
    assert_eq!(find_target(&store, MousePos(100, 0), false), None);
    assert_eq!(find_target(&store, MousePos(5, 0), true), None);
    // As near as each other: the earlier slot is taken.
    assert_eq!(find_target(&store, MousePos(5, 0), false), Some(first));
    store.queue_delete(second);
    store.apply_deletions();
    assert_eq!(find_target(&store, MousePos(6, 0), false), Some(third));
}

#[test]
fn ports_are_aimed_at_only_when_looked_for() {
    let mut store = GraphStore::new();
    let node = place(&mut store, NodeTy::On, 0, 0);
    let port = output(&store, node, 0);
    assert_eq!(find_target(&store, MousePos(25, 0), false), Some(node));
    assert_eq!(find_target(&store, MousePos(25, 0), true), Some(port));
    assert_eq!(find_target(&store, MousePos(45, 0), false), None);
    assert_eq!(find_target(&store, MousePos(-20, 0), true), None);
}

#[test]
fn a_node_is_placed_only_in_a_mode_that_allows_it() {
    let mut store = GraphStore::new();
    let mut state = UIState::Nothing;
    assert!(place_node(&mut store, &mut state, NodeTy::On, MousePos(0, 0)).is_some());
    assert_eq!(state, UIState::Nothing);

    let mut state = UIState::AddingNode(NodeTy::Not);
    assert!(place_node(&mut store, &mut state, NodeTy::Not, MousePos(0, 300)).is_some());
    assert_eq!(state, UIState::Nothing);
    assert_eq!(count_alive(&store), 2 + 3);

    let port = Entity { index: 0, generation: 1 };
    let refused = [
        UIState::AddingNode(NodeTy::And),
        UIState::Deleting,
        UIState::AddingWire { connection_entity: port, wire_entity: port, x_pos: None, y_pos: None },
    ];
    for mode in refused {
        let mut state = mode;
        assert_eq!(place_node(&mut store, &mut state, NodeTy::Not, MousePos(0, 600)), None);
        assert_eq!(state, mode);
        assert_eq!(count_alive(&store), 2 + 3);
    }
}

#[test]
fn the_deleting_mode_is_entered_from_idle_only() {
    let port = Entity { index: 0, generation: 1 };
    let drawing =
        UIState::AddingWire { connection_entity: port, wire_entity: port, x_pos: None, y_pos: None };
    let cases = [
        (UIState::Nothing, true, UIState::Deleting),
        (UIState::Nothing, false, UIState::Nothing),
        (UIState::Deleting, true, UIState::Deleting),
        (UIState::Deleting, false, UIState::Nothing),
        (UIState::AddingNode(NodeTy::Or), true, UIState::AddingNode(NodeTy::Or)),
        (UIState::AddingNode(NodeTy::Or), false, UIState::AddingNode(NodeTy::Or)),
        (drawing, true, drawing),
        (drawing, false, drawing),
    ];
    for (before, on, after) in cases {
        let mut state = before;
        set_deleting(&mut state, on);
        assert_eq!(state, after);
    }
}

#[test]
fn two_clicks_on_compatible_ports_bind_a_wire() {
    let mut store = GraphStore::new();
    let source = place(&mut store, NodeTy::On, 0, 0);
    let gate = place(&mut store, NodeTy::Not, 300, 0);
    let from = output(&store, source, 0);
    let to = input(&store, gate, 0);

    let mut state = UIState::Nothing;
    click_on(&mut store, &mut state, from);
    let (origin, wire) = match state {
        UIState::AddingWire { connection_entity, wire_entity, x_pos, y_pos } => {
            assert_eq!(x_pos, None);
            assert_eq!(y_pos, Some(0));
            (connection_entity, wire_entity)
        },
        other => panic!("no wire was started: {:?}", other),
    };
    assert_eq!(origin, from);
    assert_eq!(state.adding_wire().0, Some((from, None, Some(0))));
    assert_eq!(state.adding_node(), AddingNode(None));
    assert_eq!(store.wire(wire), Some(Wire { signal: false }));
    assert_eq!(store.position(wire), store.position(from));
    assert!(port_holds(&store, from, wire));
    assert!(!is_free_port(&store, from));
    assert!(is_free_port(&store, to));

    click_on(&mut store, &mut state, to);
    assert_eq!(state, UIState::Nothing);
    assert_eq!(store.port(from).unwrap().wire, Some(wire));
    assert_eq!(store.port(to).unwrap().wire, Some(wire));
    assert!(!is_free_port(&store, from));
    assert!(!is_free_port(&store, to));
    assert!(store.is_alive(wire));

    tick(&mut store);
    assert!(store.wire(wire).unwrap().signal);
}

#[test]
fn a_wire_can_be_drawn_from_an_input_to_an_output() {
    let mut store = GraphStore::new();
    let source = place(&mut store, NodeTy::On, 0, 0);
    let gate = place(&mut store, NodeTy::Not, 300, 0);
    let (from, to) = (input(&store, gate, 0), output(&store, source, 0));
    let wire = connect(&mut store, from, to);
    assert!(store.is_alive(wire));
}

#[test]
fn output_to_output_is_rejected() {
    let mut store = GraphStore::new();
    let a = place(&mut store, NodeTy::On, 0, 0);
    let b = place(&mut store, NodeTy::On, 0, 300);
    let from = output(&store, a, 0);
    let to = output(&store, b, 0);
    let mut state = UIState::Nothing;
    click_on(&mut store, &mut state, from);
    let wire = match state {
        UIState::AddingWire { wire_entity, .. } => wire_entity,
        other => panic!("no wire was started: {:?}", other),
    };
    click_on(&mut store, &mut state, to);
    assert_eq!(state, UIState::Nothing);
    assert_eq!(store.port(from).unwrap().wire, None);
    assert_eq!(store.port(to).unwrap().wire, None);
    assert!(!store.is_alive(wire));
    assert_eq!(count_alive(&store), 4);
}

#[test]
fn input_to_input_is_rejected() {
    let mut store = GraphStore::new();
    let gate = place(&mut store, NodeTy::And, 0, 0);
    let from = input(&store, gate, 0);
    let to = input(&store, gate, 1);
    let mut state = UIState::Nothing;
    wire_click_on(&mut store, &mut state, from);
    assert!(matches!(state, UIState::AddingWire { .. }));
    wire_click_on(&mut store, &mut state, to);
    assert_eq!(state, UIState::Nothing);
    assert_eq!(store.port(from).unwrap().wire, None);
    assert_eq!(store.port(to).unwrap().wire, None);
    assert_eq!(count_alive(&store), 4);
}

#[test]
fn a_second_click_on_empty_space_cancels_the_wire() {
    let mut store = GraphStore::new();
    let a = place(&mut store, NodeTy::On, 0, 0);
    let from = output(&store, a, 0);
    let mut state = UIState::Nothing;
    click_on(&mut store, &mut state, from);
    assert!(matches!(state, UIState::AddingWire { .. }));
    assert_eq!(count_alive(&store), 3);
    handle_mouse_click(&mut store, &mut state, MousePos(1000, 1000));
    assert_eq!(state, UIState::Nothing);
    assert_eq!(count_alive(&store), 2);
    assert!(is_free_port(&store, from));
}

#[test]
fn a_bound_port_takes_no_second_wire() {
    let mut store = GraphStore::new();
    let source = place(&mut store, NodeTy::On, 0, 0);
    let gate = place(&mut store, NodeTy::And, 300, 0);
    let from = output(&store, source, 0);
    let to = input(&store, gate, 0);
    let wire = connect(&mut store, from, to);

    // A first click on the bound port starts nothing.
    let mut state = UIState::Nothing;
    click_on(&mut store, &mut state, from);
    assert_eq!(state, UIState::Nothing);

    // A second click on the bound port cancels the wire being drawn.
    let other = input(&store, gate, 1);
    click_on(&mut store, &mut state, other);
    assert!(matches!(state, UIState::AddingWire { .. }));
    click_on(&mut store, &mut state, from);
    assert_eq!(state, UIState::Nothing);
    assert_eq!(store.port(other).unwrap().wire, None);
    assert_eq!(store.port(from).unwrap().wire, Some(wire));
    assert!(store.is_alive(wire));
}

#[test]
fn a_click_beside_every_port_starts_nothing() {
    let mut store = GraphStore::new();
    place(&mut store, NodeTy::On, 0, 0);
    let mut state = UIState::Nothing;
    handle_mouse_click(&mut store, &mut state, MousePos(0, 0));
    assert_eq!(state, UIState::Nothing);
    assert_eq!(count_alive(&store), 2);
}

#[test]
fn a_secondary_click_fixes_the_bend_once() {
    let mut store = GraphStore::new();
    let source = place(&mut store, NodeTy::On, 0, 40);
    let gate = place(&mut store, NodeTy::Not, 600, 300);
    let from = output(&store, source, 0);
    let to = input(&store, gate, 0);
    let mut state = UIState::Nothing;
    right_click_on(&mut store, &mut state, from);
    let wire = match state {
        UIState::AddingWire { connection_entity, wire_entity, x_pos: None, y_pos: Some(40) } => {
            assert_eq!(connection_entity, from);
            wire_entity
        },
        other => panic!("no wire was started: {:?}", other),
    };
    assert_eq!(store.position(wire), Some(Pos::from_vec_unrounded(50, 40)));

    handle_mouse_right_click(&mut store, &mut state, MousePos(320, 500));
    assert_eq!(
        state,
        UIState::AddingWire {
            connection_entity: from,
            wire_entity: wire,
            x_pos: Some(320),
            y_pos: Some(40),
        }
    );
    assert_eq!(store.position(wire), Some(Pos { orientation: Orientation::Right, x: 300, y: 75 }));
    assert_eq!(state.adding_wire().0, Some((from, Some(320), Some(40))));
    assert!(store.is_alive(wire));

    // With the bend fixed, the next secondary click is the wire's second click.
    right_click_on(&mut store, &mut state, to);
    assert_eq!(state, UIState::Nothing);
    assert_eq!(store.port(from).unwrap().wire, Some(wire));
    assert_eq!(store.port(to).unwrap().wire, Some(wire));
}

#[test]
fn the_wire_protocol_ignores_clicks_of_other_gestures() {
    let mut store = GraphStore::new();
    let source = place(&mut store, NodeTy::On, 0, 0);
    let from = output(&store, source, 0);
    for mode in [UIState::AddingNode(NodeTy::And), UIState::Deleting] {
        let mut state = mode;
        wire_click_on(&mut store, &mut state, from);
        assert_eq!(state, mode);
        assert_eq!(count_alive(&store), 2);
    }
}

#[test]
fn a_delete_gesture_over_empty_space_does_nothing() {
    let mut store = GraphStore::new();
    let node = place(&mut store, NodeTy::And, 0, 0);
    assert_eq!(delete_at(&mut store, MousePos(500, 500)), None);
    assert_eq!(count_alive(&store), 4);
    // Ports are never aimed at: this click is within reach of a port only.
    assert_eq!(delete_at(&mut store, MousePos(-50, -55)), None);
    assert_eq!(count_alive(&store), 4);
    assert!(store.is_alive(node));
}

#[test]
fn deleting_a_node_takes_its_ports_and_wires_along() {
    let mut store = GraphStore::new();
    let s1 = place(&mut store, NodeTy::On, 0, 0);
    let s2 = place(&mut store, NodeTy::On, 0, 300);
    let gate = place(&mut store, NodeTy::And, 300, 150);
    let sink = place(&mut store, NodeTy::Not, 600, 150);
    let x = place(&mut store, NodeTy::Off, 0, 900);
    let y = place(&mut store, NodeTy::Not, 300, 900);

    let (from, to) = (output(&store, s1, 0), input(&store, gate, 0));
    let w1 = connect(&mut store, from, to);
    let (from, to) = (output(&store, s2, 0), input(&store, gate, 1));
    let w2 = connect(&mut store, from, to);
    let (from, to) = (output(&store, gate, 0), input(&store, sink, 0));
    let w3 = connect(&mut store, from, to);
    let (from, to) = (output(&store, x, 0), input(&store, y, 0));
    let w4 = connect(&mut store, from, to);
    let gate_ports = [input(&store, gate, 0), input(&store, gate, 1), output(&store, gate, 0)];
    let other_ports = [
        output(&store, s1, 0),
        output(&store, s2, 0),
        input(&store, sink, 0),
        output(&store, sink, 0),
        output(&store, x, 0),
        input(&store, y, 0),
        output(&store, y, 0),
    ];
    let before = count_alive(&store);

    let mut state = UIState::Deleting;
    click_on(&mut store, &mut state, gate);
    assert_eq!(state, UIState::Deleting);

    assert!(!store.is_alive(gate));
    for port in gate_ports {
        assert!(!store.is_alive(port));
    }
    for wire in [w1, w2, w3] {
        assert!(!store.is_alive(wire));
    }
    assert_eq!(count_alive(&store), before - 1 - 3 - 3);

    for node in [s1, s2, sink, x, y] {
        assert!(store.node(node).is_some());
    }
    for port in other_ports {
        assert!(store.port(port).is_some());
    }
    assert_eq!(store.wire(w4), Some(Wire { signal: false }));
    assert_eq!(store.port(output(&store, x, 0)).unwrap().wire, Some(w4));
    assert_eq!(store.port(input(&store, y, 0)).unwrap().wire, Some(w4));

    // No port is left that belongs to the deleted node or is bound to one of
    // its wires.
    for i in 0..store.len() {
        if let Some(port) = store.port_at(i) {
            assert_ne!(port.node, gate);
            assert!(store.node(port.node).is_some());
            if let Some(w) = port.wire {
                if store.is_alive(w) {
                    assert_eq!(w, w4);
                }
            }
        }
    }
    // The ports that lost their wire can be wired again.
    assert!(is_free_port(&store, output(&store, s1, 0)));
    assert!(is_free_port(&store, input(&store, sink, 0)));
}

#[test]
fn a_request_for_a_node_waits_for_the_gesture_under_way() {
    let mut store = GraphStore::new();
    let mut state = UIState::Nothing;
    handle_signal(&mut store, &mut state, UiSignal::AddNode(NodeTy::And));
    assert_eq!(state, UIState::AddingNode(NodeTy::And));
    handle_signal(&mut store, &mut state, UiSignal::AddNode(NodeTy::Or));
    assert_eq!(state, UIState::AddingNode(NodeTy::Or));

    let mut state = UIState::Deleting;
    handle_signal(&mut store, &mut state, UiSignal::AddNode(NodeTy::And));
    assert_eq!(state, UIState::Deleting);

    let wire = store.build_entity(Some(Record::Wire(Wire { signal: false })), None).unwrap();
    let port = store.create_entity().unwrap();
    let drawing = UIState::AddingWire {
        connection_entity: port,
        wire_entity: wire,
        x_pos: None,
        y_pos: Some(0),
    };
    let mut state = drawing;
    handle_signal(&mut store, &mut state, UiSignal::AddNode(NodeTy::And));
    assert_eq!(state, drawing);
    handle_signal(&mut store, &mut state, UiSignal::Delete(MousePos(0, 0)));
    assert_eq!(state, drawing);
    assert!(store.is_alive(wire));
}

#[test]
fn a_delete_request_is_a_single_shot() {
    let mut store = GraphStore::new();
    let node = place(&mut store, NodeTy::Not, 0, 0);
    let mut state = UIState::Nothing;
    handle_signal(&mut store, &mut state, UiSignal::Delete(MousePos(3, 3)));
    assert_eq!(state, UIState::Nothing);
    assert!(!store.is_alive(node));
    assert_eq!(count_alive(&store), 0);
}

#[test]
fn the_signals_of_a_frame_are_handled_in_order() {
    let mut store = GraphStore::new();
    let mut state = UIState::default();
    assert_eq!(state, UIState::Nothing);
    let mut signals = UiSignals::default();
    signals.0.push(UiSignal::AddNode(NodeTy::On));
    signals.0.push(UiSignal::PrimaryClick(MousePos(0, 0)));
    signals.0.push(UiSignal::AddNode(NodeTy::Not));
    signals.0.push(UiSignal::PrimaryClick(MousePos(300, 0)));
    signals.0.push(UiSignal::PrimaryClick(MousePos(50, 0)));
    signals.0.push(UiSignal::SecondaryClick(MousePos(150, 90)));
    signals.0.push(UiSignal::PrimaryClick(MousePos(250, 0)));
    handle_signals(&mut store, &mut state, &mut signals);
    assert!(signals.0.is_empty());
    assert_eq!(state, UIState::Nothing);

    let source = store.entity_at(0).unwrap();
    assert_eq!(store.node(source).unwrap().node(), NodeTy::On);
    let from = output(&store, source, 0);
    let wire = store.port(from).unwrap().wire.unwrap();
    assert_eq!(store.position(wire), Some(Pos::from_vec(150, 0)));
    let mut bound = 0;
    for i in 0..store.len() {
        if let Some(port) = store.port_at(i) {
            if port.wire == Some(wire) {
                bound += 1;
            }
        }
    }
    assert_eq!(bound, 2);
    assert_eq!(count_alive(&store), 2 + 3 + 1);
}

#[test]
fn every_mode_is_one_gesture() {
    let port = Entity { index: 0, generation: 1 };
    let wire = Entity { index: 1, generation: 1 };
    let modes = [
        UIState::Nothing,
        UIState::AddingNode(NodeTy::Xnor),
        UIState::AddingWire { connection_entity: port, wire_entity: wire, x_pos: None, y_pos: None },
        UIState::Deleting,
    ];
    for mode in modes {
        let node_pending = mode.adding_node().0.is_some();
        let wire_pending = mode.adding_wire().0.is_some();
        assert!(!(node_pending && wire_pending));
        assert_eq!(node_pending, matches!(mode, UIState::AddingNode(_)));
        assert_eq!(wire_pending, matches!(mode, UIState::AddingWire { .. }));
        assert_eq!(mode.is_idle(), mode == UIState::Nothing);
    }
}

/// For each live wire, how many input ports and how many output ports are
/// bound to it.
fn ends_of_wires(store: &GraphStore) -> Vec<(Entity, usize, usize)> {
    let mut found = Vec::new();
    for i in 0..store.len() {
        if store.wire_at(i).is_none() {
            continue;
        }
        let wire = store.entity_at(i).unwrap();
        let mut sinks = 0;
        let mut sources = 0;
        for k in 0..store.len() {
            match store.port_at(k) {
                Some(port) if port.wire == Some(wire) => match port.ty {
                    ConnectionTy::Input => sinks += 1,
                    ConnectionTy::Output => sources += 1,
                },
                _ => {},
            }
        }
        found.push((wire, sinks, sources));
    }
    found
}

#[test]
fn a_wire_never_has_two_ports_of_one_direction() {
    let mut store = GraphStore::new();
    let mut state = UIState::Nothing;
    let mut signals = UiSignals::default();
    let clicks = [
        (0, 0),
        (50, 0),
        (250, -25),
        (50, 0),
        (250, 25),
        (350, 0),
        (50, 300),
        (350, 0),
        (250, 25),
        (50, 300),
        (250, 25),
        (250, -25),
        (900, 900),
        (350, 0),
        (250, 25),
    ];
    signals.0.push(UiSignal::AddNode(NodeTy::On));
    signals.0.push(UiSignal::PrimaryClick(MousePos(0, 0)));
    signals.0.push(UiSignal::AddNode(NodeTy::And));
    signals.0.push(UiSignal::PrimaryClick(MousePos(300, 0)));
    signals.0.push(UiSignal::AddNode(NodeTy::Off));
    signals.0.push(UiSignal::PrimaryClick(MousePos(0, 300)));
    handle_signals(&mut store, &mut state, &mut signals);
    for (round, (x, y)) in clicks.iter().enumerate() {
        if round % 4 == 3 {
            handle_mouse_right_click(&mut store, &mut state, MousePos(*x, *y));
        } else {
            handle_mouse_click(&mut store, &mut state, MousePos(*x, *y));
        }
        for (wire, sinks, sources) in ends_of_wires(&store) {
            assert!(sinks <= 1 && sources <= 1, "round {}: {:?}", round, wire);
            if let UIState::AddingWire { connection_entity, wire_entity, .. } = state {
                if wire == wire_entity {
                    assert_eq!(sinks + sources, 1);
                    assert!(port_holds(&store, connection_entity, wire_entity));
                }
            }
        }
    }
    assert!(ends_of_wires(&store).iter().any(|(_, sinks, sources)| sinks + sources == 2));
}

#[test]
fn a_store_without_room_takes_no_node_and_no_wire() {
    let mut store = GraphStore::new();
    let node = place(&mut store, NodeTy::And, 0, 0);
    let from = input(&store, node, 0);
    while store.room() > 3 {
        store.create_entity().unwrap();
    }
    let before = count_alive(&store);
    assert_eq!(PlaceNodeSys::new(NodeTy::And).run(&mut store, MousePos(500, 500)), None);
    assert_eq!(count_alive(&store), before);
    assert!(PlaceNodeSys::new(NodeTy::Not).run(&mut store, MousePos(500, 500)).is_some());
    assert_eq!(store.room(), 0);

    let mut state = UIState::Nothing;
    click_on(&mut store, &mut state, from);
    assert_eq!(state, UIState::Nothing);
    assert!(is_free_port(&store, from));
    let mut state = UIState::AddingNode(NodeTy::On);
    handle_mouse_click(&mut store, &mut state, MousePos(900, 900));
    assert_eq!(state, UIState::AddingNode(NodeTy::On));
}
