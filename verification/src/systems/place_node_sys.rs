//! Placing a node: one entity for the node, snapped to the grid, and one
//! port entity for each of its inputs and outputs.

use crate::components::nodes::{arity_in, arity_out, input_offset, output_offset, NodeTy};
use crate::components::{
    snap, Connected, Connection, ConnectionTy, Entity, Orientation, Pos, Record, RecordView,
};
use crate::registry::REGISTRY_CAPACITY;
use crate::resources::{MousePos, UIState};
use crate::store::{lemma_follows_transitive, EntityState, GraphStore, StoreView};
use vstd::prelude::*;

verus! {

/// The number of ports that a kind has on one side.
pub open spec fn arity(kind: NodeTy, ty: ConnectionTy) -> nat {
    match ty {
        ConnectionTy::Input => arity_in(kind),
        ConnectionTy::Output => arity_out(kind),
    }
}

/// Where port `k` on one side of a node goes when the node is placed with
/// the pointer at `mouse`: the pointer's position plus the port's offset.
pub open spec fn port_spot(kind: NodeTy, ty: ConnectionTy, mouse: MousePos, k: int) -> (int, int) {
    let offset = match ty {
        ConnectionTy::Input => input_offset(kind, k),
        ConnectionTy::Output => output_offset(kind, k),
    };
    (mouse.0 + offset.0, mouse.1 + offset.1)
}

/// Whether a spot lies on the canvas.
pub open spec fn on_canvas(spot: (int, int)) -> bool {
    i32::MIN <= spot.0 <= i32::MAX && i32::MIN <= spot.1 <= i32::MAX
}

/// Whether every port on one side of a node placed at `mouse` lies on the canvas.
pub open spec fn side_fits(kind: NodeTy, ty: ConnectionTy, mouse: MousePos) -> bool {
    forall|k: int| 0 <= k < arity(kind, ty) ==> on_canvas(#[trigger] port_spot(kind, ty, mouse, k))
}

/// Whether every port of a node placed at `mouse` lies on the canvas.
pub open spec fn fits(kind: NodeTy, mouse: MousePos) -> bool {
    side_fits(kind, ConnectionTy::Input, mouse) && side_fits(kind, ConnectionTy::Output, mouse)
}

/// The placement of a port at a spot.
pub open spec fn port_pos(spot: (int, int)) -> Pos {
    Pos { orientation: Orientation::Right, x: spot.0 as i32, y: spot.1 as i32 }
}

/// The state of a port that has just been made for slot `k` on one side of
/// `owner`: bound to nothing, placed at `pos`.
pub open spec fn port_state(p: Entity, owner: Entity, ty: ConnectionTy, k: int, pos: Pos) -> EntityState {
    EntityState {
        generation: p.generation,
        doomed: false,
        record: Some(RecordView::Port(Connection { wire: None, ty, index: k as usize, node: owner })),
        pos: Some(pos),
    }
}

/// `after` is `before` with one new port of `owner` at each of `spots`, and
/// nothing else new or changed; `ports` names the new ports in slot order.
pub open spec fn spawned(
    before: StoreView,
    after: StoreView,
    owner: Entity,
    ty: ConnectionTy,
    spots: Seq<Pos>,
    ports: Seq<Option<Entity>>,
) -> bool {
    &&& ports.len() == spots.len()
    &&& after.created == before.created + spots.len()
    &&& after.slots.len() >= before.slots.len()
    &&& after.follows(before)
    &&& forall|i: int| before.occupied(i) ==> #[trigger] after.slots[i] == before.slots[i]
    &&& forall|k: int|
        0 <= k < spots.len() ==> {
            &&& (#[trigger] ports[k]) matches Some(p)
            &&& !before.occupied(p.index as int)
            &&& p.generation > before.last_generation(p.index as int)
            &&& after.slots.len() > p.index
            &&& after.slots[p.index as int] == Some(port_state(p, owner, ty, k, spots[k]))
        }
    &&& forall|i: int|
        #[trigger] after.occupied(i) && !before.occupied(i) ==> exists|k: int|
            0 <= k < spots.len() && (#[trigger] ports[k])->0.index == i
}

/// `after` is `before` with a new node of `kind`, placed with the pointer
/// at `mouse`, and its ports: the node is `node`, snapped to the grid and
/// connected to one new port per input and per output, each port unbound
/// and placed at the pointer's position plus its offset. Nothing else is new
/// and nothing that existed has changed. Every new entity has a generation
/// that its slot never had.
pub open spec fn placed(
    before: StoreView,
    after: StoreView,
    kind: NodeTy,
    mouse: MousePos,
    node: Entity,
) -> bool {
    let c = after.node(node);
    &&& after.created == before.created + 1 + arity_in(kind) + arity_out(kind)
    &&& after.slots.len() >= before.slots.len()
    &&& after.follows(before)
    &&& forall|i: int| before.occupied(i) ==> #[trigger] after.slots[i] == before.slots[i]
    &&& !before.occupied(node.index as int)
    &&& node.generation > before.last_generation(node.index as int)
    &&& after.is_node(node)
    &&& !after.doomed(node)
    &&& after.position(node) == Some(
        Pos {
            orientation: Orientation::Right,
            x: snap(mouse.0 as int) as i32,
            y: snap(mouse.1 as int) as i32,
        },
    )
    &&& c.node == kind
    &&& c.wf()
    &&& forall|k: int|
        0 <= k < arity_in(kind) ==> {
            &&& (#[trigger] c.inputs[k]) matches Some(p)
            &&& !before.occupied(p.index as int)
            &&& p.generation > before.last_generation(p.index as int)
            &&& after.slots.len() > p.index
            &&& after.slots[p.index as int] == Some(
                port_state(
                    p,
                    node,
                    ConnectionTy::Input,
                    k,
                    port_pos(port_spot(kind, ConnectionTy::Input, mouse, k)),
                ),
            )
        }
    &&& forall|k: int|
        0 <= k < arity_out(kind) ==> {
            &&& (#[trigger] c.outputs[k]) matches Some(p)
            &&& !before.occupied(p.index as int)
            &&& p.generation > before.last_generation(p.index as int)
            &&& after.slots.len() > p.index
            &&& after.slots[p.index as int] == Some(
                port_state(
                    p,
                    node,
                    ConnectionTy::Output,
                    k,
                    port_pos(port_spot(kind, ConnectionTy::Output, mouse, k)),
                ),
            )
        }
    &&& forall|i: int|
        #[trigger] after.occupied(i) && !before.occupied(i) ==> {
            ||| i == node.index
            ||| exists|k: int| 0 <= k < arity_in(kind) && (#[trigger] c.inputs[k])->0.index == i
            ||| exists|k: int| 0 <= k < arity_out(kind) && (#[trigger] c.outputs[k])->0.index == i
        }
}

/// The placements of the ports on one side of a node placed at `mouse`, if
/// they all lie on the canvas.
fn port_spots(kind: NodeTy, ty: ConnectionTy, mouse: MousePos) -> (spots: Option<Vec<Pos>>)
    ensures
        spots is Some <==> side_fits(kind, ty, mouse),
        spots matches Some(found) ==> {
            &&& found@.len() == arity(kind, ty)
            &&& forall|k: int|
                0 <= k < found@.len() ==> #[trigger] found@[k] == port_pos(
                    port_spot(kind, ty, mouse, k),
                )
        },
{
    let count: usize = match ty {
        ConnectionTy::Input => kind.inputs(),
        ConnectionTy::Output => kind.outputs(),
    };
    let mut found: Vec<Pos> = Vec::new();
    let mut k: usize = 0;
    while k < count
        invariant
            k <= count,
            count == arity(kind, ty),
            found@.len() == k,
            forall|m: int| 0 <= m < k ==> on_canvas(#[trigger] port_spot(kind, ty, mouse, m)),
            forall|m: int|
                0 <= m < k ==> #[trigger] found@[m] == port_pos(port_spot(kind, ty, mouse, m)),
        decreases count - k,
    {
        let offset = match ty {
            ConnectionTy::Input => kind.input_offset(k),
            ConnectionTy::Output => kind.output_offset(k),
        };
        let x: i64 = mouse.0 as i64 + offset.0 as i64;
        let y: i64 = mouse.1 as i64 + offset.1 as i64;
        assert(port_spot(kind, ty, mouse, k as int) == (x as int, y as int));
        if x < i32::MIN as i64 || x > i32::MAX as i64 || y < i32::MIN as i64 || y > i32::MAX as i64 {
            assert(!on_canvas(port_spot(kind, ty, mouse, k as int)));
            return None;
        }
        found.push(Pos::from_vec_unrounded(x as i32, y as i32));
        k += 1;
    }
    Some(found)
}

/// Makes one port of `owner` at each of `spots`.
fn spawn_ports(store: &mut GraphStore, owner: Entity, ty: ConnectionTy, spots: &Vec<Pos>) -> (ports:
    Vec<Option<Entity>>)
    requires
        old(store).wf(),
        old(store)@.created + spots@.len() <= REGISTRY_CAPACITY,
    ensures
        final(store).wf(),
        spawned(old(store)@, final(store)@, owner, ty, spots@, ports@),
{
    let ghost before = store@;
    let mut ports: Vec<Option<Entity>> = Vec::new();
    let mut k: usize = 0;
    while k < spots.len()
        invariant
            store.wf(),
            k <= spots@.len(),
            before.created + spots@.len() <= REGISTRY_CAPACITY,
            spawned(before, store@, owner, ty, spots@.subrange(0, k as int), ports@),
        decreases spots@.len() - k,
    {
        let ghost mid = store@;
        let ghost ports_mid = ports@;
        let port = Connection { wire: None, ty, index: k, node: owner };
        let built = store.build_entity(Some(Record::Port(port)), Some(spots[k]));
        ports.push(built);
        proof {
            assert(built is Some);
            let p = built->0;
            let now = store@;
            let upto = spots@.subrange(0, k + 1);
            assert(!before.occupied(p.index as int)) by {
                if before.occupied(p.index as int) {
                    assert(mid.slots[p.index as int] == before.slots[p.index as int]);
                }
            }
            lemma_follows_transitive(before, mid, now);
            assert(p.generation > before.last_generation(p.index as int)) by {
                if 0 <= p.index < before.generations.len() {
                    assert(mid.generations[p.index as int] >= before.generations[p.index as int]);
                }
            }
            assert forall|i: int| before.occupied(i) implies #[trigger] now.slots[i]
                == before.slots[i] by {
                assert(mid.slots[i] == before.slots[i]);
            }
            assert forall|m: int| 0 <= m < upto.len() implies {
                &&& (#[trigger] ports@[m]) matches Some(q)
                &&& !before.occupied(q.index as int)
                &&& q.generation > before.last_generation(q.index as int)
                &&& now.slots.len() > q.index
                &&& now.slots[q.index as int] == Some(port_state(q, owner, ty, m, upto[m]))
            } by {
                if m < k {
                    assert(ports@[m] == ports_mid[m]);
                    let q = ports_mid[m]->0;
                    assert(mid.slots[q.index as int] == Some(
                        port_state(q, owner, ty, m, spots@.subrange(0, k as int)[m]),
                    ));
                    assert(mid.occupied(q.index as int));
                }
            }
            assert forall|i: int| #[trigger] now.occupied(i) && !before.occupied(i) implies exists|
                m: int,
            |
                0 <= m < upto.len() && (#[trigger] ports@[m])->0.index == i by {
                if i == p.index {
                    assert(ports@[k as int]->0.index == i);
                } else {
                    assert(mid.occupied(i));
                    let m = choose|m: int|
                        0 <= m < k && (#[trigger] ports_mid[m])->0.index == i;
                    assert(ports@[m]->0.index == i);
                }
            }
        }
        k += 1;
    }
    assert(spots@.subrange(0, k as int) =~= spots@);
    ports
}

/// Places nodes of one kind.
#[derive(Clone, Copy, Debug)]
pub struct PlaceNodeSys {
    node: NodeTy,
}

impl PlaceNodeSys {
    /// The kind of node that this places.
    pub closed spec fn kind(&self) -> NodeTy {
        self.node
    }

    /// A system that places nodes of `kind`.
    pub fn new(kind: NodeTy) -> (sys: PlaceNodeSys)
        ensures
            sys.kind() == kind,
    {
        PlaceNodeSys { node: kind }
    }

    /// Places one node with the pointer at `mouse` and returns it. Nothing
    /// is placed, and the store is left as it was, where a port would fall
    /// off the canvas or the store has no room for the node and its ports.
    pub fn run(&self, store: &mut GraphStore, mouse: MousePos) -> (node: Option<Entity>)
        requires
            old(store).wf(),
        ensures
            final(store).wf(),
            node is Some <==> fits(self.kind(), mouse) && old(store)@.created + 1 + arity_in(
                self.kind(),
            ) + arity_out(self.kind()) <= REGISTRY_CAPACITY,
            node is None ==> final(store)@ == old(store)@,
            node matches Some(e) ==> placed(old(store)@, final(store)@, self.kind(), mouse, e),
            final(store)@.follows(old(store)@),
    {
        let kind = self.node;
        let ghost before = store@;
        if store.room() < 1 + kind.inputs() + kind.outputs() {
            return None;
        }
        let spots_in = match port_spots(kind, ConnectionTy::Input, mouse) {
            Some(spots) => spots,
            None => {
                return None;
            },
        };
        let spots_out = match port_spots(kind, ConnectionTy::Output, mouse) {
            Some(spots) => spots,
            None => {
                return None;
            },
        };
        let pos = Pos::from_vec(mouse.0, mouse.1);
        let node = match store.build_entity(None, Some(pos)) {
            Some(e) => e,
            None => {
                return None;
            },
        };
        let ghost with_node = store@;
        let inputs = spawn_ports(store, node, ConnectionTy::Input, &spots_in);
        let ghost with_inputs = store@;
        let outputs = spawn_ports(store, node, ConnectionTy::Output, &spots_out);
        let ghost with_outputs = store@;
        let ghost ins = inputs@;
        let ghost outs = outputs@;
        let connected = match Connected::wired(kind, inputs, outputs) {
            Some(c) => c,
            None => {
                return None;
            },
        };
        store.attach(node, Record::Node(connected));
        proof {
            let after = store@;
            let at = node.index as int;
            lemma_follows_transitive(before, with_node, with_inputs);
            lemma_follows_transitive(before, with_inputs, with_outputs);
            lemma_follows_transitive(before, with_outputs, after);
            assert(with_node.occupied(at));
            assert(with_inputs.slots[at] == with_node.slots[at]);
            assert(with_inputs.occupied(at));
            assert(with_outputs.slots[at] == with_inputs.slots[at]);
            assert(after.alive(node));
            let c = after.node(node);
            assert(c.inputs == ins && c.outputs == outs);
            assert forall|i: int| before.occupied(i) implies #[trigger] after.slots[i]
                == before.slots[i] by {
                assert(with_node.slots[i] == before.slots[i]);
                assert(with_node.occupied(i));
                assert(with_inputs.slots[i] == with_node.slots[i]);
                assert(with_inputs.occupied(i));
                assert(with_outputs.slots[i] == with_inputs.slots[i]);
            }
            assert forall|k: int| 0 <= k < arity_in(kind) implies {
                &&& (#[trigger] c.inputs[k]) matches Some(p)
                &&& !before.occupied(p.index as int)
                &&& p.generation > before.last_generation(p.index as int)
                &&& after.slots.len() > p.index
                &&& after.slots[p.index as int] == Some(
                    port_state(
                        p,
                        node,
                        ConnectionTy::Input,
                        k,
                        port_pos(port_spot(kind, ConnectionTy::Input, mouse, k)),
                    ),
                )
            } by {
                let p = ins[k]->0;
                assert(with_inputs.slots[p.index as int] == Some(
                    port_state(p, node, ConnectionTy::Input, k, spots_in@[k]),
                ));
                assert(with_inputs.occupied(p.index as int));
                assert(with_outputs.slots[p.index as int] == with_inputs.slots[p.index as int]);
                if before.occupied(p.index as int) {
                    assert(with_node.slots[p.index as int] == before.slots[p.index as int]);
                }
                if 0 <= p.index < before.generations.len() {
                    let at = p.index as int;
                    assert(with_node.generations[at] >= before.generations[at]);
                }
            }
            assert forall|k: int| 0 <= k < arity_out(kind) implies {
                &&& (#[trigger] c.outputs[k]) matches Some(p)
                &&& !before.occupied(p.index as int)
                &&& p.generation > before.last_generation(p.index as int)
                &&& after.slots.len() > p.index
                &&& after.slots[p.index as int] == Some(
                    port_state(
                        p,
                        node,
                        ConnectionTy::Output,
                        k,
                        port_pos(port_spot(kind, ConnectionTy::Output, mouse, k)),
                    ),
                )
            } by {
                let p = outs[k]->0;
                assert(with_outputs.slots[p.index as int] == Some(
                    port_state(p, node, ConnectionTy::Output, k, spots_out@[k]),
                ));
                if before.occupied(p.index as int) {
                    assert(with_node.slots[p.index as int] == before.slots[p.index as int]);
                    assert(with_node.occupied(p.index as int));
                    assert(with_inputs.slots[p.index as int] == with_node.slots[p.index as int]);
                }
                if 0 <= p.index < before.generations.len() {
                    let at = p.index as int;
                    assert(with_inputs.generations[at] >= before.generations[at]);
                }
            }
            assert forall|i: int| #[trigger] after.occupied(i) && !before.occupied(i) implies {
                ||| i == node.index
                ||| exists|k: int|
                    0 <= k < arity_in(kind) && (#[trigger] c.inputs[k])->0.index == i
                ||| exists|k: int|
                    0 <= k < arity_out(kind) && (#[trigger] c.outputs[k])->0.index == i
            } by {
                if i != node.index {
                    assert(with_outputs.occupied(i));
                    if with_inputs.occupied(i) {
                        assert(!with_node.occupied(i));
                        let k = choose|k: int|
                            0 <= k < spots_in@.len() && (#[trigger] ins[k])->0.index == i;
                        assert(c.inputs[k]->0.index == i);
                    } else {
                        let k = choose|k: int|
                            0 <= k < spots_out@.len() && (#[trigger] outs[k])->0.index == i;
                        assert(c.outputs[k]->0.index == i);
                    }
                }
            }
        }
        Some(node)
    }
}

/// Whether a node of `kind` can be placed with the pointer at `mouse`: its
/// ports lie on the canvas and the store has room for it and for them.
pub open spec fn can_place(v: StoreView, kind: NodeTy, mouse: MousePos) -> bool {
    fits(kind, mouse) && v.created + 1 + arity_in(kind) + arity_out(kind) <= REGISTRY_CAPACITY
}

/// Whether a node of `kind` may be placed in this mode: while no gesture is
/// under way, or while a node of that very kind waits to be placed.
pub open spec fn may_place(mode: UIState, kind: NodeTy) -> bool {
    mode == UIState::Nothing || mode == UIState::AddingNode(kind)
}

/// What placing a node of `kind` at `mouse` does to the store and to the
/// editor's mode.
pub open spec fn node_step(
    before: StoreView,
    mode: UIState,
    kind: NodeTy,
    mouse: MousePos,
    after: StoreView,
    next: UIState,
) -> bool {
    if may_place(mode, kind) && can_place(before, kind, mouse) {
        &&& next == UIState::Nothing
        &&& exists|node: Entity| #[trigger] placed(before, after, kind, mouse, node)
    } else {
        after == before && next == mode
    }
}

/// Places a node of `kind` with the pointer at `mouse`, if the editor's
/// mode allows it and the node can be placed, and returns to the idle mode.
/// Otherwise nothing changes.
pub fn place_node(store: &mut GraphStore, state: &mut UIState, kind: NodeTy, mouse: MousePos) -> (node:
    Option<Entity>)
    requires
        old(store).wf(),
    ensures
        final(store).wf(),
        node is Some <==> may_place(*old(state), kind) && can_place(old(store)@, kind, mouse),
        node matches Some(e) ==> placed(old(store)@, final(store)@, kind, mouse, e),
        node_step(old(store)@, *old(state), kind, mouse, final(store)@, *final(state)),
        final(store)@.follows(old(store)@),
{
    let allowed = match *state {
        UIState::Nothing => true,
        UIState::AddingNode(pending) => pending == kind,
        _ => false,
    };
    if !allowed {
        return None;
    }
    let node = PlaceNodeSys::new(kind).run(store, mouse);
    match node {
        Some(e) => {
            assert(placed(old(store)@, store@, kind, mouse, e));
            *state = UIState::Nothing;
        },
        None => {},
    }
    node
}

} // verus!
