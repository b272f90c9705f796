//! Drawing a wire: a first click on a free port starts it, a second click
//! on a free port of the opposite direction binds both ends, and any other
//! second click throws the wire away.

use crate::components::{Connection, Entity, Pos, Record, RecordView, Wire};
use crate::registry::REGISTRY_CAPACITY;
use crate::resources::{MousePos, UIState};
use crate::store::{
    lemma_follows_reflexive, lemma_follows_transitive, EntityState, GraphStore, StoreView,
};
use crate::systems::cleanup_sys::{run_cleanup_systems, swept};
use crate::ui::pointer::{find_target, lemma_target_is_hit, target};
use vstd::prelude::*;

verus! {

/// Whether `p` is a port bound to a wire that exists.
pub open spec fn bound(v: StoreView, p: Entity) -> bool {
    &&& v.is_port(p)
    &&& v.port(p).wire is Some
    &&& v.is_wire(v.port(p).wire->0)
}

/// Whether `p` is a port that no wire is bound to.
pub open spec fn free_port(v: StoreView, p: Entity) -> bool {
    v.is_port(p) && !bound(v, p)
}

/// Whether a click at `mouse` starts a wire: it is aimed at a free port,
/// and the store has room for the wire.
pub open spec fn can_start(v: StoreView, mouse: MousePos) -> bool {
    &&& target(v, mouse, true) is Some
    &&& free_port(v, target(v, mouse, true)->0)
    &&& v.created < REGISTRY_CAPACITY
}

/// The state of a wire that has just been started at `pos`.
pub open spec fn pending_wire(wire: Entity, pos: Pos) -> EntityState {
    EntityState {
        generation: wire.generation,
        doomed: false,
        record: Some(RecordView::Wire(Wire { signal: false })),
        pos: Some(pos),
    }
}

/// The store with the port `p` bound to `wire`.
pub open spec fn bound_to(v: StoreView, p: Entity, wire: Entity) -> StoreView {
    v.with_record(p, RecordView::Port(Connection { wire: Some(wire), ..v.port(p) }))
}

/// Whether `p` is a port whose binding names `wire`.
pub open spec fn holds(v: StoreView, p: Entity, wire: Entity) -> bool {
    v.is_port(p) && v.port(p).wire == Some(wire)
}

/// The store with the port `p` unbound, if its binding names `wire`.
pub open spec fn released(v: StoreView, p: Entity, wire: Entity) -> StoreView {
    if holds(v, p, wire) {
        v.with_record(p, RecordView::Port(Connection { wire: None, ..v.port(p) }))
    } else {
        v
    }
}

/// A click at `mouse` has started a wire: `after` is `before` with one new
/// wire, of a generation that its slot never had, anchored where the port
/// aimed at is and bound to that port, and the editor is adding that wire
/// from that port, its height fixed at the port's.
pub open spec fn started(
    before: StoreView,
    mouse: MousePos,
    after: StoreView,
    state: UIState,
) -> bool {
    let port = target(before, mouse, true)->0;
    let pos = before.position(port)->0;
    &&& state is AddingWire
    &&& state->connection_entity == port
    &&& state->x_pos is None
    &&& state->y_pos == Some(pos.y)
    &&& !before.occupied(state->wire_entity.index as int)
    &&& state->wire_entity.generation > before.last_generation(state->wire_entity.index as int)
    &&& after == bound_to(
        before.with_new(state->wire_entity, pending_wire(state->wire_entity, pos)),
        port,
        state->wire_entity,
    )
}

/// Whether a click at `mouse` completes the wire `wire` drawn from
/// `origin`: the wire still exists and `origin` still holds it, and the
/// port aimed at is free and of the opposite direction.
pub open spec fn compatible(v: StoreView, origin: Entity, wire: Entity, mouse: MousePos) -> bool {
    &&& target(v, mouse, true) is Some
    &&& v.is_wire(wire)
    &&& holds(v, origin, wire)
    &&& free_port(v, target(v, mouse, true)->0)
    &&& v.port(origin).ty != v.port(target(v, mouse, true)->0).ty
}

/// The store with `wire` also bound to the port that a click at `mouse` is
/// aimed at.
pub open spec fn connected(v: StoreView, wire: Entity, mouse: MousePos) -> StoreView {
    bound_to(v, target(v, mouse, true)->0, wire)
}

/// The store with the wire drawn from `origin` thrown away: `origin` is
/// unbound, the wire is deleted, and the consistency sweep has run.
pub open spec fn cancelled(v: StoreView, origin: Entity, wire: Entity) -> StoreView {
    swept(released(v, origin, wire).queued(wire).purged())
}

/// What one click of the wire protocol does to the store and to the
/// editor's mode.
pub open spec fn wire_step(
    before: StoreView,
    mode: UIState,
    mouse: MousePos,
    after: StoreView,
    next: UIState,
) -> bool {
    match mode {
        UIState::Nothing => if can_start(before, mouse) {
            started(before, mouse, after, next)
        } else {
            after == before && next == mode
        },
        UIState::AddingWire { connection_entity, wire_entity, .. } => {
            &&& next == UIState::Nothing
            &&& after == if compatible(before, connection_entity, wire_entity, mouse) {
                connected(before, wire_entity, mouse)
            } else {
                cancelled(before, connection_entity, wire_entity)
            }
        },
        _ => after == before && next == mode,
    }
}

/// Whether `p` is a port that no wire is bound to.
pub fn is_free_port(store: &GraphStore, p: Entity) -> (free: bool)
    requires
        store.wf(),
    ensures
        free == free_port(store@, p),
{
    match store.port(p) {
        Some(port) => match port.wire {
            Some(w) => store.wire(w).is_none(),
            None => true,
        },
        None => false,
    }
}

/// Whether `p` is a port whose binding names `wire`.
pub fn port_holds(store: &GraphStore, p: Entity, wire: Entity) -> (held: bool)
    requires
        store.wf(),
    ensures
        held == holds(store@, p, wire),
{
    match store.port(p) {
        Some(port) => match port.wire {
            Some(w) => w == wire,
            None => false,
        },
        None => false,
    }
}

/// Binds the port `p` to `wire`.
fn bind(store: &mut GraphStore, p: Entity, wire: Entity)
    requires
        old(store).wf(),
        old(store)@.is_port(p),
    ensures
        final(store).wf(),
        final(store)@.follows(old(store)@),
        final(store)@ == bound_to(old(store)@, p, wire),
{
    match store.port(p) {
        Some(port) => {
            let rebound = Connection { wire: Some(wire), ty: port.ty, index: port.index, node: port.node };
            store.attach(p, Record::Port(rebound));
        },
        None => {},
    }
}

/// Throws away the wire drawn from `origin`: unbinds `origin` if it holds
/// the wire, deletes the wire, and runs the consistency sweep.
fn cancel(store: &mut GraphStore, origin: Entity, wire: Entity)
    requires
        old(store).wf(),
    ensures
        final(store).wf(),
        final(store)@.follows(old(store)@),
        final(store)@ == cancelled(old(store)@, origin, wire),
{
    let ghost before = store@;
    if port_holds(store, origin, wire) {
        match store.port(origin) {
            Some(port) => {
                let unbound = Connection { wire: None, ty: port.ty, index: port.index, node: port.node };
                store.attach(origin, Record::Port(unbound));
            },
            None => {},
        }
    }
    let ghost released = store@;
    store.queue_delete(wire);
    let ghost queued = store@;
    store.apply_deletions();
    let ghost purged = store@;
    run_cleanup_systems(store);
    proof {
        lemma_follows_reflexive(before);
        lemma_follows_transitive(before, released, queued);
        lemma_follows_transitive(before, queued, purged);
        lemma_follows_transitive(before, purged, store@);
    }
}

/// Handles one click of the wire protocol.
///
/// With no gesture under way, a click on a free port starts a wire there,
/// bound to that port, and any other click does nothing. While a wire is
/// being drawn, a click on a free port of the opposite direction binds
/// that port to the wire as well; any other click unbinds the first port
/// and deletes the wire. Either way the editor is idle afterwards. In the
/// other modes a click means nothing to the wire protocol.
pub fn place_wire(store: &mut GraphStore, state: &mut UIState, mouse: MousePos)
    requires
        old(store).wf(),
    ensures
        final(store).wf(),
        final(store)@.follows(old(store)@),
        wire_step(old(store)@, *old(state), mouse, final(store)@, *final(state)),
{
    let ghost before = store@;
    proof {
        lemma_follows_reflexive(before);
    }
    match *state {
        UIState::Nothing => {
            let aimed = find_target(store, mouse, true);
            match aimed {
                Some(p) => {
                    proof {
                        lemma_target_is_hit(before, mouse, true);
                    }
                    if is_free_port(store, p) && store.room() > 0 {
                        match store.position(p) {
                            Some(pos) => {
                                let built = store.build_entity(
                                    Some(Record::Wire(Wire { signal: false })),
                                    Some(pos),
                                );
                                match built {
                                    Some(w) => {
                                        let ghost with_wire = store@;
                                        bind(store, p, w);
                                        proof {
                                            lemma_follows_transitive(before, with_wire, store@);
                                        }
                                        *state = UIState::AddingWire {
                                            connection_entity: p,
                                            wire_entity: w,
                                            x_pos: None,
                                            y_pos: Some(pos.y),
                                        };
                                    },
                                    None => {},
                                }
                            },
                            None => {},
                        }
                    }
                },
                None => {},
            }
        },
        UIState::AddingWire { connection_entity, wire_entity, x_pos: _, y_pos: _ } => {
            let aimed = find_target(store, mouse, true);
            let mut joined = false;
            match aimed {
                Some(q) => {
                    proof {
                        lemma_target_is_hit(before, mouse, true);
                    }
                    if store.wire(wire_entity).is_some() && port_holds(
                        store,
                        connection_entity,
                        wire_entity,
                    ) && is_free_port(store, q) {
                        match (store.port(connection_entity), store.port(q)) {
                            (Some(from), Some(to)) => {
                                if from.ty != to.ty {
                                    bind(store, q, wire_entity);
                                    joined = true;
                                }
                            },
                            _ => {},
                        }
                    }
                },
                None => {},
            }
            if !joined {
                cancel(store, connection_entity, wire_entity);
            }
            *state = UIState::Nothing;
        },
        _ => {},
    }
}

} // verus!
