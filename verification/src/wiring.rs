//! The wiring invariant: what the editor, the simulation and the sweep keep
//! true of a circuit, whatever the signals they are given. A wire has at
//! most one port of each direction; while a wire is being drawn it hangs on
//! the port it started from and on nothing else; and what a node refers to
//! is its own port for that place. So no wire is ever driven by two outputs.

use crate::components::nodes::{arity_in, arity_out, NodeTy};
use crate::components::{ConnectedView, Connection, ConnectionTy, Entity, Pos};
use crate::frame::settled;
use crate::resources::{MousePos, TickProgress, UIState, UiSignal};
use crate::store::{lemma_gone_for_good, StoreView};
use crate::systems::cleanup_sys::{binds, dangling, swept};
use crate::systems::place_node_sys::{node_step, placed};
use crate::systems::place_wire_sys::{
    can_start, cancelled, compatible, connected, pending_wire, released, started, wire_step,
};
use crate::systems::simulation_systems::{
    committed_signal, driven, drives, due, last_driver, lemma_last_driver_unique, node_in, ticked,
};
use crate::ui::mouse_click::{bend_pos, deleted_at, is_trace, signal_step, signals_run};
use crate::ui::pointer::{lemma_target_is_hit, target};
use vstd::prelude::*;

verus! {

/// Whether an entity named `e` has existed by now: its slot has reached
/// its generation.
pub open spec fn has_existed(v: StoreView, e: Entity) -> bool {
    e.generation <= v.last_generation(e.index as int)
}

/// The port in slot `i`, meaningful where the slot holds one.
pub open spec fn port_in(v: StoreView, i: int) -> Connection {
    v.record_at(i)->0->Port_0
}

/// Every binding of a port names a wire that has existed: none names an
/// entity that is yet to be created.
pub open spec fn grounded(v: StoreView) -> bool {
    forall|i: int|
        #[trigger] v.port_at(i) && port_in(v, i).wire is Some ==> has_existed(
            v,
            port_in(v, i).wire->0,
        )
}

/// No two ports of the same direction are bound to the same entity: a wire
/// has at most one source and at most one sink.
pub open spec fn two_ended(v: StoreView) -> bool {
    forall|i: int, j: int, w: int|
        #[trigger] binds(v, i, w) && #[trigger] binds(v, j, w) && port_in(v, i).ty == port_in(
            v,
            j,
        ).ty ==> i == j
}

/// While a wire is being drawn, no port but the one it started from is
/// bound to it.
pub open spec fn gesture_sound(v: StoreView, mode: UIState) -> bool {
    mode is AddingWire && v.alive(mode->wire_entity) ==> forall|i: int| #[trigger]
        binds(v, i, mode->wire_entity.index as int) ==> i == mode->connection_entity.index
}

/// The references on one side of a node.
pub open spec fn side(node: ConnectedView, ty: ConnectionTy) -> Seq<Option<Entity>> {
    match ty {
        ConnectionTy::Input => node.inputs,
        ConnectionTy::Output => node.outputs,
    }
}

/// Whether `p` is the port of the node in slot `n` for place `k` on one of
/// its sides.
pub open spec fn is_port_of(v: StoreView, p: Entity, n: int, ty: ConnectionTy, k: int) -> bool {
    &&& v.is_port(p)
    &&& v.port(p).ty == ty
    &&& v.port(p).index == k
    &&& v.entity_at(n) == Some(v.port(p).node)
}

/// Every reference of a node names an entity that has existed.
pub open spec fn rooted(v: StoreView) -> bool {
    forall|n: int, ty: ConnectionTy, k: int|
        #![trigger side(node_in(v, n), ty)[k]]
        v.node_at(n) && 0 <= k < side(node_in(v, n), ty).len() && side(node_in(v, n), ty)[k] is Some
            ==> has_existed(v, side(node_in(v, n), ty)[k]->0)
}

/// Whatever live entity a node refers to is that node's own port for that
/// place.
pub open spec fn owned(v: StoreView) -> bool {
    forall|n: int, ty: ConnectionTy, k: int|
        #![trigger side(node_in(v, n), ty)[k]]
        v.node_at(n) && 0 <= k < side(node_in(v, n), ty).len() && side(node_in(v, n), ty)[k] is Some
            && v.alive(side(node_in(v, n), ty)[k]->0) ==> is_port_of(
            v,
            side(node_in(v, n), ty)[k]->0,
            n,
            ty,
            k,
        )
}

/// The wiring invariant of a store and the editor's mode.
pub open spec fn well_wired(v: StoreView, mode: UIState) -> bool {
    &&& v.wf()
    &&& grounded(v)
    &&& two_ended(v)
    &&& gesture_sound(v, mode)
    &&& rooted(v)
    &&& owned(v)
}

/// `after` is a later state of `before` in which every port that is bound
/// to anything was there before, with the same binding.
pub open spec fn narrows(before: StoreView, after: StoreView) -> bool {
    &&& after.follows(before)
    &&& forall|i: int|
        #[trigger] after.port_at(i) && port_in(after, i).wire is Some ==> before.port_at(i)
            && port_in(before, i) == port_in(after, i)
}

/// The node in slot `n` of `after` has just been placed: the slot was
/// empty, and every reference of the node names a live port of its own.
pub open spec fn newly_placed(before: StoreView, after: StoreView, n: int) -> bool {
    &&& !before.occupied(n)
    &&& forall|ty: ConnectionTy, k: int|
        #![trigger side(node_in(after, n), ty)[k]]
        0 <= k < side(node_in(after, n), ty).len() ==> {
            &&& side(node_in(after, n), ty)[k] is Some
            &&& after.alive(side(node_in(after, n), ty)[k]->0)
            &&& is_port_of(after, side(node_in(after, n), ty)[k]->0, n, ty, k)
        }
}

/// `after` is a later state of `before` in which every node is as it was
/// or has just been placed, and every port that is still there belongs
/// where it belonged.
pub open spec fn steady(before: StoreView, after: StoreView) -> bool {
    &&& after.follows(before)
    &&& forall|n: int| #[trigger]
        after.node_at(n) ==> newly_placed(before, after, n) || (before.node_at(n) && node_in(
            before,
            n,
        ) == node_in(after, n) && before.entity_at(n) == after.entity_at(n))
    &&& forall|i: int|
        #[trigger] before.port_at(i) && after.occupied(i) && after.slots[i]->0.generation
            == before.slots[i]->0.generation ==> after.port_at(i) && port_in(after, i).ty
            == port_in(before, i).ty && port_in(after, i).index == port_in(before, i).index
            && port_in(after, i).node == port_in(before, i).node
}

/// An empty store is well wired in every mode.
pub proof fn lemma_empty_is_well_wired(mode: UIState)
    ensures
        well_wired(StoreView::empty(), mode),
{
}

/// In a later state, a binding that was there before binds only what it
/// bound before: a reference to an entity that is gone does not come to
/// life.
proof fn lemma_binding_was_there(before: StoreView, after: StoreView, i: int, w: int)
    requires
        before.wf(),
        after.wf(),
        grounded(before),
        narrows(before, after),
        binds(after, i, w),
    ensures
        binds(before, i, w),
{
    let e = port_in(after, i).wire->0;
    assert(before.port_at(i));
    assert(has_existed(before, e));
    if !before.alive(e) {
        lemma_gone_for_good(before, after, e);
    }
}

/// Something that has existed has existed in every later state.
proof fn lemma_existed_stays(before: StoreView, after: StoreView, e: Entity)
    requires
        before.wf(),
        after.wf(),
        after.follows(before),
        has_existed(before, e),
    ensures
        has_existed(after, e),
{
    let i = e.index as int;
    if 0 <= i < before.generations.len() {
        assert(after.generations[i] >= before.generations[i]);
    } else if 0 <= i < after.generations.len() {
        assert(after.generations[i] >= 0);
    }
}

/// A change that leaves nodes and ports where they belong keeps every
/// node's references on its own ports.
pub proof fn lemma_steady_keeps_nodes(before: StoreView, after: StoreView)
    requires
        before.wf(),
        after.wf(),
        rooted(before),
        owned(before),
        steady(before, after),
    ensures
        rooted(after),
        owned(after),
{
    assert forall|n: int, ty: ConnectionTy, k: int|
        #![trigger side(node_in(after, n), ty)[k]]
        after.node_at(n) && 0 <= k < side(node_in(after, n), ty).len() && side(
            node_in(after, n),
            ty,
        )[k] is Some implies has_existed(after, side(node_in(after, n), ty)[k]->0) && (after.alive(
        side(node_in(after, n), ty)[k]->0,
    ) ==> is_port_of(after, side(node_in(after, n), ty)[k]->0, n, ty, k)) by {
        let p = side(node_in(after, n), ty)[k]->0;
        if newly_placed(before, after, n) {
            assert(after.alive(p));
            assert(after.slots[p.index as int]->0.generation == after.generations[p.index as int]);
        } else {
            assert(before.node_at(n));
            assert(side(node_in(before, n), ty)[k] == Some(p));
            assert(has_existed(before, p));
            lemma_existed_stays(before, after, p);
            if after.alive(p) {
                if !before.alive(p) {
                    lemma_gone_for_good(before, after, p);
                }
                assert(is_port_of(before, p, n, ty, k));
                assert(before.port_at(p.index as int));
            }
        }
    }
}

/// A change that binds nothing new and leaves nodes and ports where they
/// belong keeps the wiring invariant.
pub proof fn lemma_narrowing_keeps_wiring(before: StoreView, after: StoreView, mode: UIState)
    requires
        well_wired(before, mode),
        after.wf(),
        narrows(before, after),
        steady(before, after),
    ensures
        well_wired(after, mode),
{
    lemma_steady_keeps_nodes(before, after);
    assert forall|i: int| #[trigger] after.port_at(i) && port_in(after, i).wire is Some implies has_existed(
        after,
        port_in(after, i).wire->0,
    ) by {
        assert(before.port_at(i));
        lemma_existed_stays(before, after, port_in(after, i).wire->0);
    }
    assert forall|i: int, j: int, w: int|
        #[trigger] binds(after, i, w) && #[trigger] binds(after, j, w) && port_in(after, i).ty
            == port_in(after, j).ty implies i == j by {
        lemma_binding_was_there(before, after, i, w);
        lemma_binding_was_there(before, after, j, w);
    }
    if mode is AddingWire && after.alive(mode->wire_entity) {
        let wire = mode->wire_entity;
        assert forall|i: int| #[trigger] binds(after, i, wire.index as int) implies i
            == mode->connection_entity.index by {
            lemma_binding_was_there(before, after, i, wire.index as int);
            let e = port_in(after, i).wire->0;
            assert(e == wire);
            assert(before.alive(wire));
        }
    }
}

/// Removing entities binds nothing new.
pub proof fn lemma_without_narrows(v: StoreView, gone: Seq<bool>)
    requires
        v.wf(),
    ensures
        v.without(gone).wf(),
        narrows(v, v.without(gone)),
        steady(v, v.without(gone)),
{
    let after = v.without(gone);
    assert forall|i: int| after.occupied(i) implies v.occupied(i) && #[trigger] after.slots[i]
        == v.slots[i] by {}
}

/// Applying the deletion queue binds nothing new.
pub proof fn lemma_purged_narrows(v: StoreView)
    requires
        v.wf(),
    ensures
        v.purged().wf(),
        narrows(v, v.purged()),
        steady(v, v.purged()),
{
    let after = v.purged();
    assert forall|i: int| after.occupied(i) implies v.occupied(i) && #[trigger] after.slots[i]
        == v.slots[i] by {}
}

/// The sweep binds nothing new.
pub proof fn lemma_swept_narrows(v: StoreView)
    requires
        v.wf(),
    ensures
        swept(v).wf(),
        narrows(v, swept(v)),
        steady(v, swept(v)),
{
    lemma_without_narrows(v, dangling(v));
}

/// Queueing an entity for deletion binds nothing new.
pub proof fn lemma_queued_narrows(v: StoreView, e: Entity)
    requires
        v.wf(),
    ensures
        v.queued(e).wf(),
        narrows(v, v.queued(e)),
        steady(v, v.queued(e)),
{
}

/// Placing an entity binds nothing new.
pub proof fn lemma_with_pos_narrows(v: StoreView, e: Entity, pos: Pos)
    requires
        v.wf(),
    ensures
        v.with_pos(e, pos).wf(),
        narrows(v, v.with_pos(e, pos)),
        steady(v, v.with_pos(e, pos)),
{
}

/// Unbinding a port binds nothing new.
pub proof fn lemma_released_narrows(v: StoreView, p: Entity, wire: Entity)
    requires
        v.wf(),
    ensures
        released(v, p, wire).wf(),
        narrows(v, released(v, p, wire)),
        steady(v, released(v, p, wire)),
{
}

/// A tick binds nothing new: it changes signals only.
pub proof fn lemma_ticked_narrows(v: StoreView)
    requires
        v.wf(),
    ensures
        ticked(v).wf(),
        narrows(v, ticked(v)),
        steady(v, ticked(v)),
{
    let after = ticked(v);
    assert forall|i: int| after.occupied(i) implies v.occupied(i) && (#[trigger] after.slots[i])->0.generation
        == v.slots[i]->0.generation by {}
    assert forall|i: int|
        after.occupied(i) && (#[trigger] after.slots[i])->0.record is Some
            implies after.slots[i]->0.record->0.wf() by {
        assert(v.occupied(i));
        if !v.wire_at(i) {
            assert(after.slots[i] == v.slots[i]);
        }
    }
}

/// Placing a node binds nothing new: its ports are unbound.
pub proof fn lemma_placed_narrows(
    before: StoreView,
    after: StoreView,
    kind: NodeTy,
    mouse: MousePos,
    node: Entity,
)
    requires
        before.wf(),
        after.wf(),
        placed(before, after, kind, mouse, node),
    ensures
        narrows(before, after),
        steady(before, after),
{
    let c = after.node(node);
    assert forall|i: int| #[trigger] after.port_at(i) && port_in(after, i).wire is Some implies before.port_at(
        i,
    ) && port_in(before, i) == port_in(after, i) by {
        if before.occupied(i) {
            assert(after.slots[i] == before.slots[i]);
        } else {
            assert(after.occupied(i));
            if i == node.index {
                assert(after.alive(node));
            } else if exists|k: int|
                0 <= k < arity_in(kind) && (#[trigger] c.inputs[k])->0.index
                    == i {
                let k = choose|k: int|
                    0 <= k < arity_in(kind) && (#[trigger] c.inputs[k])->0.index
                        == i;
                let p = c.inputs[k]->0;
                assert(after.slots[p.index as int]->0.record->0->Port_0.wire is None);
            } else {
                let k = choose|k: int|
                    0 <= k < arity_out(kind) && (#[trigger] c.outputs[k])->0.index
                        == i;
                let p = c.outputs[k]->0;
                assert(after.slots[p.index as int]->0.record->0->Port_0.wire is None);
            }
        }
    }
}

/// Starting a wire keeps the wiring invariant: the new wire hangs on the
/// port it started from and on nothing else.
pub proof fn lemma_start_keeps_wiring(
    before: StoreView,
    mouse: MousePos,
    after: StoreView,
    next: UIState,
)
    requires
        well_wired(before, UIState::Nothing),
        after.wf(),
        target(before, mouse, true) is Some,
        started(before, mouse, after, next),
    ensures
        well_wired(after, next),
{
    lemma_target_is_hit(before, mouse, true);
    let port = target(before, mouse, true)->0;
    let wire = next->wire_entity;
    let at = wire.index as int;
    let pos = before.position(port)->0;
    let mid = before.with_new(wire, pending_wire(wire, pos));
    assert(before.alive(port));
    assert(port.index != wire.index);
    assert(mid.alive(port));
    assert(mid.alive(wire));
    assert(after.alive(wire));
    // A port other than the origin is as it was, and what it is bound to is
    // something that existed before the wire did.
    assert forall|i: int, w: int| #[trigger] binds(after, i, w) && i != port.index implies binds(
        before,
        i,
        w,
    ) && w != at by {
        assert(before.port_at(i));
        assert(port_in(before, i) == port_in(after, i));
        let e = port_in(after, i).wire->0;
        assert(has_existed(before, e));
        if e.index == wire.index {
            assert(after.slots[at]->0.generation == wire.generation);
        }
    }
    assert forall|w: int| #[trigger] binds(after, port.index as int, w) implies w == at by {}
    assert forall|i: int| #[trigger] after.port_at(i) && port_in(after, i).wire is Some implies has_existed(
        after,
        port_in(after, i).wire->0,
    ) by {
        if i != port.index {
            assert(before.port_at(i));
            let e = port_in(before, i).wire->0;
            assert(has_existed(before, e));
            if 0 <= e.index < before.generations.len() && e.index != wire.index {
                assert(after.generations[e.index as int] == before.generations[e.index as int]);
            } else if 0 <= e.index < after.generations.len() {
                assert(after.generations[e.index as int] >= 0);
            }
        }
    }
    assert forall|i: int, j: int, w: int|
        #[trigger] binds(after, i, w) && #[trigger] binds(after, j, w) && port_in(after, i).ty
            == port_in(after, j).ty implies i == j by {
        if i != port.index && j != port.index {
            assert(binds(before, i, w) && binds(before, j, w));
            assert(port_in(before, i) == port_in(after, i));
            assert(port_in(before, j) == port_in(after, j));
        }
    }    assert(steady(before, after)) by {
        assert forall|n: int| #[trigger] after.node_at(n) implies before.node_at(n) && node_in(
            before,
            n,
        ) == node_in(after, n) && before.entity_at(n) == after.entity_at(n) by {
            assert(n != at && n != port.index);
        }
    }
    lemma_steady_keeps_nodes(before, after);
}

/// Completing a wire keeps the wiring invariant: the wire gets its second
/// end, of the other direction.
pub proof fn lemma_connect_keeps_wiring(
    before: StoreView,
    origin: Entity,
    wire: Entity,
    mouse: MousePos,
    mode: UIState,
)
    requires
        well_wired(before, mode),
        mode is AddingWire,
        mode->connection_entity == origin,
        mode->wire_entity == wire,
        compatible(before, origin, wire, mouse),
    ensures
        connected(before, wire, mouse).wf(),
        well_wired(connected(before, wire, mouse), UIState::Nothing),
{
    lemma_target_is_hit(before, mouse, true);
    let q = target(before, mouse, true)->0;
    let after = connected(before, wire, mouse);
    let at = wire.index as int;
    assert(before.alive(wire));
    assert(before.alive(q));
    assert(before.alive(origin));
    assert(q.index != origin.index);
    assert(binds(before, origin.index as int, at));
    assert forall|i: int, w: int| #[trigger] binds(after, i, w) && i != q.index implies binds(
        before,
        i,
        w,
    ) && port_in(before, i) == port_in(after, i) by {}
    assert forall|w: int| #[trigger] binds(after, q.index as int, w) implies w == at by {}
    assert forall|i: int| #[trigger] after.port_at(i) && port_in(after, i).wire is Some implies has_existed(
        after,
        port_in(after, i).wire->0,
    ) by {
        if i != q.index {
            assert(before.port_at(i));
        }
    }
    assert forall|i: int, j: int, w: int|
        #[trigger] binds(after, i, w) && #[trigger] binds(after, j, w) && port_in(after, i).ty
            == port_in(after, j).ty implies i == j by {
        if i != q.index && j != q.index {
            assert(binds(before, i, w) && binds(before, j, w));
        } else if i == q.index && j != q.index {
            assert(binds(before, j, at));
            assert(j == origin.index);
        } else if j == q.index && i != q.index {
            assert(binds(before, i, at));
            assert(i == origin.index);
        }
    }    assert(steady(before, after)) by {
        assert forall|n: int| #[trigger] after.node_at(n) implies before.node_at(n) && node_in(
            before,
            n,
        ) == node_in(after, n) && before.entity_at(n) == after.entity_at(n) by {
            assert(n != q.index);
        }
    }
    lemma_steady_keeps_nodes(before, after);
}

/// Throwing a wire away keeps the wiring invariant.
pub proof fn lemma_cancel_keeps_wiring(before: StoreView, origin: Entity, wire: Entity, mode: UIState)
    requires
        well_wired(before, mode),
    ensures
        cancelled(before, origin, wire).wf(),
        well_wired(cancelled(before, origin, wire), UIState::Nothing),
{
    let a = released(before, origin, wire);
    let b = a.queued(wire);
    let c = b.purged();
    lemma_released_narrows(before, origin, wire);
    lemma_narrowing_keeps_wiring(before, a, mode);
    lemma_queued_narrows(a, wire);
    lemma_narrowing_keeps_wiring(a, b, mode);
    lemma_purged_narrows(b);
    lemma_narrowing_keeps_wiring(b, c, mode);
    lemma_swept_narrows(c);
    lemma_narrowing_keeps_wiring(c, swept(c), mode);
}

/// A delete gesture keeps the wiring invariant.
pub proof fn lemma_delete_keeps_wiring(before: StoreView, mouse: MousePos, mode: UIState)
    requires
        well_wired(before, mode),
    ensures
        deleted_at(before, mouse).wf(),
        well_wired(deleted_at(before, mouse), mode),
{
    match target(before, mouse, false) {
        Some(e) => {
            let a = before.queued(e);
            let b = a.purged();
            lemma_queued_narrows(before, e);
            lemma_narrowing_keeps_wiring(before, a, mode);
            lemma_purged_narrows(a);
            lemma_narrowing_keeps_wiring(a, b, mode);
            lemma_swept_narrows(b);
            lemma_narrowing_keeps_wiring(b, swept(b), mode);
        },
        None => {},
    }
}

/// One click of the wire protocol keeps the wiring invariant.
pub proof fn lemma_wire_step_keeps_wiring(
    before: StoreView,
    mode: UIState,
    mouse: MousePos,
    after: StoreView,
    next: UIState,
)
    requires
        well_wired(before, mode),
        after.wf(),
        wire_step(before, mode, mouse, after, next),
    ensures
        well_wired(after, next),
{
    match mode {
        UIState::Nothing => {
            if can_start(before, mouse) {
                lemma_start_keeps_wiring(before, mouse, after, next);
            }
        },
        UIState::AddingWire { connection_entity, wire_entity, .. } => {
            if compatible(before, connection_entity, wire_entity, mouse) {
                lemma_connect_keeps_wiring(before, connection_entity, wire_entity, mouse, mode);
            } else {
                lemma_cancel_keeps_wiring(before, connection_entity, wire_entity, mode);
            }
        },
        _ => {},
    }
}

/// Placing a node keeps the wiring invariant.
pub proof fn lemma_node_step_keeps_wiring(
    before: StoreView,
    mode: UIState,
    kind: NodeTy,
    mouse: MousePos,
    after: StoreView,
    next: UIState,
)
    requires
        well_wired(before, mode),
        after.wf(),
        node_step(before, mode, kind, mouse, after, next),
    ensures
        well_wired(after, next),
{
    if next != mode || after != before {
        let node = choose|node: Entity| #[trigger] placed(before, after, kind, mouse, node);
        lemma_placed_narrows(before, after, kind, mouse, node);
        lemma_narrowing_keeps_wiring(before, after, mode);
    }
}

/// Whatever signal the editor is given, it keeps the wiring invariant.
pub proof fn lemma_signal_keeps_wiring(
    before: StoreView,
    mode: UIState,
    signal: UiSignal,
    after: StoreView,
    next: UIState,
)
    requires
        well_wired(before, mode),
        after.wf(),
        signal_step(before, mode, signal, after, next),
    ensures
        well_wired(after, next),
{
    match signal {
        UiSignal::AddNode(_) => {},
        UiSignal::PrimaryClick(mouse) => {
            match mode {
                UIState::AddingNode(kind) => {
                    lemma_node_step_keeps_wiring(before, mode, kind, mouse, after, next);
                },
                UIState::Deleting => {
                    lemma_delete_keeps_wiring(before, mouse, mode);
                },
                _ => {
                    lemma_wire_step_keeps_wiring(before, mode, mouse, after, next);
                },
            }
        },
        UiSignal::SecondaryClick(mouse) => {
            if mode is AddingWire && mode->x_pos is None && mode->y_pos is Some {
                let pos = bend_pos(mouse, mode->y_pos->0);
                lemma_with_pos_narrows(before, mode->wire_entity, pos);
                lemma_narrowing_keeps_wiring(before, after, mode);
            } else {
                lemma_wire_step_keeps_wiring(before, mode, mouse, after, next);
            }
        },
        UiSignal::Delete(mouse) => {
            if mode is Nothing || mode is Deleting {
                lemma_delete_keeps_wiring(before, mouse, mode);
            }
        },
    }
}

/// Whatever signals the editor is given, one after the other, it keeps the
/// wiring invariant.
pub proof fn lemma_signals_keep_wiring(
    before: StoreView,
    mode: UIState,
    signals: Seq<UiSignal>,
    after: StoreView,
    next: UIState,
)
    requires
        well_wired(before, mode),
        signals_run(before, mode, signals, after, next),
    ensures
        well_wired(after, next),
{
    let (stores, modes) = choose|stores: Seq<StoreView>, modes: Seq<UIState>|
        #![trigger is_trace(signals, stores, modes)]
        {
            &&& is_trace(signals, stores, modes)
            &&& stores[0] == before
            &&& modes[0] == mode
            &&& stores.last() == after
            &&& modes.last() == next
        };
    lemma_trace_keeps_wiring(signals, stores, modes, signals.len() as int);
}

/// Every store on a trace that starts well wired is well wired.
proof fn lemma_trace_keeps_wiring(
    signals: Seq<UiSignal>,
    stores: Seq<StoreView>,
    modes: Seq<UIState>,
    upto: int,
)
    requires
        is_trace(signals, stores, modes),
        well_wired(stores[0], modes[0]),
        0 <= upto <= signals.len(),
    ensures
        well_wired(stores[upto], modes[upto]),
    decreases upto,
{
    if upto > 0 {
        lemma_trace_keeps_wiring(signals, stores, modes, upto - 1);
        assert(signal_step(
            stores[upto - 1],
            modes[upto - 1],
            signals[upto - 1],
            stores[upto - 1 + 1],
            modes[upto - 1 + 1],
        ));
        assert(stores[upto].wf());
        lemma_signal_keeps_wiring(
            stores[upto - 1],
            modes[upto - 1],
            signals[upto - 1],
            stores[upto],
            modes[upto],
        );
    }
}

/// The end of a frame keeps the wiring invariant: a tick changes signals
/// only, and applying deletions and sweeping bind nothing new.
pub proof fn lemma_settling_keeps_wiring(v: StoreView, mode: UIState, progress: Option<TickProgress>)
    requires
        well_wired(v, mode),
    ensures
        well_wired(settled(v, progress), mode),
{
    let a = if due(progress) {
        ticked(v)
    } else {
        v
    };
    if due(progress) {
        lemma_ticked_narrows(v);
        lemma_narrowing_keeps_wiring(v, a, mode);
    }
    lemma_purged_narrows(a);
    lemma_narrowing_keeps_wiring(a, a.purged(), mode);
    lemma_swept_narrows(a.purged());
    lemma_narrowing_keeps_wiring(a.purged(), swept(a.purged()), mode);
}

/// In a well-wired store no wire is driven by two outputs: the output that
/// leads to a wire is the one whose port is the wire's source.
pub proof fn lemma_one_driver(
    v: StoreView,
    mode: UIState,
    w: int,
    i1: int,
    j1: int,
    i2: int,
    j2: int,
)
    requires
        well_wired(v, mode),
        drives(v, i1, j1, w),
        drives(v, i2, j2, w),
    ensures
        i1 == i2,
        j1 == j2,
{
    let p1 = side(node_in(v, i1), ConnectionTy::Output)[j1]->0;
    let p2 = side(node_in(v, i2), ConnectionTy::Output)[j2]->0;
    assert(v.alive(p1) && v.alive(p2));
    assert(is_port_of(v, p1, i1, ConnectionTy::Output, j1));
    assert(is_port_of(v, p2, i2, ConnectionTy::Output, j2));
    assert(binds(v, p1.index as int, w));
    assert(binds(v, p2.index as int, w));
    assert(p1.index == p2.index);
    assert(p1 == p2);
}

/// In a well-wired store the signal that a tick commits to a driven wire is
/// what its one driver computed: the order in which the outputs are
/// written does not matter either.
pub proof fn lemma_one_driver_commits(
    v: StoreView,
    mode: UIState,
    results: Map<int, Seq<bool>>,
    w: int,
    i: int,
    j: int,
)
    requires
        well_wired(v, mode),
        drives(v, i, j, w),
    ensures
        driven(v, w),
        committed_signal(v, results, w) == results[i][j],
{
    assert(last_driver(v, w, i, j)) by {
        assert forall|i2: int, j2: int| #[trigger] drives(v, i2, j2, w) implies i2 == i && j2
            == j by {
            lemma_one_driver(v, mode, w, i, j, i2, j2);
        }
    }
    lemma_last_driver_unique(v, w, i, j);
}

} // verus!
