//! What a click does, by the editor's mode.

use crate::components::nodes::NodeTy;
use crate::components::{round_to_snap, snap, Entity, Orientation, Pos};
use crate::resources::{MousePos, UIState, UiSignal, UiSignals};
use crate::store::{lemma_follows_reflexive, lemma_follows_transitive, GraphStore, StoreView};
use crate::systems::cleanup_sys::{consistent, run_cleanup_systems, swept};
use crate::systems::place_node_sys::{node_step, place_node};
use crate::systems::place_wire_sys::{place_wire, wire_step};
use crate::ui::pointer::{find_target, hit, target};
use crate::wiring::{lemma_signal_keeps_wiring, lemma_signals_keep_wiring, well_wired};
use vstd::prelude::*;

verus! {

/// The store after a delete gesture at `mouse`: the entity aimed at, which
/// is never a port, is deleted together with everything queued for
/// deletion, and the consistency sweep has run. Where the gesture is aimed
/// at nothing, nothing changes.
pub open spec fn deleted_at(v: StoreView, mouse: MousePos) -> StoreView {
    match target(v, mouse, false) {
        Some(e) => swept(v.queued(e).purged()),
        None => v,
    }
}

/// What a primary click does to the store and to the editor's mode.
pub open spec fn click_step(
    before: StoreView,
    mode: UIState,
    mouse: MousePos,
    after: StoreView,
    next: UIState,
) -> bool {
    match mode {
        UIState::AddingNode(kind) => node_step(before, mode, kind, mouse, after, next),
        UIState::Deleting => after == deleted_at(before, mouse) && next == mode,
        _ => wire_step(before, mode, mouse, after, next),
    }
}

/// Where the bend of a wire is put: the pointer's column and the wire's
/// height, both snapped to the grid.
pub open spec fn bend_pos(mouse: MousePos, height: i32) -> Pos {
    Pos {
        orientation: Orientation::Right,
        x: snap(mouse.0 as int) as i32,
        y: snap(height as int) as i32,
    }
}

/// What a secondary click does to the store and to the editor's mode.
pub open spec fn right_click_step(
    before: StoreView,
    mode: UIState,
    mouse: MousePos,
    after: StoreView,
    next: UIState,
) -> bool {
    if mode is AddingWire && mode->x_pos is None && mode->y_pos is Some {
        &&& next == (UIState::AddingWire {
            connection_entity: mode->connection_entity,
            wire_entity: mode->wire_entity,
            x_pos: Some(mouse.0),
            y_pos: mode->y_pos,
        })
        &&& after == before.with_pos(mode->wire_entity, bend_pos(mouse, mode->y_pos->0))
    } else {
        wire_step(before, mode, mouse, after, next)
    }
}

/// The mode after the host has switched the deleting mode on or off: it is
/// entered from the idle mode only, and left for it.
pub open spec fn deleting_set(mode: UIState, on: bool) -> UIState {
    match mode {
        UIState::Nothing => if on {
            UIState::Deleting
        } else {
            mode
        },
        UIState::Deleting => if on {
            mode
        } else {
            UIState::Nothing
        },
        _ => mode,
    }
}

/// Switches the deleting mode on or off. A gesture under way is not
/// interrupted.
pub fn set_deleting(state: &mut UIState, on: bool)
    ensures
        *final(state) == deleting_set(*old(state), on),
{
    match *state {
        UIState::Nothing => {
            if on {
                *state = UIState::Deleting;
            }
        },
        UIState::Deleting => {
            if !on {
                *state = UIState::Nothing;
            }
        },
        _ => {},
    }
}

/// The mode after the host has asked for a node of `kind`: the request is
/// taken while no other gesture is under way.
pub open spec fn node_requested(mode: UIState, kind: NodeTy) -> UIState {
    match mode {
        UIState::Nothing | UIState::AddingNode(_) => UIState::AddingNode(kind),
        _ => mode,
    }
}

/// What one signal of the host does to the store and to the editor's mode.
pub open spec fn signal_step(
    before: StoreView,
    mode: UIState,
    signal: UiSignal,
    after: StoreView,
    next: UIState,
) -> bool {
    match signal {
        UiSignal::AddNode(kind) => after == before && next == node_requested(mode, kind),
        UiSignal::PrimaryClick(mouse) => click_step(before, mode, mouse, after, next),
        UiSignal::SecondaryClick(mouse) => right_click_step(before, mode, mouse, after, next),
        UiSignal::Delete(mouse) => {
            &&& next == mode
            &&& after == if mode is Nothing || mode is Deleting {
                deleted_at(before, mouse)
            } else {
                before
            }
        },
    }
}

/// Whether `stores` and `modes` are the stores and modes that the editor
/// goes through while it handles `signals` one after the other: one more
/// of each than there are signals, every store well formed, each following
/// from the one before by one step.
pub open spec fn is_trace(
    signals: Seq<UiSignal>,
    stores: Seq<StoreView>,
    modes: Seq<UIState>,
) -> bool {
    &&& stores.len() == signals.len() + 1
    &&& modes.len() == signals.len() + 1
    &&& forall|k: int| 0 <= k < stores.len() ==> (#[trigger] stores[k]).wf()
    &&& forall|k: int|
        0 <= k < signals.len() ==> signal_step(
            stores[k],
            modes[k],
            #[trigger] signals[k],
            stores[k + 1],
            modes[k + 1],
        )
}

/// What a sequence of signals does, handled one after the other.
pub open spec fn signals_run(
    before: StoreView,
    mode: UIState,
    signals: Seq<UiSignal>,
    after: StoreView,
    next: UIState,
) -> bool {
    exists|stores: Seq<StoreView>, modes: Seq<UIState>|
        #![trigger is_trace(signals, stores, modes)]
        {
            &&& is_trace(signals, stores, modes)
            &&& stores[0] == before
            &&& modes[0] == mode
            &&& stores.last() == after
            &&& modes.last() == next
        }
}

/// The one-shot delete gesture: deletes the entity nearest to the pointer
/// among those placed within reach of it that are not ports, applies the
/// deletion queue, and runs the consistency sweep. A gesture over empty
/// space does nothing.
pub fn delete_at(store: &mut GraphStore, mouse: MousePos) -> (deleted: Option<Entity>)
    requires
        old(store).wf(),
    ensures
        final(store).wf(),
        deleted == target(old(store)@, mouse, false),
        deleted is None <==> forall|i: int| !hit(old(store)@, i, mouse, false),
        final(store)@ == deleted_at(old(store)@, mouse),
        final(store)@.follows(old(store)@),
        deleted is Some ==> consistent(final(store)@),
{
    let ghost before = store@;
    let aimed = find_target(store, mouse, false);
    match aimed {
        Some(e) => {
            store.queue_delete(e);
            let ghost queued = store@;
            store.apply_deletions();
            let ghost purged = store@;
            run_cleanup_systems(store);
            proof {
                lemma_follows_transitive(before, queued, purged);
                lemma_follows_transitive(before, purged, store@);
            }
        },
        None => {
            proof {
                lemma_follows_reflexive(before);
            }
        },
    }
    aimed
}

/// Handles a primary click at `mouse`.
///
/// While a node waits to be placed, the click places it and the editor
/// becomes idle; where the node cannot be placed, nothing changes. In the
/// deleting mode, the click deletes what it is aimed at. Otherwise the
/// click belongs to the wire protocol.
pub fn handle_mouse_click(store: &mut GraphStore, state: &mut UIState, mouse: MousePos)
    requires
        old(store).wf(),
    ensures
        final(store).wf(),
        final(store)@.follows(old(store)@),
        click_step(old(store)@, *old(state), mouse, final(store)@, *final(state)),
        well_wired(old(store)@, *old(state)) ==> well_wired(final(store)@, *final(state)),
{
    match *state {
        UIState::AddingNode(kind) => {
            place_node(store, state, kind, mouse);
        },
        UIState::Deleting => {
            delete_at(store, mouse);
        },
        _ => {
            place_wire(store, state, mouse);
        },
    }
    proof {
        if well_wired(old(store)@, *old(state)) {
            lemma_signal_keeps_wiring(
                old(store)@,
                *old(state),
                UiSignal::PrimaryClick(mouse),
                store@,
                *state,
            );
        }
    }
}

/// Handles a secondary click at `mouse`.
///
/// While a wire is being drawn and its bend is not fixed yet, the click
/// fixes the bend in the pointer's column and moves the wire's anchor to
/// the bend, snapped to the grid. Otherwise the click belongs to the wire
/// protocol.
pub fn handle_mouse_right_click(store: &mut GraphStore, state: &mut UIState, mouse: MousePos)
    requires
        old(store).wf(),
    ensures
        final(store).wf(),
        final(store)@.follows(old(store)@),
        right_click_step(old(store)@, *old(state), mouse, final(store)@, *final(state)),
        well_wired(old(store)@, *old(state)) ==> well_wired(final(store)@, *final(state)),
{
    match *state {
        UIState::AddingWire { connection_entity, wire_entity, x_pos: None, y_pos: Some(y_pos) } => {
            *state = UIState::AddingWire {
                connection_entity,
                wire_entity,
                x_pos: Some(mouse.0),
                y_pos: Some(y_pos),
            };
            proof {
                crate::components::lemma_snap_idempotent(y_pos as int);
            }
            store.place(wire_entity, Pos::from_vec(mouse.0, round_to_snap(y_pos)));
        },
        _ => {
            place_wire(store, state, mouse);
        },
    }
    proof {
        if well_wired(old(store)@, *old(state)) {
            lemma_signal_keeps_wiring(
                old(store)@,
                *old(state),
                UiSignal::SecondaryClick(mouse),
                store@,
                *state,
            );
        }
    }
}

/// Handles one signal of the host.
///
/// A request for a node is taken while no other gesture is under way. A
/// click goes to the handler of its button. A delete request deletes what
/// it is aimed at, unless a node or a wire is being added.
pub fn handle_signal(store: &mut GraphStore, state: &mut UIState, signal: UiSignal)
    requires
        old(store).wf(),
    ensures
        final(store).wf(),
        final(store)@.follows(old(store)@),
        signal_step(old(store)@, *old(state), signal, final(store)@, *final(state)),
        well_wired(old(store)@, *old(state)) ==> well_wired(final(store)@, *final(state)),
{
    proof {
        lemma_follows_reflexive(store@);
    }
    match signal {
        UiSignal::AddNode(kind) => {
            match *state {
                UIState::Nothing | UIState::AddingNode(_) => {
                    *state = UIState::AddingNode(kind);
                },
                _ => {},
            }
        },
        UiSignal::PrimaryClick(mouse) => {
            handle_mouse_click(store, state, mouse);
        },
        UiSignal::SecondaryClick(mouse) => {
            handle_mouse_right_click(store, state, mouse);
        },
        UiSignal::Delete(mouse) => {
            match *state {
                UIState::Nothing | UIState::Deleting => {
                    delete_at(store, mouse);
                },
                _ => {},
            }
        },
    }
    proof {
        if well_wired(old(store)@, *old(state)) {
            lemma_signal_keeps_wiring(old(store)@, *old(state), signal, store@, *state);
        }
    }
}

/// Handles the signals of one frame in order and empties the queue.
pub fn handle_signals(store: &mut GraphStore, state: &mut UIState, signals: &mut UiSignals)
    requires
        old(store).wf(),
    ensures
        final(store).wf(),
        final(store)@.follows(old(store)@),
        final(signals).0@.len() == 0,
        signals_run(old(store)@, *old(state), old(signals).0@, final(store)@, *final(state)),
        well_wired(old(store)@, *old(state)) ==> well_wired(final(store)@, *final(state)),
{
    proof {
        lemma_follows_reflexive(store@);
    }
    let ghost queue = signals.0@;
    let ghost mut stores: Seq<StoreView> = seq![store@];
    let ghost mut modes: Seq<UIState> = seq![*state];
    let n: usize = signals.0.len();
    let mut i: usize = 0;
    while i < n
        invariant
            store.wf(),
            i <= n,
            n == queue.len(),
            signals.0@ == queue,
            store@.follows(old(store)@),
            is_trace(queue.subrange(0, i as int), stores, modes),
            stores[0] == old(store)@,
            modes[0] == *old(state),
            stores.last() == store@,
            modes.last() == *state,
        decreases n - i,
    {
        let ghost stores_before = stores;
        let ghost modes_before = modes;
        let signal = signals.0[i];
        handle_signal(store, state, signal);
        proof {
            lemma_follows_transitive(old(store)@, stores_before.last(), store@);
            stores = stores.push(store@);
            modes = modes.push(*state);
            let upto = queue.subrange(0, i + 1);
            assert forall|k: int| 0 <= k < upto.len() implies signal_step(
                stores[k],
                modes[k],
                #[trigger] upto[k],
                stores[k + 1],
                modes[k + 1],
            ) by {
                if k < i {
                    assert(queue.subrange(0, i as int)[k] == upto[k]);
                    assert(stores[k] == stores_before[k]);
                    assert(stores[k + 1] == stores_before[k + 1]);
                }
            }
        }
        i += 1;
    }
    assert(queue.subrange(0, n as int) =~= queue);
    assert(is_trace(queue, stores, modes));
    proof {
        if well_wired(old(store)@, *old(state)) {
            lemma_signals_keep_wiring(old(store)@, *old(state), queue, store@, *state);
        }
    }
    signals.0.clear();
}

} // verus!
