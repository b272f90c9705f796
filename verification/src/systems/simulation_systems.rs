//! The simulation tick. Every node reads its inputs from the signals as they
//! stood when the tick began, and only then are the outputs written to the
//! wires: what a tick computes does not depend on the order in which the
//! nodes are visited, and a feedback loop advances by one step per tick.

use crate::components::nodes::evaluate;
use crate::components::{ConnectedView, Entity, Record, RecordView, Wire};
use crate::resources::{interval, FrameRates, Tick, TickProgress, FPS_WINDOW};
use crate::store::{EntityState, GraphStore, StoreView};
use vstd::prelude::*;

verus! {

/// The wire that a node's reference leads to: the reference names a wire,
/// or a port that is bound to a wire. Anything missing on the way leads
/// nowhere.
pub open spec fn wire_behind(v: StoreView, r: Option<Entity>) -> Option<Entity> {
    match r {
        Some(e) => if v.is_wire(e) {
            Some(e)
        } else if v.is_port(e) && v.port(e).wire is Some && v.is_wire(v.port(e).wire->0) {
            v.port(e).wire
        } else {
            None
        },
        None => None,
    }
}

/// The signal that a node reads through a reference; an input that leads
/// nowhere reads as `false`.
pub open spec fn signal_behind(v: StoreView, r: Option<Entity>) -> bool {
    match wire_behind(v, r) {
        Some(w) => v.wire(w).signal,
        None => false,
    }
}

/// The node in slot `i`, meaningful where the slot holds one.
pub open spec fn node_in(v: StoreView, i: int) -> ConnectedView {
    v.record_at(i)->0->Node_0
}

/// The input vector that the node in slot `i` reads.
pub open spec fn node_inputs(v: StoreView, i: int) -> Seq<bool> {
    Seq::new(node_in(v, i).inputs.len(), |k: int| signal_behind(v, node_in(v, i).inputs[k]))
}

/// The output vector that the node in slot `i` computes from what it reads.
pub open spec fn node_outputs(v: StoreView, i: int) -> Seq<bool> {
    evaluate(node_in(v, i).node, node_inputs(v, i))
}

/// Output `j` of the node in slot `i` leads to the wire in slot `w`.
pub open spec fn drives(v: StoreView, i: int, j: int, w: int) -> bool {
    &&& v.node_at(i)
    &&& 0 <= j < node_in(v, i).outputs.len()
    &&& wire_behind(v, node_in(v, i).outputs[j]) matches Some(e)
    &&& e.index == w
}

/// Output `j2` of slot `i2` comes before output `j` of slot `i` in the order
/// in which outputs are written.
pub open spec fn written_before(i2: int, j2: int, i: int, j: int) -> bool {
    i2 < i || (i2 == i && j2 < j)
}

/// Output `j` of the node in slot `i` is the last one written to the wire in
/// slot `w`.
pub open spec fn last_driver(v: StoreView, w: int, i: int, j: int) -> bool {
    &&& drives(v, i, j, w)
    &&& forall|i2: int, j2: int| #[trigger] drives(v, i2, j2, w) ==> !written_before(i, j, i2, j2)
}

/// Some output leads to the wire in slot `w`.
pub open spec fn driven(v: StoreView, w: int) -> bool {
    exists|i: int, j: int| #[trigger] drives(v, i, j, w)
}

/// The signal of the wire in slot `w` after a tick in which the nodes
/// computed `results`: the value of the last output written to it, or its
/// old signal where no output leads to it.
pub open spec fn committed_signal(v: StoreView, results: Map<int, Seq<bool>>, w: int) -> bool {
    if driven(v, w) {
        let (i, j) = choose|i: int, j: int| last_driver(v, w, i, j);
        results[i][j]
    } else {
        v.record_at(w)->0->Wire_0.signal
    }
}

/// The store after the commit phase of a tick in which the nodes computed
/// `results`: only signals change.
pub open spec fn committed(v: StoreView, results: Map<int, Seq<bool>>) -> StoreView {
    StoreView {
        slots: Seq::new(
            v.slots.len(),
            |w: int|
                if v.wire_at(w) {
                    Some(
                        EntityState {
                            record: Some(
                                RecordView::Wire(Wire { signal: committed_signal(v, results, w) }),
                            ),
                            ..v.slots[w]->0
                        },
                    )
                } else {
                    v.slots[w]
                },
        ),
        ..v
    }
}

/// What every node computes from the signals in `v`.
pub open spec fn evaluated(v: StoreView) -> Map<int, Seq<bool>> {
    Map::new(|i: int| v.node_at(i), |i: int| node_outputs(v, i))
}

/// The store after one tick.
pub open spec fn ticked(v: StoreView) -> StoreView {
    committed(v, evaluated(v))
}

/// The results of the read and evaluate phases when the nodes are visited in
/// the order `order`, each reading the signals in `v`.
pub open spec fn evaluated_along(v: StoreView, order: Seq<int>) -> Map<int, Seq<bool>>
    decreases order.len(),
{
    if order.len() == 0 {
        Map::empty()
    } else {
        let i = order.last();
        let earlier = evaluated_along(v, order.drop_last());
        if v.node_at(i) {
            earlier.insert(i, node_outputs(v, i))
        } else {
            earlier
        }
    }
}

/// Visiting the nodes in any order yields, for each node visited, what that
/// node computes from the signals at the start of the tick.
pub proof fn lemma_evaluated_along(v: StoreView, order: Seq<int>)
    ensures
        forall|i: int| #[trigger]
            evaluated_along(v, order).dom().contains(i) <==> order.contains(i) && v.node_at(i),
        forall|i: int| #[trigger]
            evaluated_along(v, order).dom().contains(i) ==> evaluated_along(v, order)[i]
                == node_outputs(v, i),
    decreases order.len(),
{
    if order.len() > 0 {
        let earlier = order.drop_last();
        let last = order.last();
        let here = evaluated_along(v, order);
        lemma_evaluated_along(v, earlier);
        assert(here == if v.node_at(last) {
            evaluated_along(v, earlier).insert(last, node_outputs(v, last))
        } else {
            evaluated_along(v, earlier)
        });
        assert(order[order.len() - 1] == last);
        assert forall|i: int| #[trigger] here.dom().contains(i) <==> order.contains(i) && v.node_at(
            i,
        ) by {
            if order.contains(i) && i != last {
                let k = choose|k: int| 0 <= k < order.len() && order[k] == i;
                assert(earlier[k] == i);
                assert(earlier.contains(i));
            }
            if earlier.contains(i) {
                let k = choose|k: int| 0 <= k < earlier.len() && earlier[k] == i;
                assert(order[k] == i);
                assert(order.contains(i));
            }
        }
        assert forall|i: int| #[trigger] here.dom().contains(i) implies here[i] == node_outputs(
            v,
            i,
        ) by {
            if i != last {
                assert(evaluated_along(v, earlier).dom().contains(i));
            }
        }
    } else {
        assert(evaluated_along(v, order) == Map::<int, Seq<bool>>::empty());
    }
}

/// A tick does not depend on the order in which the nodes are visited: for
/// any two orders that visit every node, the store after the tick is the
/// same, and it is the store that `ticked` describes.
pub proof fn lemma_tick_order_independent(v: StoreView, first: Seq<int>, second: Seq<int>)
    requires
        forall|i: int| v.node_at(i) ==> first.contains(i),
        forall|i: int| v.node_at(i) ==> second.contains(i),
    ensures
        committed(v, evaluated_along(v, first)) == committed(v, evaluated_along(v, second)),
        committed(v, evaluated_along(v, first)) == ticked(v),
{
    lemma_evaluated_along(v, first);
    lemma_evaluated_along(v, second);
    assert(evaluated_along(v, first) =~= evaluated(v));
    assert(evaluated_along(v, second) =~= evaluated(v));
}

/// At most one output is the last one written to a wire.
pub proof fn lemma_last_driver_unique(v: StoreView, w: int, i: int, j: int)
    requires
        last_driver(v, w, i, j),
    ensures
        driven(v, w),
        (choose|a: int, b: int| last_driver(v, w, a, b)) == (i, j),
{
    let (a, b) = choose|a: int, b: int| last_driver(v, w, a, b);
    assert(last_driver(v, w, a, b));
    assert(drives(v, a, b, w));
    assert(drives(v, i, j, w));
}

/// A tick changes nothing but signals: no entity appears or disappears, and
/// nodes, ports, placements and the deletion queue stay as they were.
pub proof fn lemma_tick_keeps_graph(v: StoreView, i: int)
    requires
        0 <= i < v.slots.len(),
    ensures
        ticked(v).slots.len() == v.slots.len(),
        ticked(v).occupied(i) == v.occupied(i),
        !v.wire_at(i) ==> ticked(v).slots[i] == v.slots[i],
        v.wire_at(i) ==> ticked(v).wire_at(i) && ticked(v).slots[i]->0.pos == v.slots[i]->0.pos
            && ticked(v).slots[i]->0.generation == v.slots[i]->0.generation
            && ticked(v).slots[i]->0.doomed == v.slots[i]->0.doomed,
{
}

/// The wire that a node's reference leads to.
pub fn follow(store: &GraphStore, r: Option<Entity>) -> (wire: Option<Entity>)
    requires
        store.wf(),
    ensures
        wire == wire_behind(store@, r),
{
    match r {
        Some(e) => {
            if store.wire(e).is_some() {
                return Some(e);
            }
            match store.port(e) {
                Some(port) => match port.wire {
                    Some(w) => if store.wire(w).is_some() {
                        Some(w)
                    } else {
                        None
                    },
                    None => None,
                },
                None => None,
            }
        },
        None => None,
    }
}

/// The signal that a node reads through a reference.
pub fn read_signal(store: &GraphStore, r: Option<Entity>) -> (signal: bool)
    requires
        store.wf(),
    ensures
        signal == signal_behind(store@, r),
{
    match follow(store, r) {
        Some(w) => match store.wire(w) {
            Some(wire) => wire.signal,
            None => false,
        },
        None => false,
    }
}

/// The read and evaluate phases for the node in slot `i`.
fn evaluate_node(store: &GraphStore, i: usize) -> (outputs: Vec<bool>)
    requires
        store.wf(),
    ensures
        store@.node_at(i as int) ==> outputs@ == node_outputs(store@, i as int),
        !store@.node_at(i as int) ==> outputs@.len() == 0,
{
    match store.node_at(i) {
        Some(node) => {
            let refs = node.inputs();
            let mut inputs: Vec<bool> = Vec::new();
            let mut k: usize = 0;
            while k < refs.len()
                invariant
                    store.wf(),
                    k <= refs@.len(),
                    refs@ == node_in(store@, i as int).inputs,
                    inputs@.len() == k,
                    forall|m: int| 0 <= m < k ==> inputs@[m] == signal_behind(store@, refs@[m]),
                decreases refs@.len() - k,
            {
                inputs.push(read_signal(store, refs[k]));
                k += 1;
            }
            assert(inputs@ =~= node_inputs(store@, i as int));
            node.calculate_state(&inputs)
        },
        None => Vec::new(),
    }
}

/// The read and evaluate phases: what every node computes from the signals
/// as they stand. Nothing is written.
fn evaluate_nodes(store: &GraphStore) -> (results: Vec<Vec<bool>>)
    requires
        store.wf(),
    ensures
        results@.len() == store@.slots.len(),
        forall|i: int|
            0 <= i < results@.len() && store@.node_at(i) ==> (#[trigger] results@[i])@
                == node_outputs(store@, i),
{
    let n: usize = store.len();
    let mut results: Vec<Vec<bool>> = Vec::new();
    let mut i: usize = 0;
    while i < n
        invariant
            store.wf(),
            i <= n,
            n == store@.slots.len(),
            results@.len() == i,
            forall|k: int|
                0 <= k < i && store@.node_at(k) ==> (#[trigger] results@[k])@ == node_outputs(
                    store@,
                    k,
                ),
        decreases n - i,
    {
        let outputs = evaluate_node(store, i);
        results.push(outputs);
        i += 1;
    }
    results
}

/// What the commit phase has settled for one wire once every output before
/// output `j` of slot `i` has been looked at: `who` is the last of them that
/// leads to the wire in slot `w`, and `next` is the value it computed.
spec fn planned(
    v: StoreView,
    w: int,
    next: Option<bool>,
    who: Option<(int, int)>,
    i: int,
    j: int,
) -> bool {
    match who {
        Some((a, b)) => {
            &&& drives(v, a, b, w)
            &&& written_before(a, b, i, j)
            &&& next == Some(node_outputs(v, a)[b])
            &&& forall|i2: int, j2: int|
                #[trigger] drives(v, i2, j2, w) && written_before(i2, j2, i, j)
                    ==> !written_before(a, b, i2, j2)
        },
        None => {
            &&& next is None
            &&& forall|i2: int, j2: int|
                #[trigger] drives(v, i2, j2, w) ==> !written_before(i2, j2, i, j)
        },
    }
}

/// Plans the commit phase without writing anything: for each slot, the
/// signal that the last output leading to it computed, if any output leads
/// to it.
fn plan_commit(store: &GraphStore, results: &Vec<Vec<bool>>) -> (next: Vec<Option<bool>>)
    requires
        store.wf(),
        results@.len() == store@.slots.len(),
        forall|i: int|
            0 <= i < results@.len() && store@.node_at(i) ==> (#[trigger] results@[i])@
                == node_outputs(store@, i),
    ensures
        next@.len() == store@.slots.len(),
        forall|w: int|
            0 <= w < next@.len() ==> (#[trigger] next@[w]) == if driven(store@, w) {
                Some(committed_signal(store@, evaluated(store@), w))
            } else {
                None::<bool>
            },
{
    let n: usize = store.len();
    let ghost v = store@;
    let mut next: Vec<Option<bool>> = Vec::new();
    let mut k: usize = 0;
    while k < n
        invariant
            k <= n,
            next@.len() == k,
            forall|w: int| 0 <= w < k ==> next@[w] is None,
        decreases n - k,
    {
        next.push(None);
        k += 1;
    }
    let ghost mut who: Seq<Option<(int, int)>> = Seq::new(n as nat, |w: int| None);
    let mut i: usize = 0;
    while i < n
        invariant
            store.wf(),
            v == store@,
            i <= n,
            n == v.slots.len(),
            results@.len() == n,
            forall|k: int|
                0 <= k < n && v.node_at(k) ==> (#[trigger] results@[k])@ == node_outputs(v, k),
            next@.len() == n,
            who.len() == n,
            forall|w: int| 0 <= w < n ==> planned(v, w, #[trigger] next@[w], who[w], i as int, 0),
        decreases n - i,
    {
        match store.node_at(i) {
            Some(node) => {
                let refs = node.outputs();
                let outputs = &results[i];
                proof {
                    assert(outputs@ == node_outputs(v, i as int));
                    assert(node.wf());
                    assert(outputs@.len() == refs@.len());
                }
                let mut j: usize = 0;
                while j < refs.len()
                    invariant
                        store.wf(),
                        v == store@,
                        i < n,
                        n == v.slots.len(),
                        v.node_at(i as int),
                        refs@ == node_in(v, i as int).outputs,
                        outputs@ == node_outputs(v, i as int),
                        outputs@.len() == refs@.len(),
                        j <= refs@.len(),
                        next@.len() == n,
                        who.len() == n,
                        forall|w: int|
                            0 <= w < n ==> planned(
                                v,
                                w,
                                #[trigger] next@[w],
                                who[w],
                                i as int,
                                j as int,
                            ),
                    decreases refs@.len() - j,
                {
                    let ghost next_before = next@;
                    let ghost who_before = who;
                    match follow(store, refs[j]) {
                        Some(e) => {
                            let w: usize = e.index as usize;
                            assert(drives(v, i as int, j as int, w as int));
                            next.set(w, Some(outputs[j]));
                            proof {
                                who = who.update(w as int, Some((i as int, j as int)));
                            }
                        },
                        None => {},
                    }
                    proof {
                        assert forall|w: int| 0 <= w < n implies planned(
                            v,
                            w,
                            #[trigger] next@[w],
                            who[w],
                            i as int,
                            j + 1,
                        ) by {
                            assert(planned(v, w, next_before[w], who_before[w], i as int, j as int));
                            if drives(v, i as int, j as int, w) {
                                assert(who[w] == Some((i as int, j as int)));
                            } else {
                                assert(who[w] == who_before[w]);
                                assert(next@[w] == next_before[w]);
                            }
                        }
                    }
                    j += 1;
                }
                proof {
                    assert forall|w: int| 0 <= w < n implies planned(
                        v,
                        w,
                        #[trigger] next@[w],
                        who[w],
                        i + 1,
                        0,
                    ) by {
                        assert(planned(v, w, next@[w], who[w], i as int, refs@.len() as int));
                    }
                }
            },
            None => {
                proof {
                    assert forall|w: int| 0 <= w < n implies planned(
                        v,
                        w,
                        #[trigger] next@[w],
                        who[w],
                        i + 1,
                        0,
                    ) by {
                        assert(planned(v, w, next@[w], who[w], i as int, 0));
                    }
                }
            },
        }
        i += 1;
    }
    proof {
        assert forall|w: int| 0 <= w < next@.len() implies (#[trigger] next@[w]) == if driven(
            v,
            w,
        ) {
            Some(committed_signal(v, evaluated(v), w))
        } else {
            None::<bool>
        } by {
            assert(planned(v, w, next@[w], who[w], n as int, 0));
            match who[w] {
                Some((a, b)) => {
                    assert(last_driver(v, w, a, b)) by {
                        assert forall|i2: int, j2: int| #[trigger]
                            drives(v, i2, j2, w) implies !written_before(a, b, i2, j2) by {
                            assert(written_before(i2, j2, n as int, 0));
                        }
                    }
                    lemma_last_driver_unique(v, w, a, b);
                },
                None => {
                    if driven(v, w) {
                        let (i2, j2) = choose|i2: int, j2: int| #[trigger] drives(v, i2, j2, w);
                        assert(written_before(i2, j2, n as int, 0));
                    }
                },
            }
        }
    }
    next
}

/// Advances the simulation by one tick. Every node reads the signals as
/// they stood when the tick began and computes its outputs from them; then
/// each output is written to the wire it leads to. Nothing but signals
/// changes.
pub fn tick(store: &mut GraphStore)
    requires
        old(store).wf(),
    ensures
        final(store).wf(),
        final(store)@.follows(old(store)@),
        final(store)@ == ticked(old(store)@),
{
    let results = evaluate_nodes(store);
    let next = plan_commit(store, &results);
    let n: usize = store.len();
    let ghost v = store@;
    let mut w: usize = 0;
    while w < n
        invariant
            store.wf(),
            w <= n,
            n == v.slots.len(),
            store@.slots.len() == n,
            store@.created == v.created,
            store@.generations == v.generations,
            next@.len() == n,
            forall|k: int|
                0 <= k < n ==> (#[trigger] next@[k]) == if driven(v, k) {
                    Some(committed_signal(v, evaluated(v), k))
                } else {
                    None::<bool>
                },
            forall|k: int| 0 <= k < w ==> store@.slots[k] == ticked(v).slots[k],
            forall|k: int| w <= k < n ==> store@.slots[k] == v.slots[k],
        decreases n - w,
    {
        let ghost before = store@;
        let mut written = false;
        if store.wire_at(w).is_some() {
            match (next[w], store.entity_at(w)) {
                (Some(signal), Some(e)) => {
                    written = store.attach(e, Record::Wire(Wire { signal }));
                },
                _ => {},
            }
        }
        proof {
            assert(before.slots[w as int] == v.slots[w as int]);
            assert(store@.slots[w as int] == ticked(v).slots[w as int]);
            assert forall|k: int| 0 <= k < w implies store@.slots[k] == ticked(v).slots[k] by {
                assert(before.slots[k] == ticked(v).slots[k]);
            }
            assert forall|k: int| w < k < n implies store@.slots[k] == v.slots[k] by {
                assert(before.slots[k] == v.slots[k]);
            }
        }
        w += 1;
    }
    assert(store@.slots =~= ticked(v).slots);
}

/// Whether the simulation advances on a frame with this progress: on the
/// first frame of each interval.
pub open spec fn due(progress: Option<TickProgress>) -> bool {
    progress is Some && progress->0.elapsed == 0
}

/// The simulation's share of one frame: records the frame rate measured on
/// `frame`, works out how far that frame is into the simulation
/// interval, and advances the simulation by one tick if the frame is the
/// first of its interval. While the average rate is below one frame a
/// second there is no interval and the simulation stands still.
pub fn run_frame(store: &mut GraphStore, rates: &mut FrameRates, frame: Tick, fps: u32) -> (progress:
    Option<TickProgress>)
    requires
        old(store).wf(),
        old(rates).wf(),
    ensures
        final(store).wf(),
        final(rates).wf(),
        final(rates)@ == old(rates)@.update((frame.0 % FPS_WINDOW) as int, fps),
        progress is None <==> interval(final(rates)@) == 0,
        progress matches Some(p) ==> p.period == interval(final(rates)@) && p.elapsed == frame.0
            % p.period && p.wf(),
        final(store)@ == if due(progress) {
            ticked(old(store)@)
        } else {
            old(store)@
        },
        final(store)@.follows(old(store)@),
{
    rates.record(frame, fps);
    let progress = rates.progress(frame);
    match progress {
        Some(p) => {
            if p.is_tick() {
                tick(store);
            }
        },
        None => {},
    }
    progress
}

} // verus!
