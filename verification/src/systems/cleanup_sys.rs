//! The consistency sweep: after a deletion it removes the ports whose node is
//! gone and the wires that such a port bound or that no port binds any more.

use crate::components::Entity;
use crate::store::{GraphStore, StoreView};
use vstd::prelude::*;

verus! {

/// Slot `i` holds a port whose node no longer exists.
pub open spec fn port_orphaned(v: StoreView, i: int) -> bool {
    &&& v.port_at(i)
    &&& !v.is_node(v.record_at(i)->0->Port_0.node)
}

/// Slot `i` holds a port that is bound to the live entity in slot `w`.
pub open spec fn binds(v: StoreView, i: int, w: int) -> bool {
    &&& v.port_at(i)
    &&& v.record_at(i)->0->Port_0.wire matches Some(e)
    &&& v.alive(e)
    &&& e.index == w
}

/// Some port that keeps its node binds the entity in slot `w`.
pub open spec fn held(v: StoreView, w: int) -> bool {
    exists|i: int| #[trigger] binds(v, i, w) && !port_orphaned(v, i)
}

/// Some port that has lost its node binds the entity in slot `w`.
pub open spec fn torn(v: StoreView, w: int) -> bool {
    exists|i: int| #[trigger] binds(v, i, w) && port_orphaned(v, i)
}

/// Slot `w` holds a wire that no port binds, or that a port without a node
/// bound.
pub open spec fn wire_orphaned(v: StoreView, w: int) -> bool {
    &&& v.wire_at(w)
    &&& (torn(v, w) || !held(v, w))
}

/// The slots that the sweep empties.
pub open spec fn dangling(v: StoreView) -> Seq<bool> {
    Seq::new(v.slots.len(), |i: int| port_orphaned(v, i) || wire_orphaned(v, i))
}

/// The store after the sweep.
pub open spec fn swept(v: StoreView) -> StoreView {
    v.without(dangling(v))
}

/// Every port belongs to a node that exists, and every wire is bound by at
/// least one port.
pub open spec fn consistent(v: StoreView) -> bool {
    &&& forall|i: int| !port_orphaned(v, i)
    &&& forall|w: int| #[trigger] v.wire_at(w) ==> exists|i: int| #[trigger] binds(v, i, w)
}

/// The sweep leaves nodes alone, so a port that kept its node before the
/// sweep keeps it after.
proof fn lemma_swept_keeps_nodes(v: StoreView, e: Entity)
    ensures
        swept(v).is_node(e) == v.is_node(e),
        swept(v).alive(e) ==> v.alive(e),
{
}

/// After the sweep no port references a node that does not exist, and no
/// wire is left that no port binds.
pub proof fn lemma_sweep_restores_consistency(v: StoreView)
    ensures
        consistent(swept(v)),
{
    let s = swept(v);
    assert forall|i: int| !port_orphaned(s, i) by {
        if port_orphaned(s, i) {
            let port = s.record_at(i)->0->Port_0;
            lemma_swept_keeps_nodes(v, port.node);
            assert(port_orphaned(v, i));
        }
    }
    assert forall|w: int| #[trigger] s.wire_at(w) implies exists|i: int| #[trigger]
        binds(s, i, w) by {
        assert(!wire_orphaned(v, w));
        assert(held(v, w));
        let i = choose|i: int| #[trigger] binds(v, i, w) && !port_orphaned(v, i);
        assert(binds(s, i, w));
    }
}

/// On a store where nothing dangles the sweep changes nothing.
pub proof fn lemma_sweep_of_consistent(v: StoreView)
    requires
        consistent(v),
    ensures
        swept(v) == v,
{
    assert forall|w: int| !wire_orphaned(v, w) by {
        if wire_orphaned(v, w) {
            assert(v.wire_at(w));
            let i = choose|i: int| #[trigger] binds(v, i, w);
            assert(!port_orphaned(v, i));
            if torn(v, w) {
                let j = choose|j: int| #[trigger] binds(v, j, w) && port_orphaned(v, j);
                assert(!port_orphaned(v, j));
            }
        }
    }
    assert(swept(v).slots =~= v.slots);
}

/// The sweep never touches an entity that is neither a port nor a wire, and
/// it removes a port or a wire only where it dangles.
pub proof fn lemma_sweep_spares(v: StoreView, i: int)
    requires
        0 <= i < v.slots.len(),
        !port_orphaned(v, i),
        !wire_orphaned(v, i),
    ensures
        swept(v).slots[i] == v.slots[i],
{
}

/// Some port in a slot below `upto` that keeps its node binds the entity
/// in slot `w`.
spec fn held_below(v: StoreView, w: int, upto: int) -> bool {
    exists|i: int| 0 <= i < upto && #[trigger] binds(v, i, w) && !port_orphaned(v, i)
}

/// Some port in a slot below `upto` that has lost its node binds the entity
/// in slot `w`.
spec fn torn_below(v: StoreView, w: int, upto: int) -> bool {
    exists|i: int| 0 <= i < upto && #[trigger] binds(v, i, w) && port_orphaned(v, i)
}

/// For each slot, whether it holds a port whose node no longer exists.
fn orphaned_ports(store: &GraphStore) -> (orphans: Vec<bool>)
    requires
        store.wf(),
    ensures
        orphans@.len() == store@.slots.len(),
        forall|i: int| 0 <= i < orphans@.len() ==> orphans@[i] == port_orphaned(store@, i),
{
    let n: usize = store.len();
    let mut orphans: Vec<bool> = Vec::new();
    let mut i: usize = 0;
    while i < n
        invariant
            i <= n,
            n == store@.slots.len(),
            store.wf(),
            orphans@.len() == i,
            forall|k: int| 0 <= k < i ==> orphans@[k] == port_orphaned(store@, k),
        decreases n - i,
    {
        let orphan = match store.port_at(i) {
            Some(port) => store.node(port.node).is_none(),
            None => false,
        };
        orphans.push(orphan);
        i += 1;
    }
    orphans
}

/// For each slot, whether the sweep empties it.
fn dangling_slots(store: &GraphStore) -> (gone: Vec<bool>)
    requires
        store.wf(),
    ensures
        gone@ == dangling(store@),
{
    let n: usize = store.len();
    let orphans = orphaned_ports(store);
    let mut held_by: Vec<bool> = Vec::new();
    let mut torn_by: Vec<bool> = Vec::new();
    let mut k: usize = 0;
    while k < n
        invariant
            k <= n,
            held_by@.len() == k,
            torn_by@.len() == k,
            forall|w: int| 0 <= w < k ==> !held_by@[w] && !torn_by@[w],
        decreases n - k,
    {
        held_by.push(false);
        torn_by.push(false);
        k += 1;
    }
    let ghost v = store@;
    let mut i: usize = 0;
    while i < n
        invariant
            i <= n,
            n == v.slots.len(),
            v == store@,
            store.wf(),
            orphans@.len() == n,
            forall|p: int| 0 <= p < n ==> orphans@[p] == port_orphaned(v, p),
            held_by@.len() == n,
            torn_by@.len() == n,
            forall|w: int| 0 <= w < n ==> held_by@[w] == held_below(v, w, i as int),
            forall|w: int| 0 <= w < n ==> torn_by@[w] == torn_below(v, w, i as int),
        decreases n - i,
    {
        let ghost held_before = held_by@;
        let ghost torn_before = torn_by@;
        let mut target: Option<usize> = None;
        match store.port_at(i) {
            Some(port) => {
                match port.wire {
                    Some(e) => {
                        if store.is_alive(e) {
                            target = Some(e.index as usize);
                        }
                    },
                    None => {},
                }
            },
            None => {},
        }
        proof {
            assert(forall|w: int| binds(v, i as int, w) <==> target == Some(w as usize) && 0 <= w < n);
        }
        match target {
            Some(w) => {
                if orphans[i] {
                    torn_by.set(w, true);
                } else {
                    held_by.set(w, true);
                }
            },
            None => {},
        }
        proof {
            assert forall|w: int| 0 <= w < n implies held_by@[w] == held_below(v, w, i + 1) by {
                if held_below(v, w, i + 1) {
                    let p = choose|p: int|
                        0 <= p < i + 1 && #[trigger] binds(v, p, w) && !port_orphaned(v, p);
                    if p < i {
                        assert(held_below(v, w, i as int));
                    }
                }
                if held_below(v, w, i as int) {
                    let p = choose|p: int|
                        0 <= p < i && #[trigger] binds(v, p, w) && !port_orphaned(v, p);
                    assert(0 <= p < i + 1 && binds(v, p, w) && !port_orphaned(v, p));
                }
                if binds(v, i as int, w) && !port_orphaned(v, i as int) {
                    assert(held_below(v, w, i + 1));
                }
            }
            assert forall|w: int| 0 <= w < n implies torn_by@[w] == torn_below(v, w, i + 1) by {
                if torn_below(v, w, i + 1) {
                    let p = choose|p: int|
                        0 <= p < i + 1 && #[trigger] binds(v, p, w) && port_orphaned(v, p);
                    if p < i {
                        assert(torn_below(v, w, i as int));
                    }
                }
                if torn_below(v, w, i as int) {
                    let p = choose|p: int|
                        0 <= p < i && #[trigger] binds(v, p, w) && port_orphaned(v, p);
                    assert(0 <= p < i + 1 && binds(v, p, w) && port_orphaned(v, p));
                }
                if binds(v, i as int, w) && port_orphaned(v, i as int) {
                    assert(torn_below(v, w, i + 1));
                }
            }
        }
        i += 1;
    }
    proof {
        assert forall|w: int| 0 <= w < n implies held_by@[w] == held(v, w) by {
            if held(v, w) {
                let p = choose|p: int| #[trigger] binds(v, p, w) && !port_orphaned(v, p);
                assert(0 <= p < n);
            }
        }
        assert forall|w: int| 0 <= w < n implies torn_by@[w] == torn(v, w) by {
            if torn(v, w) {
                let p = choose|p: int| #[trigger] binds(v, p, w) && port_orphaned(v, p);
                assert(0 <= p < n);
            }
        }
    }
    let mut gone: Vec<bool> = Vec::new();
    let mut j: usize = 0;
    while j < n
        invariant
            j <= n,
            n == v.slots.len(),
            v == store@,
            store.wf(),
            orphans@.len() == n,
            forall|p: int| 0 <= p < n ==> orphans@[p] == port_orphaned(v, p),
            held_by@.len() == n,
            torn_by@.len() == n,
            forall|w: int| 0 <= w < n ==> held_by@[w] == held(v, w),
            forall|w: int| 0 <= w < n ==> torn_by@[w] == torn(v, w),
            gone@.len() == j,
            forall|p: int| 0 <= p < j ==> gone@[p] == (port_orphaned(v, p) || wire_orphaned(v, p)),
        decreases n - j,
    {
        let loose = store.wire_at(j).is_some() && (torn_by[j] || !held_by[j]);
        gone.push(orphans[j] || loose);
        j += 1;
    }
    assert(gone@ =~= dangling(v));
    gone
}

/// Runs the consistency sweep: every port whose node is gone is deleted,
/// and with it every wire that such a port bound or that no port binds.
/// Everything else stays as it was; where nothing dangles, nothing changes.
pub fn run_cleanup_systems(store: &mut GraphStore)
    requires
        old(store).wf(),
    ensures
        final(store).wf(),
        final(store)@.follows(old(store)@),
        final(store)@ == swept(old(store)@),
        consistent(final(store)@),
        consistent(old(store)@) ==> final(store)@ == old(store)@,
{
    let gone = dangling_slots(store);
    store.remove_marked(&gone);
    proof {
        lemma_sweep_restores_consistency(old(store)@);
        if consistent(old(store)@) {
            lemma_sweep_of_consistent(old(store)@);
        }
    }
}

} // verus!
