//! Finding what the pointer is on.

use crate::components::{Entity, Pos};
use crate::resources::MousePos;
use crate::store::{GraphStore, StoreView};
use vstd::prelude::*;

verus! {

/// How close to an entity's placement the pointer has to be to hit it.
pub const HIT_RADIUS: i32 = 35;

/// The square of the distance between a placement and the pointer.
pub open spec fn distance_squared(pos: Pos, mouse: MousePos) -> int {
    let dx = pos.x - mouse.0;
    let dy = pos.y - mouse.1;
    dx * dx + dy * dy
}

/// Whether the pointer is closer to `pos` than the hit radius.
pub open spec fn within_reach(pos: Pos, mouse: MousePos) -> bool {
    distance_squared(pos, mouse) < HIT_RADIUS * HIT_RADIUS
}

/// Whether the pointer hits the entity in slot `i`: the entity is placed
/// within reach, and it is a port if ports are looked for, anything but a
/// port if not.
pub open spec fn hit(v: StoreView, i: int, mouse: MousePos, ports: bool) -> bool {
    &&& v.occupied(i)
    &&& v.slots[i]->0.pos is Some
    &&& within_reach(v.slots[i]->0.pos->0, mouse)
    &&& v.port_at(i) == ports
}

/// How far, squared, the entity in slot `i` is from the pointer.
pub open spec fn reach(v: StoreView, i: int, mouse: MousePos) -> int {
    distance_squared(v.slots[i]->0.pos->0, mouse)
}

/// Slot `i` is preferred to slot `k`: its entity is nearer to the pointer,
/// or as near and in an earlier slot.
pub open spec fn preferred(v: StoreView, i: int, k: int, mouse: MousePos) -> bool {
    reach(v, i, mouse) < reach(v, k, mouse) || (reach(v, i, mouse) == reach(v, k, mouse) && i <= k)
}

/// Slot `i` is hit, and it is preferred to every slot below `n` that is hit.
pub open spec fn best_below(v: StoreView, i: int, n: int, mouse: MousePos, ports: bool) -> bool {
    &&& hit(v, i, mouse, ports)
    &&& i < n
    &&& forall|k: int| 0 <= k < n && #[trigger] hit(v, k, mouse, ports) ==> preferred(v, i, k, mouse)
}

/// Slot `i` holds the entity that a click at `mouse` is aimed at: the
/// nearest one that is hit, and the first in slot order among the nearest.
pub open spec fn best_hit(v: StoreView, i: int, mouse: MousePos, ports: bool) -> bool {
    best_below(v, i, v.slots.len() as int, mouse, ports)
}

/// The entity that a click at `mouse` is aimed at, if it is aimed at any.
pub open spec fn target(v: StoreView, mouse: MousePos, ports: bool) -> Option<Entity> {
    if exists|i: int| best_hit(v, i, mouse, ports) {
        v.entity_at(choose|i: int| best_hit(v, i, mouse, ports))
    } else {
        None
    }
}

/// Only one slot can hold the entity aimed at.
pub proof fn lemma_best_hit_is_target(v: StoreView, i: int, mouse: MousePos, ports: bool)
    requires
        best_hit(v, i, mouse, ports),
    ensures
        target(v, mouse, ports) == v.entity_at(i),
        target(v, mouse, ports) is Some,
{
    let chosen = choose|k: int| best_hit(v, k, mouse, ports);
    assert(best_hit(v, chosen, mouse, ports));
    assert(preferred(v, i, chosen, mouse));
    assert(preferred(v, chosen, i, mouse));
}

/// The entity aimed at is a live, placed entity within reach of the
/// pointer; it is a port exactly if ports were looked for.
pub proof fn lemma_target_is_hit(v: StoreView, mouse: MousePos, ports: bool)
    requires
        v.wf(),
        target(v, mouse, ports) is Some,
    ensures
        v.alive(target(v, mouse, ports)->0),
        hit(v, target(v, mouse, ports)->0.index as int, mouse, ports),
        v.position(target(v, mouse, ports)->0) is Some,
        within_reach(v.position(target(v, mouse, ports)->0)->0, mouse),
        v.is_port(target(v, mouse, ports)->0) == ports,
{
    let chosen = choose|k: int| best_hit(v, k, mouse, ports);
    assert(best_hit(v, chosen, mouse, ports));
}

/// Where some slot below `n` is hit, one of them is preferred to all the others.
proof fn lemma_best_below_exists(v: StoreView, n: int, mouse: MousePos, ports: bool)
    requires
        exists|k: int| 0 <= k < n && hit(v, k, mouse, ports),
    ensures
        exists|i: int| best_below(v, i, n, mouse, ports),
    decreases n,
{
    let last = n - 1;
    if exists|k: int| 0 <= k < last && hit(v, k, mouse, ports) {
        lemma_best_below_exists(v, last, mouse, ports);
        let i = choose|i: int| best_below(v, i, last, mouse, ports);
        if hit(v, last, mouse, ports) && !preferred(v, i, last, mouse) {
            assert forall|k: int| 0 <= k < n && #[trigger] hit(v, k, mouse, ports) implies preferred(
                v,
                last,
                k,
                mouse,
            ) by {
                if k < last {
                    assert(preferred(v, i, k, mouse));
                }
            }
            assert(best_below(v, last, n, mouse, ports));
        } else {
            assert(best_below(v, i, n, mouse, ports));
        }
    } else {
        assert(hit(v, last, mouse, ports));
        assert(best_below(v, last, n, mouse, ports));
    }
}

/// A click is aimed at nothing only where it hits nothing.
pub proof fn lemma_no_target_no_hit(v: StoreView, mouse: MousePos, ports: bool)
    requires
        target(v, mouse, ports) is None,
    ensures
        forall|i: int| !hit(v, i, mouse, ports),
{
    if exists|i: int| hit(v, i, mouse, ports) {
        let k = choose|i: int| hit(v, i, mouse, ports);
        assert(0 <= k < v.slots.len());
        lemma_best_below_exists(v, v.slots.len() as int, mouse, ports);
        let i = choose|i: int| best_below(v, i, v.slots.len() as int, mouse, ports);
        assert(best_hit(v, i, mouse, ports));
        lemma_best_hit_is_target(v, i, mouse, ports);
    }
}

/// The square of the distance between `pos` and the pointer, if the
/// pointer is closer to `pos` than the hit radius.
pub fn reach_of(pos: Pos, mouse: MousePos) -> (near: Option<u32>)
    ensures
        near is Some <==> within_reach(pos, mouse),
        near matches Some(d) ==> d == distance_squared(pos, mouse),
{
    let dx: i64 = pos.x as i64 - mouse.0 as i64;
    let dy: i64 = pos.y as i64 - mouse.1 as i64;
    let r: i64 = HIT_RADIUS as i64;
    if dx >= r || dx <= -r || dy >= r || dy <= -r {
        assert(dx * dx + dy * dy >= 35 * 35) by (nonlinear_arith)
            requires
                dx >= 35 || dx <= -35 || dy >= 35 || dy <= -35,
        ;
        None
    } else {
        assert(0 <= dx * dx <= 34 * 34 && 0 <= dy * dy <= 34 * 34) by (nonlinear_arith)
            requires
                -35 < dx < 35,
                -35 < dy < 35,
        ;
        let d: i64 = dx * dx + dy * dy;
        if d < r * r {
            Some(d as u32)
        } else {
            None
        }
    }
}

/// Whether the pointer is closer to `pos` than the hit radius.
pub fn is_within_reach(pos: Pos, mouse: MousePos) -> (near: bool)
    ensures
        near == within_reach(pos, mouse),
{
    reach_of(pos, mouse).is_some()
}

/// The entity that a click at `mouse` is aimed at: among the entities
/// placed within reach of the pointer, ports only or anything but ports,
/// the nearest one, and the first in slot order among the nearest.
pub fn find_target(store: &GraphStore, mouse: MousePos, ports: bool) -> (found: Option<Entity>)
    requires
        store.wf(),
    ensures
        found == target(store@, mouse, ports),
        found is None <==> forall|i: int| !hit(store@, i, mouse, ports),
{
    let n: usize = store.len();
    let mut best: Option<(Entity, u32)> = None;
    let mut i: usize = 0;
    while i < n
        invariant
            store.wf(),
            i <= n,
            n == store@.slots.len(),
            best is None ==> forall|k: int| 0 <= k < i ==> !hit(store@, k, mouse, ports),
            best matches Some((e, d)) ==> {
                &&& best_below(store@, e.index as int, i as int, mouse, ports)
                &&& store@.entity_at(e.index as int) == Some(e)
                &&& d == reach(store@, e.index as int, mouse)
            },
        decreases n - i,
    {
        match store.entity_at(i) {
            Some(e) => {
                match store.position(e) {
                    Some(pos) => {
                        match reach_of(pos, mouse) {
                            Some(d) => {
                                if store.port_at(i).is_some() == ports {
                                    assert(hit(store@, i as int, mouse, ports));
                                    let nearer = match best {
                                        Some((_, least)) => d < least,
                                        None => true,
                                    };
                                    if nearer {
                                        best = Some((e, d));
                                    }
                                }
                            },
                            None => {},
                        }
                    },
                    None => {},
                }
            },
            None => {},
        }
        i += 1;
    }
    match best {
        Some((e, _)) => {
            proof {
                lemma_best_hit_is_target(store@, e.index as int, mouse, ports);
            }
            Some(e)
        },
        None => {
            proof {
                if target(store@, mouse, ports) is Some {
                    lemma_target_is_hit(store@, mouse, ports);
                }
            }
            None
        },
    }
}

} // verus!
