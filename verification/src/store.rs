//! The graph store: every entity of the circuit and the records attached to
//! it. Entities live in numbered slots; a slot is reused once its entity is
//! gone, under a new generation, so that old references find nothing.

use crate::components::nodes::{arity_in, arity_out};
use crate::components::{
    shown, Connected, ConnectedView, Connection, Entity, Pos, Record, RecordView, Wire,
};
use crate::registry::{
    registry_create, registry_created, registry_delete, registry_generations, registry_new,
    REGISTRY_CAPACITY,
};
use vstd::prelude::*;

verus! {

/// What the store holds for one live entity.
pub struct EntityState {
    /// The generation under which the slot is occupied.
    pub generation: i32,
    /// Whether the entity is queued for deletion.
    pub doomed: bool,
    /// The entity's role, if it has one.
    pub record: Option<RecordView>,
    /// The entity's placement, if it has one.
    pub pos: Option<Pos>,
}

/// The store as a sequence of slots, each empty or holding one live entity.
pub struct StoreView {
    /// What each slot holds.
    pub slots: Seq<Option<EntityState>>,
    /// The last generation under which each slot was occupied, `0` for a
    /// slot that never was.
    pub generations: Seq<i32>,
    /// The number of entities created so far.
    pub created: nat,
}

impl EntityState {
    /// A newly created entity: no role, no placement, not queued.
    pub open spec fn fresh(generation: i32) -> EntityState {
        EntityState { generation, doomed: false, record: None, pos: None }
    }
}

impl StoreView {
    /// Whether slot `i` holds a live entity.
    pub open spec fn occupied(self, i: int) -> bool {
        0 <= i < self.slots.len() && self.slots[i] is Some
    }

    /// Whether `e` names a live entity.
    pub open spec fn alive(self, e: Entity) -> bool {
        self.occupied(e.index as int) && self.slots[e.index as int]->0.generation == e.generation
    }

    /// The live entity in slot `i`, if there is one.
    pub open spec fn entity_at(self, i: int) -> Option<Entity> {
        if self.occupied(i) {
            Some(Entity { index: i as u32, generation: self.slots[i]->0.generation })
        } else {
            None
        }
    }

    /// The role of the entity in slot `i`, if the slot is occupied and the
    /// entity has one.
    pub open spec fn record_at(self, i: int) -> Option<RecordView> {
        if self.occupied(i) {
            self.slots[i]->0.record
        } else {
            None
        }
    }

    /// Whether slot `i` holds an entity that has a placement.
    pub open spec fn placed_at(self, i: int) -> bool {
        self.occupied(i) && self.slots[i]->0.pos is Some
    }

    /// Whether slot `i` holds a node.
    pub open spec fn node_at(self, i: int) -> bool {
        self.record_at(i) is Some && self.record_at(i)->0 is Node
    }

    /// Whether slot `i` holds a wire.
    pub open spec fn wire_at(self, i: int) -> bool {
        self.record_at(i) is Some && self.record_at(i)->0 is Wire
    }

    /// Whether slot `i` holds a port.
    pub open spec fn port_at(self, i: int) -> bool {
        self.record_at(i) is Some && self.record_at(i)->0 is Port
    }

    /// The role of `e`; a reference to an entity that is gone finds nothing.
    pub open spec fn record(self, e: Entity) -> Option<RecordView> {
        if self.alive(e) {
            self.slots[e.index as int]->0.record
        } else {
            None
        }
    }

    /// The placement of `e`; a reference to an entity that is gone finds nothing.
    pub open spec fn position(self, e: Entity) -> Option<Pos> {
        if self.alive(e) {
            self.slots[e.index as int]->0.pos
        } else {
            None
        }
    }

    /// Whether `e` is alive and queued for deletion.
    pub open spec fn doomed(self, e: Entity) -> bool {
        self.alive(e) && self.slots[e.index as int]->0.doomed
    }

    /// Whether `e` is a node.
    pub open spec fn is_node(self, e: Entity) -> bool {
        self.record(e) matches Some(RecordView::Node(_))
    }

    /// Whether `e` is a wire.
    pub open spec fn is_wire(self, e: Entity) -> bool {
        self.record(e) matches Some(RecordView::Wire(_))
    }

    /// Whether `e` is a port.
    pub open spec fn is_port(self, e: Entity) -> bool {
        self.record(e) matches Some(RecordView::Port(_))
    }

    /// The node record of `e`, meaningful where `e` is a node.
    pub open spec fn node(self, e: Entity) -> ConnectedView {
        self.record(e)->0->Node_0
    }

    /// The wire record of `e`, meaningful where `e` is a wire.
    pub open spec fn wire(self, e: Entity) -> Wire {
        self.record(e)->0->Wire_0
    }

    /// The port record of `e`, meaningful where `e` is a port.
    pub open spec fn port(self, e: Entity) -> Connection {
        self.record(e)->0->Port_0
    }

    /// The last generation under which slot `i` was occupied, `0` if it
    /// never was.
    pub open spec fn last_generation(self, i: int) -> int {
        if 0 <= i < self.generations.len() {
            self.generations[i] as int
        } else {
            0
        }
    }

    /// The store is within the limits of its registry, every live entity
    /// has the last generation of its slot, and the arity invariant holds
    /// of every node.
    pub open spec fn wf(self) -> bool {
        &&& self.slots.len() == self.generations.len()
        &&& self.slots.len() <= self.created <= REGISTRY_CAPACITY
        &&& forall|i: int| 0 <= i < self.generations.len() ==> #[trigger] self.generations[i] >= 0
        &&& forall|i: int|
            self.occupied(i) ==> (#[trigger] self.slots[i])->0.generation == self.generations[i]
                && self.generations[i] > 0
        &&& forall|i: int|
            self.occupied(i) && (#[trigger] self.slots[i])->0.record is Some
                ==> self.slots[i]->0.record->0.wf()
    }

    /// Whether this store can be a later state of `earlier`: no slot has
    /// gone back to an older generation, and an entity that was gone in
    /// `earlier` has not come back under its old generation.
    pub open spec fn follows(self, earlier: StoreView) -> bool {
        &&& self.generations.len() >= earlier.generations.len()
        &&& forall|i: int|
            0 <= i < earlier.generations.len() ==> {
                &&& (#[trigger] self.generations[i]) >= earlier.generations[i]
                &&& self.occupied(i) && self.generations[i] == earlier.generations[i]
                    ==> earlier.occupied(i)
            }
    }

    /// The store with the content of slot `i` replaced.
    pub open spec fn put(self, i: int, state: Option<EntityState>) -> StoreView {
        StoreView { slots: self.slots.update(i, state), ..self }
    }

    /// The store with `e` given the role `record`; unchanged if `e` is not alive.
    pub open spec fn with_record(self, e: Entity, record: RecordView) -> StoreView {
        if self.alive(e) {
            self.put(
                e.index as int,
                Some(EntityState { record: Some(record), ..self.slots[e.index as int]->0 }),
            )
        } else {
            self
        }
    }

    /// The store with `e` placed at `pos`; unchanged if `e` is not alive.
    pub open spec fn with_pos(self, e: Entity, pos: Pos) -> StoreView {
        if self.alive(e) {
            self.put(
                e.index as int,
                Some(EntityState { pos: Some(pos), ..self.slots[e.index as int]->0 }),
            )
        } else {
            self
        }
    }

    /// The store with `e` queued for deletion; unchanged if `e` is not alive.
    pub open spec fn queued(self, e: Entity) -> StoreView {
        if self.alive(e) {
            self.put(
                e.index as int,
                Some(EntityState { doomed: true, ..self.slots[e.index as int]->0 }),
            )
        } else {
            self
        }
    }

    /// The store with a new entity `e` in the state `state`: its slot is
    /// occupied under its generation, the sequence of slots is grown with
    /// empty slots where the slot lies beyond its end, and one more entity
    /// is counted as created.
    pub open spec fn with_new(self, e: Entity, state: EntityState) -> StoreView {
        let at = e.index as int;
        let n = if at < self.slots.len() {
            self.slots.len()
        } else {
            (at + 1) as nat
        };
        StoreView {
            slots: Seq::new(
                n,
                |k: int|
                    if k == at {
                        Some(state)
                    } else if k < self.slots.len() {
                        self.slots[k]
                    } else {
                        None
                    },
            ),
            generations: Seq::new(
                n,
                |k: int|
                    if k == at {
                        e.generation
                    } else if k < self.generations.len() {
                        self.generations[k]
                    } else {
                        0
                    },
            ),
            created: self.created + 1,
        }
    }

    /// The store once every queued deletion has been applied.
    pub open spec fn purged(self) -> StoreView {
        StoreView {
            slots: Seq::new(
                self.slots.len(),
                |i: int|
                    if self.slots[i] matches Some(state) && state.doomed {
                        None
                    } else {
                        self.slots[i]
                    },
            ),
            ..self
        }
    }

    /// The store without the entities in the slots that `gone` marks.
    pub open spec fn without(self, gone: Seq<bool>) -> StoreView {
        StoreView {
            slots: Seq::new(
                self.slots.len(),
                |i: int|
                    if i < gone.len() && gone[i] {
                        None
                    } else {
                        self.slots[i]
                    },
            ),
            ..self
        }
    }

    /// An empty store.
    pub open spec fn empty() -> StoreView {
        StoreView { slots: Seq::empty(), generations: Seq::empty(), created: 0 }
    }
}

/// Every store can be a later state of itself.
pub proof fn lemma_follows_reflexive(v: StoreView)
    ensures
        v.follows(v),
{
}

/// A later state of a later state is a later state.
pub proof fn lemma_follows_transitive(first: StoreView, second: StoreView, third: StoreView)
    requires
        second.follows(first),
        third.follows(second),
    ensures
        third.follows(first),
{
    assert forall|i: int| 0 <= i < first.generations.len() implies {
        &&& (#[trigger] third.generations[i]) >= first.generations[i]
        &&& third.occupied(i) && third.generations[i] == first.generations[i] ==> first.occupied(i)
    } by {
        assert(second.generations[i] >= first.generations[i]);
        assert(third.generations[i] >= second.generations[i]);
    }
}

/// A reference to an entity that is gone finds nothing, ever: once the
/// slot of `e` has reached the generation of `e` and `e` is not alive, `e`
/// is not alive in any later state of the store, though its slot may be
/// occupied again.
pub proof fn lemma_gone_for_good(earlier: StoreView, later: StoreView, e: Entity)
    requires
        earlier.wf(),
        later.wf(),
        later.follows(earlier),
        !earlier.alive(e),
        e.generation <= earlier.last_generation(e.index as int),
    ensures
        !later.alive(e),
        later.record(e) is None,
        later.position(e) is None,
{
    let i = e.index as int;
    if later.alive(e) {
        if 0 <= i < earlier.generations.len() {
            assert(later.generations[i] >= earlier.generations[i]);
            assert(later.slots[i]->0.generation == later.generations[i]);
            assert(earlier.occupied(i));
            assert(earlier.slots[i]->0.generation == earlier.generations[i]);
        } else {
            assert(later.slots[i]->0.generation == later.generations[i]);
        }
    }
}

struct Slot {
    generation: i32,
    alive: bool,
    doomed: bool,
    record: Option<Record>,
    pos: Option<Pos>,
}

impl Slot {
    /// What the registry keeps for this slot's index: the generation while
    /// the slot is occupied, the negated generation once it is empty.
    spec fn kept(self) -> int {
        if self.alive {
            self.generation as int
        } else {
            -(self.generation as int)
        }
    }

    spec fn record_view(self) -> Option<RecordView> {
        match self.record {
            Some(record) => Some(record@),
            None => None,
        }
    }

    spec fn state(self) -> Option<EntityState> {
        if self.alive {
            Some(
                EntityState {
                    generation: self.generation,
                    doomed: self.doomed,
                    record: self.record_view(),
                    pos: self.pos,
                },
            )
        } else {
            None
        }
    }
}

/// The entity store of one circuit.
pub struct GraphStore {
    registry: specs::World,
    slots: Vec<Slot>,
    created: usize,
}

impl View for GraphStore {
    type V = StoreView;

    closed spec fn view(&self) -> StoreView {
        StoreView {
            slots: Seq::new(self.slots@.len(), |i: int| self.slots@[i].state()),
            generations: Seq::new(self.slots@.len(), |i: int| self.slots@[i].generation),
            created: self.created as nat,
        }
    }
}

impl Default for GraphStore {
    fn default() -> (store: GraphStore)
        ensures
            store.wf(),
            store@ == StoreView::empty(),
    {
        GraphStore::new()
    }
}

/// The arity invariant: every node in a well-formed store has exactly as
/// many input and output references as its kind declares.
pub proof fn lemma_arity_invariant(v: StoreView, e: Entity)
    requires
        v.wf(),
        v.is_node(e),
    ensures
        v.node(e).inputs.len() == arity_in(v.node(e).node),
        v.node(e).outputs.len() == arity_out(v.node(e).node),
{
    assert(v.occupied(e.index as int));
    assert(v.slots[e.index as int]->0.record is Some);
}

impl GraphStore {
    /// The slots agree with the registry on the generation of every index
    /// that has been used, and on whether the entity there is alive.
    pub closed spec fn mirrors_registry(&self) -> bool {
        &&& registry_created(self.registry) == self.created
        &&& forall|i: int|
            0 <= i < self.slots@.len() ==> (#[trigger] self.slots@[i]).generation >= 0 && (
            self.slots@[i].alive ==> self.slots@[i].generation > 0)
        &&& forall|i: u32|
            #[trigger] registry_generations(self.registry).dom().contains(i) <==> (i
                < self.slots@.len() && self.slots@[i as int].generation != 0)
        &&& forall|i: u32|
            i < self.slots@.len() && (#[trigger] self.slots@[i as int]).generation != 0
                ==> registry_generations(self.registry)[i] == self.slots@[i as int].kept()
    }

    /// The store's invariant: its slots mirror the registry, and what they
    /// hold is well formed.
    pub open spec fn wf(&self) -> bool {
        &&& self.mirrors_registry()
        &&& self@.wf()
    }

    /// A store with no entity.
    pub fn new() -> (store: GraphStore)
        ensures
            store.wf(),
            store@ == StoreView::empty(),
    {
        let store = GraphStore { registry: registry_new(), slots: Vec::new(), created: 0 };
        assert(store@.slots =~= Seq::empty());
        assert(store@.generations =~= Seq::empty());
        store
    }

    /// The number of slots, occupied or not.
    pub fn len(&self) -> (n: usize)
        ensures
            n == self@.slots.len(),
    {
        self.slots.len()
    }

    /// How many more entities this store can create.
    pub fn room(&self) -> (n: usize)
        requires
            self.wf(),
        ensures
            n == REGISTRY_CAPACITY - self@.created,
    {
        REGISTRY_CAPACITY - self.created
    }

    /// Whether `e` names a live entity.
    pub fn is_alive(&self, e: Entity) -> (alive: bool)
        ensures
            alive == self@.alive(e),
    {
        let i: usize = e.index as usize;
        i < self.slots.len() && self.slots[i].alive && self.slots[i].generation == e.generation
    }

    /// The live entity in slot `i`, if there is one.
    pub fn entity_at(&self, i: usize) -> (found: Option<Entity>)
        requires
            self.wf(),
        ensures
            found == self@.entity_at(i as int),
    {
        if i < self.slots.len() && self.slots[i].alive {
            Some(Entity { index: i as u32, generation: self.slots[i].generation })
        } else {
            None
        }
    }

    /// Creates an entity with no record, under a generation that its slot
    /// never had. The store is full once it has created as many entities as
    /// its registry allows; it then creates nothing.
    pub fn create_entity(&mut self) -> (created: Option<Entity>)
        requires
            old(self).wf(),
        ensures
            final(self).wf(),
            final(self)@.follows(old(self)@),
            created is None <==> old(self)@.created == REGISTRY_CAPACITY,
            created is None ==> final(self)@ == old(self)@,
            created matches Some(e) ==> {
                &&& !old(self)@.occupied(e.index as int)
                &&& e.generation > old(self)@.last_generation(e.index as int)
                &&& final(self)@ == old(self)@.with_new(e, EntityState::fresh(e.generation))
            },
    {
        if self.created >= REGISTRY_CAPACITY {
            return None;
        }
        let ghost kept_before = registry_generations(self.registry);
        let (index, generation) = registry_create(&mut self.registry);
        self.created = self.created + 1;
        let at: usize = index as usize;
        let ghost mid = *self;
        proof {
            if (at as int) < old(self).slots@.len() {
                let slot = old(self).slots@[at as int];
                if slot.generation != 0 {
                    assert(kept_before.dom().contains(index));
                    assert(kept_before[index] == slot.kept());
                } else {
                    assert(!kept_before.dom().contains(index));
                }
            } else {
                assert(!kept_before.dom().contains(index));
            }
        }
        while self.slots.len() <= at
            invariant
                self.registry == mid.registry,
                self.created == mid.created,
                self.slots@.len() >= old(self).slots@.len(),
                self.slots@.len() <= at + 1 || self.slots@.len() == old(self).slots@.len(),
                forall|k: int| 0 <= k < old(self).slots@.len() ==> self.slots@[k] == old(self).slots@[k],
                forall|k: int|
                    old(self).slots@.len() <= k < self.slots@.len() ==> !self.slots@[k].alive
                        && self.slots@[k].generation == 0,
            decreases at + 1 - self.slots@.len(),
        {
            self.slots.push(Slot { generation: 0, alive: false, doomed: false, record: None, pos: None });
        }
        self.slots.set(at, Slot { generation, alive: true, doomed: false, record: None, pos: None });
        let e = Entity { index, generation };
        proof {
            let target = old(self)@.with_new(e, EntityState::fresh(e.generation));
            assert(self@.slots =~= target.slots);
            assert(self@.generations =~= target.generations);
            assert forall|i: u32| #[trigger]
                registry_generations(self.registry).dom().contains(i) <==> (i < self.slots@.len()
                    && self.slots@[i as int].generation != 0) by {
                if i != index && i < old(self).slots@.len() {
                    assert(self.slots@[i as int] == old(self).slots@[i as int]);
                }
            }
            assert forall|i: u32|
                i < self.slots@.len() && (#[trigger] self.slots@[i as int]).generation != 0
                    implies registry_generations(self.registry)[i] == self.slots@[i as int].kept() by {
                if i != index {
                    assert(self.slots@[i as int] == old(self).slots@[i as int]);
                }
            }
            assert forall|i: int| 0 <= i < self.slots@.len() implies (#[trigger] self.slots@[i]).generation
                >= 0 && (self.slots@[i].alive ==> self.slots@[i].generation > 0) by {
                if i != index && i < old(self).slots@.len() {
                    assert(self.slots@[i] == old(self).slots@[i]);
                }
            }
            assert forall|i: int| self@.occupied(i) implies (#[trigger] self@.slots[i])->0.generation
                == self@.generations[i] && self@.generations[i] > 0 by {
                assert(self@.slots[i] == self.slots@[i].state());
            }
            assert forall|i: int|
                self@.occupied(i) && (#[trigger] self@.slots[i])->0.record is Some
                    implies self@.slots[i]->0.record->0.wf() by {
                assert(i != index);
                assert(old(self)@.occupied(i));
                assert(self@.slots[i] == old(self)@.slots[i]);
            }
            assert(self@.follows(old(self)@)) by {
                assert forall|i: int| 0 <= i < old(self)@.generations.len() implies {
                    &&& (#[trigger] self@.generations[i]) >= old(self)@.generations[i]
                    &&& self@.occupied(i) && self@.generations[i] == old(self)@.generations[i]
                        ==> old(self)@.occupied(i)
                } by {
                    if i != index {
                        assert(self@.slots[i] == old(self)@.slots[i]);
                    }
                }
            }
        }
        Some(e)
    }

    /// Gives `e` the role `record`, in place of any role it had. An entity
    /// that is not alive gets nothing.
    pub fn attach(&mut self, e: Entity, record: Record) -> (done: bool)
        requires
            old(self).wf(),
            record.wf(),
        ensures
            final(self).wf(),
            final(self)@.follows(old(self)@),
            done == old(self)@.alive(e),
            final(self)@ == old(self)@.with_record(e, record@),
    {
        if !self.is_alive(e) {
            return false;
        }
        let at: usize = e.index as usize;
        let ghost shown = record@;
        self.slots[at].record = Some(record);
        proof {
            let target = old(self)@.with_record(e, shown);
            assert(self@.slots =~= target.slots);
            assert(self@.generations =~= target.generations);
            self.lemma_same_liveness(*old(self));
        }
        true
    }

    /// A change that leaves the registry alone, and every slot's liveness and
    /// generation as they were, keeps the slots in step with the registry,
    /// and leaves a later state of the store.
    proof fn lemma_same_liveness(&self, before: GraphStore)
        requires
            before.mirrors_registry(),
            self.registry == before.registry,
            self.created == before.created,
            self.slots@.len() == before.slots@.len(),
            forall|i: int|
                0 <= i < self.slots@.len() ==> (#[trigger] self.slots@[i]).alive
                    == before.slots@[i].alive && self.slots@[i].generation
                    == before.slots@[i].generation,
        ensures
            self.mirrors_registry(),
            self@.follows(before@),
            self@.generations == before@.generations,
    {
        assert forall|i: u32| #[trigger]
            registry_generations(self.registry).dom().contains(i) <==> (i < self.slots@.len()
                && self.slots@[i as int].generation != 0) by {
            if i < self.slots@.len() {
                assert(before.slots@[i as int].alive == self.slots@[i as int].alive);
            }
        }
        assert forall|i: u32|
            i < self.slots@.len() && (#[trigger] self.slots@[i as int]).generation != 0
                implies registry_generations(self.registry)[i] == self.slots@[i as int].kept() by {
            assert(before.slots@[i as int].alive == self.slots@[i as int].alive);
        }
        assert forall|i: int| 0 <= i < self.slots@.len() implies (#[trigger] self.slots@[i]).generation
            >= 0 && (self.slots@[i].alive ==> self.slots@[i].generation > 0) by {
            assert(before.slots@[i].alive == self.slots@[i].alive);
        }
        assert(self@.generations =~= before@.generations);
        assert forall|i: int| 0 <= i < before@.generations.len() implies {
            &&& (#[trigger] self@.generations[i]) >= before@.generations[i]
            &&& self@.occupied(i) && self@.generations[i] == before@.generations[i]
                ==> before@.occupied(i)
        } by {
            assert(before.slots@[i].alive == self.slots@[i].alive);
        }
    }

    /// Places `e` at `pos`, in place of any placement it had. An entity that
    /// is not alive gets nothing.
    pub fn place(&mut self, e: Entity, pos: Pos) -> (done: bool)
        requires
            old(self).wf(),
        ensures
            final(self).wf(),
            final(self)@.follows(old(self)@),
            done == old(self)@.alive(e),
            final(self)@ == old(self)@.with_pos(e, pos),
    {
        if !self.is_alive(e) {
            return false;
        }
        let at: usize = e.index as usize;
        self.slots[at].pos = Some(pos);
        proof {
            let target = old(self)@.with_pos(e, pos);
            assert(self@.slots =~= target.slots);
            assert(self@.generations =~= target.generations);
            self.lemma_same_liveness(*old(self));
        }
        true
    }

    /// The role of `e`, if it is alive and has one.
    pub fn get(&self, e: Entity) -> (found: Option<&Record>)
        requires
            self.wf(),
        ensures
            found is None <==> self@.record(e) is None,
            found matches Some(record) ==> self@.record(e) == Some(record@) && record.wf(),
    {
        if !self.is_alive(e) {
            return None;
        }
        let at: usize = e.index as usize;
        assert(self@.occupied(at as int));
        assert(self@.slots[at as int]->0.record == self.slots@[at as int].record_view());
        match &self.slots[at].record {
            Some(record) => Some(record),
            None => None,
        }
    }

    /// The placement of `e`, if it is alive and has one.
    pub fn position(&self, e: Entity) -> (found: Option<Pos>)
        ensures
            found == self@.position(e),
    {
        if !self.is_alive(e) {
            return None;
        }
        let at: usize = e.index as usize;
        self.slots[at].pos
    }

    /// Whether `e` is alive and queued for deletion.
    pub fn is_doomed(&self, e: Entity) -> (doomed: bool)
        ensures
            doomed == self@.doomed(e),
    {
        self.is_alive(e) && self.slots[e.index as usize].doomed
    }

    /// Queues `e` for deletion. It stays alive, with all its records, until
    /// the queue is applied. An entity that is not alive is not queued.
    pub fn queue_delete(&mut self, e: Entity) -> (queued: bool)
        requires
            old(self).wf(),
        ensures
            final(self).wf(),
            final(self)@.follows(old(self)@),
            queued == old(self)@.alive(e),
            final(self)@ == old(self)@.queued(e),
    {
        if !self.is_alive(e) {
            return false;
        }
        let at: usize = e.index as usize;
        self.slots[at].doomed = true;
        proof {
            let target = old(self)@.queued(e);
            assert(self@.slots =~= target.slots);
            assert(self@.generations =~= target.generations);
            self.lemma_same_liveness(*old(self));
        }
        true
    }

    /// Empties the occupied slot `at`, in the registry and here. The slot
    /// keeps its generation, for the next entity to go beyond.
    fn kill(&mut self, at: usize)
        requires
            old(self).wf(),
            old(self)@.occupied(at as int),
        ensures
            final(self).wf(),
            final(self)@ == old(self)@.put(at as int, None),
    {
        let ghost before = *self;
        assert(before.slots@[at as int].alive) by {
            assert(before@.slots[at as int] == before.slots@[at as int].state());
        }
        assert(registry_generations(self.registry)[at as u32] == before.slots@[at as int].kept());
        let _ = registry_delete(&mut self.registry, at as u32);
        self.slots[at].alive = false;
        self.slots[at].doomed = false;
        self.slots[at].record = None;
        self.slots[at].pos = None;
        proof {
            assert(self@.slots =~= old(self)@.put(at as int, None).slots);
            assert(self@.generations =~= old(self)@.generations);
            assert forall|i: u32| #[trigger]
                registry_generations(self.registry).dom().contains(i) <==> (i < self.slots@.len()
                    && self.slots@[i as int].generation != 0) by {
                if i != at && i < self.slots@.len() {
                    assert(self.slots@[i as int] == before.slots@[i as int]);
                }
            }
            assert forall|i: u32|
                i < self.slots@.len() && (#[trigger] self.slots@[i as int]).generation != 0
                    implies registry_generations(self.registry)[i] == self.slots@[i as int].kept() by {
                if i != at {
                    assert(self.slots@[i as int] == before.slots@[i as int]);
                }
            }
            assert forall|i: int| 0 <= i < self.slots@.len() implies (#[trigger] self.slots@[i]).generation
                >= 0 && (self.slots@[i].alive ==> self.slots@[i].generation > 0) by {
                if i != at {
                    assert(self.slots@[i] == before.slots@[i]);
                }
            }
            assert forall|i: int| self@.occupied(i) implies (#[trigger] self@.slots[i])->0.generation
                == self@.generations[i] && self@.generations[i] > 0 by {
                assert(old(self)@.occupied(i));
                assert(self@.slots[i] == old(self)@.slots[i]);
            }
            assert forall|i: int|
                self@.occupied(i) && (#[trigger] self@.slots[i])->0.record is Some
                    implies self@.slots[i]->0.record->0.wf() by {
                assert(old(self)@.occupied(i));
                assert(self@.slots[i] == old(self)@.slots[i]);
            }
        }
    }

    /// The maintenance point: every queued entity is deleted, with its
    /// records, and all at once as far as any caller can see.
    pub fn apply_deletions(&mut self)
        requires
            old(self).wf(),
        ensures
            final(self).wf(),
            final(self)@.follows(old(self)@),
            final(self)@ == old(self)@.purged(),
    {
        let n: usize = self.slots.len();
        let mut i: usize = 0;
        while i < n
            invariant
                i <= n,
                n == old(self)@.slots.len(),
                self.wf(),
                self@.slots.len() == n,
                self@.created == old(self)@.created,
                self@.generations == old(self)@.generations,
                forall|k: int| 0 <= k < i ==> self@.slots[k] == old(self)@.purged().slots[k],
                forall|k: int| i <= k < n ==> self@.slots[k] == old(self)@.slots[k],
            decreases n - i,
        {
            if self.slots[i].alive && self.slots[i].doomed {
                assert(self@.slots[i as int] == self.slots@[i as int].state());
                self.kill(i);
            } else {
                assert(self@.slots[i as int] == self.slots@[i as int].state());
            }
            i += 1;
        }
        assert(self@.slots =~= old(self)@.purged().slots);
    }

    /// Deletes at once every entity whose slot `gone` marks.
    pub(crate) fn remove_marked(&mut self, gone: &Vec<bool>)
        requires
            old(self).wf(),
        ensures
            final(self).wf(),
            final(self)@.follows(old(self)@),
            final(self)@ == old(self)@.without(gone@),
    {
        let n: usize = self.slots.len();
        let mut i: usize = 0;
        while i < n
            invariant
                i <= n,
                n == old(self)@.slots.len(),
                self.wf(),
                self@.slots.len() == n,
                self@.created == old(self)@.created,
                self@.generations == old(self)@.generations,
                forall|k: int| 0 <= k < i ==> self@.slots[k] == old(self)@.without(gone@).slots[k],
                forall|k: int| i <= k < n ==> self@.slots[k] == old(self)@.slots[k],
            decreases n - i,
        {
            assert(self@.slots[i as int] == self.slots@[i as int].state());
            if i < gone.len() && gone[i] && self.slots[i].alive {
                self.kill(i);
            }
            i += 1;
        }
        assert(self@.slots =~= old(self)@.without(gone@).slots);
    }

    /// The role of the entity in slot `i`, if the slot is occupied and the
    /// entity has one.
    pub fn record_at(&self, i: usize) -> (found: Option<&Record>)
        requires
            self.wf(),
        ensures
            found is None <==> self@.record_at(i as int) is None,
            found matches Some(record) ==> self@.record_at(i as int) == Some(record@)
                && record.wf(),
    {
        if i >= self.slots.len() || !self.slots[i].alive {
            return None;
        }
        assert(self@.occupied(i as int));
        assert(self@.slots[i as int]->0.record == self.slots@[i as int].record_view());
        match &self.slots[i].record {
            Some(record) => Some(record),
            None => None,
        }
    }

    /// The node in slot `i`, if the slot holds one.
    pub fn node_at(&self, i: usize) -> (found: Option<&Connected>)
        requires
            self.wf(),
        ensures
            found is Some <==> self@.node_at(i as int),
            found matches Some(node) ==> self@.record_at(i as int)->0->Node_0 == node@
                && node.wf(),
    {
        match self.record_at(i) {
            Some(Record::Node(node)) => Some(node),
            _ => None,
        }
    }

    /// The wire in slot `i`, if the slot holds one.
    pub fn wire_at(&self, i: usize) -> (found: Option<Wire>)
        requires
            self.wf(),
        ensures
            found is Some <==> self@.wire_at(i as int),
            found matches Some(wire) ==> self@.record_at(i as int)->0->Wire_0 == wire,
    {
        match self.record_at(i) {
            Some(Record::Wire(wire)) => Some(*wire),
            _ => None,
        }
    }

    /// The port in slot `i`, if the slot holds one.
    pub fn port_at(&self, i: usize) -> (found: Option<Connection>)
        requires
            self.wf(),
        ensures
            found is Some <==> self@.port_at(i as int),
            found matches Some(port) ==> self@.record_at(i as int)->0->Port_0 == port,
    {
        match self.record_at(i) {
            Some(Record::Port(port)) => Some(*port),
            _ => None,
        }
    }

    /// The node record of `e`, if `e` is a node.
    pub fn node(&self, e: Entity) -> (found: Option<&Connected>)
        requires
            self.wf(),
        ensures
            found is Some <==> self@.is_node(e),
            found matches Some(node) ==> self@.node(e) == node@ && node.wf(),
    {
        match self.get(e) {
            Some(Record::Node(node)) => Some(node),
            _ => None,
        }
    }

    /// The wire record of `e`, if `e` is a wire.
    pub fn wire(&self, e: Entity) -> (found: Option<Wire>)
        requires
            self.wf(),
        ensures
            found is Some <==> self@.is_wire(e),
            found matches Some(wire) ==> self@.wire(e) == wire,
    {
        match self.get(e) {
            Some(Record::Wire(wire)) => Some(*wire),
            _ => None,
        }
    }

    /// The port record of `e`, if `e` is a port.
    pub fn port(&self, e: Entity) -> (found: Option<Connection>)
        requires
            self.wf(),
        ensures
            found is Some <==> self@.is_port(e),
            found matches Some(port) ==> self@.port(e) == port,
    {
        match self.get(e) {
            Some(Record::Port(port)) => Some(*port),
            _ => None,
        }
    }

    /// Creates an entity with the given role and placement, under a
    /// generation that its slot never had. A full store creates nothing.
    pub fn build_entity(&mut self, record: Option<Record>, pos: Option<Pos>) -> (built: Option<
        Entity,
    >)
        requires
            old(self).wf(),
            record matches Some(r) ==> r.wf(),
        ensures
            final(self).wf(),
            final(self)@.follows(old(self)@),
            built is None <==> old(self)@.created == REGISTRY_CAPACITY,
            built is None ==> final(self)@ == old(self)@,
            built matches Some(e) ==> {
                &&& !old(self)@.occupied(e.index as int)
                &&& e.generation > old(self)@.last_generation(e.index as int)
                &&& final(self)@ == old(self)@.with_new(
                    e,
                    EntityState {
                        generation: e.generation,
                        doomed: false,
                        record: shown(record),
                        pos,
                    },
                )
            },
    {
        let ghost role = shown(record);
        match self.create_entity() {
            Some(e) => {
                let ghost created = self@;
                match record {
                    Some(r) => {
                        self.attach(e, r);
                    },
                    None => {},
                }
                let ghost attached = self@;
                match pos {
                    Some(p) => {
                        self.place(e, p);
                    },
                    None => {},
                }
                proof {
                    let target = old(self)@.with_new(
                        e,
                        EntityState { generation: e.generation, doomed: false, record: role, pos },
                    );
                    assert(self@.slots =~= target.slots);
                    assert(self@.generations =~= target.generations);
                    lemma_follows_transitive(old(self)@, created, attached);
                    lemma_follows_transitive(old(self)@, attached, self@);
                }
                Some(e)
            },
            None => None,
        }
    }

    /// One pass over the placed entities: every live entity that has a
    /// placement, with its placement, in slot order. What is created or
    /// deleted afterwards does not show in the result.
    pub fn placements(&self) -> (found: Vec<(Entity, Pos)>)
        requires
            self.wf(),
        ensures
            forall|k: int|
                0 <= k < found@.len() ==> self@.alive((#[trigger] found@[k]).0) && self@.position(
                    found@[k].0,
                ) == Some(found@[k].1),
            forall|k: int, m: int|
                0 <= k < m < found@.len() ==> (#[trigger] found@[k]).0.index < (
                #[trigger] found@[m]).0.index,
            forall|i: int|
                #[trigger] self@.placed_at(i) ==> exists|k: int|
                    0 <= k < found@.len() && (#[trigger] found@[k]).0.index == i,
    {
        let n: usize = self.slots.len();
        let mut found: Vec<(Entity, Pos)> = Vec::new();
        let mut i: usize = 0;
        while i < n
            invariant
                self.wf(),
                i <= n,
                n == self@.slots.len(),
                forall|k: int|
                    0 <= k < found@.len() ==> self@.alive((#[trigger] found@[k]).0)
                        && self@.position(found@[k].0) == Some(found@[k].1) && found@[k].0.index
                        < i,
                forall|k: int, m: int|
                    0 <= k < m < found@.len() ==> (#[trigger] found@[k]).0.index < (
                    #[trigger] found@[m]).0.index,
                forall|s: int|
                    0 <= s < i && #[trigger] self@.placed_at(s) ==> exists|k: int|
                        0 <= k < found@.len() && (#[trigger] found@[k]).0.index == s,
            decreases n - i,
        {
            let ghost before = found@;
            match self.entity_at(i) {
                Some(e) => match self.position(e) {
                    Some(pos) => {
                        found.push((e, pos));
                    },
                    None => {},
                },
                None => {},
            }
            proof {
                assert forall|s: int|
                    0 <= s < i + 1 && #[trigger] self@.placed_at(s) implies exists|k: int|
                    0 <= k < found@.len() && (#[trigger] found@[k]).0.index == s by {
                    if s < i {
                        let k = choose|k: int|
                            0 <= k < before.len() && (#[trigger] before[k]).0.index == s;
                        assert(found@[k] == before[k]);
                    } else {
                        assert(found@[found@.len() - 1].0.index == s);
                    }
                }
            }
            i += 1;
        }
        found
    }
}

} // verus!
