//! Entity identities come from a `specs::World`. This module is the only one
//! that touches it; what it states about the world is taken on trust from
//! the source of `specs`, and the store is proved against these statements.

use specs::WorldExt;
use vstd::prelude::*;

verus! {

/// How many entities one world may create over its lifetime. Every index and
/// every generation the world hands out stays below this, which keeps the
/// world clear of the index limit of its bit sets (`2^20` on 32-bit targets)
/// and of generation overflow.
pub const REGISTRY_CAPACITY: usize = 1_048_576;

/// `specs::World`, held as it is: nothing is known of what is inside.
#[verifier::external_type_specification]
#[verifier::external_body]
pub struct ExWorld(specs::World);

/// `specs::error::WrongGeneration`, the error of a deletion that names an
/// entity which is not alive.
#[verifier::external_type_specification]
#[verifier::external_body]
pub struct ExWrongGeneration(specs::error::WrongGeneration);

/// The generation that a world keeps for each index it has used, as the
/// world's allocator keeps it: the generation of the entity at that index
/// while that entity is alive, and the negated generation of the last
/// entity at that index once it is dead. An index that was never used has
/// no entry.
pub uninterp spec fn registry_generations(world: specs::World) -> Map<u32, i32>;

/// The number of entities a world has created so far, dead ones included.
pub uninterp spec fn registry_created(world: specs::World) -> nat;

/// `specs::WorldExt::new`: a world in which no entity has been created.
#[verifier::external_body]
pub(crate) fn registry_new() -> (world: specs::World)
    ensures
        registry_generations(world).dom() == Set::<u32>::empty(),
        registry_created(world) == 0,
{
    specs::World::new()
}

/// `specs::WorldExt::create_entity`, built at once with no component.
///
/// The allocator hands out the index of a dead entity or an index that was
/// never used, and gives it the generation after the last one that the
/// index had: one after the dead entity's, or `1`. Each creation advances
/// the highest index by at most one and one generation by exactly one, so
/// after `n` creations every index is below `n` and no generation is above
/// `n`. The call panics only when the index space or a generation is
/// exhausted, which the bound on the number of creations rules out.
#[verifier::external_body]
pub(crate) fn registry_create(world: &mut specs::World) -> (entity: (u32, i32))
    requires
        registry_created(*old(world)) < REGISTRY_CAPACITY,
    ensures
        registry_generations(*old(world)).dom().contains(entity.0) ==> registry_generations(
            *old(world),
        )[entity.0] < 0 && entity.1 == 1 - registry_generations(*old(world))[entity.0],
        !registry_generations(*old(world)).dom().contains(entity.0) ==> entity.1 == 1,
        registry_generations(*final(world)) == registry_generations(*old(world)).insert(
            entity.0,
            entity.1,
        ),
        registry_created(*final(world)) == registry_created(*old(world)) + 1,
        entity.0 < registry_created(*final(world)),
{
    let entity = specs::Builder::build(world.create_entity());
    (entity.id(), entity.gen().id())
}

/// `specs::WorldExt::delete_entity` on the live entity at `index`, which
/// `specs::world::EntitiesRes::entity` looks up.
///
/// For a live index the lookup returns the entity with its current
/// generation, the deletion succeeds, and the allocator negates the
/// generation it keeps for that index. No component storage is registered,
/// so nothing else changes.
#[verifier::external_body]
pub(crate) fn registry_delete(world: &mut specs::World, index: u32) -> (outcome: Result<
    (),
    specs::error::WrongGeneration,
>)
    requires
        registry_generations(*old(world)).dom().contains(index),
        registry_generations(*old(world))[index] > 0,
    ensures
        outcome is Ok,
        registry_generations(*final(world)) == registry_generations(*old(world)).insert(
            index,
            (-registry_generations(*old(world))[index]) as i32,
        ),
        registry_created(*final(world)) == registry_created(*old(world)),
{
    let entity = world.entities().entity(index);
    world.delete_entity(entity)
}

} // verus!
