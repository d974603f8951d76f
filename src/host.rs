//! What this library takes from bevy: entity identifiers, the command handle,
//! and the commands it queues, described over two abstract views of the handle.
use bevy::ecs::bundle::Bundle;
use bevy::ecs::component::Component;
use bevy::ecs::entity::Entity;
use bevy::ecs::system::Commands;
use bevy::ecs::system::Insert;
use bevy::ecs::system::InsertBundle;
use bevy::hierarchy::AddChild;
use bevy::hierarchy::BuildChildren;
use bevy::hierarchy::ChildBuilder;
use vstd::prelude::*;

verus! {

#[verifier::external_type_specification]
#[verifier::external_body]
pub struct ExEntity(Entity);

#[verifier::external_type_specification]
#[verifier::external_body]
pub struct ExChildBuilder<'w, 's, 'a>(ChildBuilder<'w, 's, 'a>);

#[verifier::external_type_specification]
#[verifier::external_body]
pub struct ExCommands<'w, 's>(Commands<'w, 's>);

/// One deferred mutation, as far as this library tells queued commands apart.
pub enum Queued {
    /// Make `child` a child of `parent`.
    Link { child: Entity, parent: Entity },
    /// Attach a single component to `entity`.
    Attach { entity: Entity },
    /// Attach a bundle of components to `entity`.
    AttachBundle { entity: Entity },
    /// Make the entities that a child builder rooted at `parent` spawned
    /// children of `parent` (bevy's `PushChildren`).
    Adopt { parent: Entity },
}

/// The commands queued through a handle, in the order they will be applied.
pub uninterp spec fn queued(c: Commands) -> Seq<Queued>;

/// The entities that are alive or already reserved in the world the handle
/// allocates from. Other handles on the same world may reserve entities too, so
/// between two calls this set can only grow.
pub uninterp spec fn issued(c: Commands) -> Set<Entity>;

/// Relies on `Commands::spawn` and `EntityCommands::id`: an entity is reserved
/// through the world's allocator, which never hands out an entity that is alive
/// or reserved already, and nothing is queued.
#[verifier::external_body]
pub(crate) fn reserve(commands: &mut Commands) -> (e: Entity)
    ensures
        queued(*final(commands)) == queued(*old(commands)),
        !issued(*old(commands)).contains(e),
        issued(*old(commands)).subset_of(issued(*final(commands))),
        issued(*final(commands)).contains(e),
{
    commands.spawn().id()
}

/// Relies on `Commands::add` with bevy's `AddChild` command: the command is
/// pushed at the end of the queue.
#[verifier::external_body]
pub(crate) fn queue_link(commands: &mut Commands, child: Entity, parent: Entity)
    ensures
        queued(*final(commands)) == queued(*old(commands)).push(Queued::Link { child, parent }),
        issued(*old(commands)).subset_of(issued(*final(commands))),
{
    commands.add(AddChild { child, parent })
}

/// Relies on `Commands::add` with bevy's `Insert` command: the command is pushed
/// at the end of the queue.
#[verifier::external_body]
pub(crate) fn queue_insert<T: Component>(commands: &mut Commands, entity: Entity, component: T)
    ensures
        queued(*final(commands)) == queued(*old(commands)).push(Queued::Attach { entity }),
        issued(*old(commands)).subset_of(issued(*final(commands))),
{
    commands.add(Insert { entity, component })
}

/// Relies on `Commands::add` with bevy's `InsertBundle` command: the command is
/// pushed at the end of the queue.
#[verifier::external_body]
pub(crate) fn queue_insert_bundle<T: Bundle>(commands: &mut Commands, entity: Entity, bundle: T)
    ensures
        queued(*final(commands)) == queued(*old(commands)).push(Queued::AttachBundle { entity }),
        issued(*old(commands)).subset_of(issued(*final(commands))),
{
    commands.add(InsertBundle { entity, bundle })
}

/// Relies on `Commands::entity`, which asserts that `entity` is alive or
/// reserved, and on `BuildChildren::with_children`, which runs `spawn_children`
/// on a child builder rooted at `entity` over the same handle and then queues one
/// `PushChildren` command under `entity`, last. A child builder can only reserve
/// entities and queue commands, so what was issued or queued before stays as it was.
#[verifier::external_body]
pub(crate) fn children_of<F: FnOnce(&mut ChildBuilder)>(commands: &mut Commands, entity: Entity, spawn_children: F)
    requires
        issued(*old(commands)).contains(entity),
    ensures
        issued(*old(commands)).subset_of(issued(*final(commands))),
        queued(*old(commands)).len() < queued(*final(commands)).len(),
        queued(*final(commands)).subrange(0, queued(*old(commands)).len() as int) == queued(*old(commands)),
        queued(*final(commands)).last() == (Queued::Adopt { parent: entity }),
{
    commands.entity(entity).with_children(spawn_children);
}

} // verus!
