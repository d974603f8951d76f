//! The builder: a focus entity, the parent it was linked under, and the steps
//! that move the focus down one level or across to a sibling.
use bevy::ecs::bundle::Bundle;
use bevy::ecs::component::Component;
use bevy::ecs::entity::Entity;
use bevy::ecs::system::Commands;
use bevy::hierarchy::ChildBuilder;
use crate::host::children_of;
use crate::host::issued;
use crate::host::queue_insert;
use crate::host::queue_insert_bundle;
use crate::host::queue_link;
use crate::host::queued;
use crate::host::reserve;
use crate::host::Queued;
use vstd::prelude::*;

verus! {

/// What one step that adds a child of `parent` does to the command handle:
/// `child` is newly allocated and one link of it under `parent` is queued.
pub open spec fn linked_step(before: Commands, after: Commands, parent: Entity, child: Entity) -> bool {
    &&& !issued(before).contains(child)
    &&& issued(before).subset_of(issued(after))
    &&& issued(after).contains(child)
    &&& queued(after) == queued(before).push(Queued::Link { child, parent })
}

/// What one sibling step does: `after_step` stays on the level of `b`, its focus
/// is newly allocated, and one link of it under the parent of that level is queued.
pub open spec fn sibling_step(before: Commands, after: Commands, b: ChildCommands, after_step: ChildCommands) -> bool {
    &&& after_step.parent_of_focus() == b.parent_of_focus()
    &&& linked_step(before, after, b.parent_of_focus(), after_step.focus())
}

/// A builder focused on `entity`, which is linked under `parent`.
///
/// A builder always has a parent: the only way to obtain one is to descend from
/// an entity, so a sibling step always has a level to stay on.
#[derive(Clone, Copy)]
pub struct ChildCommands {
    parent: Entity,
    entity: Entity,
}

impl ChildCommands {
    /// The entity the builder is focused on.
    pub closed spec fn focus(self) -> Entity {
        self.entity
    }

    /// The entity the focus is linked under.
    pub closed spec fn parent_of_focus(self) -> Entity {
        self.parent
    }

    /// The entity the builder is focused on.
    pub fn id(&self) -> (r: Entity)
        ensures
            r == self.focus(),
    {
        self.entity
    }

    /// The entity the focus is linked under.
    pub fn parent(&self) -> (r: Entity)
        ensures
            r == self.parent_of_focus(),
    {
        self.parent
    }

    /// Queues the attachment of `bundle` to the focus; the focus stays.
    pub fn insert_bundle<T: Bundle>(self, commands: &mut Commands, bundle: T) -> (r: Self)
        ensures
            r == self,
            queued(*final(commands)) == queued(*old(commands)).push(
                Queued::AttachBundle { entity: self.focus() },
            ),
            issued(*old(commands)).subset_of(issued(*final(commands))),
    {
        queue_insert_bundle(commands, self.entity, bundle);
        self
    }

    /// Queues the attachment of `component` to the focus; the focus stays.
    pub fn insert<T: Component>(self, commands: &mut Commands, component: T) -> (r: Self)
        ensures
            r == self,
            queued(*final(commands)) == queued(*old(commands)).push(
                Queued::Attach { entity: self.focus() },
            ),
            issued(*old(commands)).subset_of(issued(*final(commands))),
    {
        queue_insert(commands, self.entity, component);
        self
    }

    /// Allocates a new entity, queues its link under the parent of the focus, and
    /// returns a builder focused on it, on the same level.
    pub fn with_sibling(self, commands: &mut Commands) -> (r: Self)
        ensures
            sibling_step(*old(commands), *final(commands), self, r),
    {
        let sibling = reserve(commands);
        let parent = self.parent;
        queue_link(commands, sibling, parent);
        ChildCommands { parent, entity: sibling }
    }

    /// A sibling step followed by the attachment of `bundle` to the new sibling.
    pub fn with_sibling_bundle<T: Bundle>(self, commands: &mut Commands, bundle: T) -> (r: Self)
        ensures
            r.parent_of_focus() == self.parent_of_focus(),
            !issued(*old(commands)).contains(r.focus()),
            issued(*old(commands)).subset_of(issued(*final(commands))),
            issued(*final(commands)).contains(r.focus()),
            queued(*final(commands)) == queued(*old(commands)).push(
                Queued::Link { child: r.focus(), parent: self.parent_of_focus() },
            ).push(Queued::AttachBundle { entity: r.focus() }),
    {
        let sibling = self.with_sibling(commands);
        sibling.insert_bundle(commands, bundle)
    }

    /// Runs `spawn_children` on bevy's own child builder, rooted at the focus
    /// (not at the entity the chain started from). What the closure queues comes
    /// after what was queued before, and the adoption of what it spawned under
    /// the focus comes last. The builder comes back unchanged so that the chain
    /// can go on from the same focus.
    pub fn with_children<F: FnOnce(&mut ChildBuilder)>(self, commands: &mut Commands, spawn_children: F) -> (r: Self)
        requires
            issued(*old(commands)).contains(self.focus()),
        ensures
            r == self,
            issued(*old(commands)).subset_of(issued(*final(commands))),
            queued(*old(commands)).len() < queued(*final(commands)).len(),
            queued(*final(commands)).subrange(0, queued(*old(commands)).len() as int) == queued(*old(commands)),
            queued(*final(commands)).last() == (Queued::Adopt { parent: self.focus() }),
    {
        children_of(commands, self.entity, spawn_children);
        self
    }
}

/// Descending one level from whatever a value is focused on.
pub trait SpawnChild: Sized {
    /// The entity that a child step links the new entity under.
    spec fn focus_entity(&self) -> Entity;

    /// Allocates a new entity, queues its link under the focus, and returns a
    /// builder focused on the new entity.
    fn with_child(&self, commands: &mut Commands) -> (r: ChildCommands)
        ensures
            r.parent_of_focus() == self.focus_entity(),
            linked_step(*old(commands), *final(commands), self.focus_entity(), r.focus()),
    ;

    /// A child step followed by the attachment of `bundle` to the new child.
    fn with_child_bundle<T: Bundle>(&self, commands: &mut Commands, bundle: T) -> (r: ChildCommands)
        ensures
            r.parent_of_focus() == self.focus_entity(),
            !issued(*old(commands)).contains(r.focus()),
            issued(*old(commands)).subset_of(issued(*final(commands))),
            issued(*final(commands)).contains(r.focus()),
            queued(*final(commands)) == queued(*old(commands)).push(
                Queued::Link { child: r.focus(), parent: self.focus_entity() },
            ).push(Queued::AttachBundle { entity: r.focus() }),
    ;
}

/// Descends from a builder's focus.
impl SpawnChild for ChildCommands {
    open spec fn focus_entity(&self) -> Entity {
        self.focus()
    }

    fn with_child(&self, commands: &mut Commands) -> (r: ChildCommands) {
        descend(self.entity, commands)
    }

    fn with_child_bundle<T: Bundle>(&self, commands: &mut Commands, bundle: T) -> (r: ChildCommands) {
        let child = self.with_child(commands);
        child.insert_bundle(commands, bundle)
    }
}

/// Descends from an entity that is not held by a builder, such as a root.
impl SpawnChild for Entity {
    open spec fn focus_entity(&self) -> Entity {
        *self
    }

    fn with_child(&self, commands: &mut Commands) -> (r: ChildCommands) {
        descend(*self, commands)
    }

    fn with_child_bundle<T: Bundle>(&self, commands: &mut Commands, bundle: T) -> (r: ChildCommands) {
        let child = self.with_child(commands);
        child.insert_bundle(commands, bundle)
    }
}

/// Allocates a child of `parent`, queues its link, and focuses a builder on it.
fn descend(parent: Entity, commands: &mut Commands) -> (r: ChildCommands)
    ensures
        r.parent_of_focus() == parent,
        linked_step(*old(commands), *final(commands), parent, r.focus()),
{
    let child = reserve(commands);
    queue_link(commands, child, parent);
    ChildCommands { parent, entity: child }
}

} // verus!
