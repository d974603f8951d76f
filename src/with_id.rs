//! A worked chain that reports the entities it creates.
use bevy::ecs::entity::Entity;
use bevy::ecs::system::Commands;
use crate::builder::ChildCommands;
use crate::builder::SpawnChild;
use crate::host::issued;
use crate::host::queued;
use crate::host::reserve;
use crate::host::Queued;
use vstd::prelude::*;

verus! {

/// Hands the current focus to a closure in the middle of a chain.
pub trait WithId: Sized {
    /// The entity handed to the closure.
    spec fn reported_id(&self) -> Entity;

    /// Calls `f` once with the focus and returns the value unchanged.
    fn with_id<F: FnOnce(Entity)>(self, f: F) -> (r: Self)
        requires
            f.requires((self.reported_id(),)),
        ensures
            r == self,
            f.ensures((self.reported_id(),), ()),
    ;
}

impl WithId for ChildCommands {
    open spec fn reported_id(&self) -> Entity {
        self.focus()
    }

    fn with_id<F: FnOnce(Entity)>(self, f: F) -> (r: Self) {
        f(self.id());
        self
    }
}

/// Spawns a root, descends twice and adds one sibling on the lowest level.
/// Returns the child, the grandchild and the grandchild's sibling, in that
/// order: the grandchild and its sibling are both linked under the child.
pub fn usage(commands: &mut Commands) -> (out: Vec<Entity>)
    ensures
        out@.len() == 3,
        out@[0] != out@[1],
        out@[0] != out@[2],
        out@[1] != out@[2],
        issued(*old(commands)).subset_of(issued(*final(commands))),
        forall|i: int|
            0 <= i < 3 ==> !issued(*old(commands)).contains(#[trigger] out@[i])
                && issued(*final(commands)).contains(out@[i]),
        exists|root: Entity|
            !#[trigger] issued(*old(commands)).contains(root) && root != out@[0] && root != out@[1]
                && root != out@[2] && queued(*final(commands)) == queued(*old(commands)) + seq![
                Queued::Link { child: out@[0], parent: root },
                Queued::Link { child: out@[1], parent: out@[0] },
                Queued::Link { child: out@[2], parent: out@[0] },
            ],
{
    let ghost q0 = queued(*commands);
    let ghost i0 = issued(*commands);
    let mut out: Vec<Entity> = Vec::new();
    let root = reserve(commands);
    let child = root.with_child(commands);
    out.push(child.id());
    let grandchild = child.with_child(commands);
    out.push(grandchild.id());
    let sibling = grandchild.with_sibling(commands);
    out.push(sibling.id());
    assert(queued(*commands) =~= q0 + seq![
        Queued::Link { child: out@[0], parent: root },
        Queued::Link { child: out@[1], parent: out@[0] },
        Queued::Link { child: out@[2], parent: out@[0] },
    ]);
    assert(!i0.contains(root));
    out
}

} // verus!
