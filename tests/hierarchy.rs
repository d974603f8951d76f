use bevy::ecs::component::Component;
use bevy::ecs::component::TableStorage;
use bevy::ecs::entity::Entity;
use bevy::ecs::schedule::Stage;
use bevy::ecs::schedule::SystemStage;
use bevy::ecs::system::Commands;
use bevy::ecs::system::CommandQueue;
use bevy::ecs::world::World;
use bevy::hierarchy::BuildChildren;
use bevy::hierarchy::Children;
use bevy::hierarchy::Parent;
use spawn_child::builder::ChildCommands;
use spawn_child::builder::SpawnChild;
use spawn_child::with_id::usage;
use spawn_child::with_id::WithId;

struct A;
impl Component for A {
    type Storage = TableStorage;
}

struct B;
impl Component for B {
    type Storage = TableStorage;
}

struct C;
impl Component for C {
    type Storage = TableStorage;
}

struct D;
impl Component for D {
    type Storage = TableStorage;
}

fn spawn_hierachy_1(mut commands: Commands) {
    let root = commands.spawn().insert(A).id();
    root.with_child(&mut commands).insert(&mut commands, B);
}

fn spawn_hierachy_2(mut commands: Commands) {
    let root = commands.spawn_bundle((A,)).id();
    root.with_child_bundle(&mut commands, (B,));
}

fn spawn_hierachy_3(mut commands: Commands) {
    let root = commands.spawn_bundle((A,)).id();
    root.with_child_bundle(&mut commands, (A, B))
        .with_child_bundle(&mut commands, (A, B, C));
}

fn spawn_hierachy_4(mut commands: Commands) {
    let root = commands.spawn_bundle((A,)).id();
    root.with_child_bundle(&mut commands, (A, B))
        .with_child_bundle(&mut commands, (A, B, C))
        .with_sibling_bundle(&mut commands, (A, B, C))
        .with_sibling_bundle(&mut commands, (A, B, C));
}

fn spawn_hierachy_5(mut commands: Commands) {
    let parent = commands.spawn_bundle((A,)).id();

    parent
        .with_child_bundle(&mut commands, (B,))
        .with_child_bundle(&mut commands, (C,))
        .with_sibling_bundle(&mut commands, (C,));

    parent
        .with_child_bundle(&mut commands, (B,))
        .with_child_bundle(&mut commands, (C,))
        .with_sibling_bundle(&mut commands, (C,));
}

fn spawn_hierachy_6(mut commands: Commands) {
    commands.spawn_bundle((A,)).with_children(|builder| {
        let mut first = builder.spawn_bundle((B,));
        let b = first.id();
        let handle = first.commands();
        b.with_child_bundle(handle, (C,)).with_child_bundle(handle, (D,));

        let mut second = builder.spawn_bundle((B,));
        let b = second.id();
        let handle = second.commands();
        b.with_child_bundle(handle, (C,)).with_child_bundle(handle, (D,));
    });
}

fn run(system: fn(Commands)) -> World {
    let mut world = World::default();
    SystemStage::single_threaded().add_system(system).run(&mut world);
    world
}

/// Runs `build` on a fresh handle over `world` and applies what it queued.
fn build_in<R>(world: &mut World, build: impl FnOnce(&mut Commands) -> R) -> R {
    let mut queue = CommandQueue::default();
    let r = {
        let mut commands = Commands::new(&mut queue, world);
        build(&mut commands)
    };
    queue.apply(world);
    r
}

fn parent_of(world: &World, e: Entity) -> Entity {
    world.get::<Parent>(e).unwrap().0
}

fn children_of(world: &World, e: Entity) -> Vec<Entity> {
    match world.get::<Children>(e) {
        Some(children) => children.iter().copied().collect(),
        None => Vec::new(),
    }
}

#[test]
fn spawn_child_1() {
    let mut world = run(spawn_hierachy_1);
    assert_eq!(world.query::<Entity>().iter(&world).len(), 2);
    let mut a = world.query::<(&Children, &A)>();
    let mut b = world.query::<(&Parent, &B)>();
    assert_eq!(a.iter(&world).len(), 1);
    assert_eq!(b.iter(&world).len(), 1);
    for (children, _) in a.iter(&world) {
        for child in children.iter() {
            assert!(b.get(&world, *child).is_ok());
        }
    }
}

#[test]
fn spawn_child_2() {
    let mut world = run(spawn_hierachy_2);
    assert_eq!(world.query::<Entity>().iter(&world).len(), 2);
    let mut a = world.query::<(&Children, &A)>();
    let mut b = world.query::<(&Parent, &B)>();
    assert_eq!(a.iter(&world).len(), 1);
    assert_eq!(b.iter(&world).len(), 1);
    for (children, _) in a.iter(&world) {
        for child in children.iter() {
            assert!(b.get(&world, *child).is_ok());
        }
    }
}

#[test]
fn spawn_child_3() {
    let mut world = run(spawn_hierachy_3);
    assert_eq!(world.query::<Entity>().iter(&world).len(), 3);
    assert_eq!(world.query::<(&Children, &A)>().iter(&world).len(), 2);
    assert_eq!(world.query::<(&Parent, &Children, &A, &B)>().iter(&world).len(), 1);
    assert_eq!(world.query::<(&Parent, &A, &B, &C)>().iter(&world).len(), 1);
}

#[test]
fn spawn_child_4() {
    let mut world = run(spawn_hierachy_4);
    assert_eq!(world.query::<Entity>().iter(&world).len(), 5);
    assert_eq!(world.query::<(&Children, &A)>().iter(&world).len(), 2);
    assert_eq!(world.query::<(&Parent, &Children, &A, &B)>().iter(&world).len(), 1);
    assert_eq!(world.query::<(&Parent, &A, &B, &C)>().iter(&world).len(), 3);
}

#[test]
fn spawn_child_5() {
    let mut world = run(spawn_hierachy_5);
    assert_eq!(world.query::<Entity>().iter(&world).len(), 7);
    assert_eq!(world.query::<(&Parent, &C)>().iter(&world).len(), 4);
}

#[test]
fn spawn_child_6() {
    let mut world = run(spawn_hierachy_6);
    assert_eq!(world.query::<Entity>().iter(&world).len(), 7);
    assert_eq!(world.query::<(&Parent, &D)>().iter(&world).len(), 2);
}

#[test]
fn chain_of_children_is_one_path() {
    let mut world = World::default();
    let path = build_in(&mut world, |commands| {
        let root = commands.spawn().id();
        let mut path = vec![root];
        let mut b = root.with_child(commands);
        path.push(b.id());
        for _ in 0..3 {
            b = b.with_child(commands);
            path.push(b.id());
        }
        path
    });
    assert_eq!(path.len(), 5);
    assert_eq!(world.query::<Entity>().iter(&world).len(), 5);
    assert!(world.get::<Parent>(path[0]).is_none());
    for i in 1..path.len() {
        assert_eq!(parent_of(&world, path[i]), path[i - 1]);
        assert_eq!(children_of(&world, path[i - 1]), vec![path[i]]);
    }
    assert!(children_of(&world, path[4]).is_empty());
}

#[test]
fn siblings_keep_the_level_parent() {
    let mut world = World::default();
    let (top, level) = build_in(&mut world, |commands| {
        let root = commands.spawn().id();
        let top = root.with_child(commands);
        let first = top.with_child(commands);
        let second = first.with_sibling(commands);
        let third = second.with_sibling(commands);
        assert_eq!(second.parent(), top.id());
        assert_eq!(third.parent(), top.id());
        (top.id(), vec![first.id(), second.id(), third.id()])
    });
    for e in &level {
        assert_eq!(parent_of(&world, *e), top);
    }
    assert_eq!(children_of(&world, top), level);
    assert!(children_of(&world, level[0]).is_empty());
    assert!(children_of(&world, level[1]).is_empty());
}

#[test]
fn bundle_lands_on_the_focus_only() {
    let mut world = World::default();
    let (root, focus) = build_in(&mut world, |commands| {
        let root = commands.spawn().id();
        let b = root.with_child(commands);
        let after = b.insert_bundle(commands, (C, D));
        assert_eq!(after.id(), b.id());
        (root, after.id())
    });
    let with_both: Vec<Entity> = world
        .query::<(Entity, &C, &D)>()
        .iter(&world)
        .map(|(e, _, _)| e)
        .collect();
    assert_eq!(with_both, vec![focus]);
    assert!(world.get::<C>(root).is_none());
    assert_eq!(world.query::<&C>().iter(&world).len(), 1);
    assert_eq!(world.query::<&D>().iter(&world).len(), 1);
}

#[test]
fn insert_keeps_the_focus() {
    let mut world = World::default();
    let (root, child) = build_in(&mut world, |commands| {
        let root = commands.spawn().id();
        let b = root.with_child(commands).insert(commands, B);
        (root, b.id())
    });
    assert!(world.get::<B>(child).is_some());
    assert!(world.get::<B>(root).is_none());
    assert_eq!(parent_of(&world, child), root);
}

#[test]
fn with_children_is_rooted_at_the_focus() {
    let mut world = World::default();
    let (root, child, sibling) = build_in(&mut world, |commands| {
        let root = commands.spawn().id();
        let b = root.with_child(commands);
        let b = b.with_children(commands, |builder| {
            builder.spawn_bundle((D,));
        });
        let sibling = b.with_sibling(commands);
        (root, b.id(), sibling.id())
    });
    let mut d = world.query::<(Entity, &D)>();
    let ds: Vec<Entity> = d.iter(&world).map(|(e, _)| e).collect();
    assert_eq!(ds.len(), 1);
    assert_eq!(parent_of(&world, ds[0]), child);
    assert_eq!(children_of(&world, child), ds);
    assert_eq!(parent_of(&world, sibling), root);
    assert_eq!(children_of(&world, root), vec![child, sibling]);
}

#[test]
fn with_id_reports_the_focus() {
    let mut world = World::default();
    let (seen, focus) = build_in(&mut world, |commands| {
        let root = commands.spawn().id();
        let mut seen: Vec<Entity> = Vec::new();
        let b = root.with_child(commands).with_id(|id| seen.push(id));
        (seen, b.id())
    });
    assert_eq!(seen, vec![focus]);
}

#[test]
fn usage_reports_child_grandchild_and_sibling() {
    let mut world = World::default();
    let out = build_in(&mut world, |commands| usage(commands));
    assert_eq!(out.len(), 3);
    assert_eq!(world.query::<Entity>().iter(&world).len(), 4);
    let root = parent_of(&world, out[0]);
    assert!(world.get::<Parent>(root).is_none());
    assert_eq!(parent_of(&world, out[1]), out[0]);
    assert_eq!(parent_of(&world, out[2]), out[0]);
    assert_eq!(children_of(&world, out[0]), vec![out[1], out[2]]);
}

#[test]
fn two_chains_from_one_root() {
    let mut world = run(spawn_hierachy_5);
    let mut roots = world.query::<(Entity, &A)>();
    let root: Vec<Entity> = roots.iter(&world).map(|(e, _)| e).collect();
    assert_eq!(root.len(), 1);
    let level = children_of(&world, root[0]);
    assert_eq!(level.len(), 2);
    for b in level {
        assert!(world.get::<B>(b).is_some());
        let below = children_of(&world, b);
        assert_eq!(below.len(), 2);
        for c in below {
            assert!(world.get::<C>(c).is_some());
            assert_eq!(parent_of(&world, c), b);
        }
    }
}
