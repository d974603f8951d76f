//! Laws of the builder that relate whole chains of steps.
use bevy::ecs::entity::Entity;
use bevy::ecs::system::Commands;
use crate::builder::linked_step;
use crate::builder::sibling_step;
use crate::builder::ChildCommands;
use crate::host::issued;
use crate::host::queued;
use crate::host::Queued;
use vstd::prelude::*;

verus! {

/// The links that a path of entities needs: each entity after the first under
/// the one before it.
pub open spec fn path_links(path: Seq<Entity>) -> Seq<Queued>
    recommends
        path.len() >= 1,
{
    Seq::new((path.len() - 1) as nat, |i: int| Queued::Link { child: path[i + 1], parent: path[i] })
}

/// The links that put each focus after the first of `level` under `parent`.
pub open spec fn level_links(level: Seq<ChildCommands>, parent: Entity) -> Seq<Queued>
    recommends
        level.len() >= 1,
{
    Seq::new((level.len() - 1) as nat, |i: int| Queued::Link { child: level[i + 1].focus(), parent })
}

/// The parent of `e` once `cmds` are applied in order: the last link of `e`
/// as a child decides it; without one, `e` has no parent.
pub open spec fn parent_after(cmds: Seq<Queued>, e: Entity) -> Option<Entity>
    decreases cmds.len(),
{
    if cmds.len() == 0 {
        None
    } else {
        match cmds.last() {
            Queued::Link { child, parent } => {
                if child == e {
                    Some(parent)
                } else {
                    parent_after(cmds.drop_last(), e)
                }
            },
            _ => parent_after(cmds.drop_last(), e),
        }
    }
}

/// The children of `e` once `cmds` are applied in order: each link under `e`
/// appends its child, in the order the links were queued.
pub open spec fn children_after(cmds: Seq<Queued>, e: Entity) -> Seq<Entity>
    decreases cmds.len(),
{
    if cmds.len() == 0 {
        Seq::empty()
    } else {
        let rest = children_after(cmds.drop_last(), e);
        match cmds.last() {
            Queued::Link { child, parent } => {
                if parent == e {
                    rest.push(child)
                } else {
                    rest
                }
            },
            _ => rest,
        }
    }
}

/// The links that put each of `kids`, in order, under `parent`.
pub open spec fn fan_links(kids: Seq<Entity>, parent: Entity) -> Seq<Queued> {
    Seq::new(kids.len(), |i: int| Queued::Link { child: kids[i], parent })
}

/// The links of a path of distinct entities, applied, make the path a single
/// chain: the first entity has no parent, every later one has the one before
/// it as its parent, every entity but the last has the next one as its only
/// child, the last has no children, and no other entity is touched.
pub proof fn lemma_path_hierarchy(path: Seq<Entity>)
    requires
        path.len() >= 1,
        forall|i: int, j: int| 0 <= i < j < path.len() ==> path[i] != path[j],
    ensures
        parent_after(path_links(path), path[0]) == None::<Entity>,
        forall|i: int|
            1 <= i < path.len() ==> parent_after(path_links(path), #[trigger] path[i]) == Some(
                path[i - 1],
            ),
        forall|i: int|
            0 <= i < path.len() - 1 ==> children_after(path_links(path), #[trigger] path[i])
                == seq![path[i + 1]],
        children_after(path_links(path), path.last()) == Seq::<Entity>::empty(),
        forall|e: Entity|
            !path.contains(e) ==> #[trigger] children_after(path_links(path), e) == Seq::<
                Entity,
            >::empty(),
        forall|e: Entity|
            !path.contains(e) ==> #[trigger] parent_after(path_links(path), e) == None::<Entity>,
    decreases path.len(),
{
    let n = path.len();
    let links = path_links(path);
    if n == 1 {
        assert(links =~= Seq::<Queued>::empty());
    } else {
        let ps = path.drop_last();
        lemma_path_hierarchy(ps);
        assert(links.len() == n - 1);
        assert(links.drop_last() =~= path_links(ps));
        assert(links.last() == Queued::Link { child: path[n - 1], parent: path[n - 2] });
        assert(!ps.contains(path[n - 1])) by {
            if ps.contains(path[n - 1]) {
                let k = choose|k: int| 0 <= k < ps.len() && ps[k] == path[n - 1];
                assert(path[k] == path[n - 1]);
            }
        }
        assert forall|e: Entity| !path.contains(e) implies #[trigger] children_after(links, e)
            == Seq::<Entity>::empty() && parent_after(links, e) == None::<Entity> by {
            if ps.contains(e) {
                let k = choose|k: int| 0 <= k < ps.len() && ps[k] == e;
                assert(path[k] == e);
            }
            assert(path[n - 1] != e && path[n - 2] != e);
            assert(children_after(links, e) == children_after(path_links(ps), e));
            assert(parent_after(links, e) == parent_after(path_links(ps), e));
        }
        assert forall|e: Entity| !path.contains(e) implies #[trigger] parent_after(links, e)
            == None::<Entity> by {
            assert(children_after(links, e) == Seq::<Entity>::empty());
        }
        assert(ps[0] == path[0]);
        assert(path[0] != path[n - 1]);
        assert forall|i: int| 1 <= i < n implies parent_after(links, #[trigger] path[i]) == Some(
            path[i - 1],
        ) by {
            if i < n - 1 {
                assert(ps[i] == path[i] && ps[i - 1] == path[i - 1]);
                assert(path[i] != path[n - 1]);
            }
        }
        assert forall|i: int| 0 <= i < n - 1 implies children_after(links, #[trigger] path[i])
            =~= seq![path[i + 1]] by {
            if i < n - 2 {
                assert(ps[i] == path[i] && ps[i + 1] == path[i + 1]);
                assert(path[i] != path[n - 2]);
            } else {
                assert(ps.last() == path[n - 2]);
                assert(children_after(path_links(ps), path[n - 2]) =~= Seq::<Entity>::empty());
            }
        }
        assert(path[n - 1] != path[n - 2]);
        assert(children_after(path_links(ps), path[n - 1]) == Seq::<Entity>::empty());
        assert(children_after(links, path.last()) == children_after(path_links(ps), path[n - 1]));
    }
}

/// Links that put distinct entities under a parent that is none of them, applied,
/// give that parent exactly those children in the order they were linked, give
/// each of them that parent, and give none of them a child.
pub proof fn lemma_fan_hierarchy(kids: Seq<Entity>, parent: Entity)
    requires
        forall|i: int, j: int| 0 <= i < j < kids.len() ==> kids[i] != kids[j],
        !kids.contains(parent),
    ensures
        children_after(fan_links(kids, parent), parent) == kids,
        forall|i: int|
            0 <= i < kids.len() ==> parent_after(fan_links(kids, parent), #[trigger] kids[i])
                == Some(parent),
        forall|i: int|
            0 <= i < kids.len() ==> children_after(fan_links(kids, parent), #[trigger] kids[i])
                == Seq::<Entity>::empty(),
    decreases kids.len(),
{
    let n = kids.len();
    let links = fan_links(kids, parent);
    if n == 0 {
        assert(links =~= Seq::<Queued>::empty());
        assert(kids =~= Seq::<Entity>::empty());
    } else {
        let ks = kids.drop_last();
        assert(!ks.contains(parent)) by {
            if ks.contains(parent) {
                let k = choose|k: int| 0 <= k < ks.len() && ks[k] == parent;
                assert(kids[k] == parent);
            }
        }
        lemma_fan_hierarchy(ks, parent);
        assert(links.len() == n);
        assert(links.drop_last() =~= fan_links(ks, parent));
        assert(links.last() == Queued::Link { child: kids[n - 1], parent });
        assert(ks.push(kids[n - 1]) =~= kids);
        assert forall|i: int| 0 <= i < n implies parent_after(links, #[trigger] kids[i]) == Some(
            parent,
        ) by {
            if i < n - 1 {
                assert(ks[i] == kids[i]);
            }
        }
        assert forall|i: int| 0 <= i < n implies children_after(links, #[trigger] kids[i])
            == Seq::<Entity>::empty() by {
            assert(kids[i] != parent) by {
                assert(kids.contains(kids[i]));
            }
            if i < n - 1 {
                assert(ks[i] == kids[i]);
            } else {
                assert(children_after(fan_links(ks, parent), kids[n - 1]) =~= Seq::<Entity>::empty())
                    by {
                    assert(!ks.contains(kids[n - 1])) by {
                        if ks.contains(kids[n - 1]) {
                            let k = choose|k: int| 0 <= k < ks.len() && ks[k] == kids[n - 1];
                            assert(kids[k] == kids[n - 1]);
                        }
                    }
                    lemma_no_links_under(fan_links(ks, parent), kids[n - 1]);
                }
            }
        }
    }
}

/// An entity that no link names as a parent gets no children.
proof fn lemma_no_links_under(cmds: Seq<Queued>, e: Entity)
    requires
        forall|i: int| 0 <= i < cmds.len() ==> #[trigger] cmds[i] != (Queued::Link { child: cmds[i]->child, parent: e }) || !(cmds[i] is Link),
    ensures
        children_after(cmds, e) == Seq::<Entity>::empty(),
    decreases cmds.len(),
{
    if cmds.len() > 0 {
        let rest = cmds.drop_last();
        assert forall|i: int| 0 <= i < rest.len() implies #[trigger] rest[i] != (Queued::Link { child: rest[i]->child, parent: e }) || !(rest[i] is Link) by {
            assert(rest[i] == cmds[i]);
        }
        lemma_no_links_under(rest, e);
        assert(cmds.last() == cmds[cmds.len() - 1]);
    }
}

/// A chain of child steps, each descending from the entity the step before it
/// produced, starting from an entity that exists: the chain's entities are
/// pairwise distinct, all of them exist afterwards, and exactly the links of one
/// path through them, in order, have been queued.
pub proof fn lemma_child_chain(states: Seq<Commands>, path: Seq<Entity>)
    requires
        path.len() >= 1,
        states.len() == path.len(),
        issued(states[0]).contains(path[0]),
        forall|i: int|
            0 <= i < path.len() - 1 ==> linked_step(
                #[trigger] states[i],
                states[i + 1],
                path[i],
                path[i + 1],
            ),
    ensures
        forall|i: int, j: int| 0 <= i < j < path.len() ==> path[i] != path[j],
        forall|i: int| 0 <= i < path.len() ==> issued(states.last()).contains(#[trigger] path[i]),
        queued(states.last()) == queued(states[0]) + path_links(path),
        parent_after(path_links(path), path[0]) == None::<Entity>,
        forall|i: int|
            1 <= i < path.len() ==> parent_after(path_links(path), #[trigger] path[i]) == Some(
                path[i - 1],
            ),
        forall|i: int|
            0 <= i < path.len() - 1 ==> children_after(path_links(path), #[trigger] path[i])
                == seq![path[i + 1]],
        children_after(path_links(path), path.last()) == Seq::<Entity>::empty(),
    decreases path.len(),
{
    let n = path.len();
    if n == 1 {
        assert(path_links(path) =~= Seq::<Queued>::empty());
        assert(queued(states[0]) + path_links(path) =~= queued(states[0]));
    } else {
        let ps = path.drop_last();
        let ss = states.drop_last();
        assert forall|i: int| 0 <= i < ps.len() - 1 implies linked_step(
            #[trigger] ss[i],
            ss[i + 1],
            ps[i],
            ps[i + 1],
        ) by {
            assert(linked_step(states[i], states[i + 1], path[i], path[i + 1]));
        }
        lemma_child_chain(ss, ps);
        assert(ss.last() == states[n - 2]);
        assert(linked_step(states[n - 2], states[n - 1], path[n - 2], path[n - 1]));
        assert forall|i: int, j: int| 0 <= i < j < n implies path[i] != path[j] by {
            if j == n - 1 {
                assert(issued(ss.last()).contains(ps[i]));
            } else {
                assert(ps[i] != ps[j]);
            }
        }
        assert forall|i: int| 0 <= i < n implies issued(states.last()).contains(#[trigger] path[i]) by {
            if i < n - 1 {
                assert(issued(ss.last()).contains(ps[i]));
            }
        }
        assert(path_links(path) =~= path_links(ps).push(
            Queued::Link { child: path[n - 1], parent: path[n - 2] },
        ));
        assert(queued(states.last()) =~= queued(states[0]) + path_links(path));
    }
    lemma_path_hierarchy(path);
}

/// However many sibling steps follow one another on a level, each new focus is
/// linked under the parent that the level was entered from, never under an
/// earlier sibling; the new foci are pairwise distinct and differ from the
/// first one.
pub proof fn lemma_sibling_chain(states: Seq<Commands>, level: Seq<ChildCommands>)
    requires
        level.len() >= 1,
        states.len() == level.len(),
        issued(states[0]).contains(level[0].focus()),
        forall|i: int|
            0 <= i < level.len() - 1 ==> sibling_step(
                #[trigger] states[i],
                states[i + 1],
                level[i],
                level[i + 1],
            ),
    ensures
        forall|i: int|
            0 <= i < level.len() ==> (#[trigger] level[i]).parent_of_focus()
                == level[0].parent_of_focus(),
        forall|i: int, j: int| 0 <= i < j < level.len() ==> level[i].focus() != level[j].focus(),
        forall|i: int|
            0 <= i < level.len() ==> issued(states.last()).contains(#[trigger] level[i].focus()),
        queued(states.last()) == queued(states[0]) + level_links(level, level[0].parent_of_focus()),
        issued(states[0]).subset_of(issued(states.last())),
        forall|i: int|
            1 <= i < level.len() ==> !issued(states[0]).contains(#[trigger] level[i].focus()),
    decreases level.len(),
{
    let n = level.len();
    let p = level[0].parent_of_focus();
    if n == 1 {
        assert(level_links(level, p) =~= Seq::<Queued>::empty());
        assert(queued(states[0]) + level_links(level, p) =~= queued(states[0]));
    } else {
        let ls = level.drop_last();
        let ss = states.drop_last();
        assert forall|i: int| 0 <= i < ls.len() - 1 implies sibling_step(
            #[trigger] ss[i],
            ss[i + 1],
            ls[i],
            ls[i + 1],
        ) by {
            assert(sibling_step(states[i], states[i + 1], level[i], level[i + 1]));
        }
        lemma_sibling_chain(ss, ls);
        assert(ss.last() == states[n - 2]);
        assert(sibling_step(states[n - 2], states[n - 1], level[n - 2], level[n - 1]));
        assert(ls[n - 2].parent_of_focus() == p);
        assert forall|i: int| 0 <= i < n implies (#[trigger] level[i]).parent_of_focus() == p by {
            if i < n - 1 {
                assert(ls[i].parent_of_focus() == p);
            }
        }
        assert forall|i: int, j: int| 0 <= i < j < n implies level[i].focus() != level[j].focus() by {
            if j == n - 1 {
                assert(issued(ss.last()).contains(ls[i].focus()));
            } else {
                assert(ls[i].focus() != ls[j].focus());
            }
        }
        assert forall|i: int| 0 <= i < n implies issued(states.last()).contains(
            #[trigger] level[i].focus(),
        ) by {
            if i < n - 1 {
                assert(issued(ss.last()).contains(ls[i].focus()));
            }
        }
        assert(level_links(level, p) =~= level_links(ls, p).push(
            Queued::Link { child: level[n - 1].focus(), parent: p },
        ));
        assert(queued(states.last()) =~= queued(states[0]) + level_links(level, p));
        assert forall|i: int| 1 <= i < n implies !issued(states[0]).contains(
            #[trigger] level[i].focus(),
        ) by {
            if i < n - 1 {
                assert(ls[i].focus() == level[i].focus());
            }
        }
    }
}

/// The foci of a level, in order.
pub open spec fn foci(level: Seq<ChildCommands>) -> Seq<Entity> {
    Seq::new(level.len(), |i: int| level[i].focus())
}

/// A child step from an existing entity `p`, followed by any number of sibling
/// steps: exactly one link per focus, each under `p`, is queued in order, and
/// once applied `p` has exactly those foci as its children, in the order they
/// were created, each of them has `p` as its parent, and none of them has a
/// child.
pub proof fn lemma_level_hierarchy(states: Seq<Commands>, p: Entity, level: Seq<ChildCommands>)
    requires
        level.len() >= 1,
        states.len() == level.len() + 1,
        issued(states[0]).contains(p),
        level[0].parent_of_focus() == p,
        linked_step(states[0], states[1], p, level[0].focus()),
        forall|i: int|
            0 <= i < level.len() - 1 ==> sibling_step(
                #[trigger] states[i + 1],
                states[i + 2],
                level[i],
                level[i + 1],
            ),
    ensures
        queued(states.last()) == queued(states[0]) + fan_links(foci(level), p),
        children_after(fan_links(foci(level), p), p) == foci(level),
        forall|i: int|
            0 <= i < level.len() ==> parent_after(fan_links(foci(level), p), #[trigger] level[i].focus())
                == Some(p),
        forall|i: int|
            0 <= i < level.len() ==> children_after(fan_links(foci(level), p), #[trigger] level[i].focus())
                == Seq::<Entity>::empty(),
{
    let n = level.len();
    let rest = states.subrange(1, states.len() as int);
    assert forall|i: int| 0 <= i < n - 1 implies sibling_step(
        #[trigger] rest[i],
        rest[i + 1],
        level[i],
        level[i + 1],
    ) by {
        assert(rest[i] == states[i + 1] && rest[i + 1] == states[i + 2]);
        assert(sibling_step(states[i + 1], states[i + 2], level[i], level[i + 1]));
    }
    assert(rest[0] == states[1]);
    lemma_sibling_chain(rest, level);
    assert(rest.last() == states.last());
    let fs = foci(level);
    assert forall|i: int, j: int| 0 <= i < j < fs.len() implies fs[i] != fs[j] by {
        assert(level[i].focus() != level[j].focus());
    }
    assert(!fs.contains(p)) by {
        if fs.contains(p) {
            let k = choose|k: int| 0 <= k < fs.len() && fs[k] == p;
            if k >= 1 {
                assert(!issued(rest[0]).contains(level[k].focus()));
            }
        }
    }
    lemma_fan_hierarchy(fs, p);
    assert(fan_links(fs, p) =~= seq![Queued::Link { child: level[0].focus(), parent: p }] + level_links(level, p));
    assert(queued(states.last()) =~= queued(states[0]) + fan_links(fs, p));
    assert forall|i: int| 0 <= i < n implies parent_after(fan_links(fs, p), #[trigger] level[i].focus())
        == Some(p) && children_after(fan_links(fs, p), level[i].focus()) == Seq::<Entity>::empty() by {
        assert(fs[i] == level[i].focus());
    }
    assert forall|i: int| 0 <= i < n implies children_after(fan_links(fs, p), #[trigger] level[i].focus())
        == Seq::<Entity>::empty() by {
        assert(fs[i] == level[i].focus());
    }
}

} // verus!
