//! The descendant walk: every entity below a given one, in the order in which
//! the walk meets them.

use crate::index::{ChildrenIndex, Entity};
use vstd::prelude::*;

verus! {

/// The walk found an entity among its own ancestors: the index is no tree.
#[derive(Debug, Clone, Copy, PartialEq, Eq, Structural)]
pub struct HierarchyCycle;

/// The descendants of `entity`, or `None` where the walk below `entity` comes
/// back to an entity of `path` or to one that it is below at that moment.
///
/// The children of an entity come first, as the index orders them; then, child
/// by child, what is below each of them. `path` holds the entities that the walk
/// is below when it reaches `entity`.
pub open spec fn descendants(
    index: Map<Entity, Seq<Entity>>,
    entity: Entity,
    path: Set<Entity>,
) -> Option<Seq<Entity>>
    decreases index.dom().difference(path).len(), 0nat,
    when index.dom().finite()
{
    if !index.dom().contains(entity) {
        Some(Seq::empty())
    } else if path.contains(entity) {
        None
    } else {
        proof {
            assert(index.dom().difference(path.insert(entity)) =~= index.dom().difference(
                path,
            ).remove(entity));
        }
        match descendants_of_each(index, index[entity], path.insert(entity)) {
            Some(below) => Some(index[entity] + below),
            None => None,
        }
    }
}

/// The descendants of each of `children` in turn, one after the other, or
/// `None` where the walk below one of them closes a cycle.
pub open spec fn descendants_of_each(
    index: Map<Entity, Seq<Entity>>,
    children: Seq<Entity>,
    path: Set<Entity>,
) -> Option<Seq<Entity>>
    decreases index.dom().difference(path).len(), children.len() + 1,
    when index.dom().finite()
{
    if children.len() == 0 {
        Some(Seq::empty())
    } else {
        match descendants(index, children[0], path) {
            Some(first) => match descendants_of_each(index, children.drop_first(), path) {
                Some(rest) => Some(first + rest),
                None => None,
            },
            None => None,
        }
    }
}

/// The closure of `entity`: the entity itself, then its descendants.
pub open spec fn closure(index: Map<Entity, Seq<Entity>>, entity: Entity) -> Option<Seq<Entity>> {
    match descendants(index, entity, Set::empty()) {
        Some(below) => Some(seq![entity] + below),
        None => None,
    }
}

fn on_path(path: &Vec<Entity>, entity: Entity) -> (found: bool)
    ensures
        found == path@.to_set().contains(entity),
{
    let mut i: usize = 0;
    while i < path.len()
        invariant
            i <= path.len(),
            forall|k: int| 0 <= k < i ==> path@[k] != entity,
        decreases path.len() - i,
    {
        if path[i] == entity {
            return true;
        }
        i += 1;
    }
    false
}

fn append_all(entities: &mut Vec<Entity>, more: &Vec<Entity>)
    ensures
        final(entities)@ == old(entities)@ + more@,
{
    let mut i: usize = 0;
    while i < more.len()
        invariant
            i <= more.len(),
            entities@ == old(entities)@ + more@.take(i as int),
        decreases more.len() - i,
    {
        entities.push(more[i]);
        i += 1;
        assert(more@.take(i as int) == more@.take(i - 1).push(more@[i - 1]));
    }
    assert(more@.take(more.len() as int) == more@);
}

/// Walks below `entity` with `path` as the entities above it, and appends
/// what it meets. Where it stops at a cycle, what it had appended stays.
fn walk(
    index: &ChildrenIndex,
    entity: Entity,
    path: &mut Vec<Entity>,
    entities: &mut Vec<Entity>,
) -> (complete: bool)
    ensures
        index@.dom().finite(),
        final(path)@ == old(path)@,
        complete <==> descendants(index@, entity, old(path)@.to_set()) is Some,
        complete ==> final(entities)@ == old(entities)@ + descendants(
            index@,
            entity,
            old(path)@.to_set(),
        )->0,
        old(entities)@.is_prefix_of(final(entities)@),
    decreases index@.dom().difference(old(path)@.to_set()).len(),
{
    let ghost above = path@.to_set();
    let children = match index.get(entity) {
        Some(children) => children,
        None => {
            return true;
        },
    };
    if on_path(path, entity) {
        return false;
    }
    append_all(entities, children);
    path.push(entity);
    proof {
        old(path)@.lemma_push_to_set_commute(entity);
        assert(index@.dom().difference(above.insert(entity)) =~= index@.dom().difference(
            above,
        ).remove(entity));
    }
    let ghost below = above.insert(entity);
    let ghost start = entities@;
    let mut i: usize = 0;
    while i < children.len()
        invariant
            i <= children.len(),
            index@.dom().finite(),
            path@ == old(path)@.push(entity),
            path@.to_set() == below,
            index@.dom().difference(below).len() < index@.dom().difference(above).len(),
            above == old(path)@.to_set(),
            below == above.insert(entity),
            index@.dom().contains(entity),
            !above.contains(entity),
            children@ == index@[entity],
            start == old(entities)@ + children@,
            old(entities)@.is_prefix_of(entities@),
            descendants_of_each(index@, children@.take(i as int), below) is Some,
            entities@ == start + descendants_of_each(index@, children@.take(i as int), below)->0,
        decreases children.len() - i,
    {
        let complete = walk(index, children[i], path, entities);
        proof {
            lemma_each_after_one_more(index@, children@, i as int, below);
        }
        if !complete {
            proof {
                lemma_each_fails_from_prefix(index@, children@, i as int + 1, below);
            }
            path.pop();
            assert(path@ == old(path)@);
            return false;
        }
        i += 1;
    }
    path.pop();
    assert(path@ == old(path)@);
    assert(children@.take(children.len() as int) == children@);
    true
}

/// The walk over one child more: what is below the first `i + 1` children is
/// what is below the first `i`, then what is below child `i`.
proof fn lemma_each_after_one_more(
    index: Map<Entity, Seq<Entity>>,
    children: Seq<Entity>,
    i: int,
    path: Set<Entity>,
)
    requires
        index.dom().finite(),
        0 <= i < children.len(),
    ensures
        descendants_of_each(index, children.take(i + 1), path) == match (
            descendants_of_each(index, children.take(i), path),
            descendants(index, children[i], path),
        ) {
            (Some(before), Some(last)) => Some(before + last),
            _ => None,
        },
    decreases i,
{
    let longer = children.take(i + 1);
    if i == 0 {
        assert(longer.drop_first() == Seq::<Entity>::empty());
        assert(children.take(0) == Seq::<Entity>::empty());
        let one = descendants(index, children[0], path);
        if one is Some {
            assert(one->0 + Seq::<Entity>::empty() == one->0);
            assert(Seq::<Entity>::empty() + one->0 == one->0);
        }
    } else {
        let tail = children.drop_first();
        assert(longer.drop_first() == tail.take(i));
        assert(children.take(i).drop_first() == tail.take(i - 1));
        assert(tail[i - 1] == children[i]);
        lemma_each_after_one_more(index, tail, i - 1, path);
        let first = descendants(index, children[0], path);
        let middle = descendants_of_each(index, tail.take(i - 1), path);
        let last = descendants(index, children[i], path);
        if first is Some && middle is Some && last is Some {
            assert(first->0 + (middle->0 + last->0) == (first->0 + middle->0) + last->0);
        }
    }
}

/// Where the walk over the first `n` children fails, the walk over all of
/// them fails.
proof fn lemma_each_fails_from_prefix(
    index: Map<Entity, Seq<Entity>>,
    children: Seq<Entity>,
    n: int,
    path: Set<Entity>,
)
    requires
        index.dom().finite(),
        0 <= n <= children.len(),
        descendants_of_each(index, children.take(n), path) is None,
    ensures
        descendants_of_each(index, children, path) is None,
    decreases children.len() - n,
{
    if n < children.len() {
        lemma_each_after_one_more(index, children, n, path);
        lemma_each_fails_from_prefix(index, children, n + 1, path);
    } else {
        assert(children.take(n) == children);
    }
}

/// Appends to `entities` the descendants of `entity`: its children in the
/// order of the index, then, child by child, what is below each of them.
///
/// Fails, and leaves `entities` as it was, where the walk comes back to an
/// entity that it is below.
pub fn add_children_recursive(
    index: &ChildrenIndex,
    entity: Entity,
    entities: &mut Vec<Entity>,
) -> (done: Result<(), HierarchyCycle>)
    ensures
        index@.dom().finite(),
        done is Ok <==> descendants(index@, entity, Set::empty()) is Some,
        done is Ok ==> final(entities)@ == old(entities)@ + descendants(
            index@,
            entity,
            Set::empty(),
        )->0,
        done is Err ==> final(entities)@ == old(entities)@,
{
    let before = entities.len();
    let mut path: Vec<Entity> = Vec::new();
    assert(path@.to_set() =~= Set::<Entity>::empty());
    if walk(index, entity, &mut path, entities) {
        Ok(())
    } else {
        entities.truncate(before);
        assert(entities@ == old(entities)@);
        Err(HierarchyCycle)
    }
}

/// The closure of `entity`: the entity itself, then its descendants.
pub fn collect_closure(index: &ChildrenIndex, entity: Entity) -> (found: Result<
    Vec<Entity>,
    HierarchyCycle,
>)
    ensures
        index@.dom().finite(),
        found is Ok <==> closure(index@, entity) is Some,
        found is Ok ==> found->Ok_0@ == closure(index@, entity)->0,
{
    let mut entities: Vec<Entity> = Vec::new();
    entities.push(entity);
    match add_children_recursive(index, entity, &mut entities) {
        Ok(()) => Ok(entities),
        Err(cycle) => Err(cycle),
    }
}

/// What is below an entity holds the children of the entity and, with each
/// parent it holds, the children of that parent.
pub proof fn lemma_descendants_hold_children(
    index: Map<Entity, Seq<Entity>>,
    entity: Entity,
    path: Set<Entity>,
)
    requires
        index.dom().finite(),
        descendants(index, entity, path) is Some,
    ensures
        forall|parent: Entity, i: int|
            #![trigger index[parent][i]]
            (parent == entity || descendants(index, entity, path)->0.contains(parent))
                && index.dom().contains(parent) && 0 <= i < index[parent].len() ==> descendants(
                index,
                entity,
                path,
            )->0.contains(index[parent][i]),
    decreases index.dom().difference(path).len(), 0nat,
{
    if index.dom().contains(entity) {
        let found = descendants(index, entity, path)->0;
        let own = index[entity];
        let inner = path.insert(entity);
        assert(index.dom().difference(inner) =~= index.dom().difference(path).remove(entity));
        let below = descendants_of_each(index, own, inner)->0;
        lemma_each_hold_children(index, own, inner);
        assert forall|parent: Entity, i: int|
            #![trigger index[parent][i]]
            (parent == entity || found.contains(parent)) && index.dom().contains(parent) && 0 <= i
                < index[parent].len() implies found.contains(index[parent][i]) by {
            let child = index[parent][i];
            if parent == entity {
                assert(found[i] == child);
            } else {
                let k = choose|k: int| 0 <= k < found.len() && found[k] == parent;
                if k < own.len() {
                    assert(own[k] == parent);
                    assert(own.contains(parent));
                } else {
                    assert(below[k - own.len()] == parent);
                    assert(below.contains(parent));
                }
                assert(below.contains(child));
                let j = choose|j: int| 0 <= j < below.len() && below[j] == child;
                assert(found[own.len() + j] == child);
            }
        }
    }
}

/// What is below a run of entities holds, with each parent among them or
/// below them, the children of that parent.
pub proof fn lemma_each_hold_children(
    index: Map<Entity, Seq<Entity>>,
    children: Seq<Entity>,
    path: Set<Entity>,
)
    requires
        index.dom().finite(),
        descendants_of_each(index, children, path) is Some,
    ensures
        forall|parent: Entity, i: int|
            #![trigger index[parent][i]]
            (children.contains(parent) || descendants_of_each(index, children, path)->0.contains(
                parent,
            )) && index.dom().contains(parent) && 0 <= i < index[parent].len()
                ==> descendants_of_each(index, children, path)->0.contains(index[parent][i]),
    decreases index.dom().difference(path).len(), children.len() + 1,
{
    if children.len() > 0 {
        let found = descendants_of_each(index, children, path)->0;
        let first = descendants(index, children[0], path)->0;
        let rest = descendants_of_each(index, children.drop_first(), path)->0;
        lemma_descendants_hold_children(index, children[0], path);
        lemma_each_hold_children(index, children.drop_first(), path);
        assert forall|parent: Entity, i: int|
            #![trigger index[parent][i]]
            (children.contains(parent) || found.contains(parent)) && index.dom().contains(parent)
                && 0 <= i < index[parent].len() implies found.contains(index[parent][i]) by {
            let child = index[parent][i];
            let in_first = parent == children[0] || first.contains(parent);
            if !in_first {
                if children.contains(parent) {
                    let k = choose|k: int| 0 <= k < children.len() && children[k] == parent;
                    assert(children.drop_first()[k - 1] == parent);
                    assert(children.drop_first().contains(parent));
                } else {
                    let k = choose|k: int| 0 <= k < found.len() && found[k] == parent;
                    if k < first.len() {
                        assert(first[k] == parent);
                    } else {
                        assert(rest[k - first.len()] == parent);
                        assert(rest.contains(parent));
                    }
                }
                assert(rest.contains(child));
                let j = choose|j: int| 0 <= j < rest.len() && rest[j] == child;
                assert(found[first.len() + j] == child);
            } else {
                assert(first.contains(child));
                let j = choose|j: int| 0 <= j < first.len() && first[j] == child;
                assert(found[j] == child);
            }
        }
    }
}

/// The closure of an entity is closed under the index: with each parent it
/// holds it holds the children of that parent. Nothing but the index decides
/// what it reaches.
pub proof fn lemma_closure_holds_children(
    index: Map<Entity, Seq<Entity>>,
    entity: Entity,
    parent: Entity,
    i: int,
)
    requires
        index.dom().finite(),
        closure(index, entity) is Some,
        closure(index, entity)->0.contains(parent),
        index.dom().contains(parent),
        0 <= i < index[parent].len(),
    ensures
        closure(index, entity)->0[0] == entity,
        closure(index, entity)->0.contains(index[parent][i]),
{
    let below = descendants(index, entity, Set::empty())->0;
    let all = closure(index, entity)->0;
    lemma_descendants_hold_children(index, entity, Set::empty());
    let k = choose|k: int| 0 <= k < all.len() && all[k] == parent;
    if k > 0 {
        assert(below[k - 1] == parent);
        assert(below.contains(parent));
    }
    let child = index[parent][i];
    assert(below.contains(child));
    let j = choose|j: int| 0 <= j < below.len() && below[j] == child;
    assert(all[j + 1] == child);
}

/// Whether `rank` orders the index as a forest: every child ranks below its
/// parent.
pub open spec fn ranks_downward(index: Map<Entity, Seq<Entity>>, rank: spec_fn(Entity) -> nat) -> bool {
    forall|parent: Entity, i: int|
        #![trigger index[parent][i]]
        index.dom().contains(parent) && 0 <= i < index[parent].len() ==> rank(index[parent][i])
            < rank(parent)
}

/// In an index where every child ranks below its parent the walk closes no
/// cycle: below an entity that ranks below all of `path` there are its
/// descendants.
pub proof fn lemma_forest_has_descendants(
    index: Map<Entity, Seq<Entity>>,
    rank: spec_fn(Entity) -> nat,
    entity: Entity,
    path: Set<Entity>,
)
    requires
        index.dom().finite(),
        ranks_downward(index, rank),
        forall|above: Entity| path.contains(above) ==> rank(entity) < rank(above),
    ensures
        descendants(index, entity, path) is Some,
    decreases index.dom().difference(path).len(), 0nat,
{
    if index.dom().contains(entity) {
        let inner = path.insert(entity);
        assert(index.dom().difference(inner) =~= index.dom().difference(path).remove(entity));
        lemma_forest_has_each(index, rank, index[entity], inner, entity);
    }
}

/// In an index where every child ranks below its parent the walk below a run
/// of entities closes no cycle, where each of them ranks below all of `path`.
proof fn lemma_forest_has_each(
    index: Map<Entity, Seq<Entity>>,
    rank: spec_fn(Entity) -> nat,
    children: Seq<Entity>,
    path: Set<Entity>,
    parent: Entity,
)
    requires
        index.dom().finite(),
        ranks_downward(index, rank),
        forall|i: int| 0 <= i < children.len() ==> rank(#[trigger] children[i]) < rank(parent),
        forall|above: Entity| path.contains(above) ==> rank(parent) <= rank(above),
    ensures
        descendants_of_each(index, children, path) is Some,
    decreases index.dom().difference(path).len(), children.len() + 1,
{
    if children.len() > 0 {
        assert(rank(children[0]) < rank(parent));
        lemma_forest_has_descendants(index, rank, children[0], path);
        let rest = children.drop_first();
        assert forall|i: int| 0 <= i < rest.len() implies rank(#[trigger] rest[i]) < rank(
            parent,
        ) by {
            assert(rest[i] == children[i + 1]);
        }
        lemma_forest_has_each(index, rank, rest, path, parent);
    }
}

/// In an index where every child ranks below its parent every entity has a
/// closure.
pub proof fn lemma_forest_has_closure(
    index: Map<Entity, Seq<Entity>>,
    rank: spec_fn(Entity) -> nat,
    entity: Entity,
)
    requires
        index.dom().finite(),
        ranks_downward(index, rank),
    ensures
        closure(index, entity) is Some,
{
    lemma_forest_has_descendants(index, rank, entity, Set::empty());
}

} // verus!
