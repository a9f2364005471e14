//! The portable scene: the selected entities under local identifiers, each
//! with the attached data that the allow-list lets through, every reference
//! to an entity rewritten to a local identifier.

use crate::graph::{
    holds_places, item_views, node_of, DataItem, DataItemView, LiveGraph, Node, NodeView, TypeKey,
    CHILDREN_PREFAB_TYPE,
};
use crate::index::Entity;
use crate::remap::{
    assign_all, lemma_assign_all, lemma_assign_all_joined, lemma_position, lemma_position_unique,
    lemma_positions_in_prefix, position, positions, EntityMapper,
};
use std::collections::HashSet;
use vstd::prelude::*;

verus! {

broadcast use vstd::std_specs::hash::group_hash_axioms;

/// One entity of a scene: its local identifier and the data it carries.
#[derive(Debug, Clone, PartialEq, Eq)]
pub struct SceneEntity {
    pub id: u64,
    pub items: Vec<DataItem>,
}

/// A [`SceneEntity`] as a value.
pub struct SceneEntityView {
    pub id: u64,
    pub items: Seq<DataItemView>,
}

impl View for SceneEntity {
    type V = SceneEntityView;

    open spec fn view(&self) -> SceneEntityView {
        SceneEntityView { id: self.id, items: item_views(self.items@) }
    }
}

/// A snapshot that stands by itself: its entities in the order of their
/// local identifiers, which count up from zero, and the number of local
/// identifiers beyond them, reserved for entities that the data refers to and
/// the scene does not hold.
#[derive(Debug, Clone, PartialEq, Eq)]
pub struct PortableScene {
    pub entities: Vec<SceneEntity>,
    pub placeholders: u64,
}

/// A [`PortableScene`] as a value.
pub struct PortableSceneView {
    pub entities: Seq<SceneEntityView>,
    pub placeholders: u64,
}

impl View for PortableScene {
    type V = PortableSceneView;

    open spec fn view(&self) -> PortableSceneView {
        PortableSceneView {
            entities: Seq::new(self.entities@.len(), |i: int| self.entities@[i]@),
            placeholders: self.placeholders,
        }
    }
}

/// The entities that a scene holds, for a request that names `entities`: each
/// once, in the order of its first naming.
pub open spec fn selection(entities: Seq<Entity>) -> Seq<Entity> {
    assign_all(Seq::empty(), entities)
}

/// Those of `items` whose type the allow-list holds, in their order.
pub open spec fn allowed_items(items: Seq<DataItemView>, allow: Set<TypeKey>) -> Seq<
    DataItemView,
>
    decreases items.len(),
{
    if items.len() == 0 {
        Seq::empty()
    } else if allow.contains(items.last().type_id) {
        allowed_items(items.drop_last(), allow).push(items.last())
    } else {
        allowed_items(items.drop_last(), allow)
    }
}

/// A record of children as a piece of attached data.
pub open spec fn record_as_item(children: Seq<Entity>) -> DataItemView {
    DataItemView { type_id: CHILDREN_PREFAB_TYPE, refs: children, payload: Seq::empty() }
}

/// The data of an entity that a snapshot carries, before references are
/// rewritten: the allowed items in their order, then the record of children,
/// if the entity holds one and the allow-list holds its type. An entity that
/// the graph does not hold carries nothing.
pub open spec fn carried_items(node: Option<NodeView>, allow: Set<TypeKey>) -> Seq<DataItemView> {
    match node {
        None => Seq::empty(),
        Some(node) => {
            let items = allowed_items(node.items, allow);
            match node.prepared {
                Some(children) if allow.contains(CHILDREN_PREFAB_TYPE) => items.push(
                    record_as_item(children),
                ),
                _ => items,
            }
        },
    }
}

/// The references that `items` hold, item by item, in their order.
pub open spec fn refs_of(items: Seq<DataItemView>) -> Seq<Entity>
    decreases items.len(),
{
    if items.len() == 0 {
        Seq::empty()
    } else {
        refs_of(items.drop_last()) + items.last().refs
    }
}

/// The references that the carried data of `selected` holds, entity by entity.
pub open spec fn carried_refs(nodes: Seq<NodeView>, selected: Seq<Entity>, allow: Set<TypeKey>) -> Seq<
    Entity,
>
    decreases selected.len(),
{
    if selected.len() == 0 {
        Seq::empty()
    } else {
        carried_refs(nodes, selected.drop_last(), allow) + refs_of(
            carried_items(node_of(nodes, selected.last()), allow),
        )
    }
}

/// The numbering of a scene: the selected entities first, then every other
/// entity that the carried data refers to, in the order of first reference.
/// The place of an entity is its local identifier.
pub open spec fn scene_table(nodes: Seq<NodeView>, entities: Seq<Entity>, allow: Set<TypeKey>) -> Seq<
    Entity,
> {
    assign_all(selection(entities), carried_refs(nodes, selection(entities), allow))
}

/// `item` with each reference replaced by its place in `table`.
pub open spec fn renumbered(table: Seq<Entity>, item: DataItemView) -> DataItemView {
    DataItemView { refs: positions(table, item.refs), ..item }
}

/// `items` with each reference replaced by its place in `table`.
pub open spec fn renumbered_items(table: Seq<Entity>, items: Seq<DataItemView>) -> Seq<
    DataItemView,
> {
    Seq::new(items.len(), |j: int| renumbered(table, items[j]))
}

/// The scene entity of `entity` under the local identifier `id`.
pub open spec fn scene_entity(
    nodes: Seq<NodeView>,
    table: Seq<Entity>,
    allow: Set<TypeKey>,
    id: int,
    entity: Entity,
) -> SceneEntityView {
    SceneEntityView {
        id: id as u64,
        items: renumbered_items(table, carried_items(node_of(nodes, entity), allow)),
    }
}

/// The portable scene of `entities` in the graph `nodes` under the
/// allow-list `allow`.
pub open spec fn scene_of(nodes: Seq<NodeView>, entities: Seq<Entity>, allow: Set<TypeKey>) -> PortableSceneView {
    let selected = selection(entities);
    let table = scene_table(nodes, entities, allow);
    PortableSceneView {
        entities: Seq::new(
            selected.len(),
            |k: int| scene_entity(nodes, table, allow, k, selected[k]),
        ),
        placeholders: (table.len() - selected.len()) as u64,
    }
}

/// The references of a list with one item more are those of the list, then
/// those of the item.
proof fn lemma_refs_of_push(items: Seq<DataItemView>, item: DataItemView)
    ensures
        refs_of(items.push(item)) == refs_of(items) + item.refs,
{
    assert(items.push(item).drop_last() == items);
}

/// Each reference of each item is among the references of the list.
proof fn lemma_refs_held(items: Seq<DataItemView>, j: int, i: int)
    requires
        0 <= j < items.len(),
        0 <= i < items[j].refs.len(),
    ensures
        refs_of(items).contains(items[j].refs[i]),
    decreases items.len(),
{
    let front = refs_of(items.drop_last());
    let all = refs_of(items);
    if j == items.len() - 1 {
        assert(all[front.len() + i] == items[j].refs[i]);
    } else {
        lemma_refs_held(items.drop_last(), j, i);
        let k = choose|k: int| 0 <= k < front.len() && front[k] == items[j].refs[i];
        assert(all[k] == items[j].refs[i]);
    }
}

/// A table that grows at its end rewrites as before the items whose
/// references it held.
proof fn lemma_renumbered_stable(
    table: Seq<Entity>,
    longer: Seq<Entity>,
    items: Seq<DataItemView>,
)
    requires
        table.is_prefix_of(longer),
        forall|e: Entity| refs_of(items).contains(e) ==> table.contains(e),
    ensures
        renumbered_items(longer, items) == renumbered_items(table, items),
{
    assert forall|j: int| 0 <= j < items.len() implies renumbered(longer, items[j])
        == renumbered(table, items[j]) by {
        assert forall|i: int| 0 <= i < items[j].refs.len() implies table.contains(
            #[trigger] items[j].refs[i],
        ) by {
            lemma_refs_held(items, j, i);
        }
        lemma_positions_in_prefix(table, longer, items[j].refs);
    }
    assert(renumbered_items(longer, items) =~= renumbered_items(table, items));
}

/// The references that one of the selected entities carries are among those
/// that all of them carry.
proof fn lemma_carried_refs_held(
    nodes: Seq<NodeView>,
    selected: Seq<Entity>,
    allow: Set<TypeKey>,
    j: int,
    e: Entity,
)
    requires
        0 <= j < selected.len(),
        refs_of(carried_items(node_of(nodes, selected[j]), allow)).contains(e),
    ensures
        carried_refs(nodes, selected, allow).contains(e),
    decreases selected.len(),
{
    let front = carried_refs(nodes, selected.drop_last(), allow);
    let own = refs_of(carried_items(node_of(nodes, selected.last()), allow));
    let all = carried_refs(nodes, selected, allow);
    if j == selected.len() - 1 {
        let k = choose|k: int| 0 <= k < own.len() && own[k] == e;
        assert(all[front.len() + k] == e);
    } else {
        lemma_carried_refs_held(nodes, selected.drop_last(), allow, j, e);
        let k = choose|k: int| 0 <= k < front.len() && front[k] == e;
        assert(all[k] == e);
    }
}

/// The allow-list as a set.
fn allow_set(allow_types: &Vec<TypeKey>) -> (allowed: HashSet<TypeKey>)
    ensures
        allowed@ == allow_types@.to_set(),
{
    let mut allowed: HashSet<TypeKey> = HashSet::new();
    let mut i: usize = 0;
    while i < allow_types.len()
        invariant
            i <= allow_types.len(),
            allowed@ == allow_types@.take(i as int).to_set(),
        decreases allow_types.len() - i,
    {
        allowed.insert(allow_types[i]);
        proof {
            assert(allow_types@.take(i + 1) == allow_types@.take(i as int).push(allow_types@[i as int]));
            allow_types@.take(i as int).lemma_push_to_set_commute(allow_types@[i as int]);
        }
        i += 1;
    }
    assert(allow_types@.take(allow_types.len() as int) == allow_types@);
    allowed
}

/// A copy of `item` with each reference replaced by its local identifier.
fn renumber(item: &DataItem, mapper: &mut EntityMapper) -> (out: DataItem)
    requires
        old(mapper).wf(),
    ensures
        final(mapper).wf(),
        final(mapper)@ == assign_all(old(mapper)@, item@.refs),
        out@ == renumbered(final(mapper)@, item@),
{
    let refs = mapper.map_entities(&item.refs);
    DataItem { type_id: item.type_id, refs, payload: item.payload.clone() }
}

/// The data of `node` that a snapshot carries, with each reference replaced
/// by its local identifier.
fn carry(node: &Node, allowed: &HashSet<TypeKey>, mapper: &mut EntityMapper) -> (items: Vec<
    DataItem,
>)
    requires
        old(mapper).wf(),
    ensures
        final(mapper).wf(),
        final(mapper)@ == assign_all(
            old(mapper)@,
            refs_of(carried_items(Some(node@), allowed@)),
        ),
        item_views(items@) == renumbered_items(
            final(mapper)@,
            carried_items(Some(node@), allowed@),
        ),
{
    let ghost all = node@.items;
    let mut items: Vec<DataItem> = Vec::new();
    let mut j: usize = 0;
    assert(item_views(items@) =~= renumbered_items(mapper@, Seq::empty()));
    while j < node.items.len()
        invariant
            j <= node.items.len(),
            all == node@.items,
            mapper.wf(),
            mapper@ == assign_all(old(mapper)@, refs_of(allowed_items(all.take(j as int), allowed@))),
            item_views(items@) == renumbered_items(
                mapper@,
                allowed_items(all.take(j as int), allowed@),
            ),
        decreases node.items.len() - j,
    {
        let ghost kept = allowed_items(all.take(j as int), allowed@);
        assert(all.take(j + 1).drop_last() == all.take(j as int));
        assert(all.take(j + 1).last() == node.items@[j as int]@);
        if allowed.contains(&node.items[j].type_id) {
            let ghost before = mapper@;
            let ghost had = items@;
            let item = renumber(&node.items[j], mapper);
            items.push(item);
            proof {
                let fresh = node.items@[j as int]@;
                lemma_adds_item(old(mapper)@, before, mapper@, kept, fresh);
                assert(item_views(items@) =~= item_views(had).push(item@));
            }
        }
        j += 1;
    }
    assert(all.take(node.items.len() as int) == all);
    let ghost kept = allowed_items(all, allowed@);
    match &node.prepared {
        Some(record) => {
            if allowed.contains(&CHILDREN_PREFAB_TYPE) {
                let ghost before = mapper@;
                let ghost had = items@;
                let refs = mapper.map_entities(&record.0);
                let item = DataItem { type_id: CHILDREN_PREFAB_TYPE, refs, payload: Vec::new() };
                items.push(item);
                proof {
                    let fresh = record_as_item(record@);
                    assert(item@ == renumbered(mapper@, fresh));
                    lemma_adds_item(old(mapper)@, before, mapper@, kept, fresh);
                    assert(item_views(items@) =~= item_views(had).push(item@));
                }
            }
        },
        None => {},
    }
    items
}

/// What one more carried item does to the numbering and to the items
/// rewritten so far.
proof fn lemma_adds_item(
    start: Seq<Entity>,
    before: Seq<Entity>,
    after: Seq<Entity>,
    kept: Seq<DataItemView>,
    fresh: DataItemView,
)
    requires
        before == assign_all(start, refs_of(kept)),
        after == assign_all(before, fresh.refs),
    ensures
        after == assign_all(start, refs_of(kept.push(fresh))),
        renumbered_items(after, kept.push(fresh)) == renumbered_items(before, kept).push(
            renumbered(after, fresh),
        ),
{
    lemma_refs_of_push(kept, fresh);
    lemma_assign_all_joined(start, refs_of(kept), fresh.refs);
    lemma_assign_all(start, refs_of(kept));
    lemma_assign_all(before, fresh.refs);
    lemma_renumbered_stable(before, after, kept);
    assert(renumbered_items(after, kept.push(fresh)) =~= renumbered_items(before, kept).push(
        renumbered(after, fresh),
    ));
}

/// Builds the portable scene of `entities`: each of them once, under local
/// identifiers that count up from zero in the order of first naming, with the
/// attached data whose type is in `allow_types` and every reference rewritten
/// to a local identifier. An entity that is referred to and not selected gets
/// a local identifier beyond those of the selected ones.
pub fn build_scene(graph: &LiveGraph, entities: &Vec<Entity>, allow_types: &Vec<TypeKey>) -> (scene:
    PortableScene)
    ensures
        scene@ == scene_of(graph@, entities@, allow_types@.to_set()),
        scene_table(graph@, entities@, allow_types@.to_set()).len() <= usize::MAX,
{
    let allowed = allow_set(allow_types);
    let places = graph.places();
    let mut mapper = EntityMapper::new();
    let _ = mapper.map_entities(entities);
    let count = mapper.len();
    let ghost selected = mapper@;
    let mut out: Vec<SceneEntity> = Vec::new();
    let mut k: usize = 0;
    while k < count
        invariant
            k <= count,
            count == selected.len(),
            selected == selection(entities@),
            allowed@ == allow_types@.to_set(),
            holds_places(places@, graph@),
            mapper.wf(),
            mapper@ == assign_all(selected, carried_refs(graph@, selected.take(k as int), allowed@)),
            out@.len() == k,
            forall|j: int|
                0 <= j < k ==> (#[trigger] out@[j])@ == scene_entity(
                    graph@,
                    mapper@,
                    allowed@,
                    j,
                    selected[j],
                ),
        decreases count - k,
    {
        let ghost before = mapper@;
        let ghost had = out@;
        let ghost done = carried_refs(graph@, selected.take(k as int), allowed@);
        proof {
            lemma_assign_all(selected, done);
        }
        let entity = mapper.entity_at(k);
        assert(places@.contains_key(entity) <==> node_of(graph@, entity) is Some);
        let items = match places.get(&entity) {
            Some(place) => {
                assert(graph@[*place as int] == graph.nodes@[*place as int]@);
                carry(&graph.nodes[*place], &allowed, &mut mapper)
            },
            None => {
                assert(item_views(Seq::<DataItem>::empty()) =~= renumbered_items(
                    mapper@,
                    Seq::empty(),
                ));
                Vec::new()
            },
        };
        out.push(SceneEntity { id: k as u64, items });
        proof {
            let own = carried_items(node_of(graph@, entity), allowed@);
            assert(selected.take(k + 1).drop_last() == selected.take(k as int));
            assert(selected.take(k + 1).last() == entity);
            lemma_assign_all_joined(selected, done, refs_of(own));
            lemma_assign_all(before, refs_of(own));
            assert forall|j: int| 0 <= j < k + 1 implies (#[trigger] out@[j])@ == scene_entity(
                graph@,
                mapper@,
                allowed@,
                j,
                selected[j],
            ) by {
                if j < k {
                    assert(out@[j] == had[j]);
                    let theirs = carried_items(node_of(graph@, selected[j]), allowed@);
                    assert forall|e: Entity| refs_of(theirs).contains(e) implies before.contains(
                        e,
                    ) by {
                        lemma_carried_refs_held(graph@, selected.take(k as int), allowed@, j, e);
                    }
                    lemma_renumbered_stable(before, mapper@, theirs);
                }
            }
        }
        k += 1;
    }
    assert(selected.take(count as int) == selected);
    proof {
        lemma_assign_all(selected, carried_refs(graph@, selected, allowed@));
    }
    let placeholders = (mapper.len() - count) as u64;
    let scene = PortableScene { entities: out, placeholders };
    proof {
        assert(scene@.entities =~= scene_of(graph@, entities@, allowed@).entities);
    }
    scene
}

/// Every item that the allow-list lets through has a type that the list
/// holds, and every item of such a type is let through.
pub proof fn lemma_allowed_items(items: Seq<DataItemView>, allow: Set<TypeKey>)
    ensures
        forall|j: int|
            0 <= j < allowed_items(items, allow).len() ==> allow.contains(
                (#[trigger] allowed_items(items, allow)[j]).type_id,
            ) && items.contains(allowed_items(items, allow)[j]),
        forall|i: int|
            0 <= i < items.len() && allow.contains((#[trigger] items[i]).type_id)
                ==> allowed_items(items, allow).contains(items[i]),
    decreases items.len(),
{
    if items.len() > 0 {
        let front = items.drop_last();
        let kept = allowed_items(items, allow);
        lemma_allowed_items(front, allow);
        assert forall|j: int| 0 <= j < kept.len() implies allow.contains(
            (#[trigger] kept[j]).type_id,
        ) && items.contains(kept[j]) by {
            if j < allowed_items(front, allow).len() {
                let x = allowed_items(front, allow)[j];
                assert(front.contains(x));
                let i = choose|i: int| 0 <= i < front.len() && front[i] == x;
                assert(items[i] == x);
            } else {
                assert(items[items.len() - 1] == kept[j]);
            }
        }
        assert forall|i: int|
            0 <= i < items.len() && allow.contains((#[trigger] items[i]).type_id) implies kept.contains(
            items[i],
        ) by {
            if i < front.len() {
                assert(front[i] == items[i]);
                let x = front[i];
                assert(allowed_items(front, allow).contains(x));
                let j = choose|j: int|
                    0 <= j < allowed_items(front, allow).len() && allowed_items(front, allow)[j]
                        == x;
                assert(kept[j] == x);
            } else {
                assert(kept[kept.len() - 1] == items[i]);
            }
        }
    }
}

/// The scene of no entities is empty: it holds no entity and reserves no
/// identifier.
pub proof fn lemma_empty_selection(nodes: Seq<NodeView>, allow: Set<TypeKey>)
    ensures
        scene_of(nodes, Seq::empty(), allow).entities.len() == 0,
        scene_of(nodes, Seq::empty(), allow).placeholders == 0,
{
}

/// A scene holds no data of a type that the allow-list does not hold,
/// whichever entities were selected.
pub proof fn lemma_scene_types_allowed(
    nodes: Seq<NodeView>,
    entities: Seq<Entity>,
    allow: Set<TypeKey>,
    k: int,
    j: int,
)
    requires
        0 <= k < scene_of(nodes, entities, allow).entities.len(),
        0 <= j < scene_of(nodes, entities, allow).entities[k].items.len(),
    ensures
        allow.contains(scene_of(nodes, entities, allow).entities[k].items[j].type_id),
{
    let selected = selection(entities);
    match node_of(nodes, selected[k]) {
        Some(node) => {
            lemma_allowed_items(node.items, allow);
        },
        None => {},
    }
}

/// Every reference in a scene resolves within the scene. A reference to a
/// selected entity is the local identifier of that entity, which the scene
/// holds under it. A reference to any other entity is one of the reserved
/// identifiers beyond those of the scene's entities. Two references are
/// equal only where they refer to one entity.
pub proof fn lemma_scene_refs_resolve(
    nodes: Seq<NodeView>,
    entities: Seq<Entity>,
    allow: Set<TypeKey>,
    k: int,
    j: int,
    i: int,
)
    requires
        scene_table(nodes, entities, allow).len() <= u64::MAX,
        0 <= k < selection(entities).len(),
        0 <= j < carried_items(node_of(nodes, selection(entities)[k]), allow).len(),
        0 <= i < carried_items(node_of(nodes, selection(entities)[k]), allow)[j].refs.len(),
    ensures
        ({
            let scene = scene_of(nodes, entities, allow);
            let table = scene_table(nodes, entities, allow);
            let target = carried_items(node_of(nodes, selection(entities)[k]), allow)[j].refs[i];
            let local = scene.entities[k].items[j].refs[i];
            &&& scene.entities.len() == selection(entities).len()
            &&& scene.entities.len() + scene.placeholders == table.len()
            &&& local < table.len() && table[local as int] == target
            &&& local == position(table, target)
            &&& entities.contains(target) ==> local < scene.entities.len()
                && selection(entities)[local as int] == target && scene.entities[local as int].id
                == local
            &&& !entities.contains(target) ==> scene.entities.len() <= local
        }),
{
    let selected = selection(entities);
    let table = scene_table(nodes, entities, allow);
    let carried = carried_items(node_of(nodes, selected[k]), allow);
    let target = carried[j].refs[i];
    let all_refs = carried_refs(nodes, selected, allow);
    lemma_assign_all(Seq::empty(), entities);
    lemma_assign_all(selected, all_refs);
    lemma_refs_held(carried, j, i);
    lemma_carried_refs_held(nodes, selected, allow, k, target);
    assert(table.contains(target));
    lemma_position(table, target);
    let local = position(table, target);
    if entities.contains(target) {
        assert(selected.contains(target));
        lemma_position(selected, target);
        crate::remap::lemma_position_in_prefix(selected, table, target);
    } else {
        assert(!selected.contains(target));
        if local < selected.len() {
            assert(selected[local] == table[local]);
            assert(selected.contains(target));
        }
    }
}

/// The selected entities stand in a scene in the order of selection, each
/// under its place as local identifier, and the place of a selected entity in
/// the numbering is that identifier.
pub proof fn lemma_scene_entities(
    nodes: Seq<NodeView>,
    entities: Seq<Entity>,
    allow: Set<TypeKey>,
    k: int,
)
    requires
        scene_table(nodes, entities, allow).len() <= u64::MAX,
        0 <= k < selection(entities).len(),
    ensures
        selection(entities).no_duplicates(),
        scene_of(nodes, entities, allow).entities[k].id == k,
        position(scene_table(nodes, entities, allow), selection(entities)[k]) == k,
        entities.contains(selection(entities)[k]),
{
    let selected = selection(entities);
    let table = scene_table(nodes, entities, allow);
    lemma_assign_all(Seq::empty(), entities);
    lemma_assign_all(selected, carried_refs(nodes, selected, allow));
    assert(table[k] == selected[k]);
    lemma_position_unique(table, k);
    assert(selected.contains(selected[k]));
}

} // verus!
