//! The live graph as the snapshot reads it: entities with their markers,
//! names, children and attached data, and the record of children that a save
//! attaches to an entity and takes away again.

use crate::index::{ChildrenIndex, Entity};
use crate::remap::{assign_all, positions, EntityMapper};
use std::collections::HashMap;
use vstd::prelude::*;

verus! {

broadcast use vstd::std_specs::hash::group_hash_axioms;

/// The runtime identifier of a type of attached data.
pub type TypeKey = u64;

/// The type identifier under which a [`ChildrenPrefab`] is attached.
pub const CHILDREN_PREFAB_TYPE: TypeKey = 0;

/// The record of an entity's children, attached for the time of a save.
#[derive(Debug, Clone, PartialEq, Eq)]
pub struct ChildrenPrefab(pub Vec<Entity>);

impl View for ChildrenPrefab {
    type V = Seq<Entity>;

    open spec fn view(&self) -> Seq<Entity> {
        self.0@
    }
}

impl ChildrenPrefab {
    /// The record of `children`, in their order.
    pub fn from_children(children: &Vec<Entity>) -> (record: Self)
        ensures
            record@ == children@,
    {
        ChildrenPrefab(children.clone())
    }

    /// Replaces each recorded child by its local identifier in `mapper`,
    /// which gives a new one to each child that has none.
    pub fn map_entities(&mut self, mapper: &mut EntityMapper)
        requires
            old(mapper).wf(),
        ensures
            final(mapper).wf(),
            final(mapper)@ == assign_all(old(mapper)@, old(self)@),
            final(self)@ == positions(final(mapper)@, old(self)@),
    {
        let locals = mapper.map_entities(&self.0);
        self.0 = locals;
    }
}

/// One piece of data attached to an entity.
#[derive(Debug, Clone, PartialEq, Eq)]
pub struct DataItem {
    /// The type of the data.
    pub type_id: TypeKey,
    /// The entities that the data refers to, in the order in which it holds
    /// them.
    pub refs: Vec<Entity>,
    /// The rest of the data, which a snapshot carries as it is.
    pub payload: Vec<u8>,
}

/// A [`DataItem`] as a value.
pub struct DataItemView {
    pub type_id: TypeKey,
    pub refs: Seq<Entity>,
    pub payload: Seq<u8>,
}

impl View for DataItem {
    type V = DataItemView;

    open spec fn view(&self) -> DataItemView {
        DataItemView { type_id: self.type_id, refs: self.refs@, payload: self.payload@ }
    }
}

/// The items of a list, each as a value.
pub open spec fn item_views(items: Seq<DataItem>) -> Seq<DataItemView> {
    Seq::new(items.len(), |i: int| items[i]@)
}

/// One entity of the live graph.
#[derive(Debug, Clone, PartialEq, Eq)]
pub struct Node {
    /// The entity.
    pub entity: Entity,
    /// Whether the entity is marked as part of a prefab.
    pub prefab_marker: bool,
    /// Whether the entity is marked as a child that a loaded scene brought.
    pub scene_auto_child: bool,
    /// The display name of the entity.
    pub name: Option<String>,
    /// The children of the entity, in order.
    pub children: Vec<Entity>,
    /// The record of children attached to the entity, if one is.
    pub prepared: Option<ChildrenPrefab>,
    /// The other data attached to the entity.
    pub items: Vec<DataItem>,
}

/// A [`Node`] as a value.
pub struct NodeView {
    pub entity: Entity,
    pub prefab_marker: bool,
    pub scene_auto_child: bool,
    pub name: Option<Seq<char>>,
    pub children: Seq<Entity>,
    pub prepared: Option<Seq<Entity>>,
    pub items: Seq<DataItemView>,
}

impl View for Node {
    type V = NodeView;

    open spec fn view(&self) -> NodeView {
        NodeView {
            entity: self.entity,
            prefab_marker: self.prefab_marker,
            scene_auto_child: self.scene_auto_child,
            name: match self.name {
                Some(name) => Some(name@),
                None => None,
            },
            children: self.children@,
            prepared: match self.prepared {
                Some(record) => Some(record@),
                None => None,
            },
            items: item_views(self.items@),
        }
    }
}

/// The live graph: its entities, in the order in which queries meet them.
#[derive(Debug, Clone, PartialEq, Eq)]
pub struct LiveGraph {
    pub nodes: Vec<Node>,
}

impl View for LiveGraph {
    type V = Seq<NodeView>;

    open spec fn view(&self) -> Seq<NodeView> {
        Seq::new(self.nodes@.len(), |i: int| self.nodes@[i]@)
    }
}

/// No two nodes stand for one entity.
pub open spec fn distinct_entities(nodes: Seq<NodeView>) -> bool {
    forall|i: int, j: int|
        0 <= i < j < nodes.len() ==> (#[trigger] nodes[i]).entity != (#[trigger] nodes[j]).entity
}

/// The first node that stands for `entity`.
pub open spec fn node_of(nodes: Seq<NodeView>, entity: Entity) -> Option<NodeView>
    decreases nodes.len(),
{
    if nodes.len() == 0 {
        None
    } else if nodes[0].entity == entity {
        Some(nodes[0])
    } else {
        node_of(nodes.drop_first(), entity)
    }
}

/// Whether `place` is the place of the first node that stands for `entity`.
pub open spec fn is_first_place(nodes: Seq<NodeView>, entity: Entity, place: int) -> bool {
    &&& 0 <= place < nodes.len()
    &&& nodes[place].entity == entity
    &&& forall|k: int| 0 <= k < place ==> (#[trigger] nodes[k]).entity != entity
}

/// Whether `places` holds, for each entity that `nodes` holds, the place of
/// its first node, and nothing else.
pub open spec fn holds_places(places: Map<Entity, usize>, nodes: Seq<NodeView>) -> bool {
    forall|entity: Entity|
        #![trigger places.contains_key(entity)]
        #![trigger node_of(nodes, entity)]
        (places.contains_key(entity) <==> node_of(nodes, entity) is Some) && (places.contains_key(
            entity,
        ) ==> is_first_place(nodes, entity, places[entity] as int) && node_of(nodes, entity)
            == Some(nodes[places[entity] as int]))
}

/// Whether a save attaches a record of children to `node`: it is marked as
/// part of a prefab, has a child, and is no child that a loaded scene brought,
/// unless those are included.
pub open spec fn takes_record(node: NodeView, include_auto_children: bool) -> bool {
    &&& node.prefab_marker
    &&& include_auto_children || !node.scene_auto_child
    &&& node.children.len() > 0
}

/// `node` after a save has attached its records.
pub open spec fn prepared_node(node: NodeView, include_auto_children: bool) -> NodeView {
    if takes_record(node, include_auto_children) {
        NodeView { prepared: Some(node.children), ..node }
    } else {
        node
    }
}

/// `node` without a record of children.
pub open spec fn cleared_node(node: NodeView) -> NodeView {
    NodeView { prepared: None, ..node }
}

/// The graph after a save has attached its records.
pub open spec fn prepared_graph(nodes: Seq<NodeView>, include_auto_children: bool) -> Seq<
    NodeView,
> {
    Seq::new(nodes.len(), |i: int| prepared_node(nodes[i], include_auto_children))
}

/// The graph without any record of children.
pub open spec fn cleared_graph(nodes: Seq<NodeView>) -> Seq<NodeView> {
    Seq::new(nodes.len(), |i: int| cleared_node(nodes[i]))
}

/// Whether a save of the whole scene selects `node`: it is marked as part of
/// a prefab and is no child that a loaded scene brought.
pub open spec fn is_scene_root(node: NodeView) -> bool {
    node.prefab_marker && !node.scene_auto_child
}

/// The entities that a save of the whole scene selects, in the order of the
/// graph.
pub open spec fn scene_roots(nodes: Seq<NodeView>) -> Seq<Entity>
    decreases nodes.len(),
{
    if nodes.len() == 0 {
        Seq::empty()
    } else if is_scene_root(nodes.last()) {
        scene_roots(nodes.drop_last()).push(nodes.last().entity)
    } else {
        scene_roots(nodes.drop_last())
    }
}

/// The parents of the graph with their children: an entry for each node
/// that has a child, a later node taking the place of an earlier one for the
/// same entity.
pub open spec fn parents_of(nodes: Seq<NodeView>) -> Map<Entity, Seq<Entity>>
    decreases nodes.len(),
{
    if nodes.len() == 0 {
        Map::empty()
    } else if nodes.last().children.len() > 0 {
        parents_of(nodes.drop_last()).insert(nodes.last().entity, nodes.last().children)
    } else {
        parents_of(nodes.drop_last())
    }
}

impl LiveGraph {
    /// A graph without entities.
    pub fn new() -> (graph: Self)
        ensures
            graph@ == Seq::<NodeView>::empty(),
    {
        LiveGraph { nodes: Vec::new() }
    }

    /// The place of the first node that stands for `entity`.
    pub fn find(&self, entity: Entity) -> (place: Option<usize>)
        ensures
            match place {
                Some(i) => is_first_place(self@, entity, i as int) && node_of(self@, entity)
                    == Some(self@[i as int]),
                None => node_of(self@, entity) is None,
            },
    {
        let mut i: usize = 0;
        assert(self@.skip(0) == self@);
        while i < self.nodes.len()
            invariant
                i <= self.nodes.len(),
                forall|k: int| 0 <= k < i ==> (#[trigger] self@[k]).entity != entity,
                node_of(self@, entity) == node_of(self@.skip(i as int), entity),
            decreases self.nodes.len() - i,
        {
            assert(self@.skip(i as int).drop_first() == self@.skip(i + 1));
            assert(self@.skip(i as int)[0] == self@[i as int]);
            if self.nodes[i].entity == entity {
                return Some(i);
            }
            i += 1;
        }
        None
    }

    /// The place of the first node of each entity that the graph holds.
    pub fn places(&self) -> (places: HashMap<Entity, usize>)
        ensures
            holds_places(places@, self@),
    {
        let mut places: HashMap<Entity, usize> = HashMap::new();
        let mut i: usize = 0;
        assert(self@.take(0) == Seq::<NodeView>::empty());
        while i < self.nodes.len()
            invariant
                i <= self.nodes.len(),
                holds_places(places@, self@.take(i as int)),
            decreases self.nodes.len() - i,
        {
            let entity = self.nodes[i].entity;
            let ghost before = places@;
            if !places.contains_key(&entity) {
                places.insert(entity, i);
            }
            proof {
                let shorter = self@.take(i as int);
                let longer = self@.take(i + 1);
                assert(longer == shorter.push(self@[i as int]));
                assert forall|e: Entity|
                    #![trigger places@.contains_key(e)]
                    #![trigger node_of(longer, e)]
                    (places@.contains_key(e) <==> node_of(longer, e) is Some) && (
                    places@.contains_key(e) ==> is_first_place(longer, e, places@[e] as int)
                        && node_of(longer, e) == Some(longer[places@[e] as int])) by {
                    lemma_node_of_push(shorter, self@[i as int], e);
                    lemma_node_of(shorter, e);
                    assert(before.contains_key(e) <==> node_of(shorter, e) is Some);
                    if places@.contains_key(e) {
                        let place = places@[e] as int;
                        assert forall|k: int| 0 <= k < place implies (#[trigger] longer[k]).entity
                            != e by {
                            assert(longer[k] == shorter[k]);
                        }
                        if before.contains_key(e) {
                            assert(shorter[place] == longer[place]);
                        }
                    }
                }
            }
            i += 1;
        }
        assert(self@.take(self.nodes.len() as int) == self@);
        places
    }

    /// Adds `node` to the graph, unless the graph holds its entity already.
    pub fn spawn(&mut self, node: Node) -> (added: bool)
        ensures
            added <==> node_of(old(self)@, node.entity) is None,
            final(self)@ == if added {
                old(self)@.push(node@)
            } else {
                old(self)@
            },
            distinct_entities(old(self)@) ==> distinct_entities(final(self)@),
    {
        match self.find(node.entity) {
            Some(_) => false,
            None => {
                proof {
                    lemma_node_of(self@, node.entity);
                }
                self.nodes.push(node);
                assert(self@ == old(self)@.push(node@));
                true
            },
        }
    }

    /// The display name of `entity`, if the graph holds the entity and it
    /// has a name.
    pub fn display_name(&self, entity: Entity) -> (name: Option<&String>)
        ensures
            match node_of(self@, entity) {
                Some(node) => match node.name {
                    Some(text) => name is Some && name->0@ == text,
                    None => name is None,
                },
                None => name is None,
            },
    {
        match self.find(entity) {
            Some(i) => self.nodes[i].name.as_ref(),
            None => None,
        }
    }

    /// The entities that a save of the whole scene selects.
    pub fn scene_roots(&self) -> (roots: Vec<Entity>)
        ensures
            roots@ == scene_roots(self@),
    {
        let mut roots: Vec<Entity> = Vec::new();
        let mut i: usize = 0;
        while i < self.nodes.len()
            invariant
                i <= self.nodes.len(),
                roots@ == scene_roots(self@.take(i as int)),
            decreases self.nodes.len() - i,
        {
            assert(self@.take(i + 1).drop_last() == self@.take(i as int));
            assert(self@.take(i + 1).last() == self@[i as int]);
            let node = &self.nodes[i];
            if node.prefab_marker && !node.scene_auto_child {
                roots.push(node.entity);
            }
            i += 1;
        }
        assert(self@.take(self.nodes.len() as int) == self@);
        roots
    }

    /// The index of the graph's parents, for the walk over descendants.
    pub fn children_index(&self) -> (index: ChildrenIndex)
        ensures
            index@ == parents_of(self@),
    {
        let mut index = ChildrenIndex::new();
        let mut i: usize = 0;
        while i < self.nodes.len()
            invariant
                i <= self.nodes.len(),
                index@ == parents_of(self@.take(i as int)),
            decreases self.nodes.len() - i,
        {
            assert(self@.take(i + 1).drop_last() == self@.take(i as int));
            assert(self@.take(i + 1).last() == self@[i as int]);
            let node = &self.nodes[i];
            if node.children.len() > 0 {
                index = index.with_children(node.entity, node.children.clone());
            }
            i += 1;
        }
        assert(self@.take(self.nodes.len() as int) == self@);
        index
    }
}

/// The first node of an entity stays the first when a node comes after it.
pub proof fn lemma_node_of_push(nodes: Seq<NodeView>, node: NodeView, entity: Entity)
    ensures
        node_of(nodes.push(node), entity) == match node_of(nodes, entity) {
            Some(first) => Some(first),
            None => if node.entity == entity {
                Some(node)
            } else {
                None
            },
        },
    decreases nodes.len(),
{
    let longer = nodes.push(node);
    if nodes.len() == 0 {
        assert(longer.drop_first() == Seq::<NodeView>::empty());
        assert(node_of(longer.drop_first(), entity) is None);
        assert(longer[0] == node);
    } else {
        assert(longer.drop_first() == nodes.drop_first().push(node));
        assert(longer[0] == nodes[0]);
        lemma_node_of_push(nodes.drop_first(), node, entity);
    }
}

/// The first node found for an entity stands for it; none is found only
/// where no node stands for it.
pub proof fn lemma_node_of(nodes: Seq<NodeView>, entity: Entity)
    ensures
        match node_of(nodes, entity) {
            Some(node) => node.entity == entity && nodes.contains(node),
            None => forall|i: int| 0 <= i < nodes.len() ==> (#[trigger] nodes[i]).entity != entity,
        },
    decreases nodes.len(),
{
    if nodes.len() == 0 {
    } else if nodes[0].entity == entity {
        assert(nodes.contains(nodes[0]));
    } else {
        let rest = nodes.drop_first();
        lemma_node_of(rest, entity);
        match node_of(rest, entity) {
            Some(node) => {
                let k = choose|k: int| 0 <= k < rest.len() && rest[k] == node;
                assert(nodes[k + 1] == node);
            },
            None => {
                assert forall|i: int| 0 <= i < nodes.len() implies (#[trigger] nodes[i]).entity
                    != entity by {
                    if i > 0 {
                        assert(rest[i - 1] == nodes[i]);
                    }
                }
            },
        }
    }
}

/// Attaches to each entity that is marked as part of a prefab and has a child
/// the record of its children, in place of a record that it held. Children that
/// a loaded scene brought get one only where `include_auto_children` is set.
pub fn prepare_children(graph: &mut LiveGraph, include_auto_children: bool)
    ensures
        final(graph)@ == prepared_graph(old(graph)@, include_auto_children),
{
    let mut i: usize = 0;
    while i < graph.nodes.len()
        invariant
            i <= graph.nodes.len(),
            graph.nodes.len() == old(graph).nodes.len(),
            forall|k: int|
                0 <= k < i ==> (#[trigger] graph.nodes@[k])@ == prepared_node(
                    old(graph).nodes@[k]@,
                    include_auto_children,
                ),
            forall|k: int| i <= k < graph.nodes.len() ==> graph.nodes@[k] == old(graph).nodes@[k],
        decreases graph.nodes.len() - i,
    {
        let ghost before = graph.nodes@;
        let node = &graph.nodes[i];
        if node.prefab_marker && (include_auto_children || !node.scene_auto_child)
            && node.children.len() > 0 {
            let record = ChildrenPrefab::from_children(&node.children);
            graph.nodes[i].prepared = Some(record);
        }
        assert(forall|k: int| 0 <= k < graph.nodes.len() && k != i ==> graph.nodes@[k] == before[k]);
        assert(graph.nodes@[i as int]@ == prepared_node(
            old(graph).nodes@[i as int]@,
            include_auto_children,
        ));
        i += 1;
    }
    assert(graph@ =~= prepared_graph(old(graph)@, include_auto_children));
}

/// Takes the record of children away from every entity that holds one.
pub fn delete_prepared_children(graph: &mut LiveGraph)
    ensures
        final(graph)@ == cleared_graph(old(graph)@),
        forall|i: int| 0 <= i < final(graph)@.len() ==> (#[trigger] final(graph)@[i]).prepared is None,
{
    let mut i: usize = 0;
    while i < graph.nodes.len()
        invariant
            i <= graph.nodes.len(),
            graph.nodes.len() == old(graph).nodes.len(),
            forall|k: int|
                0 <= k < i ==> (#[trigger] graph.nodes@[k])@ == cleared_node(old(graph).nodes@[k]@),
            forall|k: int| i <= k < graph.nodes.len() ==> graph.nodes@[k] == old(graph).nodes@[k],
        decreases graph.nodes.len() - i,
    {
        let ghost before = graph.nodes@;
        graph.nodes[i].prepared = None;
        assert(forall|k: int| 0 <= k < graph.nodes.len() && k != i ==> graph.nodes@[k] == before[k]);
        assert(graph.nodes@[i as int]@ == cleared_node(old(graph).nodes@[i as int]@));
        i += 1;
    }
    assert(graph@ =~= cleared_graph(old(graph)@));
}

/// Once the records are taken away no entity holds one, taking them away
/// again changes nothing, and a graph that held none before a save attached
/// its records is then as it was before.
pub proof fn lemma_cleared_graph(nodes: Seq<NodeView>, include_auto_children: bool)
    ensures
        forall|i: int| 0 <= i < nodes.len() ==> (#[trigger] cleared_graph(nodes)[i]).prepared is None,
        cleared_graph(cleared_graph(nodes)) == cleared_graph(nodes),
        cleared_graph(prepared_graph(nodes, include_auto_children)) == cleared_graph(nodes),
        (forall|i: int| 0 <= i < nodes.len() ==> (#[trigger] nodes[i]).prepared is None)
            ==> cleared_graph(prepared_graph(nodes, include_auto_children)) == nodes,
{
    assert(cleared_graph(cleared_graph(nodes)) =~= cleared_graph(nodes));
    assert(cleared_graph(prepared_graph(nodes, include_auto_children)) =~= cleared_graph(nodes));
    if forall|i: int| 0 <= i < nodes.len() ==> (#[trigger] nodes[i]).prepared is None {
        assert(cleared_graph(nodes) =~= nodes);
    }
}

/// Attaching the records changes nothing of a node but its record: the node
/// found for an entity afterwards is the node found before, with its record.
pub proof fn lemma_prepared_node_of(
    nodes: Seq<NodeView>,
    include_auto_children: bool,
    entity: Entity,
)
    ensures
        node_of(prepared_graph(nodes, include_auto_children), entity) == match node_of(
            nodes,
            entity,
        ) {
            Some(node) => Some(prepared_node(node, include_auto_children)),
            None => None,
        },
    decreases nodes.len(),
{
    if nodes.len() > 0 {
        assert(prepared_graph(nodes, include_auto_children).drop_first() =~= prepared_graph(
            nodes.drop_first(),
            include_auto_children,
        ));
        lemma_prepared_node_of(nodes.drop_first(), include_auto_children, entity);
    }
}

/// Attaching the records leaves the parents and their children as they were.
pub proof fn lemma_prepared_parents(nodes: Seq<NodeView>, include_auto_children: bool)
    ensures
        parents_of(prepared_graph(nodes, include_auto_children)) == parents_of(nodes),
        scene_roots(prepared_graph(nodes, include_auto_children)) == scene_roots(nodes),
    decreases nodes.len(),
{
    if nodes.len() > 0 {
        assert(prepared_graph(nodes, include_auto_children).drop_last() =~= prepared_graph(
            nodes.drop_last(),
            include_auto_children,
        ));
        lemma_prepared_parents(nodes.drop_last(), include_auto_children);
    }
}

/// A save of the whole scene selects exactly the entities of the nodes that
/// are marked as part of a prefab and that no loaded scene brought.
pub proof fn lemma_scene_roots(nodes: Seq<NodeView>, entity: Entity)
    ensures
        scene_roots(nodes).contains(entity) <==> exists|i: int|
            0 <= i < nodes.len() && (#[trigger] nodes[i]).entity == entity && is_scene_root(
                nodes[i],
            ),
    decreases nodes.len(),
{
    if nodes.len() > 0 {
        let front = nodes.drop_last();
        let last = nodes.last();
        lemma_scene_roots(front, entity);
        let roots = scene_roots(nodes);
        if roots.contains(entity) {
            let k = choose|k: int| 0 <= k < roots.len() && roots[k] == entity;
            if k < scene_roots(front).len() {
                assert(scene_roots(front)[k] == entity);
                assert(scene_roots(front).contains(entity));
                let i = choose|i: int|
                    0 <= i < front.len() && (#[trigger] front[i]).entity == entity
                        && is_scene_root(front[i]);
                assert(nodes[i] == front[i]);
            } else {
                assert(nodes[nodes.len() - 1] == last);
            }
        }
        if exists|i: int|
            0 <= i < nodes.len() && (#[trigger] nodes[i]).entity == entity && is_scene_root(
                nodes[i],
            ) {
            let i = choose|i: int|
                0 <= i < nodes.len() && (#[trigger] nodes[i]).entity == entity && is_scene_root(
                    nodes[i],
                );
            if i < front.len() {
                assert(front[i] == nodes[i]);
                assert(scene_roots(front).contains(entity));
                let k = choose|k: int|
                    0 <= k < scene_roots(front).len() && scene_roots(front)[k] == entity;
                assert(roots[k] == entity);
            } else {
                assert(roots[roots.len() - 1] == entity);
            }
        }
    }
}

/// A save of the whole scene never selects a child that a loaded scene
/// brought.
pub proof fn lemma_scene_roots_skip_auto_children(nodes: Seq<NodeView>, entity: Entity)
    requires
        distinct_entities(nodes),
        node_of(nodes, entity) is Some,
        node_of(nodes, entity)->0.scene_auto_child,
    ensures
        !scene_roots(nodes).contains(entity),
{
    lemma_scene_roots(nodes, entity);
    lemma_node_of(nodes, entity);
    let node = node_of(nodes, entity)->0;
    let k = choose|k: int| 0 <= k < nodes.len() && nodes[k] == node;
    if scene_roots(nodes).contains(entity) {
        let i = choose|i: int|
            0 <= i < nodes.len() && (#[trigger] nodes[i]).entity == entity && is_scene_root(
                nodes[i],
            );
        assert(nodes[k].entity == entity);
        assert(i == k);
    }
}

/// The index holds every node that has a child, with its children, whatever
/// the markers of the node are; and it holds finitely many parents.
pub proof fn lemma_parents_of(nodes: Seq<NodeView>, i: int)
    requires
        distinct_entities(nodes),
        0 <= i < nodes.len(),
        nodes[i].children.len() > 0,
    ensures
        parents_of(nodes).dom().finite(),
        parents_of(nodes).dom().contains(nodes[i].entity),
        parents_of(nodes)[nodes[i].entity] == nodes[i].children,
    decreases nodes.len(),
{
    lemma_parents_finite(nodes);
    let front = nodes.drop_last();
    if i < nodes.len() - 1 {
        assert(front[i] == nodes[i]);
        assert forall|a: int, b: int| 0 <= a < b < front.len() implies (#[trigger] front[a]).entity
            != (#[trigger] front[b]).entity by {
            assert(front[a] == nodes[a]);
            assert(front[b] == nodes[b]);
        }
        lemma_parents_of(front, i);
        assert(nodes[i].entity != nodes[nodes.len() - 1].entity);
    }
}

/// The index of a graph holds finitely many parents.
pub proof fn lemma_parents_finite(nodes: Seq<NodeView>)
    ensures
        parents_of(nodes).dom().finite(),
    decreases nodes.len(),
{
    if nodes.len() > 0 {
        lemma_parents_finite(nodes.drop_last());
    }
}

} // verus!
