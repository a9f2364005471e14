use space_prefab::closure::{add_children_recursive, collect_closure, HierarchyCycle};
use space_prefab::graph::{
    delete_prepared_children, prepare_children, ChildrenPrefab, DataItem, LiveGraph, Node,
};
use space_prefab::index::ChildrenIndex;
use space_prefab::remap::EntityMapper;

fn empty(entity: u64) -> Node {
    Node {
        entity,
        prefab_marker: false,
        scene_auto_child: false,
        name: None,
        children: vec![],
        prepared: None,
        items: vec![],
    }
}

fn prefab(entity: u64, children: Vec<u64>) -> Node {
    Node { prefab_marker: true, children, ..empty(entity) }
}

fn graph_of(nodes: Vec<Node>) -> LiveGraph {
    let mut graph = LiveGraph::new();
    for node in nodes {
        assert!(graph.spawn(node));
    }
    graph
}

fn prepared_count(graph: &LiveGraph) -> usize {
    graph.nodes.iter().filter(|node| node.prepared.is_some()).count()
}

#[test]
fn inserts_prepared_children_component() {
    let mut graph = graph_of(vec![empty(0), prefab(1, vec![0]), prefab(2, vec![])]);
    prepare_children(&mut graph, false);
    assert_eq!(prepared_count(&graph), 1);
}

#[test]
fn deletes_prepared_children_component() {
    let mut first = prefab(1, vec![]);
    first.prepared = Some(ChildrenPrefab(vec![0]));
    let mut second = prefab(3, vec![]);
    second.prepared = Some(ChildrenPrefab(vec![2]));
    let mut graph = graph_of(vec![empty(0), first, empty(2), second, prefab(4, vec![])]);
    delete_prepared_children(&mut graph);
    assert_eq!(prepared_count(&graph), 0);
}

#[test]
fn child_prefab_from_children() {
    let children = vec![0u64];
    let prefab = ChildrenPrefab::from_children(&children);
    assert_eq!(prefab.0.len(), 1);
}

#[test]
fn prepared_children_ignores_scene_auto_child_component() {
    let mut auto = prefab(1, vec![0]);
    auto.scene_auto_child = true;
    let mut graph =
        graph_of(vec![empty(0), auto, empty(2), prefab(3, vec![2]), prefab(4, vec![])]);
    prepare_children(&mut graph, false);
    assert_eq!(prepared_count(&graph), 1);
    assert_eq!(graph.nodes[3].prepared, Some(ChildrenPrefab(vec![2])));
    assert_eq!(graph.nodes[1].prepared, None);
}

#[test]
fn prepared_children_can_include_auto_children() {
    let mut auto = prefab(1, vec![0]);
    auto.scene_auto_child = true;
    let mut graph = graph_of(vec![empty(0), auto, empty(2), prefab(3, vec![2])]);
    prepare_children(&mut graph, true);
    assert_eq!(prepared_count(&graph), 2);
    assert_eq!(graph.nodes[1].prepared, Some(ChildrenPrefab(vec![0])));
}

#[test]
fn prepare_records_the_children_in_order_and_replaces_a_record() {
    let mut parent = prefab(9, vec![5, 3, 7]);
    parent.prepared = Some(ChildrenPrefab(vec![1]));
    let mut graph = graph_of(vec![parent]);
    prepare_children(&mut graph, false);
    assert_eq!(graph.nodes[0].prepared, Some(ChildrenPrefab(vec![5, 3, 7])));
}

#[test]
fn prepare_skips_entities_without_marker_or_children() {
    let mut unmarked = empty(1);
    unmarked.children = vec![0];
    let mut graph = graph_of(vec![empty(0), unmarked, prefab(2, vec![])]);
    let before = graph.clone();
    prepare_children(&mut graph, true);
    assert_eq!(graph, before);
}

#[test]
fn prepare_then_delete_restores_the_graph() {
    let mut named = prefab(3, vec![1, 2]);
    named.name = Some(String::from("root"));
    named.items = vec![DataItem { type_id: 4, refs: vec![1], payload: vec![1, 2, 3] }];
    let mut graph = graph_of(vec![empty(1), empty(2), named]);
    let before = graph.clone();
    prepare_children(&mut graph, false);
    assert_ne!(graph, before);
    delete_prepared_children(&mut graph);
    assert_eq!(graph, before);
    delete_prepared_children(&mut graph);
    assert_eq!(graph, before);
}

#[test]
fn spawn_refuses_an_entity_twice() {
    let mut graph = LiveGraph::new();
    assert!(graph.spawn(empty(1)));
    assert!(graph.spawn(empty(2)));
    assert!(!graph.spawn(prefab(1, vec![2])));
    assert_eq!(graph.nodes.len(), 2);
    assert!(!graph.nodes[0].prefab_marker);
}

#[test]
fn find_and_display_name() {
    let mut named = empty(7);
    named.name = Some(String::from("my_name"));
    let graph = graph_of(vec![empty(5), named]);
    assert_eq!(graph.find(7), Some(1));
    assert_eq!(graph.find(5), Some(0));
    assert_eq!(graph.find(6), None);
    assert_eq!(graph.display_name(7), Some(&String::from("my_name")));
    assert_eq!(graph.display_name(5), None);
    assert_eq!(graph.display_name(6), None);
}

#[test]
fn scene_roots_are_marked_and_no_auto_children() {
    let mut auto = prefab(2, vec![]);
    auto.scene_auto_child = true;
    let graph = graph_of(vec![prefab(4, vec![]), empty(1), auto, prefab(3, vec![1])]);
    assert_eq!(graph.scene_roots(), vec![4, 3]);
}

#[test]
fn closure_of_a_small_tree() {
    // A = 1 with children [B = 2, C = 3]; C with child [D = 4].
    let index = ChildrenIndex::new().with_children(1, vec![2, 3]).with_children(3, vec![4]);
    assert_eq!(collect_closure(&index, 1), Ok(vec![1, 2, 3, 4]));
    assert_eq!(collect_closure(&index, 3), Ok(vec![3, 4]));
    assert_eq!(collect_closure(&index, 4), Ok(vec![4]));
}

#[test]
fn closure_lists_children_before_grandchildren() {
    let index = ChildrenIndex::new()
        .with_children(1, vec![2, 3])
        .with_children(2, vec![5])
        .with_children(3, vec![4])
        .with_children(5, vec![6]);
    assert_eq!(collect_closure(&index, 1), Ok(vec![1, 2, 3, 5, 6, 4]));
}

#[test]
fn add_children_appends_to_what_is_there() {
    let index = ChildrenIndex::new().with_children(1, vec![2, 3]);
    let mut entities = vec![9, 1];
    assert_eq!(add_children_recursive(&index, 1, &mut entities), Ok(()));
    assert_eq!(entities, vec![9, 1, 2, 3]);
    assert_eq!(add_children_recursive(&index, 2, &mut entities), Ok(()));
    assert_eq!(entities, vec![9, 1, 2, 3]);
}

#[test]
fn closure_visits_a_shared_child_once_for_each_parent() {
    let index = ChildrenIndex::new()
        .with_children(1, vec![2, 3])
        .with_children(2, vec![4])
        .with_children(3, vec![4])
        .with_children(4, vec![5]);
    assert_eq!(collect_closure(&index, 1), Ok(vec![1, 2, 3, 4, 5, 4, 5]));
}

#[test]
fn a_cycle_is_refused_and_nothing_is_appended() {
    let index = ChildrenIndex::new()
        .with_children(1, vec![2])
        .with_children(2, vec![3])
        .with_children(3, vec![1]);
    let mut entities = vec![1];
    assert_eq!(add_children_recursive(&index, 1, &mut entities), Err(HierarchyCycle));
    assert_eq!(entities, vec![1]);
    assert_eq!(collect_closure(&index, 2), Err(HierarchyCycle));
    let own = ChildrenIndex::new().with_children(7, vec![7]);
    assert_eq!(collect_closure(&own, 7), Err(HierarchyCycle));
}

#[test]
fn index_keeps_the_last_children_of_a_parent() {
    let index = ChildrenIndex::new().with_children(1, vec![2]).with_children(1, vec![3, 4]);
    assert_eq!(index.get(1), Some(&vec![3, 4]));
    assert_eq!(index.get(2), None);
    assert_eq!(ChildrenIndex::new().get(1), None);
}

#[test]
fn children_index_holds_every_parent_whatever_its_markers() {
    let mut auto = prefab(2, vec![4]);
    auto.scene_auto_child = true;
    let mut unmarked = empty(3);
    unmarked.children = vec![5];
    let graph =
        graph_of(vec![prefab(1, vec![2, 3]), auto, unmarked, empty(4), empty(5)]);
    let index = graph.children_index();
    assert_eq!(index.get(1), Some(&vec![2, 3]));
    assert_eq!(index.get(2), Some(&vec![4]));
    assert_eq!(index.get(3), Some(&vec![5]));
    assert_eq!(index.get(4), None);
    assert_eq!(collect_closure(&index, 1), Ok(vec![1, 2, 3, 4, 5]));
}

#[test]
fn mapper_gives_each_entity_one_identifier() {
    let mut mapper = EntityMapper::new();
    assert_eq!(mapper.len(), 0);
    assert_eq!(mapper.get(40), None);
    assert_eq!(mapper.map_entity(40), 0);
    assert_eq!(mapper.map_entity(7), 1);
    assert_eq!(mapper.map_entity(40), 0);
    assert_eq!(mapper.map_entity(u64::MAX), 2);
    assert_eq!(mapper.len(), 3);
    assert_eq!(mapper.get(7), Some(1));
    assert_eq!(mapper.entity_at(2), u64::MAX);
    assert_eq!(mapper.map_entities(&vec![7, 8, 8, 40, 9]), vec![1, 3, 3, 0, 4]);
    assert_eq!(mapper.len(), 5);
}

#[test]
fn record_maps_its_children() {
    let mut mapper = EntityMapper::new();
    mapper.map_entity(20);
    let mut record = ChildrenPrefab(vec![30, 20, 30, 10]);
    record.map_entities(&mut mapper);
    assert_eq!(record, ChildrenPrefab(vec![1, 0, 1, 2]));
    assert_eq!(mapper.get(10), Some(2));
}

#[test]
fn the_first_node_of_an_entity_counts() {
    let mut first = prefab(1, vec![2]);
    first.name = Some(String::from("first"));
    let mut second = prefab(1, vec![3]);
    second.name = Some(String::from("second"));
    let graph = LiveGraph { nodes: vec![empty(0), first, second] };
    assert_eq!(graph.find(1), Some(1));
    assert_eq!(graph.display_name(1), Some(&String::from("first")));
    let places = graph.places();
    assert_eq!(places.len(), 2);
    assert_eq!(places.get(&1), Some(&1));
    assert_eq!(places.get(&0), Some(&0));
    assert_eq!(graph.children_index().get(1), Some(&vec![3]));
}
