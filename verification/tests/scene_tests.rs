use space_prefab::graph::{
    prepare_children, ChildrenPrefab, DataItem, LiveGraph, Node, CHILDREN_PREFAB_TYPE,
};
use space_prefab::scene::{build_scene, PortableScene, SceneEntity};

fn node(entity: u64, items: Vec<DataItem>) -> Node {
    Node {
        entity,
        prefab_marker: true,
        scene_auto_child: false,
        name: None,
        children: vec![],
        prepared: None,
        items,
    }
}

fn item(type_id: u64, refs: Vec<u64>, payload: &[u8]) -> DataItem {
    DataItem { type_id, refs, payload: payload.to_vec() }
}

fn graph_of(nodes: Vec<Node>) -> LiveGraph {
    let mut graph = LiveGraph::new();
    for node in nodes {
        assert!(graph.spawn(node));
    }
    graph
}

#[test]
fn empty_selection_gives_an_empty_scene() {
    let graph = graph_of(vec![node(1, vec![item(5, vec![2], b"x")])]);
    let scene = build_scene(&graph, &vec![], &vec![5]);
    assert_eq!(scene, PortableScene { entities: vec![], placeholders: 0 });
}

#[test]
fn entities_are_numbered_in_the_order_of_selection() {
    let graph = graph_of(vec![
        node(10, vec![item(5, vec![], b"ten")]),
        node(11, vec![item(5, vec![], b"eleven")]),
        node(12, vec![item(5, vec![], b"twelve")]),
    ]);
    let scene = build_scene(&graph, &vec![12, 10], &vec![5]);
    assert_eq!(
        scene,
        PortableScene {
            entities: vec![
                SceneEntity { id: 0, items: vec![item(5, vec![], b"twelve")] },
                SceneEntity { id: 1, items: vec![item(5, vec![], b"ten")] },
            ],
            placeholders: 0,
        }
    );
}

#[test]
fn references_become_local_identifiers() {
    let graph = graph_of(vec![
        node(10, vec![item(5, vec![11, 99, 10, 98, 99], b"a")]),
        node(11, vec![item(6, vec![98, 10, 97], b"b")]),
    ]);
    let scene = build_scene(&graph, &vec![10, 11], &vec![5, 6]);
    assert_eq!(
        scene,
        PortableScene {
            entities: vec![
                SceneEntity { id: 0, items: vec![item(5, vec![1, 2, 0, 3, 2], b"a")] },
                SceneEntity { id: 1, items: vec![item(6, vec![3, 0, 4], b"b")] },
            ],
            placeholders: 3,
        }
    );
}

#[test]
fn references_outside_the_selection_get_placeholders_beyond_it() {
    let graph = graph_of(vec![
        node(1, vec![item(5, vec![3, 2], b"")]),
        node(2, vec![item(5, vec![1, 3], b"")]),
        node(3, vec![item(5, vec![1], b"three")]),
    ]);
    let scene = build_scene(&graph, &vec![1, 2], &vec![5]);
    assert_eq!(scene.entities.len(), 2);
    assert_eq!(scene.placeholders, 1);
    assert_eq!(scene.entities[0].items[0].refs, vec![2, 1]);
    assert_eq!(scene.entities[1].items[0].refs, vec![0, 2]);
    for entity in &scene.entities {
        for item in &entity.items {
            assert!(item.payload.is_empty());
            for local in &item.refs {
                assert!(*local < scene.entities.len() as u64 + scene.placeholders);
            }
        }
    }
}

#[test]
fn data_of_a_type_that_is_not_allowed_is_left_out() {
    let graph = graph_of(vec![node(
        1,
        vec![
            item(5, vec![], b"keep"),
            item(6, vec![77], b"drop"),
            item(7, vec![], b"keep too"),
            item(6, vec![], b"drop too"),
        ],
    )]);
    let scene = build_scene(&graph, &vec![1], &vec![7, 5]);
    assert_eq!(
        scene,
        PortableScene {
            entities: vec![SceneEntity {
                id: 0,
                items: vec![item(5, vec![], b"keep"), item(7, vec![], b"keep too")],
            }],
            placeholders: 0,
        }
    );
    let nothing = build_scene(&graph, &vec![1], &vec![]);
    assert_eq!(
        nothing,
        PortableScene { entities: vec![SceneEntity { id: 0, items: vec![] }], placeholders: 0 }
    );
}

#[test]
fn references_of_data_that_is_left_out_reserve_nothing() {
    let graph = graph_of(vec![node(1, vec![item(6, vec![50, 51], b""), item(5, vec![52], b"")])]);
    let scene = build_scene(&graph, &vec![1], &vec![5]);
    assert_eq!(scene.placeholders, 1);
    assert_eq!(scene.entities[0].items, vec![item(5, vec![1], b"")]);
}

#[test]
fn an_entity_named_twice_stands_once() {
    let graph = graph_of(vec![node(5, vec![item(1, vec![6], b"")]), node(6, vec![])]);
    let scene = build_scene(&graph, &vec![5, 5, 6, 5], &vec![1]);
    assert_eq!(
        scene,
        PortableScene {
            entities: vec![
                SceneEntity { id: 0, items: vec![item(1, vec![1], b"")] },
                SceneEntity { id: 1, items: vec![] },
            ],
            placeholders: 0,
        }
    );
}

#[test]
fn an_entity_that_the_graph_lacks_carries_nothing() {
    let graph = graph_of(vec![node(5, vec![item(1, vec![8], b"")])]);
    let scene = build_scene(&graph, &vec![8, 5], &vec![1]);
    assert_eq!(
        scene,
        PortableScene {
            entities: vec![
                SceneEntity { id: 0, items: vec![] },
                SceneEntity { id: 1, items: vec![item(1, vec![0], b"")] },
            ],
            placeholders: 0,
        }
    );
}

#[test]
fn the_record_of_children_is_carried_after_the_other_data() {
    let mut parent = node(1, vec![item(5, vec![], b"p")]);
    parent.children = vec![3, 2];
    let mut graph = graph_of(vec![parent, node(2, vec![]), node(3, vec![])]);
    prepare_children(&mut graph, false);
    let allowed = build_scene(&graph, &vec![1, 2], &vec![CHILDREN_PREFAB_TYPE, 5]);
    assert_eq!(
        allowed.entities[0].items,
        vec![item(5, vec![], b"p"), item(CHILDREN_PREFAB_TYPE, vec![2, 1], b"")]
    );
    assert_eq!(allowed.placeholders, 1);
    let refused = build_scene(&graph, &vec![1, 2], &vec![5]);
    assert_eq!(refused.entities[0].items, vec![item(5, vec![], b"p")]);
    assert_eq!(refused.placeholders, 0);
}

#[test]
fn building_twice_gives_the_same_scene() {
    let mut parent = node(1, vec![item(5, vec![9, 2], b"p")]);
    parent.prepared = Some(ChildrenPrefab(vec![2, 4]));
    let graph = graph_of(vec![parent, node(2, vec![item(5, vec![1], b"c")])]);
    let first = build_scene(&graph, &vec![1, 2], &vec![0, 5]);
    let second = build_scene(&graph, &vec![1, 2], &vec![0, 5]);
    assert_eq!(first, second);
    assert_eq!(first.placeholders, 2);
}
