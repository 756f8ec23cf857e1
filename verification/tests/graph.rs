use starbreaker_ui::bb_scene::graph::{parse_bb_graph, BbGraphNode, BbNodeGraph, FIRST_SYNTHETIC_ID};
use starbreaker_ui::json::Json;

fn s(x: &str) -> Json {
    Json::String(x.to_string())
}

fn obj(members: Vec<(&str, Json)>) -> Json {
    Json::Object(members.into_iter().map(|(k, v)| (k.to_string(), v)).collect())
}

fn record(scene: Vec<Json>, library: Vec<Json>) -> Json {
    obj(vec![(
        "_RecordValue_",
        obj(vec![
            ("size", obj(vec![])),
            ("scene", Json::Array(scene)),
            ("library", Json::Array(library)),
        ]),
    )])
}

fn node<'a>(g: &'a BbNodeGraph, id: u32) -> &'a BbGraphNode {
    g.nodes.iter().find(|n| n.id == id).expect("node missing")
}

#[test]
fn graph_wires_children_roots_and_synthetic_ids() {
    let json = record(
        vec![
            obj(vec![("_Pointer_", s("ptr:1")), ("_Type_", s("BuildingBlocks_DisplayWidget")), ("name", s("root"))]),
            obj(vec![("_Pointer_", s("ptr:2")), ("parent", s("_PointsTo_:ptr:1"))]),
            obj(vec![("parent", s("_PointsTo_:ptr:1")), ("exportNode", Json::Bool(false))]),
            obj(vec![("_Pointer_", s("bogus"))]),
            obj(vec![("_Pointer_", s("ptr:3")), ("target", s("_PointsTo_:ptr:9"))]),
            obj(vec![("_Pointer_", s("ptr:4")), ("target", s("_PointsTo_:ptr:9"))]),
        ],
        vec![obj(vec![("_Pointer_", s("ptr:9"))]), obj(vec![("_Pointer_", s("ptr:10")), ("parent", s("_PointsTo_:ptr:9"))])],
    );
    let g = parse_bb_graph(&json).unwrap();
    assert_eq!(g.nodes.len(), 7);
    assert_eq!(g.roots, vec![1, 3, 4]);
    assert_eq!(node(&g, 1).children, vec![2, FIRST_SYNTHETIC_ID]);
    assert_eq!(node(&g, 1).kind, "BuildingBlocks_DisplayWidget");
    assert_eq!(node(&g, 1).name, "root");
    assert_eq!(node(&g, 2).kind, "Unknown");
    assert!(!node(&g, FIRST_SYNTHETIC_ID).is_active);
    // The template hangs under the first list that targets it.
    assert_eq!(node(&g, 9).parent, Some(3));
    assert_eq!(node(&g, 3).children, vec![9]);
    assert!(node(&g, 4).children.is_empty());
    assert_eq!(node(&g, 9).children, vec![10]);
}

#[test]
fn later_item_with_same_pointer_replaces_earlier() {
    let json = record(
        vec![
            obj(vec![("_Pointer_", s("ptr:5")), ("name", s("first"))]),
            obj(vec![("_Pointer_", s("ptr:5")), ("name", s("second"))]),
        ],
        vec![],
    );
    let g = parse_bb_graph(&json).unwrap();
    assert_eq!(g.nodes.len(), 1);
    assert_eq!(node(&g, 5).name, "second");
    assert_eq!(g.roots, vec![5, 5]);
}

#[test]
fn graph_refuses_incomplete_records() {
    assert_eq!(parse_bb_graph(&obj(vec![])).unwrap_err(), "missing _RecordValue_");
    let no_size = obj(vec![("_RecordValue_", obj(vec![("scene", Json::Array(vec![]))]))]);
    assert_eq!(parse_bb_graph(&no_size).unwrap_err(), "missing _RecordValue_.size");
    let no_scene = obj(vec![("_RecordValue_", obj(vec![("size", obj(vec![]))]))]);
    assert_eq!(parse_bb_graph(&no_scene).unwrap_err(), "missing or non-array _RecordValue_.scene");
}
