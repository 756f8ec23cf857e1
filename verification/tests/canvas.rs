use starbreaker_ui::canvas::parser::{looks_like_guid, parse_rgba_color, CanvasParser};
use starbreaker_ui::canvas::resolver::CanvasWidgetTreeResolver;
use starbreaker_ui::canvas::types::{RgbaColor, Value, ViewComponent};
use starbreaker_ui::error::UiError;
use starbreaker_ui::json::{Json, JsonNumber};

fn s(x: &str) -> Json {
    Json::String(x.to_string())
}

fn obj(members: Vec<(&str, Json)>) -> Json {
    Json::Object(members.into_iter().map(|(k, v)| (k.to_string(), v)).collect())
}

fn arr(items: Vec<Json>) -> Json {
    Json::Array(items)
}

fn float(x: f64) -> Json {
    Json::Number(JsonNumber::Float(x.to_bits()))
}

fn number(n: u64) -> Json {
    Json::Number(JsonNumber::PosInt(n))
}

fn float_member(v: &Json, key: &str) -> f64 {
    match v.get(key) {
        Some(Json::Number(JsonNumber::Float(bits))) => f64::from_bits(*bits),
        Some(Json::Number(JsonNumber::PosInt(n))) => *n as f64,
        other => panic!("no number at {key}: {other:?}"),
    }
}

fn guid_a() -> &'static str {
    "aaaaaaaa-aaaa-aaaa-aaaa-aaaaaaaaaaaa"
}
fn guid_b() -> &'static str {
    "bbbbbbbb-bbbb-bbbb-bbbb-bbbbbbbbbbbb"
}
fn guid_c() -> &'static str {
    "cccccccc-cccc-cccc-cccc-cccccccccccc"
}

fn check_text_field_operation() {
    let json = obj(vec![
        ("views", arr(vec![])),
        (
            "scene",
            arr(vec![obj(vec![
                ("_Type_", s("BuildingBlocks_TextField")),
                ("binding", s("/vehicle/targetname")),
                ("text", s("NO TARGET")),
                ("fontId", s("font_amber_mono")),
            ])]),
        ),
        (
            "operations",
            arr(vec![obj(vec![
                ("_Type_", s("BuildingBlocks_BindingsStringVariable")),
                ("binding", s("/vehicle/targetname")),
                ("property", s("text")),
                ("defaultValue", s("NO TARGET")),
            ])]),
        ),
    ]);
    let record = CanvasParser::parse(guid_a(), "TestCanvas", &json).unwrap();
    assert_eq!(record.guid, guid_a());
    assert_eq!(record.name, "TestCanvas");
    assert_eq!(record.scene.len(), 1);
    assert_eq!(record.scene[0].kind, "BuildingBlocks_TextField");
    assert_eq!(record.operations.len(), 1);
    let op = &record.operations[0];
    assert_eq!(op.kind, "BuildingBlocks_BindingsStringVariable");
    assert_eq!(op.binding_path.as_deref(), Some("/vehicle/targetname"));
    assert_eq!(op.target_property.as_deref(), Some("text"));
    assert!(matches!(op.default_value, Some(Value::Str(ref s)) if s == "NO TARGET"));
}

#[test]
fn canvas_parse_canvas_with_text_field_operation() {
    check_text_field_operation();
}

#[test]
fn tests_parse_canvas_with_text_field_operation() {
    check_text_field_operation();
}

fn check_classify_text_field() {
    let item = obj(vec![
        ("_Type_", s("BuildingBlocks_TextField")),
        ("binding", s("/vehicle/targetname")),
        ("text", s(">> NO TARGET <<")),
        ("fontId", s("font_amber")),
        ("color", number(4294956800)),
    ]);
    match CanvasParser::parse_view_component(&item) {
        ViewComponent::TextField { binding_path, default_text, font_id, color } => {
            assert_eq!(binding_path.as_deref(), Some("/vehicle/targetname"));
            assert_eq!(default_text.as_deref(), Some(">> NO TARGET <<"));
            assert_eq!(font_id.as_deref(), Some("font_amber"));
            assert!(color.is_some());
        },
        other => panic!("Expected TextField, got {:?}", other),
    }
}

#[test]
fn canvas_classify_text_field_component() {
    check_classify_text_field();
}

#[test]
fn tests_classify_text_field_component() {
    check_classify_text_field();
}

fn check_widget_canvas_scene_item() {
    let json = obj(vec![
        ("views", arr(vec![])),
        (
            "scene",
            arr(vec![obj(vec![
                ("_Type_", s("BuildingBlocks_WidgetCanvas")),
                ("canvas", s(guid_b())),
                ("urlPostfix", s("mfd")),
            ])]),
        ),
        ("operations", arr(vec![])),
    ]);
    let record = CanvasParser::parse(guid_a(), "ContainerCanvas", &json).unwrap();
    assert_eq!(record.scene.len(), 1);
    let item = &record.scene[0];
    assert_eq!(item.kind, "BuildingBlocks_WidgetCanvas");
    assert_eq!(item.guid.as_deref(), Some(guid_b()));
    assert_eq!(item.url_postfix.as_deref(), Some("mfd"));
}

#[test]
fn canvas_parse_canvas_with_widget_canvas_scene_item() {
    check_widget_canvas_scene_item();
}

#[test]
fn tests_parse_canvas_with_widget_canvas_scene_item() {
    check_widget_canvas_scene_item();
}

fn widget_canvas_scene(target: &str) -> Json {
    obj(vec![
        ("scene", arr(vec![obj(vec![("_Type_", s("BuildingBlocks_WidgetCanvas")), ("canvas", s(target))])])),
        ("operations", arr(vec![])),
    ])
}

fn check_resolver_descends() {
    let root_json = widget_canvas_scene(guid_b());
    let child_json = obj(vec![
        ("__name", s("ChildCanvas")),
        ("scene", arr(vec![obj(vec![("_Type_", s("BuildingBlocks_TextField")), ("text", s("child text"))])])),
        ("operations", arr(vec![])),
    ]);
    let resolver = CanvasWidgetTreeResolver::new();
    let result = resolver
        .resolve(guid_a(), &|guid: &str| -> Result<Json, String> {
            if guid == guid_a() {
                Ok(root_json.deep_clone())
            } else if guid == guid_b() {
                Ok(child_json.deep_clone())
            } else {
                panic!("unexpected GUID {}", guid)
            }
        })
        .unwrap();
    assert_eq!(result.root.guid, guid_a());
    let child = result.child(guid_b()).expect("child canvas missing");
    assert_eq!(child.name, "ChildCanvas");
    assert_eq!(child.scene.len(), 1);
}

#[test]
fn canvas_resolver_descends_into_sub_canvas() {
    check_resolver_descends();
}

#[test]
fn tests_resolver_descends_into_sub_canvas() {
    check_resolver_descends();
}

fn check_resolver_detects_cycle() {
    let a_json = widget_canvas_scene(guid_b());
    let b_json = widget_canvas_scene(guid_a());
    let resolver = CanvasWidgetTreeResolver::new();
    let result = resolver.resolve(guid_a(), &|guid: &str| -> Result<Json, String> {
        if guid == guid_a() {
            Ok(a_json.deep_clone())
        } else {
            Ok(b_json.deep_clone())
        }
    });
    assert!(matches!(result, Err(UiError::CycleDetected(_))), "expected CycleDetected");
}

#[test]
fn canvas_resolver_detects_cycle() {
    check_resolver_detects_cycle();
}

#[test]
fn tests_resolver_detects_cycle() {
    check_resolver_detects_cycle();
}

fn check_views_with_screens() {
    let json = obj(vec![
        (
            "views",
            arr(vec![
                obj(vec![("name", s("_mfd")), ("screens", arr(vec![s(guid_b()), s(guid_c())]))]),
                obj(vec![("name", s("Off")), ("screens", arr(vec![]))]),
            ]),
        ),
        ("scene", arr(vec![])),
        ("operations", arr(vec![])),
    ]);
    let record = CanvasParser::parse(guid_a(), "MFDCanvas", &json).unwrap();
    assert_eq!(record.views.len(), 2);
    let first_view = &record.views[0];
    assert_eq!(first_view.name, "_mfd");
    assert_eq!(first_view.ordinal, 0);
    assert!(first_view.default);
    assert_eq!(first_view.components.len(), 2);
    for comp in &first_view.components {
        assert!(matches!(comp, ViewComponent::WidgetCanvas { .. }));
    }
    let second_view = &record.views[1];
    assert_eq!(second_view.name, "Off");
    assert!(!second_view.default);
}

#[test]
fn canvas_parse_views_with_screens() {
    check_views_with_screens();
}

#[test]
fn tests_parse_views_with_screens() {
    check_views_with_screens();
}

fn check_empty_canvas() {
    let json = obj(vec![("views", arr(vec![])), ("scene", arr(vec![])), ("operations", arr(vec![]))]);
    let record = CanvasParser::parse("00000000-0000-0000-0000-000000000000", "Empty", &json).unwrap();
    assert!(record.views.is_empty());
    assert!(record.scene.is_empty());
    assert!(record.operations.is_empty());
}

#[test]
fn canvas_parse_empty_canvas() {
    check_empty_canvas();
}

#[test]
fn tests_parse_empty_canvas() {
    check_empty_canvas();
}

fn check_non_object_is_error() {
    let json = arr(vec![number(1), number(2), number(3)]);
    let result = CanvasParser::parse("guid", "name", &json);
    assert!(matches!(result, Err(UiError::ParseError(_))));
}

#[test]
fn canvas_parse_non_object_is_error() {
    check_non_object_is_error();
}

#[test]
fn tests_parse_non_object_is_error() {
    check_non_object_is_error();
}

fn check_scene_item_transform() {
    let json = obj(vec![
        ("views", arr(vec![])),
        (
            "scene",
            arr(vec![obj(vec![
                ("_Type_", s("BuildingBlocks_Shape")),
                (
                    "transform",
                    obj(vec![
                        ("tx", float(100.0)),
                        ("ty", float(50.0)),
                        ("sx", float(2.0)),
                        ("sy", float(0.5)),
                        ("angle", float(45.0)),
                    ]),
                ),
            ])]),
        ),
        ("operations", arr(vec![])),
    ]);
    let record = CanvasParser::parse(guid_a(), "ShapeCanvas", &json).unwrap();
    let transform = record.scene[0].transform.as_ref().expect("transform kept");
    assert!((float_member(transform, "tx") - 100.0).abs() < 1e-5);
    assert!((float_member(transform, "ty") - 50.0).abs() < 1e-5);
    assert!((float_member(transform, "sx") - 2.0).abs() < 1e-5);
    assert!((float_member(transform, "angle") - 45.0).abs() < 1e-5);
}

#[test]
fn canvas_parse_scene_item_transform() {
    check_scene_item_transform();
}

#[test]
fn tests_parse_scene_item_transform() {
    check_scene_item_transform();
}

fn check_max_depth_exceeded() {
    let resolver = CanvasWidgetTreeResolver::with_max_depth(1);
    let result = resolver.resolve(guid_a(), &|guid: &str| -> Result<Json, String> {
        let next = if guid == guid_a() {
            guid_b()
        } else if guid == guid_b() {
            guid_c()
        } else {
            return Ok(obj(vec![("scene", arr(vec![])), ("operations", arr(vec![]))]));
        };
        Ok(widget_canvas_scene(next))
    });
    match result {
        Err(UiError::MaxDepthExceeded { guid, max_depth }) => {
            assert_eq!(max_depth, 1);
            assert_eq!(guid, guid_b());
        },
        _ => panic!("expected MaxDepthExceeded"),
    }
}

#[test]
fn canvas_resolver_max_depth_exceeded() {
    check_max_depth_exceeded();
}

#[test]
fn tests_resolver_max_depth_exceeded() {
    check_max_depth_exceeded();
}

// ── further scenarios ──

#[test]
fn guid_shape_is_checked_on_bytes() {
    assert!(looks_like_guid(guid_a()));
    assert!(!looks_like_guid("aaaaaaaa_aaaa-aaaa-aaaa-aaaaaaaaaaaa"));
    assert!(!looks_like_guid("short"));
}

#[test]
fn widget_canvas_with_guid_names_sub_canvas_not_path() {
    let item = obj(vec![("_Type_", s("BuildingBlocks_WidgetCanvasURL")), ("canvas", s(guid_b()))]);
    match CanvasParser::parse_view_component(&item) {
        ViewComponent::WidgetCanvas { canvas_path, sub_guid, .. } => {
            assert_eq!(canvas_path, None);
            assert_eq!(sub_guid.as_deref(), Some(guid_b()));
        },
        other => panic!("unexpected {other:?}"),
    }
    let item = obj(vec![("_Type_", s("BuildingBlocks_WidgetCanvas")), ("canvas", s("file://./x.json"))]);
    match CanvasParser::parse_view_component(&item) {
        ViewComponent::WidgetCanvas { canvas_path, sub_guid, .. } => {
            assert_eq!(canvas_path.as_deref(), Some("file://./x.json"));
            assert_eq!(sub_guid, None);
        },
        other => panic!("unexpected {other:?}"),
    }
}

#[test]
fn unknown_component_is_empty_container_and_containers_nest() {
    let item = obj(vec![
        ("_Type_", s("BuildingBlocks_Group")),
        ("children", arr(vec![obj(vec![("_Type_", s("Mystery"))]), obj(vec![("_Type_", s("Image")), ("path", s("p.dds"))])])),
    ]);
    match CanvasParser::parse_view_component(&item) {
        ViewComponent::Container { children } => {
            assert_eq!(children.len(), 2);
            assert!(matches!(&children[0], ViewComponent::Container { children } if children.is_empty()));
            assert!(matches!(&children[1], ViewComponent::Image { texture_path } if texture_path == "p.dds"));
        },
        other => panic!("unexpected {other:?}"),
    }
}

#[test]
fn packed_and_object_colours() {
    let packed = number(0x80112233);
    assert_eq!(parse_rgba_color(Some(&packed)), Some(RgbaColor { r: 0x11, g: 0x22, b: 0x33, a: 0x80 }));
    let partial = obj(vec![("r", number(10))]);
    assert_eq!(parse_rgba_color(Some(&partial)), Some(RgbaColor { r: 10, g: 255, b: 255, a: 255 }));
    assert_eq!(parse_rgba_color(Some(&s("red"))), None);
    assert_eq!(RgbaColor::white(), RgbaColor { r: 255, g: 255, b: 255, a: 255 });
}

#[test]
fn default_values_follow_kind_then_json_type() {
    let op = |kind: &str, v: Json| {
        obj(vec![("_Type_", s(kind)), ("defaultValue", v)])
    };
    let json = obj(vec![(
        "operations",
        arr(vec![
            op("BuildingBlocks_BindingsBooleanVariable", number(1)),
            op("BuildingBlocks_BindingsIntegerVariable", number(7)),
            op("BuildingBlocks_BindingsFloatVariable", number(7)),
            op("BuildingBlocks_BindingsStringVariable", s(guid_c())),
            op("BuildingBlocks_BindingsStringVariable", Json::Null),
        ]),
    )]);
    let record = CanvasParser::parse(guid_a(), "Ops", &json).unwrap();
    assert!(record.operations[0].default_value.is_none());
    assert!(matches!(record.operations[1].default_value, Some(Value::Int(7))));
    assert!(matches!(record.operations[2].default_value, Some(Value::Float(JsonNumber::PosInt(7)))));
    assert!(matches!(record.operations[3].default_value, Some(Value::Guid(ref g)) if g == guid_c()));
    assert!(record.operations[4].default_value.is_none());
}

fn scene_of(targets: &[&str]) -> Json {
    let items: Vec<Json> = targets
        .iter()
        .map(|t| obj(vec![("_Type_", s("BuildingBlocks_WidgetCanvas")), ("canvas", s(t))]))
        .collect();
    obj(vec![("scene", arr(items))])
}

#[test]
fn failed_sub_canvas_met_twice_is_no_cycle() {
    let a_json = scene_of(&["b", "b"]);
    let result = CanvasWidgetTreeResolver::new().resolve("a", &|guid: &str| -> Result<Json, String> {
        if guid == "a" {
            Ok(a_json.deep_clone())
        } else {
            Err("unavailable".to_string())
        }
    });
    let r = result.expect("a failed sub-canvas is left out");
    assert_eq!(r.root.guid, "a");
    assert_eq!(r.children.len(), 0);
}

#[test]
fn failed_root_fetch_is_reported() {
    let result = CanvasWidgetTreeResolver::new()
        .resolve("a", &|_guid: &str| -> Result<Json, String> { Err("unavailable".to_string()) });
    match result {
        Err(UiError::FetchFailed { guid, source }) => {
            assert_eq!(guid, "a");
            assert_eq!(source, "unavailable");
        },
        other => panic!("expected FetchFailed, got {:?}", other.is_ok()),
    }
}

#[test]
fn shared_sub_canvas_is_fetched_once() {
    let calls: std::cell::RefCell<Vec<String>> = std::cell::RefCell::new(Vec::new());
    let a_json = scene_of(&["b", "c"]);
    let bc_json = scene_of(&["d"]);
    let d_json = scene_of(&[]);
    let result = CanvasWidgetTreeResolver::new().resolve("a", &|guid: &str| -> Result<Json, String> {
        calls.borrow_mut().push(guid.to_string());
        match guid {
            "a" => Ok(a_json.deep_clone()),
            "b" | "c" => Ok(bc_json.deep_clone()),
            _ => Ok(d_json.deep_clone()),
        }
    });
    let r = result.expect("a shared sub-canvas is no cycle");
    assert_eq!(r.root.guid, "a");
    assert!(r.child("b").is_some() && r.child("c").is_some() && r.child("d").is_some());
    assert_eq!(r.children.len(), 3);
    assert_eq!(*calls.borrow(), vec!["a".to_string(), "b".to_string(), "d".to_string(), "c".to_string()]);
}
