use starbreaker_ui::canvas::resolver::ResolvedCanvas;
use starbreaker_ui::canvas::types::CanvasRecord;
use starbreaker_ui::json::Json;
use starbreaker_ui::pipeline::asset_manifest::build_asset_reference_manifest;
use starbreaker_ui::pipeline::style_selection::{
    build_style_selection_manifest, canvas_style_name, style_request_for, StyleRequest,
};
use starbreaker_ui::pipeline::swf_imports::{collect_import_swf_paths, import_paths_from_urls, reads_as_swf};
use starbreaker_ui::pipeline::swf_paths::{normalize_p4k_swf_path, resolve_relative_swf_path};
use starbreaker_ui::pipeline::swf_walk::{canvas_swf_path, fallback_swf_bytes, shared_fonts_path, SwfImportWalk};
use starbreaker_ui::pipeline::swf_selection::{
    annunciator_swf_candidates, build_swf_selection_manifest, flash_structural_candidates,
    pick_first_valid_swf_source, select_swf_source,
    flash_swf_candidates, merge_unique_candidates, scene_swf_candidates, SwfPathCandidate,
};
use starbreaker_ui::error::UiError;
use starbreaker_ui::pipeline::{
    suppresses_placeholder_screen_background, IrNodeTags,
    canvas_has_flash_renderer, effective_canvas_guid, effective_manufacturer_id, extract_record_name,
    fallback_counter_warnings, UiBindingView,
};
use starbreaker_ui::table::Table;

fn s(x: &str) -> Json {
    Json::String(x.to_string())
}

fn obj(members: Vec<(&str, Json)>) -> Json {
    Json::Object(members.into_iter().map(|(k, v)| (k.to_string(), v)).collect())
}

fn arr(items: Vec<Json>) -> Json {
    Json::Array(items)
}

fn empty_record() -> CanvasRecord {
    CanvasRecord {
        guid: "root-guid".to_string(),
        name: "Root".to_string(),
        views: Vec::new(),
        scene: Vec::new(),
        operations: Vec::new(),
    }
}

#[test]
fn merge_unique_candidates_preserves_reason_and_rank_of_first_path() {
    let primary = vec![SwfPathCandidate { path: "A.swf".to_string(), reason: "primary", rank: 1 }];
    let secondary = vec![
        SwfPathCandidate { path: "A.swf".to_string(), reason: "secondary-duplicate", rank: 99 },
        SwfPathCandidate { path: "B.swf".to_string(), reason: "secondary", rank: 2 },
    ];
    let merged = merge_unique_candidates(&primary, &secondary);
    assert_eq!(merged.len(), 2);
    assert_eq!(merged[0].reason, "primary");
    assert_eq!(merged[0].rank, 1);
    assert_eq!(merged[1].path, "B.swf");
}

#[test]
fn flash_candidates_cover_structural_supportscreen_variants() {
    let candidates = flash_swf_candidates("BuildingBlocks_Canvas.MC_S_Target_Master", "aegs");
    assert!(candidates.iter().any(|path| path.contains("SupportScreen16-9\\TargetStatus.swf")));
    assert!(candidates.iter().any(|path| path.contains("SupportScreen1-1\\TargetStatus.swf")));
    assert!(candidates.iter().any(|path| path.contains("SupportScreenBespoke2\\TargetStatus.swf")));
    assert!(candidates.iter().any(|path| path.contains("Support_Bespoke_2\\TargetStatus.swf")));
}

#[test]
fn fallback_counter_warnings_emit_human_readable_messages() {
    let warnings = fallback_counter_warnings(&[
        ("swf_candidate_miss", 1),
        ("manufacturer_style_fallback_drak", 2),
        ("ignored_zero", 0),
    ]);
    assert_eq!(warnings.len(), 2);
    assert_eq!(warnings[0], "fallback path used: swf_candidate_miss=1");
    assert_eq!(warnings[1], "fallback path used: manufacturer_style_fallback_drak=2");
}

#[test]
fn swf_selection_manifest_contains_structural_flash_candidates() {
    let root = obj(vec![
        ("_RecordName_", s("BuildingBlocks_Canvas.MC_S_Target_Master")),
        ("_RecordValue_", obj(vec![("scene", arr(vec![obj(vec![("rendererType", s("Flash"))])]))])),
    ]);
    let resolved = ResolvedCanvas { root: empty_record(), children: Table::new() };
    let flash = flash_structural_candidates(&root, "drak");
    let scene = scene_swf_candidates(&resolved);
    let manifest = build_swf_selection_manifest(flash, scene, &[]);
    assert!(!manifest.flash_candidates.is_empty());
    assert_eq!(manifest.ordered_candidates, manifest.flash_candidates);
    assert_eq!(manifest.flash_candidates[0].reason, "flash_structural_candidate");
    assert!(manifest.valid_candidates.is_empty());
    assert_eq!(manifest.fallback_counters, vec![("swf_candidate_miss".to_string(), 1)]);
}

#[test]
fn style_selection_manifest_counts_manufacturer_fallback() {
    let root = obj(vec![("_RecordValue_", obj(vec![("style", s("file://./foo_style.json"))]))]);
    let name = canvas_style_name(&root);
    assert_eq!(name.as_deref(), Some("foo_style"));
    let manifest = build_style_selection_manifest(name.as_deref(), false, Some("aegs"), false);
    assert_eq!(manifest.selected_source.as_deref(), Some("manufacturer:drak"));
    assert_eq!(
        manifest.fallback_counters,
        vec![("canvas_style_fetch_failed".to_string(), 1), ("manufacturer_style_fallback_drak".to_string(), 1)]
    );
}

// ── further scenarios ──

#[test]
fn record_names_drop_scheme_directories_and_json_suffix() {
    assert_eq!(extract_record_name("file://./types/gen_mc_s_target.json"), "gen_mc_s_target");
    assert_eq!(extract_record_name("a/b/Canvas.JSON"), "Canvas");
    assert_eq!(extract_record_name("BareName"), "BareName");
    assert_eq!(extract_record_name(".json"), "");
    assert_eq!(extract_record_name("json"), "json");
}

#[test]
fn style_selection_prefers_found_canvas_style_and_found_manufacturer() {
    let m = build_style_selection_manifest(Some("foo_style"), true, Some("aegs"), false);
    assert_eq!(m.selected_source.as_deref(), Some("canvas:foo_style"));
    assert!(m.fallback_counters.is_empty());
    let m = build_style_selection_manifest(None, false, None, true);
    assert_eq!(m.selected_source.as_deref(), Some("manufacturer:drak"));
    assert!(m.fallback_counters.is_empty());
    let m = build_style_selection_manifest(None, false, Some("rsi"), true);
    assert_eq!(m.selected_source.as_deref(), Some("manufacturer:rsi"));
}

#[test]
fn style_requests_follow_the_selected_source() {
    assert!(matches!(style_request_for(Some("canvas:x"), Some("rsi")), StyleRequest::CanvasRecord(n) if n == "x"));
    assert!(matches!(style_request_for(Some("manufacturer:aegs"), None), StyleRequest::Manufacturer(m) if m == "aegs"));
    assert!(matches!(style_request_for(None, None), StyleRequest::Manufacturer(m) if m == "drak"));
    assert!(matches!(style_request_for(Some("other"), Some("rsi")), StyleRequest::Manufacturer(m) if m == "rsi"));
}

#[test]
fn generic_canvases_fall_back_to_rsi_and_rsi_does_not_repeat() {
    let drak = flash_swf_candidates("MC_S_OwnShip_Master", "drak");
    assert_eq!(drak.len(), 16);
    assert_eq!(drak[0], "Data\\UI\\ShipInterface\\assets\\SWF\\DRA\\SupportScreen16-9\\OwnShipStatus.swf");
    assert_eq!(drak[1], "Data\\UI\\ShipInterface\\assets\\SWF\\DRA\\SupportScreen16-9\\OwnShip.swf");
    assert_eq!(drak[8], "Data\\UI\\ShipInterface\\assets\\SWF\\RSI\\SupportScreen16-9\\OwnShipStatus.swf");
    assert_eq!(flash_swf_candidates("MC_S_OwnShip_Master", "rsi").len(), 8);
    assert_eq!(flash_swf_candidates("Custom_Screen", "rsi").len(), 8);
    assert!(flash_swf_candidates("MC_S_OwnShip_Master", "").is_empty());
    assert!(flash_swf_candidates("MC_S__Master", "rsi").is_empty());
    // No candidate is listed twice, also for a one-letter brand that is a
    // prefix of RSI.
    for list in [drak, flash_swf_candidates("GEN_MC_S_Radar", "r")] {
        for i in 0..list.len() {
            for j in i + 1..list.len() {
                assert_ne!(list[i], list[j]);
            }
        }
    }
}

#[test]
fn annunciator_canvases_pick_halves_and_brand_ships() {
    let left = flash_swf_candidates("H_Eng_Annunciator_Master_Left", "drak");
    assert_eq!(
        left,
        vec![
            "Data\\UI\\ShipInterface\\assets\\SWF\\DRA\\AnnunciatorScreen\\AnnunciatorHalve1.swf".to_string(),
            "Data\\UI\\ShipInterface\\assets\\SWF\\DRA\\DRAK_Buccaneer\\AnnunciatorScreen\\AnnunciatorHalve1.swf".to_string(),
            "Data\\UI\\ShipInterface\\assets\\SWF\\DRA\\DRAK_Dragonfly\\AnnunciatorScreen\\AnnunciatorHalve1.swf".to_string(),
        ]
    );
    let right = annunciator_swf_candidates("H_Eng_Annunciator_Master_Right", "AEG");
    assert_eq!(right, vec!["Data\\UI\\ShipInterface\\assets\\SWF\\AEG\\AnnunciatorScreen\\AnnunciatorHalve2.swf".to_string()]);
}

#[test]
fn p4k_paths_are_normalised_and_imports_resolved() {
    assert_eq!(normalize_p4k_swf_path("UI\\A\\b.swf"), "Data/UI/A/b.swf");
    assert_eq!(normalize_p4k_swf_path("data/ui/b.swf"), "data/ui/b.swf");
    assert_eq!(resolve_relative_swf_path("Data/UI/A/b.swf", "../fonts/c.swf"), "Data/UI/fonts/c.swf");
    assert_eq!(resolve_relative_swf_path("Data/UI/A/b.swf", "./c.swf"), "Data/UI/A/c.swf");
    assert_eq!(resolve_relative_swf_path("UI/b.swf", "c.swf"), "Data/UI/c.swf");
    assert_eq!(resolve_relative_swf_path("Data/UI/b.swf", "DATA\\x.swf"), "DATA/x.swf");
    assert_eq!(resolve_relative_swf_path("Data/UI/b.swf", ""), "");
    let paths = import_paths_from_urls("Data/UI/A/b.swf", &["../c.swf".to_string(), String::new()]);
    assert_eq!(paths, vec!["Data/UI/c.swf".to_string()]);
}

#[test]
fn import_paths_come_from_import_asset_tags_of_real_swf_bytes() {
    let header = swf::Header::default_with_swf_version(6);
    let tags = vec![
        swf::Tag::ShowFrame,
        swf::Tag::ImportAssets { url: swf::SwfStr::from_utf8_str("../fonts/shared.swf"), imports: vec![] },
    ];
    let mut bytes: Vec<u8> = Vec::new();
    swf::write_swf(&header, &tags, &mut bytes).unwrap();
    let paths = collect_import_swf_paths("Data/UI/Screens/main.swf", &bytes);
    assert_eq!(paths, vec!["Data/UI/fonts/shared.swf".to_string()]);
    assert!(collect_import_swf_paths("Data/x.swf", b"not a swf").is_empty());
}

#[test]
fn written_swf_bytes_read_as_swf_and_others_do_not() {
    let header = swf::Header::default_with_swf_version(6);
    let mut bytes: Vec<u8> = Vec::new();
    swf::write_swf(&header, &[swf::Tag::ShowFrame], &mut bytes).unwrap();
    assert!(reads_as_swf(&bytes));
    assert!(!reads_as_swf(b"not a swf"));
    assert!(!reads_as_swf(&[]));
    let fallback = fallback_swf_bytes();
    assert_eq!(&fallback[..3], b"FWS");
    assert_eq!(fallback.len(), 22);
    assert!(reads_as_swf(&fallback));
}

#[test]
fn flash_renderer_detection_and_binding_choices() {
    let root = obj(vec![("_RecordValue_", obj(vec![("scene", arr(vec![obj(vec![]), obj(vec![("rendererType", s("flash"))])]))]))]);
    assert!(canvas_has_flash_renderer(&root));
    assert!(!canvas_has_flash_renderer(&obj(vec![])));
    let b = UiBindingView {
        canvas_guid: Some("c"),
        content_canvas_guid: Some(""),
        binding_kind: None,
        manufacturer_id: None,
        helper_name: None,
        default_view_index: None,
        default_screen_slot: None,
    };
    assert_eq!(effective_canvas_guid(&b), Some("c"));
    assert_eq!(effective_manufacturer_id(None, Some("manufacturer:aegs")), "aegs");
    assert_eq!(effective_manufacturer_id(Some("rsi"), Some("manufacturer:aegs")), "rsi");
    assert_eq!(effective_manufacturer_id(None, None), "drak");
}

#[test]
fn manifest_keeps_loaded_candidates_in_order() {
    let flash = vec![
        SwfPathCandidate { path: "A.swf".to_string(), reason: "flash_structural_candidate", rank: 1 },
        SwfPathCandidate { path: "B.swf".to_string(), reason: "flash_structural_candidate", rank: 2 },
    ];
    let scene = vec![SwfPathCandidate { path: "C.swf".to_string(), reason: "scene_swf_reference", rank: 1 }];
    let m = build_swf_selection_manifest(flash, scene, &[false, true, true]);
    assert_eq!(m.ordered_candidates.len(), 3);
    assert_eq!(m.valid_candidates.iter().map(|c| c.path.as_str()).collect::<Vec<_>>(), vec!["B.swf", "C.swf"]);
    assert!(m.fallback_counters.is_empty());
}

fn swf_importing(urls: &[&str]) -> Vec<u8> {
    let header = swf::Header::default_with_swf_version(6);
    let mut tags = vec![swf::Tag::ShowFrame];
    for url in urls {
        tags.push(swf::Tag::ImportAssets { url: swf::SwfStr::from_utf8_str(url), imports: vec![] });
    }
    let mut bytes: Vec<u8> = Vec::new();
    swf::write_swf(&header, &tags, &mut bytes).unwrap();
    bytes
}

#[test]
fn import_walk_scans_each_file_once_and_fetches_unseen_imports() {
    assert_eq!(canvas_swf_path(), "Data/UI/BuildingBlocks/assets/SWF/Canvas.swf");
    assert_eq!(shared_fonts_path(), "Data/UI/fonts/Shared/fonts_en.gfx");
    let root = swf_importing(&["lib.swf", "../fonts/f.swf"]);
    let mut walk = SwfImportWalk::start("UI\\Screens\\main.swf", root.clone());
    let (path, bytes) = walk.next_scan().unwrap();
    assert_eq!(path, "Data/UI/Screens/main.swf");
    assert_eq!(bytes, root);
    let imports = walk.imports_to_fetch(&path, &bytes);
    assert_eq!(imports, vec!["Data/UI/Screens/lib.swf".to_string(), "Data/UI/fonts/f.swf".to_string()]);
    // The library imports the root back: the root is not fetched again.
    walk.push_loaded("Data/UI/Screens/lib.swf".to_string(), swf_importing(&["main.swf"]));
    let (path, bytes) = walk.next_scan().unwrap();
    assert_eq!(path, "Data/UI/Screens/lib.swf");
    assert!(walk.imports_to_fetch(&path, &bytes).is_empty());
    // A file pushed twice is scanned once.
    walk.push_loaded("Data/UI/Screens/lib.swf".to_string(), Vec::new());
    assert!(walk.next_scan().is_none());
}

fn ir_node(node_type: &str, is_active: bool, tag: Option<&str>) -> IrNodeTags {
    IrNodeTags { node_type: node_type.to_string(), is_active, tag_names: vec![None, tag.map(|t| t.to_string())] }
}

#[test]
fn hidden_screen_name_background_suppresses_placeholder_only_with_a_swf_source() {
    let nodes = vec![
        ir_node("widget_text", false, Some("ScreenNameBackground")),
        ir_node("Widget_Image", false, Some("screennamebackground")),
    ];
    assert!(suppresses_placeholder_screen_background(true, &nodes));
    assert!(!suppresses_placeholder_screen_background(false, &nodes));
    let active = vec![ir_node("widget_image", true, Some("ScreenNameBackground"))];
    assert!(!suppresses_placeholder_screen_background(true, &active));
    assert!(!suppresses_placeholder_screen_background(true, &[]));
}

#[test]
fn error_messages_name_the_failure() {
    assert_eq!(UiError::SwfParse("bad header".to_string()).message(), "SWF parse error: bad header");
    assert_eq!(UiError::UnsupportedTag("DefineVideo".to_string()).message(), "unsupported SWF tag/feature: DefineVideo");
    assert_eq!(
        UiError::FetchFailed { guid: "g".to_string(), source: "offline".to_string() }.message(),
        "canvas fetch failed for GUID g: offline"
    );
    assert_eq!(
        UiError::MaxDepthExceeded { guid: "g".to_string(), max_depth: 16 }.message(),
        "canvas expansion exceeded max depth 16 at GUID g"
    );
}

#[test]
fn first_loading_swf_is_picked() {
    let paths = vec!["A.swf".to_string(), "B.swf".to_string(), "C.swf".to_string()];
    assert_eq!(pick_first_valid_swf_source(&paths, &|p: &str| p != "A.swf"), Some("B.swf".to_string()));
    assert_eq!(pick_first_valid_swf_source(&paths, &|_p: &str| false), None);
}

#[test]
fn flash_canvases_prefer_structural_candidates_that_load() {
    let root = obj(vec![
        ("_RecordName_", s("BuildingBlocks_Canvas.MC_S_OwnShip_Master")),
        ("_RecordValue_", obj(vec![("scene", arr(vec![obj(vec![("rendererType", s("Flash"))])]))])),
    ]);
    let resolved = ResolvedCanvas { root: empty_record(), children: Table::new() };
    let picked = select_swf_source(&root, &resolved, "rsi", &|p: &str| p.ends_with("OwnShip.swf"));
    assert_eq!(picked.as_deref(), Some("Data\\UI\\ShipInterface\\assets\\SWF\\RSI\\SupportScreen16-9\\OwnShip.swf"));
    assert_eq!(select_swf_source(&root, &resolved, "rsi", &|_p: &str| false), None);
    // A canvas without a Flash renderer only looks at its scene.
    let plain = obj(vec![("_RecordValue_", obj(vec![]))]);
    assert_eq!(select_swf_source(&plain, &resolved, "rsi", &|_p: &str| true), None);
}

#[test]
fn asset_manifest_lists_each_reference_once_and_splits_by_resolution() {
    let node_refs = vec![
        vec!["ui/a.tif".to_string(), "ui/b.svg".to_string()],
        vec![],
        vec!["ui/a.tif".to_string(), "ui/c.dds".to_string()],
    ];
    let m = build_asset_reference_manifest(&node_refs, &|r: &str| !r.ends_with(".dds"));
    assert_eq!(m.all_asset_refs, vec!["ui/a.tif", "ui/b.svg", "ui/c.dds"]);
    assert_eq!(m.resolved_asset_refs, vec!["ui/a.tif", "ui/b.svg"]);
    assert_eq!(m.missing_asset_refs, vec!["ui/c.dds"]);
}
