use starbreaker_ui::bb_scene::clone_ops::{clone_widget_clone_operations, next_synthetic_id, remap_operation_ptrs};
use starbreaker_ui::bb_scene::pointers::{parse_points_to, parse_ptr};
use starbreaker_ui::bb_scene::types::{BbCoordinateMethod, BbNodeType};
use starbreaker_ui::bb_state_filter::component_params::is_state_binding;
use starbreaker_ui::bb_state_filter::idle_defaults::common_state_prefix;
use starbreaker_ui::compose::brand::{brand_logo_slug, brand_slug, brand_title};
use starbreaker_ui::compose::text_style::{
    custom_shape_has_modify_tag, custom_shape_style_tag_colour_token, explicit_text_colour_override,
    font_style_has_paint_file, font_symbol_from_text_style, label_style_colour_token, same_label_style,
    style_tag_colour_token, swf_style_should_fit_to_rect, telemetry_switch_on, text_colour_token_override,
    title3_font_weight_rank,
};
use starbreaker_ui::compose::FontSelectionSource;
use starbreaker_ui::json::Json;
use starbreaker_ui::postprocess::{enabled_passes, PostProcessOptions, PostProcessPass};

fn s(x: &str) -> Json {
    Json::String(x.to_string())
}

fn obj(members: Vec<(&str, Json)>) -> Json {
    Json::Object(members.into_iter().map(|(k, v)| (k.to_string(), v)).collect())
}

fn text_at<'a>(value: &'a Json, key: &str) -> Option<&'a str> {
    value.get(key).and_then(|v| v.as_str())
}

fn bound_operations() -> Vec<Json> {
    vec![
        obj(vec![
            ("_Pointer_", s("ptr:10")),
            ("_Type_", s("Bind")),
            ("widget", s("_PointsTo_:ptr:1")),
            ("input", s("_PointsTo_:ptr:11")),
        ]),
        obj(vec![("_Pointer_", s("ptr:11")), ("value", s("ptr:12"))]),
        obj(vec![("_Pointer_", s("ptr:12")), ("_Type_", s("Leaf"))]),
        obj(vec![("_Pointer_", s("ptr:13")), ("widget", s("_PointsTo_:ptr:2"))]),
    ]
}

#[test]
fn pointer_strings_parse_like_integer_parsing() {
    assert_eq!(parse_ptr("ptr:42"), Some(42));
    assert_eq!(parse_ptr("ptr:+7"), Some(7));
    assert_eq!(parse_ptr("ptr:"), None);
    assert_eq!(parse_ptr("ptr:4294967296"), None);
    assert_eq!(parse_ptr("42"), None);
    assert_eq!(parse_points_to("_PointsTo_:ptr:9"), Some(9));
    assert_eq!(parse_points_to("ptr:9"), None);
}

#[test]
fn node_types_and_coordinate_methods() {
    assert_eq!(BbNodeType::from_type_str("BuildingBlocks_WidgetCanvas"), BbNodeType::WidgetCanvas);
    assert_eq!(BbNodeType::from_type_str("WidgetTextField"), BbNodeType::WidgetTextField);
    assert_eq!(
        BbNodeType::from_type_str("BuildingBlocks_WidgetClone"),
        BbNodeType::Other("BuildingBlocks_WidgetClone".to_string())
    );
    assert_eq!(BbCoordinateMethod::from_raw(Some("auto")), BbCoordinateMethod::Auto);
    assert_eq!(BbCoordinateMethod::from_raw(Some("aspectOverridesHeight")), BbCoordinateMethod::AspectOverridesHeight);
    assert_eq!(BbCoordinateMethod::from_raw(Some("Auto")), BbCoordinateMethod::UseRaw);
    assert_eq!(BbCoordinateMethod::from_raw(None), BbCoordinateMethod::default());
}

#[test]
fn state_bindings_and_common_prefixes() {
    assert!(is_state_binding("State.BaseScreens.Attract"));
    assert!(is_state_binding("Bed/state.BaseScreens.Attract"));
    assert!(is_state_binding("x.STATE.y"));
    assert!(!is_state_binding("CloneLocationInfo/UserOwnsLocation"));
    let names = vec!["a.b.X".to_string(), "a.b.Y".to_string()];
    assert_eq!(common_state_prefix(&names).as_deref(), Some("a.b"));
    let mixed = vec!["a.b.X".to_string(), "a.c.Y".to_string()];
    assert_eq!(common_state_prefix(&mixed), None);
    assert_eq!(common_state_prefix(&[]), None);
    assert_eq!(common_state_prefix(&["plain".to_string()]), None);
}

#[test]
fn brand_slugs_titles_and_logo_directories() {
    assert_eq!(brand_slug("S_S_Drak-Corp"), "drakcorp");
    assert_eq!(brand_slug("s_rsi_2"), "rsi_2");
    assert_eq!(brand_title("drak"), "Drak");
    assert_eq!(brand_title(""), "");
    assert_eq!(brand_logo_slug("bioc"), "bioticorp");
    assert_eq!(brand_logo_slug("rsi"), "rsi");
}

#[test]
fn font_sources_and_post_process_passes() {
    assert_eq!(FontSelectionSource::Title3ExportFallback.as_str(), "title3-export-fallback");
    assert!(!FontSelectionSource::ResolvedRecordSymbol.is_fallback());
    assert!(FontSelectionSource::PreferredNameFallback.is_fallback());
    let opts = PostProcessOptions::default();
    assert!(!opts.apply_glow);
    assert_eq!(
        enabled_passes(&opts),
        vec![PostProcessPass::Tint, PostProcessPass::Scanlines, PostProcessPass::PixelGrid, PostProcessPass::Vignette]
    );
    let only_glow = PostProcessOptions {
        apply_tint: false,
        apply_scanlines: false,
        apply_pixel_grid: false,
        apply_vignette: false,
        apply_glow: true,
    };
    assert_eq!(enabled_passes(&only_glow), vec![PostProcessPass::Glow]);
}

#[test]
fn synthetic_ids_count_up() {
    let mut base = 7u32;
    assert_eq!(next_synthetic_id(&mut base), 7);
    assert_eq!(next_synthetic_id(&mut base), 8);
    assert_eq!(base, 9);
}

#[test]
fn remapping_rewrites_node_and_operation_pointers() {
    let mut value = obj(vec![
        ("a", s("_PointsTo_:ptr:1")),
        ("b", Json::Array(vec![s("ptr:5"), s("ptr:6"), s("text")])),
        ("c", s("ptr:1")),
    ]);
    remap_operation_ptrs(&mut value, &[(1, 100)], &[(5, 500), (1, 999)]);
    assert_eq!(text_at(&value, "a"), Some("_PointsTo_:ptr:100"));
    let items = value.get("b").and_then(|v| v.as_array()).unwrap();
    assert_eq!(items[0].as_str(), Some("ptr:500"));
    assert_eq!(items[1].as_str(), Some("ptr:6"));
    assert_eq!(items[2].as_str(), Some("text"));
    assert_eq!(text_at(&value, "c"), Some("ptr:100"));
}

#[test]
fn bound_operations_are_cloned_with_their_inputs() {
    let mut ops = bound_operations();
    let mut base = 500u32;
    clone_widget_clone_operations(&[(1, 100)], &mut ops, &mut base);
    assert_eq!(ops.len(), 7);
    assert_eq!(base, 503);
    // The operations already present stay in front, unchanged.
    assert_eq!(text_at(&ops[0], "_Pointer_"), Some("ptr:10"));
    assert_eq!(text_at(&ops[3], "widget"), Some("_PointsTo_:ptr:2"));
    // The bound operation, then the two it reads, in the order they had.
    assert_eq!(text_at(&ops[4], "_Pointer_"), Some("ptr:500"));
    assert_eq!(text_at(&ops[4], "widget"), Some("_PointsTo_:ptr:100"));
    assert_eq!(text_at(&ops[4], "input"), Some("_PointsTo_:ptr:501"));
    assert_eq!(text_at(&ops[4], "_Type_"), Some("Bind"));
    assert_eq!(text_at(&ops[5], "_Pointer_"), Some("ptr:501"));
    assert_eq!(text_at(&ops[5], "value"), Some("ptr:502"));
    assert_eq!(text_at(&ops[6], "_Pointer_"), Some("ptr:502"));
    assert_eq!(text_at(&ops[6], "_Type_"), Some("Leaf"));
}

#[test]
fn operations_without_bound_widgets_are_left_alone() {
    let mut ops = bound_operations();
    let mut base = 500u32;
    clone_widget_clone_operations(&[(3, 300)], &mut ops, &mut base);
    assert_eq!(ops.len(), 4);
    assert_eq!(base, 500);
}

fn tags(names: &[Option<&str>]) -> Vec<Option<String>> {
    names.iter().map(|n| n.map(|x| x.to_string())).collect()
}

#[test]
fn style_tags_choose_text_and_shape_colour_tokens() {
    let modify = tags(&[None, Some("  Modify\t")]);
    assert!(custom_shape_has_modify_tag(&modify));
    assert!(!custom_shape_has_modify_tag(&tags(&[Some("modifier")])));
    assert_eq!(style_tag_colour_token(&modify), Some("Base"));
    assert_eq!(custom_shape_style_tag_colour_token(&modify), Some("Accent5"));
    let primary_first = tags(&[Some("other"), Some(" PRIMARY "), Some("modify")]);
    assert_eq!(style_tag_colour_token(&primary_first), Some("Foreground"));
    assert_eq!(custom_shape_style_tag_colour_token(&primary_first), Some("Accent1"));
    assert_eq!(style_tag_colour_token(&tags(&[Some("ui_generic_flag_03")])), Some("Foreground"));
    assert_eq!(custom_shape_style_tag_colour_token(&tags(&[Some("ui_generic_flag_03")])), None);
    assert_eq!(style_tag_colour_token(&[]), None);
}

#[test]
fn emphasis_flag_and_label_styles_override_text_colours() {
    let flagged = tags(&[Some("UI_GENERIC_FLAG_03")]);
    assert_eq!(explicit_text_colour_override(&flagged), Some("Foreground"));
    // The flag is matched without trimming.
    assert_eq!(explicit_text_colour_override(&tags(&[Some(" UI_Generic_Flag_03")])), None);
    assert_eq!(text_colour_token_override(&flagged, "bright"), Some("Foreground"));
    assert_eq!(text_colour_token_override(&flagged, "Dim"), None);
    assert_eq!(text_colour_token_override(&[], "Bright"), None);
    assert_eq!(label_style_colour_token(Some("Heading3"), &[]), Some("Base"));
    assert_eq!(label_style_colour_token(Some("heading3"), &[]), None);
    assert_eq!(label_style_colour_token(Some("Heading1"), &flagged), None);
    assert!(same_label_style(Some("Title3"), Some("title3")));
    assert!(!same_label_style(Some("Title3"), None));
}

#[test]
fn font_records_name_symbols_paint_files_and_weights() {
    let record = obj(vec![(
        "_RecordValue_",
        obj(vec![("font", s("$Low-Reg")), ("paintFile", s("   "))]),
    )]);
    assert_eq!(font_symbol_from_text_style(Some(&record)), Some("$Low-Reg"));
    assert!(!font_style_has_paint_file(Some(&record)));
    assert!(!swf_style_should_fit_to_rect(Some(&record)));
    let flat = obj(vec![("font", s("")), ("paintFile", s("paint.dds"))]);
    assert_eq!(font_symbol_from_text_style(Some(&flat)), None);
    assert!(font_style_has_paint_file(Some(&flat)));
    assert!(swf_style_should_fit_to_rect(Some(&flat)));
    assert!(swf_style_should_fit_to_rect(None));
    assert_eq!(title3_font_weight_rank("$Title3", "Orbitron Medium", false), 4);
    assert_eq!(title3_font_weight_rank("$Title3", "Orbitron Bold", true), 16);
    assert_eq!(title3_font_weight_rank("$Thin", "Bold", false), 0);
    assert_eq!(title3_font_weight_rank("$X", "Plain", false), 5);
}

#[test]
fn font_symbol_reads_buildingblocks_font_style_record() {
    let record = obj(vec![
        ("_RecordName_", s("BuildingBlocks_FontStyle.BlenderPro-Medium")),
        (
            "_RecordValue_",
            obj(vec![
                ("_Type_", s("BuildingBlocks_FontStyle")),
                ("font", s("$Text1Med")),
                ("scaleModifier", Json::Number(starbreaker_ui::json::JsonNumber::Float(1.0f64.to_bits()))),
            ]),
        ),
    ]);
    assert_eq!(font_symbol_from_text_style(Some(&record)), Some("$Text1Med"));
}

#[test]
fn paint_file_font_style_disables_swf_font_path() {
    let style_with_paint = obj(vec![
        ("_Type_", s("BuildingBlocks_FontStyle")),
        ("font", s("$Low-Reg")),
        ("paintFile", s("UI/fonts/Install/AUDIMRG.slug")),
    ]);
    let style_without_paint = obj(vec![("_Type_", s("BuildingBlocks_FontStyle")), ("font", s("$Text1Book"))]);
    assert!(font_style_has_paint_file(Some(&style_with_paint)));
    assert!(!font_style_has_paint_file(Some(&style_without_paint)));
}

#[test]
fn telemetry_switch_values() {
    assert!(telemetry_switch_on("1"));
    assert!(telemetry_switch_on("TRUE"));
    assert!(telemetry_switch_on("Yes"));
    assert!(!telemetry_switch_on("on"));
    assert!(!telemetry_switch_on(" 1"));
}
