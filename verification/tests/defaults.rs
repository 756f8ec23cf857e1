use starbreaker_ui::canvas::types::{RgbaColor, Value};
use starbreaker_ui::defaults::registry::DefaultValueRegistry;
use starbreaker_ui::json::{Json, JsonNumber};
use starbreaker_ui::table::Table;

fn s(x: &str) -> Json {
    Json::String(x.to_string())
}

fn obj(members: Vec<(&str, Json)>) -> Json {
    Json::Object(members.into_iter().map(|(k, v)| (k.to_string(), v)).collect())
}

fn number(n: u64) -> Json {
    Json::Number(JsonNumber::PosInt(n))
}

fn loc_table(pairs: &[(&str, &str)]) -> Table<String> {
    let mut t: Table<String> = Table::new();
    for (k, v) in pairs {
        t.insert(k.chars().collect(), v.to_string());
    }
    t
}

fn check_at_least_nine() {
    let reg = DefaultValueRegistry::with_well_known_path_defaults();
    assert!(reg.path_count() >= 9, "expected >=9 well-known path defaults, got {}", reg.path_count());
}

#[test]
fn defaults_well_known_defaults_has_at_least_nine_entries() {
    check_at_least_nine();
}

#[test]
fn tests_well_known_defaults_has_at_least_nine_entries() {
    check_at_least_nine();
}

fn check_targetname() {
    let reg = DefaultValueRegistry::with_well_known_path_defaults();
    assert_eq!(reg.lookup_path("/vehicle/targetname"), Some(&Value::Str("NO TARGET".into())));
}

#[test]
fn defaults_well_known_defaults_targetname() {
    check_targetname();
}

#[test]
fn tests_well_known_defaults_targetname() {
    check_targetname();
}

fn check_target_distance() {
    let reg = DefaultValueRegistry::with_well_known_path_defaults();
    assert_eq!(reg.lookup_path("/vehicle/target/distance"), Some(&Value::Str("0.0km".into())));
}

#[test]
fn defaults_well_known_defaults_target_distance() {
    check_target_distance();
}

#[test]
fn tests_well_known_defaults_target_distance() {
    check_target_distance();
}

fn check_target_bearing() {
    let reg = DefaultValueRegistry::with_well_known_path_defaults();
    assert_eq!(reg.lookup_path("/vehicle/target/bearing"), Some(&Value::Str("0°".into())));
}

#[test]
fn defaults_well_known_defaults_target_bearing() {
    check_target_bearing();
}

#[test]
fn tests_well_known_defaults_target_bearing() {
    check_target_bearing();
}

fn check_hp() {
    let reg = DefaultValueRegistry::with_well_known_path_defaults();
    assert_eq!(reg.lookup_path("/ship/hp/current"), Some(&Value::Str("MAX".into())));
    assert_eq!(reg.lookup_path("/ship/hp/max"), Some(&Value::Str("MAX".into())));
}

#[test]
fn defaults_well_known_defaults_hp() {
    check_hp();
}

#[test]
fn tests_well_known_defaults_hp() {
    check_hp();
}

fn check_power() {
    let reg = DefaultValueRegistry::with_well_known_path_defaults();
    assert_eq!(reg.lookup_path("/seatdashboard/powerstate"), Some(&Value::Str("OFFLINE".into())));
    assert_eq!(reg.lookup_path("/seatdashboard/powercurrent"), Some(&Value::Int(2)));
    assert_eq!(reg.lookup_path("/seatdashboard/powermax"), Some(&Value::Int(16)));
}

#[test]
fn defaults_well_known_defaults_power() {
    check_power();
}

#[test]
fn tests_well_known_defaults_power() {
    check_power();
}

fn check_gungroup() {
    let reg = DefaultValueRegistry::with_well_known_path_defaults();
    assert_eq!(reg.lookup_path("/vehicle/gungroup"), Some(&Value::Str("(ALL)".into())));
}

#[test]
fn defaults_well_known_defaults_gungroup() {
    check_gungroup();
}

#[test]
fn tests_well_known_defaults_gungroup() {
    check_gungroup();
}

fn check_unknown_path() {
    let reg = DefaultValueRegistry::with_well_known_path_defaults();
    assert_eq!(reg.lookup_path("/nonexistent/binding"), None);
}

#[test]
fn defaults_well_known_defaults_unknown_path_returns_none() {
    check_unknown_path();
}

#[test]
fn tests_well_known_defaults_unknown_path_returns_none() {
    check_unknown_path();
}

fn check_mfd_roundtrip() {
    let mut reg = DefaultValueRegistry::new();
    reg.insert_mfd_slot(4, 6, "3228e5cc-d0b7-49f7-9765-20cbad1b61b0");
    assert_eq!(reg.lookup_mfd_slot(4, 6), Some("3228e5cc-d0b7-49f7-9765-20cbad1b61b0"));
    assert_eq!(reg.lookup_mfd_slot(4, 7), None);
}

#[test]
fn defaults_mfd_slot_roundtrip() {
    check_mfd_roundtrip();
}

#[test]
fn tests_mfd_slot_roundtrip() {
    check_mfd_roundtrip();
}

fn check_normal_state() {
    let fixture = Json::Array(vec![obj(vec![
        ("name", s("Normal")),
        ("lightOn", Json::Bool(true)),
        ("color", obj(vec![("r", number(102)), ("g", number(214)), ("b", number(255)), ("a", number(255))])),
        ("intensity", Json::Number(JsonNumber::Float(0.025f64.to_bits()))),
    ])]);
    let mut reg = DefaultValueRegistry::new();
    reg.ingest_screen_states(&fixture);
    assert_eq!(reg.screen_state_color("Normal"), Some(RgbaColor { r: 102, g: 214, b: 255, a: 255 }));
    assert_eq!(reg.screen_state_color("Unknown"), None);
}

#[test]
fn defaults_ingest_screen_states_parses_normal_state() {
    check_normal_state();
}

#[test]
fn tests_ingest_screen_states_parses_normal_state() {
    check_normal_state();
}

fn check_malformed() {
    let fixture = Json::Array(vec![
        obj(vec![("name", s("Broken"))]),
        obj(vec![
            ("name", s("Good")),
            ("color", obj(vec![("r", number(10)), ("g", number(20)), ("b", number(30)), ("a", number(255))])),
        ]),
    ]);
    let mut reg = DefaultValueRegistry::new();
    reg.ingest_screen_states(&fixture);
    assert_eq!(reg.screen_state_color("Broken"), None);
    assert_eq!(reg.screen_state_color("Good"), Some(RgbaColor { r: 10, g: 20, b: 30, a: 255 }));
}

#[test]
fn defaults_ingest_screen_states_skips_malformed_entries() {
    check_malformed();
}

#[test]
fn tests_ingest_screen_states_skips_malformed_entries() {
    check_malformed();
}

fn check_non_array() {
    let mut reg = DefaultValueRegistry::new();
    reg.ingest_screen_states(&s("not an array"));
    assert_eq!(reg.path_count(), 0);
}

#[test]
fn defaults_ingest_screen_states_non_array_is_no_op() {
    check_non_array();
}

#[test]
fn tests_ingest_screen_states_non_array_is_no_op() {
    check_non_array();
}

fn check_at_prefix() {
    let mut reg = DefaultValueRegistry::new();
    reg.set_localization(loc_table(&[("hud_notarget", "NO TARGET"), ("dfm_ui_target", "TARGET")]));
    assert_eq!(reg.lookup_localization("@hud_NoTarget"), Some("NO TARGET"));
    assert_eq!(reg.lookup_localization("@hud_notarget"), Some("NO TARGET"));
    assert_eq!(reg.lookup_localization("dfm_ui_target"), Some("TARGET"));
    assert_eq!(reg.lookup_localization("@nonexistent"), None);
}

#[test]
fn defaults_localization_lookup_with_at_prefix() {
    check_at_prefix();
}

#[test]
fn tests_localization_lookup_with_at_prefix() {
    check_at_prefix();
}

fn check_empty_table() {
    let reg = DefaultValueRegistry::new();
    assert_eq!(reg.lookup_localization("@hud_NoTarget"), None);
}

#[test]
fn defaults_localization_lookup_empty_table_returns_none() {
    check_empty_table();
}

#[test]
fn tests_localization_lookup_empty_table_returns_none() {
    check_empty_table();
}

fn check_localization_fallbacks() {
    let reg = DefaultValueRegistry::with_well_known_path_defaults();
    assert_eq!(reg.lookup_localization("@hud_NoTarget"), Some("NO TARGET"));
    assert_eq!(reg.lookup_localization("@hud_GimbalMode"), Some("GIMBAL MODE"));
    assert_eq!(reg.lookup_localization("@hud_ActiveGroup"), Some("ACTIVE GROUP"));
    assert_eq!(reg.lookup_localization("@LOC_EMPTY"), Some(""));
    assert_eq!(reg.lookup_localization("@nonexistent"), None);
}

#[test]
fn defaults_well_known_defaults_has_localization_fallbacks() {
    check_localization_fallbacks();
}

#[test]
fn tests_well_known_defaults_has_localization_fallbacks() {
    check_localization_fallbacks();
}

#[test]
fn pipeline_defaults_merge_localization_without_losing_sentinels() {
    let reg = DefaultValueRegistry::with_pipeline_defaults(Some(loc_table(&[
        ("hud_custom", "CUSTOM"),
        ("loc_placeholder", "<= PLACEHOLDER =>"),
        ("loc_empty", "SHOULD_NOT_OVERRIDE"),
    ])));
    assert_eq!(reg.lookup_localization("@hud_custom"), Some("CUSTOM"));
    assert_eq!(reg.lookup_localization("@LOC_PLACEHOLDER"), Some(""));
    assert_eq!(reg.lookup_localization("@LOC_EMPTY"), Some(""));
}

#[test]
fn pipeline_defaults_seeds_placeholder_keys_and_merges_localization() {
    let defaults = DefaultValueRegistry::with_pipeline_defaults(Some(loc_table(&[("hud_custom", "CUSTOM")])));
    assert_eq!(defaults.lookup_localization("@hud_custom"), Some("CUSTOM"));
    assert_eq!(defaults.lookup_localization("@loc_placeholder"), Some(""));
    assert_eq!(defaults.lookup_localization("@loc_empty"), Some(""));
}

// ── further scenarios ──

#[test]
fn well_known_defaults_have_twenty_one_paths_and_med_bed_seeds() {
    let reg = DefaultValueRegistry::with_well_known_path_defaults();
    assert_eq!(reg.path_count(), 21);
    assert_eq!(reg.lookup_path("Bed/MedBed/MedBedStatus/containerCapacity"), Some(&Value::Int(200)));
    assert_eq!(reg.lookup_path("Popup/IsActive"), Some(&Value::Bool(true)));
}

#[test]
fn insert_path_overwrites_without_growing() {
    let mut reg = DefaultValueRegistry::new();
    reg.insert_path("/a", Value::Int(1));
    reg.insert_path("/a", Value::Int(2));
    assert_eq!(reg.path_count(), 1);
    assert_eq!(reg.lookup_path("/a"), Some(&Value::Int(2)));
}

#[test]
fn merge_overrides_non_sentinel_values_and_keeps_others() {
    let mut reg = DefaultValueRegistry::with_well_known_path_defaults();
    reg.merge_localization(loc_table(&[("hud_notarget", "KEIN ZIEL")]));
    assert_eq!(reg.lookup_localization("@hud_NoTarget"), Some("KEIN ZIEL"));
    assert_eq!(reg.lookup_localization("@hud_pwr"), Some("PWR"));
    reg.insert_localization("loc_empty", "FORCED".to_string());
    assert_eq!(reg.lookup_localization("@loc_empty"), Some("FORCED"));
}

#[test]
fn screen_state_alpha_defaults_to_opaque_and_components_truncate() {
    let fixture = Json::Array(vec![obj(vec![
        ("name", s("Dim")),
        ("color", obj(vec![("r", number(256 + 5)), ("g", number(6)), ("b", number(7))])),
    ])]);
    let mut reg = DefaultValueRegistry::new();
    reg.ingest_screen_states(&fixture);
    assert_eq!(reg.screen_state_color("Dim"), Some(RgbaColor { r: 5, g: 6, b: 7, a: 255 }));
}

#[test]
fn merging_a_table_that_set_a_key_twice_uses_its_last_value() {
    let mut map: Table<String> = Table::new();
    map.insert("a".chars().collect(), String::new());
    map.insert("a".chars().collect(), "x".to_string());
    assert_eq!(map.len(), 1);
    let mut reg = DefaultValueRegistry::new();
    reg.merge_localization(map);
    assert_eq!(reg.lookup_localization("a"), Some("x"));
}
