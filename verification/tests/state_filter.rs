use starbreaker_ui::bb_state_filter::{
    instantiated_false_widgets, instantiated_false_widgets_with_param_inputs,
    instantiated_false_widgets_with_param_inputs_and_inherited_bindings,
    resolved_boolean_variable_bindings_with_param_inputs_and_inherited,
};
use starbreaker_ui::bb_state_filter::idle_defaults::is_framing_hidden_set_field;
use starbreaker_ui::json::Json;
use starbreaker_ui::table::Table;

fn s(x: &str) -> Json {
    Json::String(x.to_string())
}

fn obj(members: Vec<(&str, Json)>) -> Json {
    Json::Object(members.into_iter().map(|(k, v)| (k.to_string(), v)).collect())
}

fn arr(items: Vec<Json>) -> Json {
    Json::Array(items)
}

fn boolean_field_op(widget_ptr: u32, input_ptr: u32) -> Json {
    obj(vec![
        ("_Type_", s("BuildingBlocks_BindingsBooleanField")),
        ("widget", s(&format!("_PointsTo_:ptr:{widget_ptr}"))),
        ("field", s("Instantiated")),
        ("input", s(&format!("_PointsTo_:ptr:{input_ptr}"))),
    ])
}

fn field_op(widget_ptr: u32, field: &str, input_ptr: u32) -> Json {
    obj(vec![
        ("_Type_", s("BuildingBlocks_BindingsBooleanField")),
        ("widget", s(&format!("_PointsTo_:ptr:{widget_ptr}"))),
        ("field", s(field)),
        ("input", s(&format!("_PointsTo_:ptr:{input_ptr}"))),
    ])
}

fn variable_op(ptr: u32, binding: &str) -> Json {
    obj(vec![
        ("_Pointer_", s(&format!("ptr:{ptr}"))),
        ("_Type_", s("BuildingBlocks_BindingsBooleanVariable")),
        ("binding", s(binding)),
    ])
}

fn or_op(ptr: u32, inputs: &[u32]) -> Json {
    obj(vec![
        ("_Pointer_", s(&format!("ptr:{ptr}"))),
        ("_Type_", s("BuildingBlocks_BindingsBooleanEvaluateOr")),
        ("inputs", arr(inputs.iter().map(|p| s(&format!("_PointsTo_:ptr:{p}"))).collect())),
    ])
}

fn and_op(ptr: u32, inputs: &[u32]) -> Json {
    obj(vec![
        ("_Pointer_", s(&format!("ptr:{ptr}"))),
        ("_Type_", s("BuildingBlocks_BindingsBooleanEvaluateAnd")),
        ("inputs", arr(inputs.iter().map(|p| s(&format!("_PointsTo_:ptr:{p}"))).collect())),
    ])
}

fn invert_op(ptr: u32, input: u32) -> Json {
    obj(vec![
        ("_Pointer_", s(&format!("ptr:{ptr}"))),
        ("_Type_", s("BuildingBlocks_BindingsBooleanInvert")),
        ("input", s(&format!("_PointsTo_:ptr:{input}"))),
    ])
}

fn static_var(name: &str, val: bool) -> Json {
    obj(vec![("name", s(name)), ("value", Json::Bool(val))])
}

fn make_record_value(static_vars: Vec<Json>, ops: Vec<Json>) -> Json {
    obj(vec![
        ("_Type_", s("BuildingBlocks_Canvas")),
        ("staticVariables", arr(static_vars)),
        ("operations", arr(ops)),
    ])
}

fn component_param_field(default: Option<bool>) -> Json {
    let mut input = vec![
        ("_Pointer_", s("ptr:9")),
        ("_Type_", s("BuildingBlocks_BindingsBooleanComponentParameter")),
        ("parameter", s("ParamInput0")),
    ];
    if let Some(d) = default {
        input.push(("defaultValue", Json::Bool(d)));
    }
    obj(vec![
        ("_Type_", s("BuildingBlocks_BindingsBooleanField")),
        ("widget", s("_PointsTo_:ptr:5")),
        ("field", s("IsActive")),
        ("input", obj(input)),
    ])
}

fn param_input(value: bool) -> Json {
    obj(vec![
        ("_Type_", s("BuildingBlocks_ComponentParameterInputBoolean")),
        ("parameter", s("ParamInput0")),
        ("value", Json::Bool(value)),
    ])
}

fn sensor_and_record() -> Json {
    make_record_value(
        vec![],
        vec![
            variable_op(12, "CloneLocationInfo/UserOwnsLocation"),
            variable_op(13, "Bed/MedBed/MedBedStatus/CanRespawnHere"),
            and_op(8, &[12, 13]),
            field_op(7, "IsActive", 8),
        ],
    )
}

fn direct_variable_record(prefix: &str) -> Json {
    make_record_value(
        vec![],
        vec![
            variable_op(3, &format!("{prefix}state.BaseScreens.Attract")),
            variable_op(4, &format!("{prefix}state.BaseScreens.MainMenu")),
            variable_op(7, &format!("{prefix}state.BaseScreens.Heal")),
            boolean_field_op(5, 3),
            boolean_field_op(6, 4),
            boolean_field_op(8, 7),
        ],
    )
}

fn idle_gate_record(with_siblings: bool) -> Json {
    let mut ops = vec![
        variable_op(3, "state.Attract"),
        variable_op(4, "state.LogIn"),
        or_op(19, &[3, 4]),
        invert_op(6, 19),
        boolean_field_op(5, 6),
    ];
    if with_siblings {
        // Direct-field order in the real wall canvas is LogIn, then Attract.
        ops.push(boolean_field_op(11, 4));
        ops.push(boolean_field_op(8, 3));
    }
    make_record_value(vec![], ops)
}

fn explicit_override_record() -> Json {
    make_record_value(
        vec![static_var("state.Admin", true)],
        vec![
            variable_op(3, "state.Attract"),
            variable_op(7, "state.Admin"),
            invert_op(6, 3),
            boolean_field_op(5, 6),
            boolean_field_op(8, 7),
        ],
    )
}

fn ungrouped_invert_record() -> Json {
    make_record_value(
        vec![],
        vec![variable_op(3, "Attract"), invert_op(6, 3), boolean_field_op(5, 6)],
    )
}

#[test]
fn no_operations_returns_empty_set() {
    let rv = make_record_value(vec![], vec![]);
    let result = instantiated_false_widgets(&rv);
    assert!(result.is_empty(), "expected empty set, got {result:?}");
}

#[test]
fn static_true_variable_widget_is_not_filtered() {
    let rv = make_record_value(
        vec![static_var("state.Admin", true)],
        vec![variable_op(10, "state.Admin"), boolean_field_op(5, 10)],
    );
    let result = instantiated_false_widgets(&rv);
    assert!(!result.contains(&5), "Admin=true canvas (ptr:5) must not be filtered");
}

#[test]
fn sv_capability_flag_does_not_activate_active_mode() {
    let rv = make_record_value(
        vec![static_var("state.Admin_SV", true)],
        vec![
            variable_op(20, "state.Attract"),
            variable_op(30, "state.LogIn"),
            or_op(23, &[20, 30]),
            invert_op(22, 23),
            boolean_field_op(21, 22),
            variable_op(10, "state.Admin"),
            boolean_field_op(5, 10),
        ],
    );
    let result = instantiated_false_widgets(&rv);
    assert!(
        result.contains(&5),
        "Admin canvas (ptr:5) must be filtered: a _SV capability flag does not activate the active-mode bool"
    );
}

#[test]
fn no_static_var_defaults_to_false_and_is_filtered() {
    let rv = make_record_value(vec![], vec![variable_op(10, "state.Attract"), boolean_field_op(3, 10)]);
    let result = instantiated_false_widgets(&rv);
    assert!(result.contains(&3), "Attract=false canvas (ptr:3) must be in false set");
}

#[test]
fn inline_widget_and_input_refs_are_evaluated() {
    let rv = make_record_value(
        vec![],
        vec![obj(vec![
            ("_Type_", s("BuildingBlocks_BindingsBooleanField")),
            ("field", s("Instantiated")),
            (
                "widget",
                obj(vec![("_Type_", s("BuildingBlocks_WidgetCanvas")), ("_Pointer_", s("ptr:3"))]),
            ),
            (
                "input",
                obj(vec![
                    ("_Type_", s("BuildingBlocks_BindingsBooleanVariable")),
                    ("binding", s("state.Attract")),
                ]),
            ),
        ])],
    );
    let result = instantiated_false_widgets(&rv);
    assert!(result.contains(&3), "inline object refs should evaluate like pointer refs");
}

#[test]
fn bed_mainmenu_default_applies_with_inline_boolean_variable_inputs() {
    let inline_field = |ptr: &str, binding: &str| {
        obj(vec![
            ("_Type_", s("BuildingBlocks_BindingsBooleanField")),
            ("field", s("Instantiated")),
            ("widget", obj(vec![("_Type_", s("BuildingBlocks_WidgetCanvas")), ("_Pointer_", s(ptr))])),
            (
                "input",
                obj(vec![("_Type_", s("BuildingBlocks_BindingsBooleanVariable")), ("binding", s(binding))]),
            ),
        ])
    };
    let rv = make_record_value(
        vec![],
        vec![
            inline_field("ptr:5", "Bed/state.BaseScreens.Attract"),
            inline_field("ptr:6", "Bed/state.BaseScreens.MainMenu"),
        ],
    );
    let result = instantiated_false_widgets(&rv);
    assert!(result.contains(&5), "Attract should be hidden for bed cold-default");
    assert!(!result.contains(&6), "MainMenu should be shown for bed cold-default");
}

#[test]
fn compound_or_false_false_is_filtered() {
    let rv = make_record_value(
        vec![],
        vec![
            variable_op(20, "state.ConfirmMore"),
            variable_op(21, "state.ConfirmNone"),
            or_op(23, &[20, 21]),
            boolean_field_op(7, 23),
        ],
    );
    let result = instantiated_false_widgets(&rv);
    assert!(result.contains(&7), "OR(false, false) canvas (ptr:7) must be in false set");
}

#[test]
fn canvas_without_instantiated_binding_is_not_filtered() {
    let rv = make_record_value(vec![], vec![field_op(9, "IsActive", 10)]);
    let result = instantiated_false_widgets(&rv);
    assert!(!result.contains(&9), "canvas with no Instantiated binding must not be filtered");
}

#[test]
fn invert_single_variable_does_not_trigger_idle_default() {
    let rv = make_record_value(
        vec![],
        vec![variable_op(3, "state.SomeFlag"), invert_op(6, 3), boolean_field_op(5, 6)],
    );
    let result = instantiated_false_widgets(&rv);
    assert!(!result.contains(&5), "Invert(SingleVariable) is not an idle-default pattern");
}

#[test]
fn bb_state_filter_direct_variable_scene_order_picks_first_as_cold_default() {
    let result = instantiated_false_widgets(&direct_variable_record(""));
    assert!(!result.contains(&5), "AttractCanvas (ptr:5) shown: first direct variable is the cold default");
    assert!(result.contains(&6), "MainMenuCanvas (ptr:6) hidden");
    assert!(result.contains(&8), "HealCanvas (ptr:8) hidden");
}

#[test]
fn tests_b_direct_variable_scene_order_picks_first_as_cold_default() {
    let result = instantiated_false_widgets(&direct_variable_record(""));
    assert!(!result.contains(&5));
    assert!(result.contains(&6));
    assert!(result.contains(&8));
}

#[test]
fn bb_state_filter_bed_base_screens_prefers_mainmenu() {
    let result = instantiated_false_widgets(&direct_variable_record("Bed/"));
    assert!(result.contains(&5), "AttractCanvas (ptr:5) hidden for Bed default");
    assert!(!result.contains(&6), "MainMenuCanvas (ptr:6) shown as Bed cold-default");
    assert!(result.contains(&8), "HealCanvas (ptr:8) hidden");
}

#[test]
fn tests_b_bed_base_screens_prefers_mainmenu() {
    let result = instantiated_false_widgets(&direct_variable_record("Bed/"));
    assert!(result.contains(&5));
    assert!(!result.contains(&6));
    assert!(result.contains(&8));
}

#[test]
fn bb_state_filter_direct_variable_singleton_group_not_promoted() {
    let rv = make_record_value(vec![], vec![variable_op(3, "state.LonelyFlag"), boolean_field_op(5, 3)]);
    let result = instantiated_false_widgets(&rv);
    assert!(result.contains(&5), "a singleton group is not a state machine");
}

#[test]
fn tests_b_direct_variable_singleton_group_not_promoted() {
    let rv = make_record_value(vec![], vec![variable_op(3, "state.LonelyFlag"), boolean_field_op(5, 3)]);
    let result = instantiated_false_widgets(&rv);
    assert!(result.contains(&5));
}

#[test]
fn bb_state_filter_idle_gate_or_filters_framing_canvas_when_false() {
    let result = instantiated_false_widgets(&idle_gate_record(true));
    assert!(result.contains(&5), "Header (ptr:5) hidden when Invert(Or(...)) evaluates false");
    assert!(result.contains(&11), "LogInCanvas (ptr:11) hidden (LogIn=false)");
    assert!(!result.contains(&8), "AttractCanvas (ptr:8) shown (first Or operand)");
}

#[test]
fn tests_b_idle_gate_or_filters_framing_canvas_when_false() {
    let result = instantiated_false_widgets(&idle_gate_record(true));
    assert!(result.contains(&5));
    assert!(result.contains(&11));
    assert!(!result.contains(&8));
}

#[test]
fn bb_state_filter_idle_gate_or_without_direct_siblings_uses_first_operand() {
    let result = instantiated_false_widgets(&idle_gate_record(false));
    assert!(result.contains(&5), "Header (ptr:5) hidden under first-operand idle default");
}

#[test]
fn tests_b_idle_gate_or_without_direct_siblings_uses_first_operand() {
    let result = instantiated_false_widgets(&idle_gate_record(false));
    assert!(result.contains(&5));
}

#[test]
fn bb_state_filter_explicit_group_override_suppresses_idle_default() {
    let result = instantiated_false_widgets(&explicit_override_record());
    assert!(!result.contains(&5), "Header (ptr:5) shown: the Admin override suppresses the idle default");
    assert!(!result.contains(&8), "AdminCanvas (ptr:8) shown via explicit static true");
}

#[test]
fn tests_b_explicit_group_override_suppresses_idle_default() {
    let result = instantiated_false_widgets(&explicit_override_record());
    assert!(!result.contains(&5));
    assert!(!result.contains(&8));
}

#[test]
fn bb_state_filter_ungrouped_invert_does_not_trigger_idle_default() {
    let result = instantiated_false_widgets(&ungrouped_invert_record());
    assert!(!result.contains(&5), "ungrouped variable: NOT(false)=true, Header shown");
}

#[test]
fn tests_b_ungrouped_invert_does_not_trigger_idle_default() {
    let result = instantiated_false_widgets(&ungrouped_invert_record());
    assert!(!result.contains(&5));
}

#[test]
fn bb_state_filter_is_active_false_widget_is_filtered() {
    let rv = make_record_value(vec![], vec![variable_op(3, "state.Foo"), field_op(5, "IsActive", 3)]);
    let result = instantiated_false_widgets(&rv);
    assert!(result.contains(&5), "IsActive=false widget (ptr:5) must be filtered");
}

#[test]
fn tests_b_is_active_false_widget_is_filtered() {
    let rv = make_record_value(vec![], vec![variable_op(3, "state.Foo"), field_op(5, "IsActive", 3)]);
    let result = instantiated_false_widgets(&rv);
    assert!(result.contains(&5));
}

#[test]
fn bb_state_filter_visible_false_widget_is_filtered() {
    let rv = make_record_value(vec![], vec![variable_op(3, "state.ActorIsInBed"), field_op(7, "Visible", 3)]);
    let result = instantiated_false_widgets(&rv);
    assert!(result.contains(&7), "Visible=false widget (ptr:7) must be filtered");
}

#[test]
fn tests_b_visible_false_widget_is_filtered() {
    let rv = make_record_value(vec![], vec![variable_op(3, "state.ActorIsInBed"), field_op(7, "Visible", 3)]);
    let result = instantiated_false_widgets(&rv);
    assert!(result.contains(&7));
}

#[test]
fn bb_state_filter_unknown_field_is_not_filtered() {
    let rv = make_record_value(vec![], vec![variable_op(3, "state.SomeFlag"), field_op(9, "Text", 3)]);
    let result = instantiated_false_widgets(&rv);
    assert!(!result.contains(&9), "bindings to non-visibility fields must not filter the widget");
}

#[test]
fn tests_b_unknown_field_is_not_filtered() {
    let rv = make_record_value(vec![], vec![variable_op(3, "state.SomeFlag"), field_op(9, "Text", 3)]);
    let result = instantiated_false_widgets(&rv);
    assert!(!result.contains(&9));
}

#[test]
fn boolean_component_parameter_param_input_override_controls_visibility() {
    let rv = make_record_value(vec![], vec![component_param_field(Some(false))]);
    let no_override = instantiated_false_widgets_with_param_inputs(&rv, &[]);
    assert!(no_override.contains(&5), "defaultValue=false hides ptr:5 without an override");
    let with_override = instantiated_false_widgets_with_param_inputs(&rv, &[param_input(true)]);
    assert!(!with_override.contains(&5), "an override of true shows ptr:5");
}

#[test]
fn boolean_component_parameter_default_false_hides_is_active_without_override() {
    let rv = make_record_value(vec![], vec![component_param_field(Some(false))]);
    let no_override = instantiated_false_widgets_with_param_inputs(&rv, &[]);
    assert!(no_override.contains(&5));
    let with_false_override = instantiated_false_widgets_with_param_inputs(&rv, &[param_input(false)]);
    assert!(with_false_override.contains(&5));
    let with_override = instantiated_false_widgets_with_param_inputs(&rv, &[param_input(true)]);
    assert!(!with_override.contains(&5));
}

#[test]
fn boolean_component_parameter_missing_override_without_default_stays_visible() {
    let rv = make_record_value(vec![], vec![component_param_field(None)]);
    let no_override = instantiated_false_widgets_with_param_inputs(&rv, &[]);
    assert!(!no_override.contains(&5));
}

#[test]
fn bb_state_filter_non_state_variables_without_static_values_do_not_hide_widgets() {
    let result = instantiated_false_widgets(&sensor_and_record());
    assert!(!result.contains(&7), "non-state sensor variables without static defaults do not hide ptr:7");
}

#[test]
fn tests_b_non_state_variables_without_static_values_do_not_hide_widgets() {
    let result = instantiated_false_widgets(&sensor_and_record());
    assert!(!result.contains(&7));
}

// ── further scenarios ──

#[test]
fn inherited_binding_fills_unset_variable_but_not_static_one() {
    let rv = make_record_value(
        vec![static_var("state.Own", false)],
        vec![
            variable_op(1, "state.Own"),
            variable_op(2, "Parent/Flag"),
            field_op(10, "Visible", 1),
            field_op(11, "Visible", 2),
        ],
    );
    let mut inherited: Table<bool> = Table::new();
    inherited.insert("state.Own".chars().collect(), true);
    inherited.insert("Parent/Flag".chars().collect(), false);
    let result = instantiated_false_widgets_with_param_inputs_and_inherited_bindings(&rv, &[], &inherited);
    assert!(result.contains(&10), "the record's own static value wins over the inherited one");
    assert!(result.contains(&11), "the inherited false value hides the widget");
}

#[test]
fn resolved_bindings_report_static_and_idle_values() {
    let rv = make_record_value(
        vec![static_var("Power/On", true)],
        vec![
            variable_op(1, "Power/On"),
            variable_op(3, "state.BaseScreens.Attract"),
            variable_op(4, "state.BaseScreens.MainMenu"),
            boolean_field_op(5, 3),
            boolean_field_op(6, 4),
        ],
    );
    let inherited: Table<bool> = Table::new();
    let bindings = resolved_boolean_variable_bindings_with_param_inputs_and_inherited(&rv, &[], &inherited);
    let on: Vec<char> = "Power/On".chars().collect();
    let attract: Vec<char> = "state.BaseScreens.Attract".chars().collect();
    let menu: Vec<char> = "state.BaseScreens.MainMenu".chars().collect();
    assert_eq!(bindings.get(&on), Some(&true));
    assert_eq!(bindings.get(&attract), Some(&true), "the first direct variable is the idle default");
    assert_eq!(bindings.get(&menu), Some(&false));
}

#[test]
fn record_without_operations_array_hides_nothing() {
    let rv = obj(vec![("staticVariables", arr(vec![]))]);
    assert!(instantiated_false_widgets(&rv).is_empty());
}

#[test]
fn unresolved_component_parameter_keeps_non_instantiated_field_visible() {
    // A component parameter without override nor default evaluates to true;
    // inverted it is false, yet IsActive stays visible because the parameter
    // is unresolved.
    let rv = make_record_value(
        vec![],
        vec![
            obj(vec![
                ("_Pointer_", s("ptr:9")),
                ("_Type_", s("BuildingBlocks_BindingsBooleanComponentParameter")),
                ("parameter", s("Mystery")),
            ]),
            invert_op(6, 9),
            field_op(5, "IsActive", 6),
            boolean_field_op(7, 6),
        ],
    );
    let result = instantiated_false_widgets(&rv);
    assert!(!result.contains(&5));
    assert!(result.contains(&7), "Instantiated does not get the component-parameter exemption");
}

fn framing_ops(sibling_binding: &str) -> Vec<Json> {
    vec![
        obj(vec![
            ("_Pointer_", s("ptr:1")),
            ("_Type_", s("BuildingBlocks_BindingsBooleanInvert")),
            ("input", s("_PointsTo_:ptr:2")),
        ]),
        obj(vec![
            ("_Pointer_", s("ptr:2")),
            ("_Type_", s("BuildingBlocks_BindingsBooleanEvaluateOr")),
            ("inputs", arr(vec![s("_PointsTo_:ptr:3")])),
        ]),
        obj(vec![
            ("_Pointer_", s("ptr:3")),
            ("_Type_", s("BuildingBlocks_BindingsBooleanVariable")),
            ("binding", s("Menu.Open")),
        ]),
        obj(vec![
            ("_Pointer_", s("ptr:4")),
            ("_Type_", s("BuildingBlocks_BindingsBooleanField")),
            ("widget", s("_PointsTo_:ptr:50")),
            ("input", s("_PointsTo_:ptr:5")),
        ]),
        obj(vec![
            ("_Pointer_", s("ptr:5")),
            ("_Type_", s("BuildingBlocks_BindingsBooleanVariable")),
            ("binding", s(sibling_binding)),
        ]),
    ]
}

#[test]
fn framing_field_is_hidden_when_a_sibling_reads_one_of_its_variables() {
    let ops = framing_ops("Menu.Open");
    assert!(is_framing_hidden_set_field(&s("_PointsTo_:ptr:1"), 40, &ops));
    // The only field reading the variable is the widget itself.
    assert!(!is_framing_hidden_set_field(&s("_PointsTo_:ptr:1"), 50, &ops));
    // The input is not an inverted OR.
    assert!(!is_framing_hidden_set_field(&s("_PointsTo_:ptr:2"), 40, &ops));
    // The sibling reads another variable.
    assert!(!is_framing_hidden_set_field(&s("_PointsTo_:ptr:1"), 40, &framing_ops("Menu.Closed")));
}

#[test]
fn hidden_widgets_match_false_state_bindings() {
    let rv = make_record_value(
        vec![],
        vec![
            variable_op(3, "state.BaseScreens.Attract"),
            variable_op(4, "state.BaseScreens.MainMenu"),
            boolean_field_op(5, 3),
            boolean_field_op(6, 4),
        ],
    );
    let inherited: Table<bool> = Table::new();
    let hidden = instantiated_false_widgets_with_param_inputs_and_inherited_bindings(&rv, &[], &inherited);
    let bindings = resolved_boolean_variable_bindings_with_param_inputs_and_inherited(&rv, &[], &inherited);
    let attract: Vec<char> = "state.BaseScreens.Attract".chars().collect();
    let menu: Vec<char> = "state.BaseScreens.MainMenu".chars().collect();
    assert_eq!(hidden.contains(&5), bindings.get(&attract) == Some(&false));
    assert_eq!(hidden.contains(&6), bindings.get(&menu) == Some(&false));
    assert!(!hidden.contains(&5) && hidden.contains(&6));
}

#[test]
fn bindings_to_other_fields_never_hide() {
    let rv = make_record_value(vec![], vec![variable_op(3, "state.Off"), field_op(7, "Text", 3)]);
    assert!(instantiated_false_widgets(&rv).is_empty());
}

#[test]
fn listing_order_of_operations_does_not_change_the_result() {
    let ops = || {
        vec![
            variable_op(1, "Power/On"),
            or_op(2, &[1, 3]),
            variable_op(3, "Other/Flag"),
            and_op(4, &[2, 1]),
            boolean_field_op(10, 4),
            boolean_field_op(11, 3),
        ]
    };
    let mut reversed = ops();
    reversed.reverse();
    let a = instantiated_false_widgets(&make_record_value(vec![static_var("Power/On", true)], ops()));
    let b = instantiated_false_widgets(&make_record_value(vec![static_var("Power/On", true)], reversed));
    assert_eq!(a, b);
    assert!(!a.contains(&10) && a.contains(&11));
}
