//! Static visibility filter for BuildingBlocks canvases.
//!
//! A canvas that hosts several state sub-canvases (Attract, LogIn, MainMenu,
//! ...) binds each child's visibility field (`Instantiated`, `IsActive`,
//! `Visible`, `Enabled`) to a boolean expression over runtime variables held
//! in the record's `operations[]`. A static export has no runtime: the record's
//! `staticVariables[]` say which variables start true, every other variable
//! starts false, and the idle state of each mutual-exclusion group is chosen as
//! described in [`idle_defaults`]. This module evaluates every visibility field
//! under those defaults and reports the widgets that end up hidden.
//!
//! Capability flags (a binding with an `_SV` suffix) are names of their own:
//! they never switch on the active-mode variable of the same path.
use vstd::prelude::*;

pub mod component_params;
pub mod eval;
pub mod graph;
pub mod idle_defaults;
pub mod order;

use crate::bb_scene::pointers::{parse_ptr_chars, spec_parse_points_to, spec_parse_ptr};
use crate::bb_scene::types::BbNodeId;
use crate::bb_state_filter::component_params::{
    Probe, child_keys, contains_namespace_placeholder_variable, contains_non_boolean_runtime_binding,
    contains_unresolved_component_parameter, contains_unset_non_state_variable, lemma_probe_fields_absent,
    probe_local, probe_ref, spec_is_state_binding,
};
use crate::bb_state_filter::eval::{
    binding_of, eval_bool_ref, eval_ref, evaluate_bool_ops, lemma_op_for_ptr_index, lemma_ptr_in_set, lemma_var_evaluated, ptr_unique_at,
    parse_points_to_ptr_chars, spec_evaluate_bool_ops, type_chars, var_value,
};
use crate::bb_state_filter::graph::{OpIndex, lemma_ptr_set, op_for_ptr, ptr_of, type_of};
use crate::bb_state_filter::idle_defaults::{apply_idle_defaults, spec_apply_idle_defaults};
use crate::json::{Json, JsonV, array_at, bool_at, str_at, views};
use crate::strs::{chars_eq_str, copy_chars, eq_ignore_case, eq_ignore_case_str, lower, to_lower};
use crate::table::{Table, entries_map};

verus! {

broadcast use vstd::std_specs::hash::group_hash_axioms;

// ───────────────────────────── specification ─────────────────────────────

/// Name and value of a `staticVariables[]` entry: a missing name is empty, a
/// missing or non-boolean value is false.
pub open spec fn static_entry(e: JsonV) -> (Seq<char>, bool) {
    (
        match str_at(e, "name"@) {
            Some(n) => n,
            None => Seq::empty(),
        },
        match bool_at(e, "value"@) {
            Some(b) => b,
            None => false,
        },
    )
}

/// Static values declared by the first `k` entries; a later entry for a name
/// replaces an earlier one, and entries without a name are skipped.
pub open spec fn static_vars_upto(entries: Seq<JsonV>, k: int) -> Map<Seq<char>, bool>
    decreases k,
{
    if k <= 0 {
        Map::empty()
    } else {
        let m = static_vars_upto(entries, k - 1);
        let (name, value) = static_entry(entries[k - 1]);
        if name.len() > 0 {
            m.insert(name, value)
        } else {
            m
        }
    }
}

/// The static values a record declares in `staticVariables[]`.
pub open spec fn spec_static_variables(record: JsonV) -> Map<Seq<char>, bool> {
    match array_at(record, "staticVariables"@) {
        Some(a) => static_vars_upto(a, a.len() as int),
        None => Map::empty(),
    }
}

/// A boolean parameter input: its lower-cased parameter name and value, when
/// the entry's `_Type_` is `BuildingBlocks_ComponentParameterInputBoolean`
/// (ASCII case-insensitively) and it has a non-empty `parameter` and a
/// boolean `value`.
pub open spec fn param_entry(e: JsonV) -> Option<(Seq<char>, bool)> {
    if !eq_ignore_case(type_of(e), "BuildingBlocks_ComponentParameterInputBoolean"@) {
        None
    } else {
        match (str_at(e, "parameter"@), bool_at(e, "value"@)) {
            (Some(p), Some(v)) => if p.len() > 0 {
                Some((lower(p), v))
            } else {
                None
            },
            _ => None,
        }
    }
}

/// Parameter overrides given by the first `k` parameter inputs; a later input
/// for a name replaces an earlier one.
pub open spec fn param_inputs_upto(inputs: Seq<JsonV>, k: int) -> Map<Seq<char>, bool>
    decreases k,
{
    if k <= 0 {
        Map::empty()
    } else {
        let m = param_inputs_upto(inputs, k - 1);
        match param_entry(inputs[k - 1]) {
            Some((n, v)) => m.insert(n, v),
            None => m,
        }
    }
}

/// The boolean parameter overrides a parent passes in `paramInputValues`.
pub open spec fn spec_param_inputs(inputs: Seq<JsonV>) -> Map<Seq<char>, bool> {
    param_inputs_upto(inputs, inputs.len() as int)
}

/// The static values a filter starts from: the record's own, then for every
/// other variable the value inherited from the parent canvas.
pub open spec fn spec_initial_values(record: JsonV, inherited: Map<Seq<char>, bool>) -> Map<
    Seq<char>,
    bool,
> {
    inherited.union_prefer_right(spec_static_variables(record))
}

/// The four visibility fields.
pub open spec fn is_visibility_field(f: Seq<char>) -> bool {
    f == "Instantiated"@ || f == "IsActive"@ || f == "Visible"@ || f == "Enabled"@
}

/// The widget a field operation targets: a `"_PointsTo_:ptr:N"` string, or an
/// inline object with `_Pointer_: "ptr:N"`.
pub open spec fn widget_ptr(w: Option<JsonV>) -> Option<u32> {
    match w {
        Some(JsonV::Str(s)) => spec_parse_points_to(s),
        Some(JsonV::Object(_)) => match str_at(w->0, "_Pointer_"@) {
            Some(p) => spec_parse_ptr(p),
            None => None,
        },
        _ => None,
    }
}

/// Whether a visibility field bound to `input` is shown.
///
/// The expression's value decides. Without a value, `Instantiated` is hidden
/// and the other fields are shown. A hidden non-`Instantiated` field that
/// reads an unresolved component parameter is shown. A hidden field that reads
/// an unset non-state variable is shown, except that `Instantiated` is then
/// shown only when the expression holds a namespace placeholder variable, or,
/// when it had no value, a placeholder or a non-boolean runtime binding.
pub open spec fn field_shown(
    field: Seq<char>,
    input: JsonV,
    ops: Seq<JsonV>,
    sv: Map<Seq<char>, bool>,
    po: Map<Seq<char>, bool>,
    pv: Map<u32, bool>,
) -> bool {
    let inst = field == "Instantiated"@;
    let ev = eval_ref(input, pv, ops, sv, po, Set::empty()).0;
    let val0 = match ev {
        Some(b) => b,
        None => !inst,
    };
    let ucp = probe_ref(Probe::UnresolvedComponentParameter, input, ops, Map::empty(), po, Set::empty()).0;
    let val1 = if !val0 && !inst && ucp {
        true
    } else {
        val0
    };
    if val1 {
        true
    } else if !probe_ref(Probe::UnsetNonState, input, ops, sv, Map::empty(), Set::empty()).0 {
        false
    } else {
        let ns = probe_ref(Probe::NamespacePlaceholder, input, ops, Map::empty(), Map::empty(), Set::empty()).0;
        if inst && ev is Some {
            ns
        } else if inst {
            ns || probe_ref(Probe::NonBooleanRuntime, input, ops, Map::empty(), Map::empty(), Set::empty()).0
        } else {
            true
        }
    }
}

/// The widget an operation hides: a visibility-field operation on a widget,
/// with an input, whose field is not shown.
pub open spec fn hidden_widget(
    op: JsonV,
    ops: Seq<JsonV>,
    sv: Map<Seq<char>, bool>,
    po: Map<Seq<char>, bool>,
    pv: Map<u32, bool>,
) -> Option<u32> {
    let field = match str_at(op, "field"@) {
        Some(f) => f,
        None => Seq::empty(),
    };
    if type_of(op) != "BuildingBlocks_BindingsBooleanField"@ || !is_visibility_field(field) {
        None
    } else {
        match (widget_ptr(op.field("widget"@)), op.field("input"@)) {
            (Some(w), Some(input)) => if field_shown(field, input, ops, sv, po, pv) {
                None
            } else {
                Some(w)
            },
            _ => None,
        }
    }
}

/// Widgets hidden by the first `k` operations.
pub open spec fn hidden_upto(
    ops: Seq<JsonV>,
    sv: Map<Seq<char>, bool>,
    po: Map<Seq<char>, bool>,
    pv: Map<u32, bool>,
    k: int,
) -> Set<u32>
    decreases k,
{
    if k <= 0 {
        Set::empty()
    } else {
        let s = hidden_upto(ops, sv, po, pv, k - 1);
        match hidden_widget(ops[k - 1], ops, sv, po, pv) {
            Some(w) => s.insert(w),
            None => s,
        }
    }
}

/// Static values after idle defaults, for the operations of a record.
pub open spec fn spec_effective_values(ops: Seq<JsonV>, record: JsonV, inherited: Map<Seq<char>, bool>) -> Map<
    Seq<char>,
    bool,
> {
    spec_apply_idle_defaults(ops, spec_initial_values(record, inherited))
}

/// The widgets a record hides under static defaults.
pub open spec fn spec_false_widgets(
    record: JsonV,
    param_inputs: Seq<JsonV>,
    inherited: Map<Seq<char>, bool>,
) -> Set<u32> {
    match array_at(record, "operations"@) {
        None => Set::empty(),
        Some(ops) => {
            let sv = spec_effective_values(ops, record, inherited);
            hidden_upto(ops, sv, spec_param_inputs(param_inputs), spec_evaluate_bool_ops(ops, sv), ops.len() as int)
        },
    }
}

/// The value a boolean-variable operation contributes to the resolved
/// bindings: its binding and its evaluated value.
pub open spec fn variable_binding(op: JsonV, pv: Map<u32, bool>) -> Option<(Seq<char>, bool)> {
    if type_of(op) != "BuildingBlocks_BindingsBooleanVariable"@ {
        None
    } else {
        match (ptr_of(op), str_at(op, "binding"@)) {
            (Some(p), Some(b)) => if pv.contains_key(p) {
                Some((b, pv[p]))
            } else {
                None
            },
            _ => None,
        }
    }
}

/// Bindings resolved by the first `k` operations; the first value of a
/// binding is kept.
pub open spec fn bindings_upto(ops: Seq<JsonV>, pv: Map<u32, bool>, k: int) -> Map<Seq<char>, bool>
    decreases k,
{
    if k <= 0 {
        Map::empty()
    } else {
        let m = bindings_upto(ops, pv, k - 1);
        match variable_binding(ops[k - 1], pv) {
            Some((b, v)) => if m.contains_key(b) {
                m
            } else {
                m.insert(b, v)
            },
            None => m,
        }
    }
}

/// The boolean variable bindings of a record under static defaults.
pub open spec fn spec_resolved_bindings(
    record: JsonV,
    inherited: Map<Seq<char>, bool>,
) -> Map<Seq<char>, bool> {
    match array_at(record, "operations"@) {
        None => Map::empty(),
        Some(ops) => {
            let sv = spec_effective_values(ops, record, inherited);
            bindings_upto(ops, spec_evaluate_bool_ops(ops, sv), ops.len() as int)
        },
    }
}

// ───────────────────────────── laws ─────────────────────────────

proof fn lemma_hidden_upto_members(
    ops: Seq<JsonV>,
    sv: Map<Seq<char>, bool>,
    po: Map<Seq<char>, bool>,
    pv: Map<u32, bool>,
    k: int,
    w: u32,
)
    requires
        0 <= k <= ops.len(),
    ensures
        hidden_upto(ops, sv, po, pv, k).contains(w) <==> exists|i: int|
            0 <= i < k && #[trigger] hidden_widget(ops[i], ops, sv, po, pv) == Some(w),
    decreases k,
{
    if k > 0 {
        lemma_hidden_upto_members(ops, sv, po, pv, k - 1, w);
        if hidden_upto(ops, sv, po, pv, k).contains(w) && hidden_widget(ops[k - 1], ops, sv, po, pv) != Some(
            w,
        ) {
            let i = choose|i: int| 0 <= i < k - 1 && #[trigger] hidden_widget(ops[i], ops, sv, po, pv) == Some(w);
        }
    }
}

/// A widget is reported hidden exactly when some operation of the record is
/// a visibility field of that widget whose value is not shown; a record
/// without operations hides nothing.
pub proof fn lemma_false_widgets_are_hidden_fields(
    record: JsonV,
    param_inputs: Seq<JsonV>,
    inherited: Map<Seq<char>, bool>,
    w: u32,
)
    ensures
        match array_at(record, "operations"@) {
            None => !spec_false_widgets(record, param_inputs, inherited).contains(w),
            Some(ops) => {
                let sv = spec_effective_values(ops, record, inherited);
                spec_false_widgets(record, param_inputs, inherited).contains(w) <==> exists|i: int|
                    0 <= i < ops.len() && #[trigger] hidden_widget(
                        ops[i],
                        ops,
                        sv,
                        spec_param_inputs(param_inputs),
                        spec_evaluate_bool_ops(ops, sv),
                    ) == Some(w)
            },
        },
{
    match array_at(record, "operations"@) {
        None => {},
        Some(ops) => {
            let sv = spec_effective_values(ops, record, inherited);
            lemma_hidden_upto_members(
                ops,
                sv,
                spec_param_inputs(param_inputs),
                spec_evaluate_bool_ops(ops, sv),
                ops.len() as int,
                w,
            );
        },
    }
}

/// A `BuildingBlocks_BindingsBooleanField` operation on a visibility field
/// of widget `w`.
pub open spec fn visibility_field_on(op: JsonV, w: u32) -> bool {
    &&& type_of(op) == "BuildingBlocks_BindingsBooleanField"@
    &&& str_at(op, "field"@) is Some
    &&& is_visibility_field(str_at(op, "field"@)->0)
    &&& widget_ptr(op.field("widget"@)) == Some(w)
}

/// A resolved binding entry on binding `b`.
pub open spec fn binds(o: Option<(Seq<char>, bool)>, b: Seq<char>) -> bool {
    o is Some && (o->0).0 == b
}

/// Only a visibility field hides a widget: every widget reported hidden is
/// the widget of a `BuildingBlocks_BindingsBooleanField` operation of the
/// record on `Instantiated`, `IsActive`, `Visible` or `Enabled`; a record
/// without an `operations` array hides nothing.
pub proof fn lemma_hiding_needs_visibility_field(
    record: JsonV,
    param_inputs: Seq<JsonV>,
    inherited: Map<Seq<char>, bool>,
    w: u32,
)
    requires
        spec_false_widgets(record, param_inputs, inherited).contains(w),
    ensures
        array_at(record, "operations"@) is Some,
        exists|i: int|
            0 <= i < array_at(record, "operations"@)->0.len() && #[trigger] visibility_field_on(
                array_at(record, "operations"@)->0[i],
                w,
            ),
{
    lemma_false_widgets_are_hidden_fields(record, param_inputs, inherited, w);
    let ops = array_at(record, "operations"@)->0;
    let sv = spec_effective_values(ops, record, inherited);
    let i = choose|i: int|
        0 <= i < ops.len() && #[trigger] hidden_widget(
            ops[i],
            ops,
            sv,
            spec_param_inputs(param_inputs),
            spec_evaluate_bool_ops(ops, sv),
        ) == Some(w);
    let op = ops[i];
    let po = spec_param_inputs(param_inputs);
    let pv = spec_evaluate_bool_ops(ops, sv);
    assert(type_of(op) == "BuildingBlocks_BindingsBooleanField"@);
    reveal_strlit("Instantiated");
    reveal_strlit("IsActive");
    reveal_strlit("Visible");
    reveal_strlit("Enabled");
    assert(str_at(op, "field"@) is Some);
    assert(is_visibility_field(str_at(op, "field"@)->0));
    assert(widget_ptr(op.field("widget"@)) == Some(w));
    assert(visibility_field_on(ops[i], w));
}

/// The state filter and the resolved bindings agree. Take a boolean-variable
/// operation on a `state.` binding `b`, with no inputs of its own, whose
/// pointer no other operation declares (nor that of any other variable
/// operation on `b`), and a widget whose only boolean-field operation sets
/// `Instantiated` from that pointer: the widget is hidden exactly when `b`
/// resolves to false.
pub proof fn lemma_bindings_agree_with_filter(
    record: JsonV,
    param_inputs: Seq<JsonV>,
    inherited: Map<Seq<char>, bool>,
    ops: Seq<JsonV>,
    v: int,
    f: int,
    w: u32,
)
    requires
        array_at(record, "operations"@) == Some(ops),
        0 <= v < ops.len(),
        ptr_unique_at(ops, v),
        forall|i: int|
            0 <= i < ops.len() && type_of(#[trigger] ops[i]) == "BuildingBlocks_BindingsBooleanVariable"@ && str_at(
                ops[i],
                "binding"@,
            ) == Some(binding_of(ops[v])) && ptr_of(ops[i]) is Some ==> ptr_unique_at(ops, i),
        type_of(ops[v]) == "BuildingBlocks_BindingsBooleanVariable"@,
        ptr_of(ops[v]) is Some,
        str_at(ops[v], "binding"@) is Some,
        spec_is_state_binding(binding_of(ops[v])),
        forall|k: int| 0 <= k < child_keys().len() ==> ops[v].field(#[trigger] child_keys()[k]) is None,
        ops[v].field("inputs"@) is None,
        0 <= f < ops.len(),
        type_of(ops[f]) == "BuildingBlocks_BindingsBooleanField"@,
        str_at(ops[f], "field"@) == Some("Instantiated"@),
        widget_ptr(ops[f].field("widget"@)) == Some(w),
        ops[f].field("input"@) matches Some(JsonV::Str(s)) && spec_parse_points_to(s) == ptr_of(ops[v]),
        forall|i: int|
            0 <= i < ops.len() && type_of(#[trigger] ops[i]) == "BuildingBlocks_BindingsBooleanField"@
                && widget_ptr(ops[i].field("widget"@)) == Some(w) ==> i == f,
    ensures
        spec_false_widgets(record, param_inputs, inherited).contains(w) <==> (spec_resolved_bindings(
            record,
            inherited,
        ).contains_key(binding_of(ops[v])) && !spec_resolved_bindings(record, inherited)[binding_of(ops[v])]),
{
    let n = ops.len() as int;
    let sv = spec_effective_values(ops, record, inherited);
    let pv = spec_evaluate_bool_ops(ops, sv);
    let po = spec_param_inputs(param_inputs);
    let p = ptr_of(ops[v])->0;
    let b = binding_of(ops[v]);
    let val = var_value(sv, b);
    lemma_var_evaluated(ops, sv, v);
    // Every boolean-variable operation on `b` resolves to `val`.
    assert forall|i: int| 0 <= i < n && binds(#[trigger] variable_binding(ops[i], pv), b)
        implies (variable_binding(ops[i], pv)->0).1 == val by {
        lemma_var_evaluated(ops, sv, i);
        assert(binding_of(ops[i]) == b);
    }
    lemma_bindings_value(ops, pv, n, b, val);
    assert(variable_binding(ops[v], pv) == Some((b, val)));
    // The filter side.
    lemma_false_widgets_are_hidden_fields(record, param_inputs, inherited, w);
    let input = ops[f].field("input"@)->0;
    assert(eval_ref(input, pv, ops, sv, po, Set::empty()).0 == Some(val));
    lemma_ptr_in_set(ops, v);
    lemma_ptr_set(ops, p);
    lemma_op_for_ptr_index(ops, p);
    let j = choose|j: int| 0 <= j < n && ops[j] == op_for_ptr(ops, p)->0 && #[trigger] ptr_of(ops[j]) == Some(p);
    if j != v {
        assert(ptr_of(ops[j]) != ptr_of(ops[v]));
    }
    assert forall|k: int| 0 <= k < child_keys().len() implies ops[v].field(#[trigger] child_keys()[k]) is None by {}
    lemma_probe_fields_absent(Probe::UnsetNonState, ops[v], child_keys(), ops, sv, Map::empty(), Set::empty().insert(p));
    assert(ops[v] is Object);
    assert(probe_local(Probe::UnsetNonState, ops[v], sv, Map::empty()) is None);
    assert(!probe_ref(Probe::UnsetNonState, ops[v], ops, sv, Map::empty(), Set::empty().insert(p)).0);
    assert(op_for_ptr(ops, p) == Some(ops[v]));
    assert(!probe_ref(Probe::UnsetNonState, input, ops, sv, Map::empty(), Set::empty()).0);
    if val {
        assert(hidden_widget(ops[f], ops, sv, po, pv) is None);
    } else {
        assert(hidden_widget(ops[f], ops, sv, po, pv) == Some(w));
    }
    if spec_false_widgets(record, param_inputs, inherited).contains(w) {
        let i = choose|i: int| 0 <= i < n && #[trigger] hidden_widget(ops[i], ops, sv, po, pv) == Some(w);
        assert(i == f);
    }
}

proof fn lemma_bindings_value(ops: Seq<JsonV>, pv: Map<u32, bool>, k: int, b: Seq<char>, x: bool)
    requires
        0 <= k <= ops.len(),
        forall|i: int| 0 <= i < k && binds(#[trigger] variable_binding(ops[i], pv), b) ==> (variable_binding(ops[i], pv)->0).1 == x,
    ensures
        bindings_upto(ops, pv, k).contains_key(b) ==> bindings_upto(ops, pv, k)[b] == x,
        forall|i: int| 0 <= i < k && binds(#[trigger] variable_binding(ops[i], pv), b) ==> bindings_upto(ops, pv, k).contains_key(b),
    decreases k,
{
    if k > 0 {
        lemma_bindings_value(ops, pv, k - 1, b, x);
    }
}

/// A boolean field on `Instantiated`, `IsActive`, `Visible` or `Enabled`
/// whose input evaluates to false under the static values hides its widget,
/// when the input reads no unset non-state variable and no unresolved
/// component parameter.
pub proof fn lemma_false_visibility_field_hides(
    record: JsonV,
    param_inputs: Seq<JsonV>,
    inherited: Map<Seq<char>, bool>,
    ops: Seq<JsonV>,
    i: int,
    w: u32,
)
    requires
        array_at(record, "operations"@) == Some(ops),
        0 <= i < ops.len(),
        type_of(ops[i]) == "BuildingBlocks_BindingsBooleanField"@,
        str_at(ops[i], "field"@) == Some("Instantiated"@) || str_at(ops[i], "field"@) == Some("IsActive"@) || str_at(
            ops[i],
            "field"@,
        ) == Some("Visible"@) || str_at(ops[i], "field"@) == Some("Enabled"@),
        widget_ptr(ops[i].field("widget"@)) == Some(w),
        ops[i].field("input"@) is Some,
        eval_ref(
            ops[i].field("input"@)->0,
            spec_evaluate_bool_ops(ops, spec_effective_values(ops, record, inherited)),
            ops,
            spec_effective_values(ops, record, inherited),
            spec_param_inputs(param_inputs),
            Set::empty(),
        ).0 == Some(false),
        !probe_ref(
            Probe::UnsetNonState,
            ops[i].field("input"@)->0,
            ops,
            spec_effective_values(ops, record, inherited),
            Map::empty(),
            Set::empty(),
        ).0,
        !probe_ref(
            Probe::UnresolvedComponentParameter,
            ops[i].field("input"@)->0,
            ops,
            Map::empty(),
            spec_param_inputs(param_inputs),
            Set::empty(),
        ).0,
    ensures
        spec_false_widgets(record, param_inputs, inherited).contains(w),
{
    let sv = spec_effective_values(ops, record, inherited);
    let pv = spec_evaluate_bool_ops(ops, sv);
    let po = spec_param_inputs(param_inputs);
    reveal_strlit("Instantiated");
    reveal_strlit("IsActive");
    reveal_strlit("Visible");
    reveal_strlit("Enabled");
    assert(hidden_widget(ops[i], ops, sv, po, pv) == Some(w));
    lemma_false_widgets_are_hidden_fields(record, param_inputs, inherited, w);
}

/// A visibility field whose expression evaluates to true never hides its
/// widget.
pub proof fn lemma_true_field_not_hidden(
    op: JsonV,
    ops: Seq<JsonV>,
    sv: Map<Seq<char>, bool>,
    po: Map<Seq<char>, bool>,
    pv: Map<u32, bool>,
)
    requires
        op.field("input"@) is Some,
        eval_ref(op.field("input"@)->0, pv, ops, sv, po, Set::empty()).0 == Some(true),
    ensures
        hidden_widget(op, ops, sv, po, pv) is None,
{
}

/// The record's own static values win over inherited ones; an inherited
/// value fills only a variable the record leaves unset.
pub proof fn lemma_own_values_win(record: JsonV, inherited: Map<Seq<char>, bool>, k: Seq<char>)
    ensures
        spec_static_variables(record).contains_key(k) ==> spec_initial_values(record, inherited).contains_key(k)
            && spec_initial_values(record, inherited)[k] == spec_static_variables(record)[k],
        !spec_static_variables(record).contains_key(k) ==> (spec_initial_values(record, inherited).contains_key(
            k,
        ) == inherited.contains_key(k)),
        !spec_static_variables(record).contains_key(k) && inherited.contains_key(k) ==> spec_initial_values(
            record,
            inherited,
        )[k] == inherited[k],
{
}

// ───────────────────────────── exec ─────────────────────────────

/// Parse `staticVariables[]` into a table from variable name to value.
///
/// Names are kept verbatim: a capability flag (`_SV` suffix) is a key of its
/// own and never aliases the active-mode variable of the same path.
pub fn parse_static_variables(record_value: &Json) -> (r: Table<bool>)
    ensures
        r@ == spec_static_variables(record_value@),
{
    let mut map: Table<bool> = Table::new();
    let arr = match record_value.array_field("staticVariables") {
        Some(a) => a,
        None => {
            return map;
        },
    };
    let ghost s = views(arr@);
    let mut i: usize = 0;
    while i < arr.len()
        invariant
            i <= arr@.len(),
            s == views(arr@),
            map@ == static_vars_upto(s, i as int),
        decreases arr@.len() - i,
    {
        let e = &arr[i];
        assert(s[i as int] == e@);
        let name = match e.str_field("name") {
            Some(n) => n,
            None => Vec::new(),
        };
        let val = match e.bool_field("value") {
            Some(b) => b,
            None => false,
        };
        if name.len() > 0 {
            map.insert(name, val);
        }
        i += 1;
    }
    map
}

/// Parse a parent's `paramInputValues` into boolean parameter overrides keyed
/// by lower-cased parameter name.
pub fn parse_boolean_param_inputs(param_inputs: &[Json]) -> (r: Table<bool>)
    ensures
        r@ == spec_param_inputs(views(param_inputs@)),
{
    let mut out: Table<bool> = Table::new();
    let ghost s = views(param_inputs@);
    let mut i: usize = 0;
    while i < param_inputs.len()
        invariant
            i <= param_inputs@.len(),
            s == views(param_inputs@),
            out@ == param_inputs_upto(s, i as int),
        decreases param_inputs@.len() - i,
    {
        let e = &param_inputs[i];
        assert(s[i as int] == e@);
        let ty = type_chars(e);
        if eq_ignore_case_str(ty.as_slice(), "BuildingBlocks_ComponentParameterInputBoolean") {
            match (e.str_field("parameter"), e.bool_field("value")) {
                (Some(p), Some(v)) => {
                    if p.len() > 0 {
                        out.insert(to_lower(p.as_slice()), v);
                    }
                },
                _ => {},
            }
        }
        i += 1;
    }
    out
}

/// Give every variable without a static value the value inherited from the
/// parent canvas.
pub fn merge_inherited(static_vals: &mut Table<bool>, inherited: &Table<bool>)
    ensures
        final(static_vals)@ == inherited@.union_prefer_right(old(static_vals)@),
{
    let ghost sv0 = static_vals@;
    let ghost ents = inherited.entries@;
    proof {
        crate::table::lemma_entry_seq(inherited);
    }
    let n = inherited.entries.len();
    let mut i: usize = n;
    assert(ents.subrange(n as int, n as int) =~= Seq::<(Vec<char>, bool)>::empty());
    assert(static_vals@ =~= entries_map(ents.subrange(n as int, n as int)).union_prefer_right(sv0));
    while i > 0
        invariant
            i <= n,
            n == ents.len(),
            ents == inherited.entries@,
            static_vals@ == entries_map(ents.subrange(i as int, n as int)).union_prefer_right(sv0),
        decreases i,
    {
        let ghost t = ents.subrange(i as int, n as int);
        assert(ents.subrange(i - 1, n as int) =~= seq![ents[i - 1]] + t);
        proof {
            crate::table::lemma_entries_map_front(ents[i - 1], t);
        }
        let key = copy_chars(inherited.entries[i - 1].0.as_slice());
        let value = inherited.entries[i - 1].1;
        static_vals.or_insert(key, value);
        assert(static_vals@ =~= entries_map(ents.subrange(i - 1, n as int)).union_prefer_right(sv0));
        i -= 1;
    }
    assert(ents.subrange(0, n as int) =~= ents);
}

/// The widget a `widget` reference names: a `"_PointsTo_:ptr:N"` string or an
/// inline object with a `_Pointer_`.
pub fn parse_points_to_ptr_value(v: Option<&Json>) -> (r: Option<BbNodeId>)
    ensures
        r == widget_ptr(crate::json::opt_view(v)),
{
    match v {
        Some(Json::String(s)) => {
            let c = crate::strs::chars_of(s.as_str());
            parse_points_to_ptr_chars(c.as_slice())
        },
        Some(Json::Object(_)) => {
            let obj = v.unwrap();
            match obj.str_field("_Pointer_") {
                Some(p) => parse_ptr_chars(p.as_slice()),
                None => None,
            }
        },
        _ => None,
    }
}

/// Whether a visibility field bound to `input` is shown (see [`field_shown`]).
fn field_shown_exec(
    field: &[char],
    input: &Json,
    index: &OpIndex,
    static_vals: &Table<bool>,
    param_overrides: &Table<bool>,
    ptr_vals: &std::collections::HashMap<BbNodeId, bool>,
) -> (r: bool)
    requires
        index.wf(),
    ensures
        r == field_shown(field@, input@, index.opsv(), static_vals@, param_overrides@, ptr_vals@),
{
    let inst = chars_eq_str(field, "Instantiated");
    let mut visiting: std::collections::HashSet<BbNodeId> = std::collections::HashSet::new();
    let eval = eval_bool_ref(input, ptr_vals, index, static_vals, param_overrides, &mut visiting);
    // Unknown expressions: `Instantiated` stays hidden so that unknown state
    // canvases are not merged; the other fields stay shown so that runtime
    // gated cards are not lost.
    let mut val = match eval {
        Some(b) => b,
        None => !inst,
    };
    if !val {
        let mut seen: std::collections::HashSet<BbNodeId> = std::collections::HashSet::new();
        let ucp = contains_unresolved_component_parameter(input, index, param_overrides, &mut seen);
        if !inst && ucp {
            val = true;
        }
    }
    if !val {
        let mut seen: std::collections::HashSet<BbNodeId> = std::collections::HashSet::new();
        let unset = contains_unset_non_state_variable(input, index, static_vals, &mut seen);
        if unset {
            let mut seen_ns: std::collections::HashSet<BbNodeId> = std::collections::HashSet::new();
            let ns = contains_namespace_placeholder_variable(input, index, &mut seen_ns);
            if inst && eval.is_some() {
                val = ns;
            } else if inst {
                let mut seen_nb: std::collections::HashSet<BbNodeId> = std::collections::HashSet::new();
                let nbr = contains_non_boolean_runtime_binding(input, index, &mut seen_nb);
                val = ns || nbr;
            } else {
                val = true;
            }
        }
    }
    val
}

/// The widget an operation hides (see [`hidden_widget`]).
fn hidden_widget_exec(
    op: &Json,
    index: &OpIndex,
    static_vals: &Table<bool>,
    param_overrides: &Table<bool>,
    ptr_vals: &std::collections::HashMap<BbNodeId, bool>,
) -> (r: Option<BbNodeId>)
    requires
        index.wf(),
    ensures
        r == hidden_widget(op@, index.opsv(), static_vals@, param_overrides@, ptr_vals@),
{
    let ty = type_chars(op);
    if !chars_eq_str(ty.as_slice(), "BuildingBlocks_BindingsBooleanField") {
        return None;
    }
    let field = match op.str_field("field") {
        Some(f) => f,
        None => Vec::new(),
    };
    let f = field.as_slice();
    if !(chars_eq_str(f, "Instantiated") || chars_eq_str(f, "IsActive") || chars_eq_str(f, "Visible")
        || chars_eq_str(f, "Enabled")) {
        return None;
    }
    let widget = match parse_points_to_ptr_value(op.get("widget")) {
        Some(w) => w,
        None => {
            return None;
        },
    };
    let input = match op.get("input") {
        Some(i) => i,
        None => {
            return None;
        },
    };
    if field_shown_exec(f, input, index, static_vals, param_overrides, ptr_vals) {
        None
    } else {
        Some(widget)
    }
}

/// The widgets whose visibility field evaluates to false under static
/// defaults: their sub-canvases should not be followed.
///
/// A widget whose visibility has no binding, or whose binding evaluates to
/// true, is not in the set.
pub fn instantiated_false_widgets(record_value: &Json) -> (r: std::collections::HashSet<BbNodeId>)
    ensures
        r@ == spec_false_widgets(record_value@, Seq::empty(), Map::empty()),
{
    let none: [Json; 0] = [];
    assert(views(none@) =~= Seq::<JsonV>::empty());
    instantiated_false_widgets_with_param_inputs(record_value, &none)
}

/// Like [`instantiated_false_widgets`], with boolean component parameter
/// overrides from the parent's `paramInputValues`.
pub fn instantiated_false_widgets_with_param_inputs(record_value: &Json, param_inputs: &[Json]) -> (r:
    std::collections::HashSet<BbNodeId>)
    ensures
        r@ == spec_false_widgets(record_value@, views(param_inputs@), Map::empty()),
{
    let inherited: Table<bool> = Table::new();
    instantiated_false_widgets_with_param_inputs_and_inherited_bindings(record_value, param_inputs, &inherited)
}

/// Like [`instantiated_false_widgets_with_param_inputs`], with boolean values
/// inherited from parent canvases for variables the record leaves unset.
pub fn instantiated_false_widgets_with_param_inputs_and_inherited_bindings(
    record_value: &Json,
    param_inputs: &[Json],
    inherited_bindings: &Table<bool>,
) -> (r: std::collections::HashSet<BbNodeId>)
    ensures
        r@ == spec_false_widgets(record_value@, views(param_inputs@), inherited_bindings@),
{
    let mut static_vals = parse_static_variables(record_value);
    merge_inherited(&mut static_vals, inherited_bindings);
    let param_overrides = parse_boolean_param_inputs(param_inputs);
    let ops = match record_value.array_field("operations") {
        Some(a) => a,
        None => {
            return std::collections::HashSet::new();
        },
    };
    let index = OpIndex::build(ops.as_slice());
    let ghost opsv = index.opsv();
    assert(opsv == views(ops@));
    apply_idle_defaults(&index, &mut static_vals);
    let ptr_vals = evaluate_bool_ops(&index, &static_vals);
    let mut false_set: std::collections::HashSet<BbNodeId> = std::collections::HashSet::new();
    let mut i: usize = 0;
    while i < ops.len()
        invariant
            index.wf(),
            opsv == index.opsv(),
            opsv == views(ops@),
            i <= ops@.len(),
            false_set@ == hidden_upto(opsv, static_vals@, param_overrides@, ptr_vals@, i as int),
        decreases ops@.len() - i,
    {
        assert(opsv[i as int] == ops@[i as int]@);
        match hidden_widget_exec(&ops[i], &index, &static_vals, &param_overrides, &ptr_vals) {
            Some(w) => {
                false_set.insert(w);
            },
            None => {},
        }
        i += 1;
    }
    false_set
}

/// All boolean variable bindings of a canvas under the static defaults used
/// by the visibility filter; the first operation naming a binding decides its
/// value.
pub fn resolved_boolean_variable_bindings_with_param_inputs_and_inherited(
    record_value: &Json,
    param_inputs: &[Json],
    inherited_bindings: &Table<bool>,
) -> (r: Table<bool>)
    ensures
        r@ == spec_resolved_bindings(record_value@, inherited_bindings@),
{
    let mut out: Table<bool> = Table::new();
    let mut static_vals = parse_static_variables(record_value);
    merge_inherited(&mut static_vals, inherited_bindings);
    let _param_overrides = parse_boolean_param_inputs(param_inputs);
    let ops = match record_value.array_field("operations") {
        Some(a) => a,
        None => {
            return out;
        },
    };
    let index = OpIndex::build(ops.as_slice());
    let ghost opsv = index.opsv();
    assert(opsv == views(ops@));
    apply_idle_defaults(&index, &mut static_vals);
    let ptr_vals = evaluate_bool_ops(&index, &static_vals);
    let mut i: usize = 0;
    while i < ops.len()
        invariant
            opsv == views(ops@),
            i <= ops@.len(),
            out@ == bindings_upto(opsv, ptr_vals@, i as int),
        decreases ops@.len() - i,
    {
        let op = &ops[i];
        assert(opsv[i as int] == op@);
        let ty = type_chars(op);
        if chars_eq_str(ty.as_slice(), "BuildingBlocks_BindingsBooleanVariable") {
            let ptr = match op.str_field("_Pointer_") {
                Some(p) => parse_ptr_chars(p.as_slice()),
                None => None,
            };
            match (ptr, op.str_field("binding")) {
                (Some(p), Some(b)) => {
                    match ptr_vals.get(&p) {
                        Some(v) => {
                            out.or_insert(b, *v);
                        },
                        None => {},
                    }
                },
                _ => {},
            }
        }
        i += 1;
    }
    out
}

} // verus!
