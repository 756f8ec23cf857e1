//! Evaluation of the boolean binding graph under static defaults.
use vstd::prelude::*;

use crate::bb_scene::pointers::{lemma_points_to_prefix, spec_parse_points_to, spec_parse_ptr};
use crate::bb_scene::types::BbNodeId;
use crate::bb_state_filter::graph::{
    OpIndex, lemma_ptr_set, lemma_unvisited_shrinks, op_for_ptr, ptr_of, ptr_set, type_of, unvisited,
};
use crate::json::{
    Json, JsonV, array_at, bool_at, jsize, lemma_field_smaller, lemma_seq_elem_smaller, seq_size,
    str_at, views,
};
use crate::strs::{chars_eq_str, chars_of, lower, parse_u32_exec, strip_prefix_str, to_lower};
use crate::table::Table;

verus! {

broadcast use vstd::std_specs::hash::group_hash_axioms;

/// Value of a boolean variable under static defaults: unknown variables are false.
pub open spec fn var_value(sv: Map<Seq<char>, bool>, b: Seq<char>) -> bool {
    if sv.contains_key(b) {
        sv[b]
    } else {
        false
    }
}

/// `binding` of a value (empty when absent).
pub open spec fn binding_of(v: JsonV) -> Seq<char> {
    match str_at(v, "binding"@) {
        Some(s) => s,
        None => Seq::empty(),
    }
}

/// The pointer a `"_PointsTo_:ptr:N"` string value refers to.
pub open spec fn points_to_of(v: JsonV) -> Option<u32> {
    match v.str_view() {
        Some(s) => spec_parse_points_to(s),
        None => None,
    }
}

/// Or / And of the already-known values of a list of pointer references;
/// `None` unless every element is a pointer with a known value.
pub open spec fn list_value(inputs: Seq<JsonV>, m: Map<u32, bool>, is_or: bool) -> Option<bool>
    decreases inputs.len(),
{
    if inputs.len() == 0 {
        Some(!is_or)
    } else {
        match points_to_of(inputs[0]) {
            Some(p) => if m.contains_key(p) {
                match list_value(inputs.drop_first(), m, is_or) {
                    Some(r) => Some(
                        if is_or {
                            m[p] || r
                        } else {
                            m[p] && r
                        },
                    ),
                    None => None,
                }
            } else {
                None
            },
            None => None,
        }
    }
}

/// The value of one operation given the pointer values known so far.
pub open spec fn op_value(op: JsonV, sv: Map<Seq<char>, bool>, m: Map<u32, bool>) -> Option<bool> {
    let ty = type_of(op);
    if ty == "BuildingBlocks_BindingsBooleanVariable"@ {
        Some(var_value(sv, binding_of(op)))
    } else if ty == "BuildingBlocks_BindingsBooleanInvert"@ {
        match str_at(op, "input"@) {
            Some(s) => match spec_parse_points_to(s) {
                Some(p) => if m.contains_key(p) {
                    Some(!m[p])
                } else {
                    None
                },
                None => None,
            },
            None => None,
        }
    } else if ty == "BuildingBlocks_BindingsBooleanEvaluateOr"@ {
        match array_at(op, "inputs"@) {
            Some(a) => list_value(a, m, true),
            None => None,
        }
    } else if ty == "BuildingBlocks_BindingsBooleanEvaluateAnd"@ {
        match array_at(op, "inputs"@) {
            Some(a) => list_value(a, m, false),
            None => None,
        }
    } else {
        None
    }
}

/// One operation's turn in a pass: a pointer without a value yet gets one
/// when the operation can be evaluated.
pub open spec fn step(op: JsonV, sv: Map<Seq<char>, bool>, m: Map<u32, bool>) -> (Map<u32, bool>, bool) {
    match ptr_of(op) {
        Some(p) => if m.contains_key(p) {
            (m, false)
        } else {
            match op_value(op, sv, m) {
                Some(v) => (m.insert(p, v), true),
                None => (m, false),
            }
        },
        None => (m, false),
    }
}

/// One pass over the operations in order, and whether it found a new value.
pub open spec fn round(ops: Seq<JsonV>, sv: Map<Seq<char>, bool>, m: Map<u32, bool>) -> (Map<u32, bool>, bool)
    decreases ops.len(),
{
    if ops.len() == 0 {
        (m, false)
    } else {
        let prev = round(ops.drop_last(), sv, m);
        let next = step(ops.last(), sv, prev.0);
        (next.0, prev.1 || next.1)
    }
}

pub proof fn lemma_round(ops: Seq<JsonV>, sv: Map<Seq<char>, bool>, m: Map<u32, bool>)
    ensures
        m.dom().subset_of(round(ops, sv, m).0.dom()),
        forall|p: u32| #[trigger] m.contains_key(p) ==> round(ops, sv, m).0[p] == m[p],
        forall|p: u32|
            #[trigger] round(ops, sv, m).0.contains_key(p) && !m.contains_key(p) ==> ptr_set(
                ops,
            ).contains(p),
        !round(ops, sv, m).1 ==> round(ops, sv, m).0 == m,
        round(ops, sv, m).1 ==> exists|p: u32|
            #[trigger] round(ops, sv, m).0.contains_key(p) && !m.contains_key(p),
    decreases ops.len(),
{
    if ops.len() > 0 {
        lemma_round(ops.drop_last(), sv, m);
        let prev = round(ops.drop_last(), sv, m);
        if let Some(p) = ptr_of(ops.last()) {
            if !prev.0.contains_key(p) {
                if op_value(ops.last(), sv, prev.0) is Some {
                    assert(round(ops, sv, m).0.contains_key(p));
                }
            }
        }
    }
}

/// Passes repeated until one finds nothing new.
pub open spec fn fixpoint(ops: Seq<JsonV>, sv: Map<Seq<char>, bool>, m: Map<u32, bool>) -> Map<u32, bool>
    decreases unvisited(ops, m.dom()),
    when m.dom().subset_of(ptr_set(ops))
{
    let r = round(ops, sv, m);
    if !r.1 {
        m
    } else {
        proof {
            lemma_round(ops, sv, m);
            lemma_unvisited_shrinks(ops, m.dom(), r.0.dom());
        }
        fixpoint(ops, sv, r.0)
    }
}

/// Pointer values of all operations that evaluate under static defaults.
pub open spec fn spec_evaluate_bool_ops(ops: Seq<JsonV>, sv: Map<Seq<char>, bool>) -> Map<u32, bool> {
    fixpoint(ops, sv, Map::empty())
}


/// Every pointer id is declared by at most one operation.
pub open spec fn unique_ptrs(ops: Seq<JsonV>) -> bool {
    forall|i: int, j: int|
        0 <= i < ops.len() && 0 <= j < ops.len() && i != j && (#[trigger] ptr_of(ops[i])) is Some ==> ptr_of(
            ops[i],
        ) != #[trigger] ptr_of(ops[j])
}

/// No other operation declares the pointer of operation `v`.
pub open spec fn ptr_unique_at(ops: Seq<JsonV>, v: int) -> bool {
    forall|j: int| 0 <= j < ops.len() && j != v ==> #[trigger] ptr_of(ops[j]) != ptr_of(ops[v])
}

/// The operation a declared pointer resolves to is one of the operations.
pub proof fn lemma_op_for_ptr_index(ops: Seq<JsonV>, p: u32)
    ensures
        op_for_ptr(ops, p) matches Some(op) ==> exists|i: int|
            0 <= i < ops.len() && ops[i] == op && #[trigger] ptr_of(ops[i]) == Some(p),
    decreases ops.len(),
{
    if ops.len() > 0 && ptr_of(ops.last()) != Some(p) {
        lemma_op_for_ptr_index(ops.drop_last(), p);
        if let Some(op) = op_for_ptr(ops, p) {
            let i = choose|i: int|
                0 <= i < ops.drop_last().len() && ops.drop_last()[i] == op && #[trigger] ptr_of(
                    ops.drop_last()[i],
                ) == Some(p);
            assert(ops[i] == ops.drop_last()[i]);
        }
    }
}

/// A pointer some operation declares is a declared pointer.
pub proof fn lemma_ptr_in_set(ops: Seq<JsonV>, i: int)
    requires
        0 <= i < ops.len(),
        ptr_of(ops[i]) is Some,
    ensures
        ptr_set(ops).contains(ptr_of(ops[i])->0),
    decreases ops.len(),
{
    if i < ops.len() - 1 {
        assert(ops.drop_last()[i] == ops[i]);
        lemma_ptr_in_set(ops.drop_last(), i);
    }
}

/// A pass gives a boolean-variable operation with a pointer of its own, not
/// yet valued, the value of its variable.
proof fn lemma_round_var(ops: Seq<JsonV>, sv: Map<Seq<char>, bool>, m: Map<u32, bool>, v: int, p: u32)
    requires
        ptr_unique_at(ops, v),
        0 <= v < ops.len(),
        type_of(ops[v]) == "BuildingBlocks_BindingsBooleanVariable"@,
        ptr_of(ops[v]) == Some(p),
        !m.contains_key(p),
    ensures
        round(ops, sv, m).0.contains_key(p),
        round(ops, sv, m).0[p] == var_value(sv, binding_of(ops[v])),
    decreases ops.len(),
{
    let n = ops.len() as int;
    let d = ops.drop_last();
    let prev = round(d, sv, m);
    if v == n - 1 {
        lemma_round(d, sv, m);
        if prev.0.contains_key(p) {
            lemma_ptr_set(d, p);
            lemma_op_for_ptr_index(d, p);
            let i = choose|i: int| 0 <= i < d.len() && d[i] == op_for_ptr(d, p)->0 && #[trigger] ptr_of(d[i])
                == Some(p);
            assert(ops[i] == d[i]);
            assert(ptr_of(ops[i]) != ptr_of(ops[n - 1]));
        }
        assert(ops.last() == ops[v]);
    } else {
        assert(d[v] == ops[v]);
        assert forall|j: int| 0 <= j < d.len() && j != v implies #[trigger] ptr_of(d[j]) != ptr_of(d[v]) by {
            assert(d[j] == ops[j]);
        }
        lemma_round_var(d, sv, m, v, p);
        assert(ptr_of(ops[v]) != ptr_of(ops[n - 1]));
        assert(ops.last() == ops[n - 1]);
    }
}

/// Passes never drop or change a value found earlier.
proof fn lemma_fixpoint_extends(ops: Seq<JsonV>, sv: Map<Seq<char>, bool>, m: Map<u32, bool>)
    requires
        m.dom().subset_of(ptr_set(ops)),
    ensures
        forall|q: u32| #[trigger] m.contains_key(q) ==> fixpoint(ops, sv, m).contains_key(q) && fixpoint(ops, sv, m)[q]
            == m[q],
    decreases unvisited(ops, m.dom()),
{
    let r = round(ops, sv, m);
    lemma_round(ops, sv, m);
    if r.1 {
        assert(r.0.dom().subset_of(ptr_set(ops)));
        lemma_unvisited_shrinks(ops, m.dom(), r.0.dom());
        lemma_fixpoint_extends(ops, sv, r.0);
    }
}

/// With a pointer of its own, a boolean-variable operation is valued by the
/// fixpoint, with the value of its variable.
pub proof fn lemma_var_evaluated(ops: Seq<JsonV>, sv: Map<Seq<char>, bool>, v: int)
    requires
        ptr_unique_at(ops, v),
        0 <= v < ops.len(),
        type_of(ops[v]) == "BuildingBlocks_BindingsBooleanVariable"@,
        ptr_of(ops[v]) is Some,
    ensures
        spec_evaluate_bool_ops(ops, sv).contains_key(ptr_of(ops[v])->0),
        spec_evaluate_bool_ops(ops, sv)[ptr_of(ops[v])->0] == var_value(sv, binding_of(ops[v])),
{
    let p = ptr_of(ops[v])->0;
    let m0 = Map::<u32, bool>::empty();
    lemma_round_var(ops, sv, m0, v, p);
    lemma_round(ops, sv, m0);
    let r = round(ops, sv, m0);
    assert(m0.dom().subset_of(ptr_set(ops)));
    assert(r.1);
    assert(r.0.dom().subset_of(ptr_set(ops)));
    assert(fixpoint(ops, sv, m0) == fixpoint(ops, sv, r.0));
    lemma_fixpoint_extends(ops, sv, r.0);
}

/// Lower-cased `parameter` of a value (empty when absent).
pub open spec fn param_name_of(v: JsonV) -> Seq<char> {
    match str_at(v, "parameter"@) {
        Some(s) => lower(s),
        None => Seq::empty(),
    }
}

/// Value of a boolean component parameter: the parent's override, else the
/// authored default, else true.
pub open spec fn component_param_value(v: JsonV, po: Map<Seq<char>, bool>) -> bool {
    let name = param_name_of(v);
    if po.contains_key(name) {
        po[name]
    } else {
        match bool_at(v, "defaultValue"@) {
            Some(b) => b,
            None => true,
        }
    }
}

/// Evaluation of a boolean reference (a pointer string or an inline
/// operation object), returning the value and the pointers visited so far.
/// A pointer already evaluated by the fixpoint gives its value; a pointer met
/// again on the same walk gives no value.
pub open spec fn eval_ref(
    input: JsonV,
    pv: Map<u32, bool>,
    ops: Seq<JsonV>,
    sv: Map<Seq<char>, bool>,
    po: Map<Seq<char>, bool>,
    vis: Set<u32>,
) -> (Option<bool>, Set<u32>)
    decreases unvisited(ops, vis), jsize(input), 1nat,
{
    match input {
        JsonV::Str(s) => match spec_parse_points_to(s) {
            None => (None, vis),
            Some(p) => if pv.contains_key(p) {
                (Some(pv[p]), vis)
            } else if vis.contains(p) {
                (None, vis)
            } else {
                match op_for_ptr(ops, p) {
                    None => (None, vis.insert(p)),
                    Some(op) => {
                        proof {
                            lemma_ptr_set(ops, p);
                            lemma_unvisited_shrinks(ops, vis, vis.insert(p));
                        }
                        eval_ref(op, pv, ops, sv, po, vis.insert(p))
                    },
                }
            },
        },
        JsonV::Object(_) => {
            let ty = type_of(input);
            if ty == "_SynthBooleanParam_"@ {
                (bool_at(input, "resolvedBool"@), vis)
            } else if ty == "BuildingBlocks_BindingsBooleanVariable"@ {
                (Some(var_value(sv, binding_of(input))), vis)
            } else if ty == "BuildingBlocks_BindingsBooleanComponentParameter"@ {
                (Some(component_param_value(input, po)), vis)
            } else if ty == "BuildingBlocks_BindingsBooleanInvert"@ {
                match input.field("input"@) {
                    None => (None, vis),
                    Some(inner) => {
                        proof {
                            lemma_field_smaller(input, "input"@);
                        }
                        let r = eval_ref(inner, pv, ops, sv, po, vis);
                        (
                            match r.0 {
                                Some(b) => Some(!b),
                                None => None,
                            },
                            r.1,
                        )
                    },
                }
            } else if ty == "BuildingBlocks_BindingsBooleanEvaluateOr"@
                || ty == "BuildingBlocks_BindingsBooleanEvaluateAnd"@ {
                match input.field("inputs"@) {
                    Some(JsonV::Array(a)) => {
                        proof {
                            lemma_field_smaller(input, "inputs"@);
                        }
                        eval_list(a, pv, ops, sv, po, vis, ty == "BuildingBlocks_BindingsBooleanEvaluateOr"@)
                    },
                    _ => (None, vis),
                }
            } else {
                (None, vis)
            }
        },
        _ => (None, vis),
    }
}

/// Or / And over a list of references, evaluated in order; stops at the
/// first reference without a value.
pub open spec fn eval_list(
    s: Seq<JsonV>,
    pv: Map<u32, bool>,
    ops: Seq<JsonV>,
    sv: Map<Seq<char>, bool>,
    po: Map<Seq<char>, bool>,
    vis: Set<u32>,
    is_or: bool,
) -> (Option<bool>, Set<u32>)
    decreases unvisited(ops, vis), seq_size(s) + 1, 0nat,
{
    if s.len() == 0 {
        (Some(!is_or), vis)
    } else {
        proof {
            lemma_seq_elem_smaller(s, 0);
        }
        let first = eval_ref(s[0], pv, ops, sv, po, vis);
        match first.0 {
            None => (None, first.1),
            Some(b) => {
                let vn = vis.union(first.1);
                proof {
                    lemma_unvisited_shrinks(ops, vis, vn);
                }
                let rest = eval_list(s.subrange(1, s.len() as int), pv, ops, sv, po, vn, is_or);
                (
                    match rest.0 {
                        Some(c) => Some(
                            if is_or {
                                b || c
                            } else {
                                b && c
                            },
                        ),
                        None => None,
                    },
                    rest.1,
                )
            },
        }
    }
}

/// Combining an accumulated Or / And value with the result of the rest of a list.
pub open spec fn combine(acc: bool, r: (Option<bool>, Set<u32>), is_or: bool) -> (Option<bool>, Set<u32>) {
    (
        match r.0 {
            Some(c) => Some(
                if is_or {
                    acc || c
                } else {
                    acc && c
                },
            ),
            None => None,
        },
        r.1,
    )
}

// ───────────────────────────── exec ─────────────────────────────

/// Parse `"ptr:N"` → `Some(N)`.
pub fn parse_ptr_id(s: &str) -> (r: Option<BbNodeId>)
    ensures
        r == spec_parse_ptr(s@),
{
    let v = chars_of(s);
    match strip_prefix_str(v.as_slice(), "ptr:") {
        Some(rest) => parse_u32_exec(rest.as_slice()),
        None => None,
    }
}

/// Parse `"_PointsTo_:ptr:N"` → `Some(N)`.
pub fn parse_points_to_ptr(s: &str) -> (r: Option<BbNodeId>)
    ensures
        r == spec_parse_points_to(s@),
{
    let v = chars_of(s);
    parse_points_to_ptr_chars(v.as_slice())
}

pub fn parse_points_to_ptr_chars(v: &[char]) -> (r: Option<BbNodeId>)
    ensures
        r == spec_parse_points_to(v@),
{
    proof {
        lemma_points_to_prefix(v@);
    }
    match strip_prefix_str(v, "_PointsTo_:ptr:") {
        Some(rest) => parse_u32_exec(rest.as_slice()),
        None => None,
    }
}

/// The pointer a string value `"_PointsTo_:ptr:N"` refers to.
pub fn points_to_value(v: &Json) -> (r: Option<u32>)
    ensures
        r == points_to_of(v@),
{
    match v.str_chars() {
        Some(s) => parse_points_to_ptr_chars(s.as_slice()),
        None => None,
    }
}

/// `binding` of a value, or empty.
pub fn binding_chars(v: &Json) -> (r: Vec<char>)
    ensures
        r@ == binding_of(v@),
{
    match v.str_field("binding") {
        Some(s) => s,
        None => Vec::new(),
    }
}

/// `_Type_` of a value, or empty.
pub fn type_chars(v: &Json) -> (r: Vec<char>)
    ensures
        r@ == type_of(v@),
{
    match v.str_field("_Type_") {
        Some(s) => s,
        None => Vec::new(),
    }
}

/// Value of a boolean variable under static defaults.
pub fn lookup_var(static_vals: &Table<bool>, b: &[char]) -> (r: bool)
    ensures
        r == var_value(static_vals@, b@),
{
    match static_vals.get(b) {
        Some(v) => *v,
        None => false,
    }
}

fn list_value_exec(inputs: &Vec<Json>, m: &std::collections::HashMap<u32, bool>, is_or: bool) -> (r:
    Option<bool>)
    ensures
        r == list_value(views(inputs@), m@, is_or),
{
    let ghost s = views(inputs@);
    let mut acc: bool = !is_or;
    let mut i: usize = 0;
    assert(s.subrange(0, s.len() as int) =~= s);
    while i < inputs.len()
        invariant
            s == views(inputs@),
            i <= inputs@.len(),
            list_value(s, m@, is_or) == match list_value(s.subrange(i as int, s.len() as int), m@, is_or) {
                Some(r) => Some(
                    if is_or {
                        acc || r
                    } else {
                        acc && r
                    },
                ),
                None => None,
            },
        decreases inputs@.len() - i,
    {
        let ghost rest = s.subrange(i as int, s.len() as int);
        assert(rest[0] == inputs@[i as int]@);
        assert(rest.drop_first() =~= s.subrange(i + 1, s.len() as int));
        match points_to_value(&inputs[i]) {
            Some(p) => {
                match m.get(&p) {
                    Some(v) => {
                        acc = if is_or {
                            acc || *v
                        } else {
                            acc && *v
                        };
                    },
                    None => {
                        return None;
                    },
                }
            },
            None => {
                return None;
            },
        }
        i += 1;
    }
    Some(acc)
}

fn op_value_exec(op: &Json, static_vals: &Table<bool>, m: &std::collections::HashMap<u32, bool>) -> (r:
    Option<bool>)
    ensures
        r == op_value(op@, static_vals@, m@),
{
    let ty = type_chars(op);
    let t = ty.as_slice();
    if chars_eq_str(t, "BuildingBlocks_BindingsBooleanVariable") {
        let b = binding_chars(op);
        Some(lookup_var(static_vals, b.as_slice()))
    } else if chars_eq_str(t, "BuildingBlocks_BindingsBooleanInvert") {
        match op.str_field("input") {
            Some(s) => match parse_points_to_ptr_chars(s.as_slice()) {
                Some(p) => match m.get(&p) {
                    Some(v) => Some(!*v),
                    None => None,
                },
                None => None,
            },
            None => None,
        }
    } else if chars_eq_str(t, "BuildingBlocks_BindingsBooleanEvaluateOr") {
        match op.array_field("inputs") {
            Some(a) => list_value_exec(a, m, true),
            None => None,
        }
    } else if chars_eq_str(t, "BuildingBlocks_BindingsBooleanEvaluateAnd") {
        match op.array_field("inputs") {
            Some(a) => list_value_exec(a, m, false),
            None => None,
        }
    } else {
        None
    }
}

/// Values of every operation pointer that evaluates under static defaults,
/// found by repeating passes over the operations until nothing changes.
pub fn evaluate_bool_ops(index: &OpIndex, static_vals: &Table<bool>) -> (r: std::collections::HashMap<
    BbNodeId,
    bool,
>)
    requires
        index.wf(),
    ensures
        r@ == spec_evaluate_bool_ops(index.opsv(), static_vals@),
{
    let ghost ops = index.opsv();
    let ghost sv = static_vals@;
    let mut ptr_val: std::collections::HashMap<u32, bool> = std::collections::HashMap::new();
    proof {
        lemma_ptr_set(ops, 0);
    }
    loop
        invariant
            index.wf(),
            ops == index.opsv(),
            sv == static_vals@,
            ptr_val@.dom().subset_of(ptr_set(ops)),
            fixpoint(ops, sv, ptr_val@) == fixpoint(ops, sv, Map::empty()),
        ensures
            ptr_val@ == fixpoint(ops, sv, Map::empty()),
        decreases unvisited(ops, ptr_val@.dom()),
    {
        let ghost start = ptr_val@;
        let mut changed = false;
        let mut i: usize = 0;
        while i < index.ops.len()
            invariant
                index.wf(),
                ops == index.opsv(),
                sv == static_vals@,
                i <= ops.len(),
                start.dom().subset_of(ptr_set(ops)),
                (ptr_val@, changed) == round(ops.subrange(0, i as int), sv, start),
            decreases ops.len() - i,
        {
            let ghost pre = ops.subrange(0, i as int);
            assert(ops.subrange(0, i + 1).drop_last() =~= pre);
            assert(ops.subrange(0, i + 1).last() == index.ops@[i as int]@);
            let op = &index.ops[i];
            match index.ptrs[i] {
                Some(p) => {
                    if !ptr_val.contains_key(&p) {
                        match op_value_exec(op, static_vals, &ptr_val) {
                            Some(v) => {
                                ptr_val.insert(p, v);
                                changed = true;
                            },
                            None => {},
                        }
                    }
                },
                None => {},
            }
            i += 1;
        }
        assert(ops.subrange(0, ops.len() as int) =~= ops);
        proof {
            lemma_round(ops, sv, start);
        }
        if !changed {
            assert(fixpoint(ops, sv, ptr_val@) == ptr_val@);
            break;
        }
        proof {
            lemma_unvisited_shrinks(ops, start.dom(), ptr_val@.dom());
        }
    }
    ptr_val
}

/// Lower-cased `parameter` of a value, or empty.
pub fn param_name_chars(v: &Json) -> (r: Vec<char>)
    ensures
        r@ == param_name_of(v@),
{
    match v.str_field("parameter") {
        Some(s) => to_lower(s.as_slice()),
        None => Vec::new(),
    }
}

/// Evaluate a boolean reference: a `"_PointsTo_:ptr:N"` string or an inline
/// operation object.
pub fn eval_bool_ref(
    input: &Json,
    ptr_vals: &std::collections::HashMap<BbNodeId, bool>,
    index: &OpIndex,
    static_vals: &Table<bool>,
    param_overrides: &Table<bool>,
    visiting: &mut std::collections::HashSet<BbNodeId>,
) -> (r: Option<bool>)
    requires
        index.wf(),
    ensures
        (r, final(visiting)@) == eval_ref(
            input@,
            ptr_vals@,
            index.opsv(),
            static_vals@,
            param_overrides@,
            old(visiting)@,
        ),
        old(visiting)@.subset_of(final(visiting)@),
    decreases unvisited(index.opsv(), old(visiting)@), jsize(input@), 1nat,
{
    let ghost ops = index.opsv();
    match input {
        Json::String(s) => {
            let v = chars_of(s.as_str());
            let ptr = match parse_points_to_ptr_chars(v.as_slice()) {
                Some(p) => p,
                None => {
                    return None;
                },
            };
            if let Some(b) = ptr_vals.get(&ptr) {
                return Some(*b);
            }
            if !visiting.insert(ptr) {
                return None;
            }
            match index.lookup(ptr) {
                None => None,
                Some(op) => {
                    proof {
                        lemma_ptr_set(ops, ptr);
                        lemma_unvisited_shrinks(ops, old(visiting)@, visiting@);
                    }
                    eval_bool_ref(op, ptr_vals, index, static_vals, param_overrides, visiting)
                },
            }
        },
        Json::Object(_) => {
            let ty = type_chars(input);
            let t = ty.as_slice();
            if chars_eq_str(t, "_SynthBooleanParam_") {
                input.bool_field("resolvedBool")
            } else if chars_eq_str(t, "BuildingBlocks_BindingsBooleanVariable") {
                let b = binding_chars(input);
                Some(lookup_var(static_vals, b.as_slice()))
            } else if chars_eq_str(t, "BuildingBlocks_BindingsBooleanComponentParameter") {
                let name = param_name_chars(input);
                match param_overrides.get(name.as_slice()) {
                    Some(b) => Some(*b),
                    None => match input.bool_field("defaultValue") {
                        Some(b) => Some(b),
                        None => Some(true),
                    },
                }
            } else if chars_eq_str(t, "BuildingBlocks_BindingsBooleanInvert") {
                match input.get("input") {
                    None => None,
                    Some(inner) => {
                        proof {
                            lemma_field_smaller(input@, "input"@);
                        }
                        match eval_bool_ref(inner, ptr_vals, index, static_vals, param_overrides, visiting) {
                            Some(b) => Some(!b),
                            None => None,
                        }
                    },
                }
            } else if chars_eq_str(t, "BuildingBlocks_BindingsBooleanEvaluateOr") || chars_eq_str(
                t,
                "BuildingBlocks_BindingsBooleanEvaluateAnd",
            ) {
                let is_or = chars_eq_str(t, "BuildingBlocks_BindingsBooleanEvaluateOr");
                let inputs = match input.get("inputs") {
                    Some(Json::Array(a)) => a,
                    _ => {
                        return None;
                    },
                };
                proof {
                    lemma_field_smaller(input@, "inputs"@);
                }
                let ghost s = views(inputs@);
                let ghost vis0 = visiting@;
                proof {
                    crate::json::lemma_array_view(*inputs);
                }
                assert(input@.field("inputs"@) == Some(JsonV::Array(s)));
                let mut acc: bool = !is_or;
                let mut i: usize = 0;
                assert(s.subrange(0, s.len() as int) =~= s);
                assert(eval_ref(input@, ptr_vals@, ops, static_vals@, param_overrides@, vis0)
                    == eval_list(s, ptr_vals@, ops, static_vals@, param_overrides@, vis0, is_or));
                while i < inputs.len()
                    invariant
                        eval_ref(input@, ptr_vals@, ops, static_vals@, param_overrides@, vis0)
                            == eval_list(s, ptr_vals@, ops, static_vals@, param_overrides@, vis0, is_or),
                        index.wf(),
                        ops == index.opsv(),
                        s == views(inputs@),
                        i <= inputs@.len(),
                        old(visiting)@ == vis0,
                        vis0.subset_of(visiting@),
                        jsize(JsonV::Array(s)) < jsize(input@),
                        eval_list(s, ptr_vals@, ops, static_vals@, param_overrides@, vis0, is_or)
                            == combine(
                            acc,
                            eval_list(
                                s.subrange(i as int, s.len() as int),
                                ptr_vals@,
                                ops,
                                static_vals@,
                                param_overrides@,
                                visiting@,
                                is_or,
                            ),
                            is_or,
                        ),
                    decreases inputs@.len() - i,
                {
                    let ghost rest = s.subrange(i as int, s.len() as int);
                    let ghost before = visiting@;
                    assert(rest[0] == inputs@[i as int]@);
                    assert(rest.subrange(1, rest.len() as int) =~= s.subrange(i + 1, s.len() as int));
                    proof {
                        lemma_seq_elem_smaller(s, i as int);
                        lemma_unvisited_shrinks(ops, vis0, visiting@);
                    }
                    let r = eval_bool_ref(
                        &inputs[i],
                        ptr_vals,
                        index,
                        static_vals,
                        param_overrides,
                        visiting,
                    );
                    match r {
                        None => {
                            assert(rest.len() > 0);
                            assert(eval_list(rest, ptr_vals@, ops, static_vals@, param_overrides@, before, is_or)
                                == (None::<bool>, visiting@));
                            return None;
                        },
                        Some(b) => {
                            assert(before.union(visiting@) =~= visiting@);
                            acc = if is_or {
                                acc || b
                            } else {
                                acc && b
                            };
                        },
                    }
                    i += 1;
                }
                Some(acc)
            } else {
                None
            }
        },
        _ => None,
    }
}

} // verus!
