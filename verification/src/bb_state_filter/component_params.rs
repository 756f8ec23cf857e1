//! Searches of a boolean expression graph for a kind of leaf: an unresolved
//! component parameter, an unset non-state variable, a namespace placeholder
//! variable, or a non-boolean runtime binding.
//!
//! All four walk the graph the same way: a pointer string leads to its
//! operation (once per walk), an object is checked and then its `input`,
//! `inputL`, `inputR`, `inputTrue`, `inputFalse` members and its `inputs`
//! array are searched in that order; the first hit ends the search.
use vstd::prelude::*;

use crate::bb_scene::pointers::spec_parse_points_to;
use crate::bb_scene::types::BbNodeId;
use crate::bb_state_filter::eval::{
    binding_chars, param_name_chars, param_name_of, parse_points_to_ptr_chars, type_chars,
};
use crate::bb_state_filter::graph::{
    OpIndex, lemma_ptr_set, lemma_unvisited_shrinks, op_for_ptr, type_of, unvisited,
};
use crate::json::{
    Json, JsonV, array_at, bool_at, jsize, lemma_array_view, lemma_field_smaller,
    lemma_seq_elem_smaller, seq_size, str_at, views,
};
use crate::strs::{
    chars_eq_str, chars_of, contains, contains_str, eq_ignore_case, eq_ignore_case_str, lower,
    starts_with, starts_with_str, to_lower,
};
use crate::table::Table;

verus! {

broadcast use vstd::std_specs::hash::group_hash_axioms;

/// The kind of leaf a search looks for.
#[derive(Clone, Copy, PartialEq, Eq, Structural)]
pub enum Probe {
    /// A non-state variable binding without a static value, or any
    /// non-boolean runtime binding outside the state namespace.
    UnsetNonState,
    /// A binding path holding the namespace placeholder `/~/`.
    NamespacePlaceholder,
    /// A binding on an operation that is not a boolean variable.
    NonBooleanRuntime,
    /// A component parameter with neither an override nor an authored default.
    UnresolvedComponentParameter,
}

/// A binding in the `state.` namespace (compared ASCII case-insensitively).
pub open spec fn spec_is_state_binding(b: Seq<char>) -> bool {
    let l = lower(b);
    starts_with(l, "state."@) || contains(l, "/state."@) || contains(l, ".state."@)
}

/// What the check of an object alone decides: `Some` ends the search with that
/// answer, `None` goes on to its inputs.
pub open spec fn probe_local(
    pr: Probe,
    obj: JsonV,
    sv: Map<Seq<char>, bool>,
    po: Map<Seq<char>, bool>,
) -> Option<bool> {
    let ty = type_of(obj);
    match pr {
        Probe::UnsetNonState => match str_at(obj, "binding"@) {
            Some(b) => if b.len() > 0 && !spec_is_state_binding(b) {
                if ty == "BuildingBlocks_BindingsBooleanVariable"@ {
                    if !sv.contains_key(b) {
                        Some(true)
                    } else {
                        None
                    }
                } else {
                    Some(true)
                }
            } else {
                None
            },
            None => None,
        },
        Probe::NamespacePlaceholder => match str_at(obj, "binding"@) {
            Some(b) => if contains(b, "/~/"@) {
                Some(true)
            } else {
                None
            },
            None => None,
        },
        Probe::NonBooleanRuntime => if str_at(obj, "binding"@) is Some && !eq_ignore_case(
            ty,
            "BuildingBlocks_BindingsBooleanVariable"@,
        ) {
            Some(true)
        } else {
            None
        },
        Probe::UnresolvedComponentParameter => if ty
            == "BuildingBlocks_BindingsBooleanComponentParameter"@ {
            let name = param_name_of(obj);
            if name.len() == 0 {
                Some(false)
            } else if po.contains_key(name) {
                Some(false)
            } else if bool_at(obj, "defaultValue"@) is Some {
                Some(false)
            } else {
                Some(true)
            }
        } else {
            None
        },
    }
}

/// The single-input members searched, in order.
pub open spec fn child_keys() -> Seq<Seq<char>> {
    seq!["input"@, "inputL"@, "inputR"@, "inputTrue"@, "inputFalse"@]
}

/// Search from a reference, returning the answer and the pointers visited.
pub open spec fn probe_ref(
    pr: Probe,
    input: JsonV,
    ops: Seq<JsonV>,
    sv: Map<Seq<char>, bool>,
    po: Map<Seq<char>, bool>,
    vis: Set<u32>,
) -> (bool, Set<u32>)
    decreases unvisited(ops, vis), jsize(input), 7nat,
{
    match input {
        JsonV::Str(s) => match spec_parse_points_to(s) {
            None => (false, vis),
            Some(p) => if vis.contains(p) {
                (false, vis)
            } else {
                match op_for_ptr(ops, p) {
                    None => (false, vis.insert(p)),
                    Some(op) => {
                        proof {
                            lemma_ptr_set(ops, p);
                            lemma_unvisited_shrinks(ops, vis, vis.insert(p));
                        }
                        probe_ref(pr, op, ops, sv, po, vis.insert(p))
                    },
                }
            },
        },
        JsonV::Object(_) => match probe_local(pr, input, sv, po) {
            Some(b) => (b, vis),
            None => probe_fields(pr, input, child_keys(), ops, sv, po, vis),
        },
        _ => (false, vis),
    }
}

/// Search the members named by `keys`, then the `inputs` array.
pub open spec fn probe_fields(
    pr: Probe,
    obj: JsonV,
    keys: Seq<Seq<char>>,
    ops: Seq<JsonV>,
    sv: Map<Seq<char>, bool>,
    po: Map<Seq<char>, bool>,
    vis: Set<u32>,
) -> (bool, Set<u32>)
    decreases unvisited(ops, vis), jsize(obj), keys.len(),
{
    if keys.len() == 0 {
        match obj.field("inputs"@) {
            Some(JsonV::Array(a)) => {
                proof {
                    lemma_field_smaller(obj, "inputs"@);
                }
                probe_list(pr, a, ops, sv, po, vis)
            },
            _ => (false, vis),
        }
    } else {
        match obj.field(keys[0]) {
            None => probe_fields(pr, obj, keys.drop_first(), ops, sv, po, vis),
            Some(inner) => {
                proof {
                    lemma_field_smaller(obj, keys[0]);
                }
                let first = probe_ref(pr, inner, ops, sv, po, vis);
                if first.0 {
                    (true, first.1)
                } else {
                    proof {
                        lemma_unvisited_shrinks(ops, vis, vis.union(first.1));
                    }
                    probe_fields(pr, obj, keys.drop_first(), ops, sv, po, vis.union(first.1))
                }
            },
        }
    }
}

/// Search the elements of a list in order.
pub open spec fn probe_list(
    pr: Probe,
    s: Seq<JsonV>,
    ops: Seq<JsonV>,
    sv: Map<Seq<char>, bool>,
    po: Map<Seq<char>, bool>,
    vis: Set<u32>,
) -> (bool, Set<u32>)
    decreases unvisited(ops, vis), seq_size(s) + 1, 0nat,
{
    if s.len() == 0 {
        (false, vis)
    } else {
        proof {
            lemma_seq_elem_smaller(s, 0);
        }
        let first = probe_ref(pr, s[0], ops, sv, po, vis);
        if first.0 {
            (true, first.1)
        } else {
            proof {
                lemma_unvisited_shrinks(ops, vis, vis.union(first.1));
            }
            probe_list(pr, s.subrange(1, s.len() as int), ops, sv, po, vis.union(first.1))
        }
    }
}

/// An object without the searched members and without `inputs` holds
/// nothing a search could find below it.
pub proof fn lemma_probe_fields_absent(
    pr: Probe,
    obj: JsonV,
    keys: Seq<Seq<char>>,
    ops: Seq<JsonV>,
    sv: Map<Seq<char>, bool>,
    po: Map<Seq<char>, bool>,
    vis: Set<u32>,
)
    requires
        forall|k: int| 0 <= k < keys.len() ==> obj.field(#[trigger] keys[k]) is None,
        obj.field("inputs"@) is None,
    ensures
        !probe_fields(pr, obj, keys, ops, sv, po, vis).0,
    decreases keys.len(),
{
    if keys.len() > 0 {
        assert(obj.field(keys[0]) is None);
        assert forall|k: int| 0 <= k < keys.drop_first().len() implies obj.field(
            #[trigger] keys.drop_first()[k],
        ) is None by {
            assert(keys.drop_first()[k] == keys[k + 1]);
        }
        lemma_probe_fields_absent(pr, obj, keys.drop_first(), ops, sv, po, vis);
    }
}

// ───────────────────────────── exec ─────────────────────────────

/// A binding in the `state.` namespace.
pub fn is_state_binding(binding: &str) -> (r: bool)
    ensures
        r == spec_is_state_binding(binding@),
{
    let v = chars_of(binding);
    is_state_binding_chars(v.as_slice())
}

pub fn is_state_binding_chars(v: &[char]) -> (r: bool)
    ensures
        r == spec_is_state_binding(v@),
{
    let lower = to_lower(v);
    let l = lower.as_slice();
    starts_with_str(l, "state.") || contains_str(l, "/state.") || contains_str(l, ".state.")
}

fn child_key(k: usize) -> (r: &'static str)
    requires
        k < 5,
    ensures
        r@ == child_keys()[k as int],
{
    if k == 0 {
        "input"
    } else if k == 1 {
        "inputL"
    } else if k == 2 {
        "inputR"
    } else if k == 3 {
        "inputTrue"
    } else {
        "inputFalse"
    }
}

fn probe_local_exec(
    pr: Probe,
    obj: &Json,
    static_vals: &Table<bool>,
    param_overrides: &Table<bool>,
) -> (r: Option<bool>)
    ensures
        r == probe_local(pr, obj@, static_vals@, param_overrides@),
{
    let ty = type_chars(obj);
    let t = ty.as_slice();
    match pr {
        Probe::UnsetNonState => match obj.str_field("binding") {
            Some(b) => {
                if b.len() > 0 && !is_state_binding_chars(b.as_slice()) {
                    if chars_eq_str(t, "BuildingBlocks_BindingsBooleanVariable") {
                        if !static_vals.contains_key(b.as_slice()) {
                            Some(true)
                        } else {
                            None
                        }
                    } else {
                        Some(true)
                    }
                } else {
                    None
                }
            },
            None => None,
        },
        Probe::NamespacePlaceholder => match obj.str_field("binding") {
            Some(b) => {
                if contains_str(b.as_slice(), "/~/") {
                    Some(true)
                } else {
                    None
                }
            },
            None => None,
        },
        Probe::NonBooleanRuntime => {
            let has_binding = match obj.str_field("binding") {
                Some(_) => true,
                None => false,
            };
            if has_binding && !eq_ignore_case_str(t, "BuildingBlocks_BindingsBooleanVariable") {
                Some(true)
            } else {
                None
            }
        },
        Probe::UnresolvedComponentParameter => {
            if chars_eq_str(t, "BuildingBlocks_BindingsBooleanComponentParameter") {
                let name = param_name_chars(obj);
                if name.len() == 0 {
                    Some(false)
                } else if param_overrides.contains_key(name.as_slice()) {
                    Some(false)
                } else {
                    match obj.bool_field("defaultValue") {
                        Some(_) => Some(false),
                        None => Some(true),
                    }
                }
            } else {
                None
            }
        },
    }
}

/// Search the graph reachable from `input` for the leaf kind `pr`.
pub fn contains_probe(
    pr: Probe,
    input: &Json,
    index: &OpIndex,
    static_vals: &Table<bool>,
    param_overrides: &Table<bool>,
    visited: &mut std::collections::HashSet<BbNodeId>,
) -> (r: bool)
    requires
        index.wf(),
    ensures
        (r, final(visited)@) == probe_ref(
            pr,
            input@,
            index.opsv(),
            static_vals@,
            param_overrides@,
            old(visited)@,
        ),
        old(visited)@.subset_of(final(visited)@),
    decreases unvisited(index.opsv(), old(visited)@), jsize(input@), 7nat,
{
    let ghost ops = index.opsv();
    let ghost sv = static_vals@;
    let ghost po = param_overrides@;
    match input {
        Json::String(s) => {
            let v = chars_of(s.as_str());
            let ptr = match parse_points_to_ptr_chars(v.as_slice()) {
                Some(p) => p,
                None => {
                    return false;
                },
            };
            if !visited.insert(ptr) {
                return false;
            }
            match index.lookup(ptr) {
                None => false,
                Some(op) => {
                    proof {
                        lemma_ptr_set(ops, ptr);
                        lemma_unvisited_shrinks(ops, old(visited)@, visited@);
                    }
                    contains_probe(pr, op, index, static_vals, param_overrides, visited)
                },
            }
        },
        Json::Object(_) => {
            match probe_local_exec(pr, input, static_vals, param_overrides) {
                Some(b) => {
                    return b;
                },
                None => {},
            }
            let ghost vis0 = visited@;
            assert(probe_ref(pr, input@, ops, sv, po, vis0) == probe_fields(
                pr,
                input@,
                child_keys(),
                ops,
                sv,
                po,
                vis0,
            ));
            let mut k: usize = 0;
            assert(child_keys().subrange(0, 5) =~= child_keys());
            while k < 5
                invariant
                    index.wf(),
                    ops == index.opsv(),
                    sv == static_vals@,
                    po == param_overrides@,
                    k <= 5,
                    old(visited)@ == vis0,
                    vis0.subset_of(visited@),
                    input@ is Object,
                    probe_ref(pr, input@, ops, sv, po, vis0) == probe_fields(
                        pr,
                        input@,
                        child_keys().subrange(k as int, 5),
                        ops,
                        sv,
                        po,
                        visited@,
                    ),
                decreases 5 - k,
            {
                let key = child_key(k);
                let ghost keys = child_keys().subrange(k as int, 5);
                assert(keys[0] == key@);
                assert(keys.drop_first() =~= child_keys().subrange(k + 1, 5));
                let ghost before = visited@;
                match input.get(key) {
                    None => {},
                    Some(inner) => {
                        proof {
                            lemma_field_smaller(input@, key@);
                            lemma_unvisited_shrinks(ops, vis0, visited@);
                        }
                        if contains_probe(pr, inner, index, static_vals, param_overrides, visited) {
                            return true;
                        }
                        assert(before.union(visited@) =~= visited@);
                    },
                }
                k += 1;
            }
            assert(child_keys().subrange(5, 5).len() == 0);
            let inputs = match input.get("inputs") {
                Some(Json::Array(a)) => a,
                _ => {
                    return false;
                },
            };
            proof {
                lemma_field_smaller(input@, "inputs"@);
                lemma_array_view(*inputs);
            }
            let ghost s = views(inputs@);
            let ghost vis1 = visited@;
            assert(probe_ref(pr, input@, ops, sv, po, vis0) == probe_list(pr, s, ops, sv, po, vis1));
            assert(s.subrange(0, s.len() as int) =~= s);
            let mut i: usize = 0;
            while i < inputs.len()
                invariant
                    index.wf(),
                    ops == index.opsv(),
                    sv == static_vals@,
                    po == param_overrides@,
                    s == views(inputs@),
                    i <= inputs@.len(),
                    old(visited)@ == vis0,
                    vis0.subset_of(visited@),
                    jsize(JsonV::Array(s)) < jsize(input@),
                    probe_ref(pr, input@, ops, sv, po, vis0) == probe_list(
                        pr,
                        s.subrange(i as int, s.len() as int),
                        ops,
                        sv,
                        po,
                        visited@,
                    ),
                decreases inputs@.len() - i,
            {
                let ghost rest = s.subrange(i as int, s.len() as int);
                let ghost before = visited@;
                assert(rest[0] == inputs@[i as int]@);
                assert(rest.subrange(1, rest.len() as int) =~= s.subrange(i + 1, s.len() as int));
                proof {
                    lemma_seq_elem_smaller(s, i as int);
                    lemma_unvisited_shrinks(ops, vis0, visited@);
                }
                if contains_probe(pr, &inputs[i], index, static_vals, param_overrides, visited) {
                    return true;
                }
                assert(before.union(visited@) =~= visited@);
                i += 1;
            }
            false
        },
        _ => false,
    }
}

/// Whether the expression behind `input` reads a component parameter that
/// has neither an override nor an authored default.
pub fn contains_unresolved_component_parameter(
    input: &Json,
    index: &OpIndex,
    param_overrides: &Table<bool>,
    visited: &mut std::collections::HashSet<BbNodeId>,
) -> (r: bool)
    requires
        index.wf(),
    ensures
        (r, final(visited)@) == probe_ref(
            Probe::UnresolvedComponentParameter,
            input@,
            index.opsv(),
            Map::empty(),
            param_overrides@,
            old(visited)@,
        ),
{
    let none: Table<bool> = Table::new();
    contains_probe(Probe::UnresolvedComponentParameter, input, index, &none, param_overrides, visited)
}

/// Whether the expression behind `input` reads a non-state binding that has
/// no static value.
pub fn contains_unset_non_state_variable(
    input: &Json,
    index: &OpIndex,
    static_vals: &Table<bool>,
    visited: &mut std::collections::HashSet<BbNodeId>,
) -> (r: bool)
    requires
        index.wf(),
    ensures
        (r, final(visited)@) == probe_ref(
            Probe::UnsetNonState,
            input@,
            index.opsv(),
            static_vals@,
            Map::empty(),
            old(visited)@,
        ),
{
    let none: Table<bool> = Table::new();
    contains_probe(Probe::UnsetNonState, input, index, static_vals, &none, visited)
}

/// Whether the expression behind `input` reads a binding path holding the
/// namespace placeholder `/~/`.
pub fn contains_namespace_placeholder_variable(
    input: &Json,
    index: &OpIndex,
    visited: &mut std::collections::HashSet<BbNodeId>,
) -> (r: bool)
    requires
        index.wf(),
    ensures
        (r, final(visited)@) == probe_ref(
            Probe::NamespacePlaceholder,
            input@,
            index.opsv(),
            Map::empty(),
            Map::empty(),
            old(visited)@,
        ),
{
    let none: Table<bool> = Table::new();
    contains_probe(Probe::NamespacePlaceholder, input, index, &none, &none, visited)
}

/// Whether the expression behind `input` holds a binding on an operation that
/// is not a boolean variable.
pub fn contains_non_boolean_runtime_binding(
    input: &Json,
    index: &OpIndex,
    visited: &mut std::collections::HashSet<BbNodeId>,
) -> (r: bool)
    requires
        index.wf(),
    ensures
        (r, final(visited)@) == probe_ref(
            Probe::NonBooleanRuntime,
            input@,
            index.opsv(),
            Map::empty(),
            Map::empty(),
            old(visited)@,
        ),
{
    let none: Table<bool> = Table::new();
    contains_probe(Probe::NonBooleanRuntime, input, index, &none, &none, visited)
}

} // verus!
