//! Cold-default ("switched on but idle") state selection.
//!
//! When a canvas leaves its state selection to the runtime, one variable of
//! each mutual-exclusion group is chosen as the idle state and defaulted to
//! true. Candidates come from two structural patterns: a visibility field
//! gated on `Invert(EvaluateOr(state1, ...))` names `state1`; a visibility
//! field gated directly on a state variable names that variable. A group is
//! a prefix (the binding up to its last `.`) shared by at least two distinct
//! variables; `_SV` capability flags are not members. A group with an
//! explicit static `true` member gets no default.
use vstd::prelude::*;

use crate::bb_scene::pointers::spec_parse_points_to;
use crate::bb_scene::types::BbNodeId;
use crate::bb_state_filter::eval::{parse_points_to_ptr_chars, type_chars};
use crate::bb_state_filter::graph::{
    OpIndex, lemma_ptr_set, lemma_unvisited_shrinks, op_for_ptr, type_of, unvisited,
};
use crate::json::{
    Json, JsonV, array_at, jsize, lemma_array_view, lemma_field_smaller, lemma_seq_elem_smaller, seq_size,
    str_at, views,
};
use crate::strs::{
    chars_eq, chars_eq_str, chars_of, copy_chars, ends_with, ends_with_str, rsplit_once,
    rsplit_once_exec, string_of, lemma_last_index_bound,
};
use crate::table::{Table, lemma_entries_map_dom};

verus! {

broadcast use vstd::std_specs::hash::group_hash_axioms;

pub open spec fn is_var(v: JsonV) -> bool {
    type_of(v) == "BuildingBlocks_BindingsBooleanVariable"@
}

pub open spec fn is_field_op(v: JsonV) -> bool {
    type_of(v) == "BuildingBlocks_BindingsBooleanField"@
}

/// The group prefix of a variable: the part before its last `.`.
pub open spec fn prefix_of(n: Seq<char>) -> Option<Seq<char>> {
    match rsplit_once(n, '.') {
        Some(p) => Some(p.0),
        None => None,
    }
}

/// A variable that can belong to a group: it has a prefix and is no `_SV` flag.
pub open spec fn groupable(n: Seq<char>) -> bool {
    !ends_with(n, "_SV"@) && prefix_of(n) is Some
}

/// The operation a reference stands for: the operation a pointer string
/// resolves to, or an inline object itself.
pub open spec fn spec_resolve_op_ref(input: JsonV, ops: Seq<JsonV>) -> Option<JsonV> {
    match input {
        JsonV::Str(s) => match spec_parse_points_to(s) {
            Some(p) => op_for_ptr(ops, p),
            None => None,
        },
        JsonV::Object(_) => Some(input),
        _ => None,
    }
}

/// The variable bindings a reference ultimately reads, in Or-operand order;
/// each pointer is followed at most once per walk.
pub open spec fn resolve_vars(input: JsonV, ops: Seq<JsonV>, vis: Set<u32>) -> (Seq<Seq<char>>, Set<u32>)
    decreases unvisited(ops, vis), jsize(input), 2nat,
{
    match input {
        JsonV::Str(s) => match spec_parse_points_to(s) {
            None => (Seq::empty(), vis),
            Some(p) => if vis.contains(p) {
                (Seq::empty(), vis)
            } else {
                match op_for_ptr(ops, p) {
                    None => (Seq::empty(), vis.insert(p)),
                    Some(op) => {
                        proof {
                            lemma_ptr_set(ops, p);
                            lemma_unvisited_shrinks(ops, vis, vis.insert(p));
                        }
                        resolve_op_vars(op, ops, vis.insert(p))
                    },
                }
            },
        },
        JsonV::Object(_) => resolve_op_vars(input, ops, vis),
        _ => (Seq::empty(), vis),
    }
}

pub open spec fn resolve_op_vars(op: JsonV, ops: Seq<JsonV>, vis: Set<u32>) -> (Seq<Seq<char>>, Set<u32>)
    decreases unvisited(ops, vis), jsize(op), 1nat,
{
    if is_var(op) {
        match str_at(op, "binding"@) {
            Some(b) => if b.len() > 0 {
                (seq![b], vis)
            } else {
                (Seq::empty(), vis)
            },
            None => (Seq::empty(), vis),
        }
    } else if type_of(op) == "BuildingBlocks_BindingsBooleanEvaluateOr"@ {
        match op.field("inputs"@) {
            Some(JsonV::Array(a)) => {
                proof {
                    lemma_field_smaller(op, "inputs"@);
                }
                resolve_list_vars(a, ops, vis)
            },
            _ => (Seq::empty(), vis),
        }
    } else {
        (Seq::empty(), vis)
    }
}

pub open spec fn resolve_list_vars(s: Seq<JsonV>, ops: Seq<JsonV>, vis: Set<u32>) -> (Seq<Seq<char>>, Set<u32>)
    decreases unvisited(ops, vis), seq_size(s) + 1, 0nat,
{
    if s.len() == 0 {
        (Seq::empty(), vis)
    } else {
        proof {
            lemma_seq_elem_smaller(s, 0);
        }
        let first = resolve_vars(s[0], ops, vis);
        proof {
            lemma_unvisited_shrinks(ops, vis, vis.union(first.1));
        }
        let rest = resolve_list_vars(s.subrange(1, s.len() as int), ops, vis.union(first.1));
        (first.0 + rest.0, rest.1)
    }
}

/// The variable names one operation contributes to group detection.
pub open spec fn op_names(op: JsonV, ops: Seq<JsonV>) -> Seq<Seq<char>> {
    if is_var(op) {
        match str_at(op, "binding"@) {
            Some(b) => seq![b],
            None => Seq::empty(),
        }
    } else if is_field_op(op) {
        match op.field("input"@) {
            Some(inp) => resolve_vars(inp, ops, Set::empty()).0,
            None => Seq::empty(),
        }
    } else {
        Seq::empty()
    }
}

/// All names contributed by the first `k` operations, in order.
pub open spec fn names_upto(ops: Seq<JsonV>, k: int) -> Seq<Seq<char>>
    decreases k,
{
    if k <= 0 {
        Seq::empty()
    } else {
        names_upto(ops, k - 1) + op_names(ops[k - 1], ops)
    }
}

/// `n` is a member of the group with prefix `p`.
pub open spec fn group_member(ops: Seq<JsonV>, p: Seq<char>, n: Seq<char>) -> bool {
    names_upto(ops, ops.len() as int).contains(n) && groupable(n) && prefix_of(n) == Some(p)
}

/// The prefix `p` names a mutual-exclusion group: at least two distinct members.
pub open spec fn is_group(ops: Seq<JsonV>, p: Seq<char>) -> bool {
    exists|a: Seq<char>, b: Seq<char>|
        a != b && #[trigger] group_member(ops, p, a) && #[trigger] group_member(ops, p, b)
}

/// A visibility field that selects idle defaults.
pub open spec fn is_idle_field(v: JsonV) -> bool {
    match str_at(v, "field"@) {
        Some(f) => f == "Instantiated"@ || f == "IsActive"@,
        None => false,
    }
}

/// The cold-default variable an operation names, if it follows one of the
/// two structural patterns.
pub open spec fn cold_default_of(op: JsonV, ops: Seq<JsonV>) -> Option<Seq<char>> {
    if !is_field_op(op) || !is_idle_field(op) {
        None
    } else {
        match op.field("input"@) {
            None => None,
            Some(inp) => match spec_resolve_op_ref(inp, ops) {
                None => None,
                Some(iop) => {
                    let ity = type_of(iop);
                    if ity == "BuildingBlocks_BindingsBooleanInvert"@ {
                        match iop.field("input"@) {
                            None => None,
                            Some(inner) => {
                                let inner_ty = match spec_resolve_op_ref(inner, ops) {
                                    Some(o) => type_of(o),
                                    None => Seq::empty(),
                                };
                                if inner_ty == "BuildingBlocks_BindingsBooleanEvaluateOr"@ {
                                    let vars = resolve_vars(inner, ops, Set::empty()).0;
                                    if vars.len() > 0 {
                                        Some(vars[0])
                                    } else {
                                        None
                                    }
                                } else {
                                    None
                                }
                            },
                        }
                    } else if ity == "BuildingBlocks_BindingsBooleanVariable"@ {
                        match str_at(iop, "binding"@) {
                            Some(b) => if b.len() > 0 && !ends_with(b, "_SV"@) {
                                Some(b)
                            } else {
                                None
                            },
                            None => None,
                        }
                    } else {
                        None
                    }
                },
            },
        }
    }
}

/// The candidate an operation contributes: its cold default, when that names
/// a recognised group.
pub open spec fn candidate_of(op: JsonV, ops: Seq<JsonV>) -> Option<Seq<char>> {
    match cold_default_of(op, ops) {
        Some(n) => match prefix_of(n) {
            Some(p) => if is_group(ops, p) {
                Some(n)
            } else {
                None
            },
            None => None,
        },
        None => None,
    }
}

/// Candidates of the first `k` operations, in operation order.
pub open spec fn candidates_upto(ops: Seq<JsonV>, k: int) -> Seq<Seq<char>>
    decreases k,
{
    if k <= 0 {
        Seq::empty()
    } else {
        candidates_upto(ops, k - 1) + match candidate_of(ops[k - 1], ops) {
            Some(n) => seq![n],
            None => Seq::empty(),
        }
    }
}

/// The elements of `s` with group prefix `p`, in order.
pub open spec fn with_prefix(s: Seq<Seq<char>>, p: Seq<char>) -> Seq<Seq<char>>
    decreases s.len(),
{
    if s.len() == 0 {
        Seq::empty()
    } else if prefix_of(s.last()) == Some(p) {
        with_prefix(s.drop_last(), p).push(s.last())
    } else {
        with_prefix(s.drop_last(), p)
    }
}

/// The candidates of group `p`, in operation order.
pub open spec fn group_candidates(ops: Seq<JsonV>, p: Seq<char>) -> Seq<Seq<char>> {
    with_prefix(candidates_upto(ops, ops.len() as int), p)
}

/// The first element of `s` ending with `suffix`.
pub open spec fn first_ending(s: Seq<Seq<char>>, suffix: Seq<char>) -> Option<Seq<char>>
    decreases s.len(),
{
    if s.len() == 0 {
        None
    } else if ends_with(s[0], suffix) {
        Some(s[0])
    } else {
        first_ending(s.drop_first(), suffix)
    }
}

/// The candidate chosen for group `p`: for the bed base screens the first
/// `MainMenu` candidate, otherwise (or when there is none) the first one.
pub open spec fn selected_candidate(ops: Seq<JsonV>, p: Seq<char>) -> Option<Seq<char>> {
    let c = group_candidates(ops, p);
    if c.len() == 0 {
        None
    } else if p == "Bed/state.BaseScreens"@ && first_ending(c, ".MainMenu"@) is Some {
        first_ending(c, ".MainMenu"@)
    } else {
        Some(c[0])
    }
}

/// Some member of group `p` is explicitly true in `sv`.
pub open spec fn has_explicit_override(sv: Map<Seq<char>, bool>, p: Seq<char>) -> bool {
    exists|m: Seq<char>|
        #[trigger] sv.contains_key(m) && sv[m] && !ends_with(m, "_SV"@) && prefix_of(m) == Some(p)
}

/// `k` is the idle default of its group.
pub open spec fn is_idle_default(ops: Seq<JsonV>, sv: Map<Seq<char>, bool>, k: Seq<char>) -> bool {
    match prefix_of(k) {
        Some(p) => !has_explicit_override(sv, p) && selected_candidate(ops, p) == Some(k),
        None => false,
    }
}

/// Static values after idle defaults: every idle default that has no value
/// yet becomes true; nothing else changes.
pub open spec fn spec_apply_idle_defaults(ops: Seq<JsonV>, sv: Map<Seq<char>, bool>) -> Map<
    Seq<char>,
    bool,
> {
    Map::new(
        |k: Seq<char>| sv.contains_key(k) || is_idle_default(ops, sv, k),
        |k: Seq<char>|
            if sv.contains_key(k) {
                sv[k]
            } else {
                true
            },
    )
}

/// Idle defaults keep every static value as it was and only add variables
/// set to true.
pub proof fn lemma_idle_defaults_only_add_true(ops: Seq<JsonV>, sv: Map<Seq<char>, bool>)
    ensures
        forall|k: Seq<char>|
            #[trigger] sv.contains_key(k) ==> spec_apply_idle_defaults(ops, sv).contains_key(k)
                && spec_apply_idle_defaults(ops, sv)[k] == sv[k],
        forall|k: Seq<char>|
            #[trigger] spec_apply_idle_defaults(ops, sv).contains_key(k) && !sv.contains_key(k)
                ==> spec_apply_idle_defaults(ops, sv)[k],
{
}

/// A group gets at most one idle default.
pub proof fn lemma_one_idle_default_per_group(
    ops: Seq<JsonV>,
    sv: Map<Seq<char>, bool>,
    a: Seq<char>,
    b: Seq<char>,
)
    requires
        is_idle_default(ops, sv, a),
        is_idle_default(ops, sv, b),
        prefix_of(a) == prefix_of(b),
    ensures
        a == b,
{
}

/// A group with an explicit static `true` member (no `_SV` flag) gets no
/// idle default.
pub proof fn lemma_explicit_true_suppresses_idle_default(
    ops: Seq<JsonV>,
    sv: Map<Seq<char>, bool>,
    m: Seq<char>,
    k: Seq<char>,
)
    requires
        sv.contains_key(m),
        sv[m],
        !ends_with(m, "_SV"@),
        prefix_of(m) == prefix_of(k),
    ensures
        !is_idle_default(ops, sv, k),
{
    if prefix_of(k) is Some {
        assert(has_explicit_override(sv, prefix_of(k)->0));
    }
}

/// An idle default is the selected candidate of its group: a variable that
/// a structural pattern names as cold default, in a group of at least two
/// distinct variables.
pub proof fn lemma_idle_default_is_grouped_candidate(ops: Seq<JsonV>, sv: Map<Seq<char>, bool>, k: Seq<char>)
    requires
        is_idle_default(ops, sv, k),
    ensures
        prefix_of(k) is Some,
        is_group(ops, prefix_of(k)->0),
        candidates_upto(ops, ops.len() as int).contains(k),
{
    let p = prefix_of(k)->0;
    let all = candidates_upto(ops, ops.len() as int);
    let c = group_candidates(ops, p);
    lemma_first_ending_member(c, ".MainMenu"@);
    assert(c.contains(k)) by {
        if !(p == "Bed/state.BaseScreens"@ && first_ending(c, ".MainMenu"@) is Some) {
            assert(c[0] == k);
        }
    }
    lemma_with_prefix_member(all, p, k);
    lemma_candidates_are_grouped(ops, ops.len() as int, k);
}

// ───────────────────────────── exec ─────────────────────────────

/// The operation a reference stands for.
pub fn resolve_op_ref<'a>(input: &'a Json, index: &OpIndex<'a>) -> (r: Option<&'a Json>)
    requires
        index.wf(),
    ensures
        match r {
            Some(op) => spec_resolve_op_ref(input@, index.opsv()) == Some(op@),
            None => spec_resolve_op_ref(input@, index.opsv()) is None,
        },
{
    match input {
        Json::String(s) => {
            let v = chars_of(s.as_str());
            match parse_points_to_ptr_chars(v.as_slice()) {
                Some(p) => index.lookup(p),
                None => None,
            }
        },
        Json::Object(_) => Some(input),
        _ => None,
    }
}

/// The variable bindings a reference ultimately reads.
pub fn resolve_vars_exec(
    input: &Json,
    index: &OpIndex,
    visited: &mut std::collections::HashSet<BbNodeId>,
) -> (r: Vec<Vec<char>>)
    requires
        index.wf(),
    ensures
        (r@.map_values(|c: Vec<char>| c@), final(visited)@) == resolve_vars(
            input@,
            index.opsv(),
            old(visited)@,
        ),
        old(visited)@.subset_of(final(visited)@),
    decreases unvisited(index.opsv(), old(visited)@), jsize(input@), 2nat,
{
    let ghost ops = index.opsv();
    match input {
        Json::String(s) => {
            let v = chars_of(s.as_str());
            let ptr = match parse_points_to_ptr_chars(v.as_slice()) {
                Some(p) => p,
                None => {
                    let r: Vec<Vec<char>> = Vec::new();
                    assert(r@.map_values(|c: Vec<char>| c@) =~= Seq::empty());
                    return r;
                },
            };
            if !visited.insert(ptr) {
                let r: Vec<Vec<char>> = Vec::new();
                assert(r@.map_values(|c: Vec<char>| c@) =~= Seq::empty());
                return r;
            }
            match index.lookup(ptr) {
                None => {
                    let r: Vec<Vec<char>> = Vec::new();
                    assert(r@.map_values(|c: Vec<char>| c@) =~= Seq::empty());
                    r
                },
                Some(op) => {
                    proof {
                        lemma_ptr_set(ops, ptr);
                        lemma_unvisited_shrinks(ops, old(visited)@, visited@);
                    }
                    resolve_op_vars_exec(op, index, visited)
                },
            }
        },
        Json::Object(_) => resolve_op_vars_exec(input, index, visited),
        _ => {
            let r: Vec<Vec<char>> = Vec::new();
            assert(r@.map_values(|c: Vec<char>| c@) =~= Seq::empty());
            r
        },
    }
}

fn resolve_op_vars_exec(
    op: &Json,
    index: &OpIndex,
    visited: &mut std::collections::HashSet<BbNodeId>,
) -> (r: Vec<Vec<char>>)
    requires
        index.wf(),
    ensures
        (r@.map_values(|c: Vec<char>| c@), final(visited)@) == resolve_op_vars(
            op@,
            index.opsv(),
            old(visited)@,
        ),
        old(visited)@.subset_of(final(visited)@),
    decreases unvisited(index.opsv(), old(visited)@), jsize(op@), 1nat,
{
    let ghost ops = index.opsv();
    let mut out: Vec<Vec<char>> = Vec::new();
    let ty = type_chars(op);
    if chars_eq_str(ty.as_slice(), "BuildingBlocks_BindingsBooleanVariable") {
        match op.str_field("binding") {
            Some(b) => {
                if b.len() > 0 {
                    out.push(b);
                }
            },
            None => {},
        }
        assert(out@.map_values(|c: Vec<char>| c@) =~= resolve_op_vars(op@, ops, old(visited)@).0);
        return out;
    }
    if !chars_eq_str(ty.as_slice(), "BuildingBlocks_BindingsBooleanEvaluateOr") {
        assert(out@.map_values(|c: Vec<char>| c@) =~= Seq::empty());
        return out;
    }
    let inputs = match op.get("inputs") {
        Some(Json::Array(a)) => a,
        _ => {
            assert(out@.map_values(|c: Vec<char>| c@) =~= Seq::empty());
            return out;
        },
    };
    proof {
        lemma_field_smaller(op@, "inputs"@);
        lemma_array_view(*inputs);
    }
    let ghost s = views(inputs@);
    let ghost vis0 = visited@;
    assert(resolve_op_vars(op@, ops, vis0) == resolve_list_vars(s, ops, vis0));
    assert(s.subrange(0, s.len() as int) =~= s);
    let mut i: usize = 0;
    while i < inputs.len()
        invariant
            index.wf(),
            ops == index.opsv(),
            s == views(inputs@),
            i <= inputs@.len(),
            old(visited)@ == vis0,
            vis0.subset_of(visited@),
            jsize(JsonV::Array(s)) < jsize(op@),
            resolve_op_vars(op@, ops, vis0) == (
                out@.map_values(|c: Vec<char>| c@) + resolve_list_vars(
                    s.subrange(i as int, s.len() as int),
                    ops,
                    visited@,
                ).0,
                resolve_list_vars(s.subrange(i as int, s.len() as int), ops, visited@).1,
            ),
        decreases inputs@.len() - i,
    {
        let ghost rest = s.subrange(i as int, s.len() as int);
        let ghost before = visited@;
        let ghost out_before = out@.map_values(|c: Vec<char>| c@);
        assert(rest[0] == inputs@[i as int]@);
        assert(rest.subrange(1, rest.len() as int) =~= s.subrange(i + 1, s.len() as int));
        proof {
            lemma_seq_elem_smaller(s, i as int);
            lemma_unvisited_shrinks(ops, vis0, visited@);
        }
        let part = resolve_vars_exec(&inputs[i], index, visited);
        assert(before.union(visited@) =~= visited@);
        let mut k: usize = 0;
        while k < part.len()
            invariant
                k <= part@.len(),
                out@.map_values(|c: Vec<char>| c@) == out_before + part@.subrange(0, k as int).map_values(
                    |c: Vec<char>| c@,
                ),
            decreases part@.len() - k,
        {
            let ghost old_out = out@;
            let x = copy_chars(part[k].as_slice());
            out.push(x);
            assert(out@.map_values(|c: Vec<char>| c@) =~= old_out.map_values(|c: Vec<char>| c@).push(
                part@[k as int]@,
            ));
            assert(part@.subrange(0, k + 1).map_values(|c: Vec<char>| c@) =~= part@.subrange(
                0,
                k as int,
            ).map_values(|c: Vec<char>| c@).push(part@[k as int]@));
            assert(out@.map_values(|c: Vec<char>| c@) =~= out_before + part@.subrange(
                0,
                k + 1,
            ).map_values(|c: Vec<char>| c@));
            k += 1;
        }
        assert(part@.subrange(0, part@.len() as int) =~= part@);
        let ghost r1 = resolve_vars(rest[0], ops, before);
        let ghost r2 = resolve_list_vars(rest.subrange(1, rest.len() as int), ops, before.union(r1.1));
        assert(resolve_list_vars(rest, ops, before) == (r1.0 + r2.0, r2.1));
        assert(out_before + (r1.0 + r2.0) =~= (out_before + r1.0) + r2.0);
        i += 1;
    }
    assert(resolve_list_vars(s.subrange(i as int, s.len() as int), ops, visited@).0 =~= Seq::<
        Seq<char>,
    >::empty());
    assert(out@.map_values(|c: Vec<char>| c@) + Seq::<Seq<char>>::empty() =~= out@.map_values(
        |c: Vec<char>| c@,
    ));
    out
}

/// The shared group prefix of `names`: the prefix of the first name, when
/// every name has that same prefix.
pub open spec fn spec_common_state_prefix(names: Seq<Seq<char>>) -> Option<Seq<char>> {
    if names.len() == 0 {
        None
    } else {
        match prefix_of(names[0]) {
            Some(p) => if forall|i: int| 0 <= i < names.len() ==> prefix_of(#[trigger] names[i]) == Some(p) {
                Some(p)
            } else {
                None
            },
            None => None,
        }
    }
}

/// The common group prefix of a list of variable names.
pub fn common_state_prefix(names: &[String]) -> (r: Option<String>)
    ensures
        match r {
            Some(p) => spec_common_state_prefix(names@.map_values(|s: String| s@)) == Some(p@),
            None => spec_common_state_prefix(names@.map_values(|s: String| s@)) is None,
        },
{
    let ghost ns = names@.map_values(|s: String| s@);
    if names.len() == 0 {
        return None;
    }
    let first = chars_of(names[0].as_str());
    let prefix = match rsplit_once_exec(first.as_slice(), '.') {
        Some(parts) => parts.0,
        None => {
            return None;
        },
    };
    let mut i: usize = 0;
    while i < names.len()
        invariant
            ns == names@.map_values(|s: String| s@),
            i <= names@.len(),
            prefix_of(ns[0]) == Some(prefix@),
            forall|j: int| 0 <= j < i ==> prefix_of(#[trigger] ns[j]) == Some(prefix@),
        decreases names@.len() - i,
    {
        let c = chars_of(names[i].as_str());
        match rsplit_once_exec(c.as_slice(), '.') {
            Some(parts) => {
                if !chars_eq(parts.0.as_slice(), prefix.as_slice()) {
                    assert(prefix_of(ns[i as int]) != Some(prefix@));
                    return None;
                }
            },
            None => {
                assert(prefix_of(ns[i as int]) is None);
                return None;
            },
        }
        i += 1;
    }
    Some(string_of(prefix.as_slice()))
}

/// The group prefix of a name.
fn prefix_exec(n: &[char]) -> (r: Option<Vec<char>>)
    ensures
        match r {
            Some(p) => prefix_of(n@) == Some(p@),
            None => prefix_of(n@) is None,
        },
{
    match rsplit_once_exec(n, '.') {
        Some(parts) => Some(parts.0),
        None => None,
    }
}

/// `n` is a member of group `p` (as far as its own shape goes).
fn in_group_exec(n: &[char], p: &[char]) -> (r: bool)
    ensures
        r == (groupable(n@) && prefix_of(n@) == Some(p@)),
{
    if ends_with_str(n, "_SV") {
        return false;
    }
    match prefix_exec(n) {
        Some(q) => chars_eq(q.as_slice(), p),
        None => false,
    }
}

/// The names an operation contributes to group detection.
fn op_names_exec(op: &Json, index: &OpIndex) -> (r: Vec<Vec<char>>)
    requires
        index.wf(),
    ensures
        r@.map_values(|c: Vec<char>| c@) == op_names(op@, index.opsv()),
{
    let ty = type_chars(op);
    let mut out: Vec<Vec<char>> = Vec::new();
    if chars_eq_str(ty.as_slice(), "BuildingBlocks_BindingsBooleanVariable") {
        match op.str_field("binding") {
            Some(b) => out.push(b),
            None => {},
        }
        assert(out@.map_values(|c: Vec<char>| c@) =~= op_names(op@, index.opsv()));
        out
    } else if chars_eq_str(ty.as_slice(), "BuildingBlocks_BindingsBooleanField") {
        match op.get("input") {
            Some(inp) => {
                let mut visited: std::collections::HashSet<u32> = std::collections::HashSet::new();
                resolve_vars_exec(inp, index, &mut visited)
            },
            None => {
                assert(out@.map_values(|c: Vec<char>| c@) =~= Seq::empty());
                out
            },
        }
    } else {
        assert(out@.map_values(|c: Vec<char>| c@) =~= Seq::empty());
        out
    }
}

/// All names the operations contribute to group detection.
fn collect_names(index: &OpIndex) -> (r: Vec<Vec<char>>)
    requires
        index.wf(),
    ensures
        r@.map_values(|c: Vec<char>| c@) == names_upto(index.opsv(), index.opsv().len() as int),
{
    let ghost ops = index.opsv();
    let mut names: Vec<Vec<char>> = Vec::new();
    let mut i: usize = 0;
    assert(names@.map_values(|c: Vec<char>| c@) =~= names_upto(ops, 0));
    while i < index.ops.len()
        invariant
            index.wf(),
            ops == index.opsv(),
            i <= ops.len(),
            names@.map_values(|c: Vec<char>| c@) == names_upto(ops, i as int),
        decreases ops.len() - i,
    {
        let part = op_names_exec(&index.ops[i], index);
        let ghost before = names@.map_values(|c: Vec<char>| c@);
        let mut k: usize = 0;
        while k < part.len()
            invariant
                k <= part@.len(),
                names@.map_values(|c: Vec<char>| c@) == before + part@.subrange(0, k as int).map_values(
                    |c: Vec<char>| c@,
                ),
            decreases part@.len() - k,
        {
            let ghost old_names = names@;
            names.push(copy_chars(part[k].as_slice()));
            assert(names@.map_values(|c: Vec<char>| c@) =~= old_names.map_values(|c: Vec<char>| c@).push(
                part@[k as int]@,
            ));
            assert(part@.subrange(0, k + 1).map_values(|c: Vec<char>| c@) =~= part@.subrange(
                0,
                k as int,
            ).map_values(|c: Vec<char>| c@).push(part@[k as int]@));
            assert(names@.map_values(|c: Vec<char>| c@) =~= before + part@.subrange(0, k + 1).map_values(
                |c: Vec<char>| c@,
            ));
            k += 1;
        }
        assert(part@.subrange(0, part@.len() as int) =~= part@);
        assert(ops[i as int] == index.ops@[i as int]@);
        i += 1;
    }
    names
}

/// Whether `p` is a mutual-exclusion group among the collected names.
fn is_group_exec(names: &Vec<Vec<char>>, p: &[char], Ghost(ops): Ghost<Seq<JsonV>>) -> (r: bool)
    requires
        names@.map_values(|c: Vec<char>| c@) == names_upto(ops, ops.len() as int),
    ensures
        r == is_group(ops, p@),
{
    let ghost all = names_upto(ops, ops.len() as int);
    let mut i: usize = 0;
    let mut found = false;
    while i < names.len() && !found
        invariant
            all == names@.map_values(|c: Vec<char>| c@),
            all == names_upto(ops, ops.len() as int),
            i <= names@.len(),
            found ==> i < names@.len() && groupable(all[i as int]) && prefix_of(all[i as int]) == Some(p@),
            !found ==> forall|j: int| 0 <= j < i ==> !(groupable(#[trigger] all[j]) && prefix_of(all[j]) == Some(p@)),
        decreases names@.len() - i + (if found { 0int } else { 1int }),
    {
        if in_group_exec(names[i].as_slice(), p) {
            found = true;
        } else {
            i += 1;
        }
    }
    if !found {
        assert forall|a: Seq<char>| !(#[trigger] group_member(ops, p@, a)) by {
            if group_member(ops, p@, a) {
                let j = choose|j: int| 0 <= j < all.len() && all[j] == a;
            }
        }
        return false;
    }
    assert(all[i as int] == names@[i as int]@);
    assert(all.contains(all[i as int]));
    let ghost first = all[i as int];
    assert(group_member(ops, p@, first));
    let mut j: usize = 0;
    while j < names.len()
        invariant
            all == names@.map_values(|c: Vec<char>| c@),
            all == names_upto(ops, ops.len() as int),
            i < names@.len(),
            first == all[i as int],
            group_member(ops, p@, first),
            j <= names@.len(),
            forall|k: int|
                0 <= k < j ==> !(groupable(#[trigger] all[k]) && prefix_of(all[k]) == Some(p@) && all[k]
                    != first),
        decreases names@.len() - j,
    {
        if in_group_exec(names[j].as_slice(), p) && !chars_eq(names[j].as_slice(), names[i].as_slice()) {
            assert(group_member(ops, p@, all[j as int]));
            return true;
        }
        j += 1;
    }
    assert forall|a: Seq<char>, b: Seq<char>|
        a != b && #[trigger] group_member(ops, p@, a) implies !(#[trigger] group_member(ops, p@, b)) by {
        if group_member(ops, p@, b) {
            let ka = choose|k: int| 0 <= k < all.len() && all[k] == a;
            let kb = choose|k: int| 0 <= k < all.len() && all[k] == b;
        }
    }
    false
}

/// The cold-default variable an operation names.
fn cold_default_exec(op: &Json, index: &OpIndex) -> (r: Option<Vec<char>>)
    requires
        index.wf(),
    ensures
        match r {
            Some(n) => cold_default_of(op@, index.opsv()) == Some(n@),
            None => cold_default_of(op@, index.opsv()) is None,
        },
{
    let ty = type_chars(op);
    if !chars_eq_str(ty.as_slice(), "BuildingBlocks_BindingsBooleanField") {
        return None;
    }
    let field = match op.str_field("field") {
        Some(f) => f,
        None => {
            return None;
        },
    };
    if !(chars_eq_str(field.as_slice(), "Instantiated") || chars_eq_str(field.as_slice(), "IsActive")) {
        return None;
    }
    let inp = match op.get("input") {
        Some(v) => v,
        None => {
            return None;
        },
    };
    let iop = match resolve_op_ref(inp, index) {
        Some(o) => o,
        None => {
            return None;
        },
    };
    let ity = type_chars(iop);
    if chars_eq_str(ity.as_slice(), "BuildingBlocks_BindingsBooleanInvert") {
        let inner = match iop.get("input") {
            Some(x) => x,
            None => {
                return None;
            },
        };
        let inner_ty = match resolve_op_ref(inner, index) {
            Some(o) => type_chars(o),
            None => Vec::new(),
        };
        if chars_eq_str(inner_ty.as_slice(), "BuildingBlocks_BindingsBooleanEvaluateOr") {
            let mut visited: std::collections::HashSet<u32> = std::collections::HashSet::new();
            let vars = resolve_vars_exec(inner, index, &mut visited);
            if vars.len() > 0 {
                let n = copy_chars(vars[0].as_slice());
                assert(vars@.map_values(|c: Vec<char>| c@)[0] == vars@[0]@);
                Some(n)
            } else {
                None
            }
        } else {
            None
        }
    } else if chars_eq_str(ity.as_slice(), "BuildingBlocks_BindingsBooleanVariable") {
        match iop.str_field("binding") {
            Some(b) => {
                if b.len() > 0 && !ends_with_str(b.as_slice(), "_SV") {
                    Some(b)
                } else {
                    None
                }
            },
            None => None,
        }
    } else {
        None
    }
}

/// Candidates of all operations, in operation order.
fn collect_candidates(index: &OpIndex, names: &Vec<Vec<char>>) -> (r: Vec<Vec<char>>)
    requires
        index.wf(),
        names@.map_values(|c: Vec<char>| c@) == names_upto(index.opsv(), index.opsv().len() as int),
    ensures
        r@.map_values(|c: Vec<char>| c@) == candidates_upto(index.opsv(), index.opsv().len() as int),
{
    let ghost ops = index.opsv();
    let mut cands: Vec<Vec<char>> = Vec::new();
    let mut i: usize = 0;
    assert(cands@.map_values(|c: Vec<char>| c@) =~= candidates_upto(ops, 0));
    while i < index.ops.len()
        invariant
            index.wf(),
            ops == index.opsv(),
            names@.map_values(|c: Vec<char>| c@) == names_upto(ops, ops.len() as int),
            i <= ops.len(),
            cands@.map_values(|c: Vec<char>| c@) == candidates_upto(ops, i as int),
        decreases ops.len() - i,
    {
        assert(ops[i as int] == index.ops@[i as int]@);
        let ghost before = cands@.map_values(|c: Vec<char>| c@);
        match cold_default_exec(&index.ops[i], index) {
            Some(n) => {
                match prefix_exec(n.as_slice()) {
                    Some(p) => {
                        if is_group_exec(names, p.as_slice(), Ghost(ops)) {
                            let ghost old_c = cands@;
                            cands.push(n);
                            assert(cands@.map_values(|c: Vec<char>| c@) =~= old_c.map_values(
                                |c: Vec<char>| c@,
                            ).push(n@));
                        }
                    },
                    None => {},
                }
            },
            None => {},
        }
        assert(cands@.map_values(|c: Vec<char>| c@) =~= candidates_upto(ops, i + 1));
        i += 1;
    }
    cands
}

/// The candidates with group prefix `p`, in order.
fn with_prefix_exec(cands: &Vec<Vec<char>>, p: &[char]) -> (r: Vec<Vec<char>>)
    ensures
        r@.map_values(|c: Vec<char>| c@) == with_prefix(cands@.map_values(|c: Vec<char>| c@), p@),
{
    let ghost all = cands@.map_values(|c: Vec<char>| c@);
    let mut out: Vec<Vec<char>> = Vec::new();
    let mut i: usize = 0;
    assert(all.subrange(0, 0) =~= Seq::<Seq<char>>::empty());
    assert(out@.map_values(|c: Vec<char>| c@) =~= with_prefix(all.subrange(0, 0), p@));
    while i < cands.len()
        invariant
            all == cands@.map_values(|c: Vec<char>| c@),
            i <= cands@.len(),
            out@.map_values(|c: Vec<char>| c@) == with_prefix(all.subrange(0, i as int), p@),
        decreases cands@.len() - i,
    {
        let ghost pre = all.subrange(0, i + 1);
        assert(pre.drop_last() =~= all.subrange(0, i as int));
        assert(pre.last() == cands@[i as int]@);
        let ghost old_out = out@;
        match prefix_exec(cands[i].as_slice()) {
            Some(q) => {
                if chars_eq(q.as_slice(), p) {
                    out.push(copy_chars(cands[i].as_slice()));
                    assert(out@.map_values(|c: Vec<char>| c@) =~= old_out.map_values(|c: Vec<char>| c@).push(
                        cands@[i as int]@,
                    ));
                }
            },
            None => {},
        }
        i += 1;
    }
    assert(all.subrange(0, all.len() as int) =~= all);
    out
}

/// The first element ending with `suffix`.
fn first_ending_exec(s: &Vec<Vec<char>>, suffix: &str) -> (r: Option<usize>)
    ensures
        match r {
            Some(i) => i < s@.len() && first_ending(s@.map_values(|c: Vec<char>| c@), suffix@) == Some(
                s@[i as int]@,
            ),
            None => first_ending(s@.map_values(|c: Vec<char>| c@), suffix@) is None,
        },
{
    let ghost all = s@.map_values(|c: Vec<char>| c@);
    let mut i: usize = 0;
    assert(all.subrange(0, all.len() as int) =~= all);
    while i < s.len()
        invariant
            all == s@.map_values(|c: Vec<char>| c@),
            i <= s@.len(),
            first_ending(all, suffix@) == first_ending(all.subrange(i as int, all.len() as int), suffix@),
        decreases s@.len() - i,
    {
        let ghost rest = all.subrange(i as int, all.len() as int);
        assert(rest[0] == s@[i as int]@);
        if ends_with_str(s[i].as_slice(), suffix) {
            return Some(i);
        }
        assert(rest.drop_first() =~= all.subrange(i + 1, all.len() as int));
        i += 1;
    }
    None
}

/// Some member of group `p` is explicitly true in `sv`.
fn has_explicit_override_exec(sv: &Table<bool>, p: &[char]) -> (r: bool)
    ensures
        r == has_explicit_override(sv@, p@),
{
    let mut i: usize = 0;
    while i < sv.entries.len()
        invariant
            i <= sv.entries@.len(),
            forall|j: int|
                0 <= j < i ==> {
                    let m = (#[trigger] sv.entries@[j]).0@;
                    !(sv@.contains_key(m) && sv@[m] && !ends_with(m, "_SV"@) && prefix_of(m) == Some(p@))
                },
        decreases sv.entries@.len() - i,
    {
        let key = sv.entries[i].0.as_slice();
        if !ends_with_str(key, "_SV") {
            match prefix_exec(key) {
                Some(q) => {
                    if chars_eq(q.as_slice(), p) {
                        match sv.get(key) {
                            Some(v) => {
                                if *v {
                                    return true;
                                }
                            },
                            None => {},
                        }
                    }
                },
                None => {},
            }
        }
        i += 1;
    }
    proof {
        crate::table::lemma_entry_seq(sv);
    }
    assert forall|m: Seq<char>|
        !(#[trigger] sv@.contains_key(m) && sv@[m] && !ends_with(m, "_SV"@) && prefix_of(m) == Some(p@)) by {
        lemma_entries_map_dom(sv.entries@, m);
        if sv@.contains_key(m) {
            let j = choose|j: int| 0 <= j < sv.entries@.len() && (#[trigger] sv.entries@[j]).0@ == m;
        }
    }
    false
}

proof fn lemma_candidates_have_prefix(ops: Seq<JsonV>, k: int)
    ensures
        forall|i: int|
            0 <= i < candidates_upto(ops, k).len() ==> prefix_of(#[trigger] candidates_upto(ops, k)[i]) is Some,
    decreases k,
{
    if k > 0 {
        lemma_candidates_have_prefix(ops, k - 1);
        let prev = candidates_upto(ops, k - 1);
        assert forall|i: int|
            0 <= i < candidates_upto(ops, k).len() implies prefix_of(#[trigger] candidates_upto(ops, k)[i]) is Some by {
            if i < prev.len() {
                assert(candidates_upto(ops, k)[i] == prev[i]);
            }
        }
    }
}

/// Every candidate belongs to a recognised group.
proof fn lemma_candidates_are_grouped(ops: Seq<JsonV>, k: int, x: Seq<char>)
    requires
        candidates_upto(ops, k).contains(x),
    ensures
        prefix_of(x) is Some,
        is_group(ops, prefix_of(x)->0),
    decreases k,
{
    if k > 0 {
        let prev = candidates_upto(ops, k - 1);
        let cur = candidates_upto(ops, k);
        let i = choose|i: int| 0 <= i < cur.len() && cur[i] == x;
        if i < prev.len() {
            assert(cur[i] == prev[i]);
            assert(prev.contains(x));
            lemma_candidates_are_grouped(ops, k - 1, x);
        }
    }
}

proof fn lemma_with_prefix_member(s: Seq<Seq<char>>, p: Seq<char>, x: Seq<char>)
    ensures
        with_prefix(s, p).contains(x) <==> s.contains(x) && prefix_of(x) == Some(p),
    decreases s.len(),
{
    if s.len() > 0 {
        let d = s.drop_last();
        lemma_with_prefix_member(d, p, x);
        let w = with_prefix(d, p);
        if with_prefix(s, p).contains(x) {
            let i = choose|i: int| 0 <= i < with_prefix(s, p).len() && with_prefix(s, p)[i] == x;
            if prefix_of(s.last()) == Some(p) {
                if i < w.len() {
                    assert(w[i] == x);
                    let k = choose|k: int| 0 <= k < d.len() && d[k] == x;
                    assert(s[k] == x);
                } else {
                    assert(x == s.last());
                    assert(s[s.len() - 1] == x);
                }
            } else {
                assert(w[i] == x);
                let k = choose|k: int| 0 <= k < d.len() && d[k] == x;
                assert(s[k] == x);
            }
        }
        if s.contains(x) && prefix_of(x) == Some(p) {
            let k = choose|k: int| 0 <= k < s.len() && s[k] == x;
            if k < s.len() - 1 {
                assert(d[k] == x);
                assert(d.contains(x));
                let i = choose|i: int| 0 <= i < w.len() && w[i] == x;
                if prefix_of(s.last()) == Some(p) {
                    assert(with_prefix(s, p)[i] == x);
                } else {
                    assert(with_prefix(s, p)[i] == x);
                }
            } else {
                assert(s.last() == x);
                assert(with_prefix(s, p)[w.len() as int] == x);
            }
        }
    }
}

proof fn lemma_first_ending_member(s: Seq<Seq<char>>, suffix: Seq<char>)
    ensures
        first_ending(s, suffix) matches Some(x) ==> s.contains(x),
    decreases s.len(),
{
    if s.len() > 0 && !ends_with(s[0], suffix) {
        lemma_first_ending_member(s.drop_first(), suffix);
        if first_ending(s.drop_first(), suffix) is Some {
            let x = first_ending(s.drop_first(), suffix)->0;
            let i = choose|i: int| 0 <= i < s.drop_first().len() && s.drop_first()[i] == x;
            assert(s[i + 1] == x);
        }
    }
}

/// The selected candidate of a group has the group's prefix.
proof fn lemma_selected_prefix(ops: Seq<JsonV>, p: Seq<char>)
    ensures
        selected_candidate(ops, p) matches Some(k) ==> prefix_of(k) == Some(p),
{
    let all = candidates_upto(ops, ops.len() as int);
    let c = group_candidates(ops, p);
    if c.len() > 0 {
        lemma_first_ending_member(c, ".MainMenu"@);
        let k = selected_candidate(ops, p)->0;
        assert(c.contains(k)) by {
            if !(p == "Bed/state.BaseScreens"@ && first_ending(c, ".MainMenu"@) is Some) {
                assert(c[0] == k);
            }
        }
        lemma_with_prefix_member(all, p, k);
    }
}

/// Some of the first `j` candidates belongs to the group `q`.
spec fn group_seen(cv: Seq<Seq<char>>, j: int, q: Option<Seq<char>>) -> bool {
    exists|i: int| 0 <= i < j && prefix_of(#[trigger] cv[i]) == q
}

/// `t` holds exactly the idle defaults of the groups met in the first `j` candidates.
spec fn pending_defaults(
    ops: Seq<JsonV>,
    sv: Map<Seq<char>, bool>,
    cv: Seq<Seq<char>>,
    j: int,
    t: Seq<Seq<char>>,
) -> bool {
    forall|k: Seq<char>|
        #![trigger t.contains(k)]
        #![trigger is_idle_default(ops, sv, k)]
        t.contains(k) <==> (is_idle_default(ops, sv, k) && group_seen(cv, j, prefix_of(k)))
}

/// Default the idle state of every mutual-exclusion group that has no
/// explicit true member.
pub fn apply_idle_defaults(index: &OpIndex, static_vals: &mut Table<bool>)
    requires
        index.wf(),
    ensures
        final(static_vals)@ == spec_apply_idle_defaults(index.opsv(), old(static_vals)@),
{
    let ghost ops = index.opsv();
    let ghost sv0 = static_vals@;
    let names = collect_names(index);
    let cands = collect_candidates(index, &names);
    let ghost cv = cands@.map_values(|c: Vec<char>| c@);
    let mut to_insert: Vec<Vec<char>> = Vec::new();
    let mut j: usize = 0;
    while j < cands.len()
        invariant
            ops == index.opsv(),
            sv0 == static_vals@,
            cv == cands@.map_values(|c: Vec<char>| c@),
            cv == candidates_upto(ops, ops.len() as int),
            j <= cands@.len(),
            pending_defaults(ops, sv0, cv, j as int, to_insert@.map_values(|c: Vec<char>| c@)),
        decreases cands@.len() - j,
    {
        let ghost ti = to_insert@.map_values(|c: Vec<char>| c@);
        proof {
            lemma_candidates_have_prefix(ops, ops.len() as int);
        }
        assert(prefix_of(cv[j as int]) is Some);
        let p = match prefix_exec(cands[j].as_slice()) {
            Some(p) => p,
            None => Vec::new(),
        };
        assert(prefix_of(cv[j as int]) == Some(p@));
        // Has an earlier candidate the same group?
        let mut seen = false;
        let mut i: usize = 0;
        while i < j
            invariant
                cv == cands@.map_values(|c: Vec<char>| c@),
                j < cands@.len(),
                i <= j,
                seen <==> exists|k: int| 0 <= k < i && prefix_of(#[trigger] cv[k]) == Some(p@),
            decreases j - i,
        {
            assert(cv[i as int] == cands@[i as int]@);
            match prefix_exec(cands[i].as_slice()) {
                Some(q) => {
                    if chars_eq(q.as_slice(), p.as_slice()) {
                        seen = true;
                    }
                },
                None => {},
            }
            i += 1;
        }
        if !seen && !has_explicit_override_exec(static_vals, p.as_slice()) {
            let group = with_prefix_exec(&cands, p.as_slice());
            let ghost gc = group_candidates(ops, p@);
            assert(group@.map_values(|c: Vec<char>| c@) == gc);
            proof {
                lemma_with_prefix_member(cv, p@, cv[j as int]);
                assert(cv.contains(cv[j as int]));
            }
            let bed = chars_eq_str(p.as_slice(), "Bed/state.BaseScreens");
            let pick: usize = if bed {
                match first_ending_exec(&group, ".MainMenu") {
                    Some(k) => k,
                    None => 0,
                }
            } else {
                0
            };
            assert(gc.len() > 0);
            let ghost sel = group@[pick as int]@;
            assert(selected_candidate(ops, p@) == Some(sel));
            proof {
                lemma_selected_prefix(ops, p@);
            }
            let ghost old_ti = to_insert@;
            to_insert.push(copy_chars(group[pick].as_slice()));
            assert(to_insert@.map_values(|c: Vec<char>| c@) =~= old_ti.map_values(|c: Vec<char>| c@).push(sel));
            let ghost tn = to_insert@.map_values(|c: Vec<char>| c@);
            assert(tn == ti.push(sel));
            assert(is_idle_default(ops, sv0, sel));
            assert forall|k: Seq<char>|
                tn.contains(k) <==> (is_idle_default(ops, sv0, k) && group_seen(
                    cv,
                    j + 1,
                    prefix_of(k),
                )) by {
                if tn.contains(k) {
                    let x = choose|x: int| 0 <= x < tn.len() && #[trigger] tn[x] == k;
                    if x < ti.len() {
                        assert(ti[x] == k);
                        assert(ti.contains(k));
                        assert(group_seen(cv, j as int, prefix_of(k)));
                        let w = choose|i: int| 0 <= i < j && prefix_of(#[trigger] cv[i]) == prefix_of(k);
                        assert(0 <= w < j + 1 && prefix_of(cv[w]) == prefix_of(k));
                    } else {
                        assert(k == sel);
                        assert(prefix_of(cv[j as int]) == prefix_of(k));
                    }
                }
                if is_idle_default(ops, sv0, k) && group_seen(cv, j + 1, prefix_of(k)) {
                    if group_seen(cv, j as int, prefix_of(k)) {
                        assert(ti.contains(k));
                        let x = choose|x: int| 0 <= x < ti.len() && #[trigger] ti[x] == k;
                        assert(tn[x] == k);
                    } else {
                        let w = choose|i: int| 0 <= i < j + 1 && prefix_of(#[trigger] cv[i]) == prefix_of(k);
                        if w < j {
                            assert(group_seen(cv, j as int, prefix_of(k)));
                        }
                        assert(w == j);
                        assert(prefix_of(k) == Some(p@));
                        assert(k == sel);
                        assert(tn[ti.len() as int] == k);
                    }
                }
            }
            assert(pending_defaults(ops, sv0, cv, j + 1, tn));
        } else {
            let ghost tn = to_insert@.map_values(|c: Vec<char>| c@);
            assert(tn == ti);
            assert forall|k: Seq<char>|
                tn.contains(k) <==> (is_idle_default(ops, sv0, k) && group_seen(
                    cv,
                    j + 1,
                    prefix_of(k),
                )) by {
                if tn.contains(k) {
                    assert(group_seen(cv, j as int, prefix_of(k)));
                    let w = choose|i: int| 0 <= i < j && prefix_of(#[trigger] cv[i]) == prefix_of(k);
                    assert(0 <= w < j + 1 && prefix_of(cv[w]) == prefix_of(k));
                }
                if is_idle_default(ops, sv0, k) && group_seen(cv, j + 1, prefix_of(k)) && !group_seen(
                    cv,
                    j as int,
                    prefix_of(k),
                ) {
                    let w = choose|i: int| 0 <= i < j + 1 && prefix_of(#[trigger] cv[i]) == prefix_of(k);
                    if w < j {
                        assert(group_seen(cv, j as int, prefix_of(k)));
                    }
                    assert(prefix_of(k) == Some(p@));
                    if seen {
                        let w2 = choose|k2: int| 0 <= k2 < j && prefix_of(#[trigger] cv[k2]) == Some(p@);
                        assert(prefix_of(cv[w2]) == prefix_of(k));
                        assert(group_seen(cv, j as int, prefix_of(k)));
                    } else {
                        assert(has_explicit_override(sv0, p@));
                    }
                }
            }
            assert(pending_defaults(ops, sv0, cv, j + 1, tn));
        }
        j += 1;
    }
    // Every idle default is the selected candidate of a group with candidates.
    assert forall|k: Seq<char>| #[trigger] is_idle_default(ops, sv0, k) implies group_seen(
        cv,
        cv.len() as int,
        prefix_of(k),
    ) by {
        let p = prefix_of(k)->0;
        let gc = group_candidates(ops, p);
        assert(gc.len() > 0);
        lemma_with_prefix_member(cv, p, gc[0]);
        assert(gc.contains(gc[0]));
        let i = choose|i: int| 0 <= i < cv.len() && cv[i] == gc[0];
        assert(prefix_of(cv[i]) == prefix_of(k));
    }
    let ghost tv = to_insert@.map_values(|c: Vec<char>| c@);
    let mut t: usize = 0;
    while t < to_insert.len()
        invariant
            tv == to_insert@.map_values(|c: Vec<char>| c@),
            t <= to_insert@.len(),
            static_vals@ == Map::new(
                |k: Seq<char>| sv0.contains_key(k) || tv.subrange(0, t as int).contains(k),
                |k: Seq<char>|
                    if sv0.contains_key(k) {
                        sv0[k]
                    } else {
                        true
                    },
            ),
        decreases to_insert@.len() - t,
    {
        let key = copy_chars(to_insert[t].as_slice());
        static_vals.or_insert(key, true);
        let ghost a1 = tv.subrange(0, t + 1);
        let ghost a0 = tv.subrange(0, t as int);
        assert forall|k: Seq<char>| a1.contains(k) <==> a0.contains(k) || k == tv[t as int] by {
            if a1.contains(k) {
                let x = choose|x: int| 0 <= x < a1.len() && #[trigger] a1[x] == k;
                if x < t {
                    assert(a0[x] == k);
                }
            }
            if a0.contains(k) {
                let x = choose|x: int| 0 <= x < a0.len() && #[trigger] a0[x] == k;
                assert(a1[x] == k);
            }
            if k == tv[t as int] {
                assert(a1[t as int] == k);
            }
        }
        assert(static_vals@ =~= Map::new(
            |k: Seq<char>| sv0.contains_key(k) || tv.subrange(0, t + 1).contains(k),
            |k: Seq<char>|
                if sv0.contains_key(k) {
                    sv0[k]
                } else {
                    true
                },
        ));
        t += 1;
    }
    assert(tv.subrange(0, tv.len() as int) =~= tv);
    assert(static_vals@ =~= spec_apply_idle_defaults(ops, sv0));
}


// ───────────────────────────── framing hidden sets ─────────────────────────────

/// The binding of the variable operation a reference resolves to.
pub open spec fn direct_variable_binding(r: JsonV, ops: Seq<JsonV>) -> Option<Seq<char>> {
    match spec_resolve_op_ref(r, ops) {
        Some(op) => if is_var(op) {
            str_at(op, "binding"@)
        } else {
            None
        },
        None => None,
    }
}

/// The bindings of the variables among the first `k` Or inputs, in order.
pub open spec fn or_vars_upto(inputs: Seq<JsonV>, ops: Seq<JsonV>, k: int) -> Seq<Seq<char>>
    decreases k,
{
    if k <= 0 {
        Seq::empty()
    } else {
        or_vars_upto(inputs, ops, k - 1) + match direct_variable_binding(inputs[k - 1], ops) {
            Some(b) => seq![b],
            None => Seq::empty(),
        }
    }
}

/// The bindings of the variables an Or operation reads directly.
pub open spec fn or_vars(or_op: JsonV, ops: Seq<JsonV>) -> Seq<Seq<char>> {
    match array_at(or_op, "inputs"@) {
        Some(a) => or_vars_upto(a, ops, a.len() as int),
        None => Seq::empty(),
    }
}

/// A visibility field of another widget bound directly to one of `vars`.
pub open spec fn sibling_reads(op: JsonV, widget: u32, ops: Seq<JsonV>, vars: Seq<Seq<char>>) -> bool {
    &&& is_field_op(op)
    &&& crate::bb_state_filter::widget_ptr(op.field("widget"@)) matches Some(w) && w != widget
    &&& op.field("input"@) matches Some(inp) && (direct_variable_binding(inp, ops) matches Some(b)
        && vars.contains(b))
}

/// A field of `widget` gated on `Invert(EvaluateOr(vars...))` where another
/// widget's visibility is bound directly to one of those variables: the
/// framing widget hides a set of states that have canvases of their own.
pub open spec fn spec_is_framing_hidden_set_field(input: JsonV, widget: u32, ops: Seq<JsonV>) -> bool {
    match spec_resolve_op_ref(input, ops) {
        Some(iop) => type_of(iop) == "BuildingBlocks_BindingsBooleanInvert"@ && match iop.field("input"@) {
            Some(inner) => match spec_resolve_op_ref(inner, ops) {
                Some(orop) => {
                    let vars = or_vars(orop, ops);
                    &&& type_of(orop) == "BuildingBlocks_BindingsBooleanEvaluateOr"@
                    &&& vars.len() > 0
                    &&& exists|j: int| 0 <= j < ops.len() && #[trigger] sibling_reads(ops[j], widget, ops, vars)
                },
                None => false,
            },
            None => false,
        },
        None => false,
    }
}

fn direct_variable_binding_exec(r: &Json, index: &OpIndex) -> (b: Option<Vec<char>>)
    requires
        index.wf(),
    ensures
        match b {
            Some(v) => direct_variable_binding(r@, index.opsv()) == Some(v@),
            None => direct_variable_binding(r@, index.opsv()) is None,
        },
{
    match resolve_op_ref(r, index) {
        Some(op) => {
            let t = type_chars(op);
            if chars_eq_str(t.as_slice(), "BuildingBlocks_BindingsBooleanVariable") {
                op.str_field("binding")
            } else {
                None
            }
        },
        None => None,
    }
}

fn contains_chars(list: &Vec<Vec<char>>, v: &[char]) -> (r: bool)
    ensures
        r == list@.map_values(|c: Vec<char>| c@).contains(v@),
{
    let ghost lv = list@.map_values(|c: Vec<char>| c@);
    let mut i: usize = 0;
    while i < list.len()
        invariant
            i <= list@.len(),
            lv == list@.map_values(|c: Vec<char>| c@),
            forall|k: int| 0 <= k < i ==> lv[k] != v@,
        decreases list@.len() - i,
    {
        if chars_eq(list[i].as_slice(), v) {
            assert(lv[i as int] == v@);
            return true;
        }
        i += 1;
    }
    false
}

/// Whether the field of `widget_ptr` bound to `input_ref` is a framing
/// widget's gate over a hidden set of states that have canvases of their
/// own (see [`spec_is_framing_hidden_set_field`]).
pub fn is_framing_hidden_set_field(input_ref: &Json, widget_ptr: BbNodeId, ops: &[Json]) -> (r: bool)
    ensures
        r == spec_is_framing_hidden_set_field(input_ref@, widget_ptr, views(ops@)),
{
    let index = OpIndex::build(ops);
    let ghost opsv = index.opsv();
    let input_op = match resolve_op_ref(input_ref, &index) {
        Some(op) => op,
        None => {
            return false;
        },
    };
    if !chars_eq_str(type_chars(input_op).as_slice(), "BuildingBlocks_BindingsBooleanInvert") {
        return false;
    }
    let inner_ref = match input_op.get("input") {
        Some(i) => i,
        None => {
            return false;
        },
    };
    let inner_op = match resolve_op_ref(inner_ref, &index) {
        Some(op) => op,
        None => {
            return false;
        },
    };
    if !chars_eq_str(type_chars(inner_op).as_slice(), "BuildingBlocks_BindingsBooleanEvaluateOr") {
        return false;
    }
    let mut vars: Vec<Vec<char>> = Vec::new();
    match inner_op.array_field("inputs") {
        Some(inputs) => {
            let ghost a = views(inputs@);
            let mut i: usize = 0;
            assert(vars@.map_values(|c: Vec<char>| c@) =~= or_vars_upto(a, opsv, 0));
            while i < inputs.len()
                invariant
                    index.wf(),
                    opsv == index.opsv(),
                    i <= inputs@.len(),
                    a == views(inputs@),
                    vars@.map_values(|c: Vec<char>| c@) == or_vars_upto(a, opsv, i as int),
                decreases inputs@.len() - i,
            {
                assert(a[i as int] == inputs@[i as int]@);
                let ghost before = vars@.map_values(|c: Vec<char>| c@);
                match direct_variable_binding_exec(&inputs[i], &index) {
                    Some(b) => {
                        let ghost bv = b@;
                        vars.push(b);
                        assert(vars@.map_values(|c: Vec<char>| c@) =~= before + seq![bv]);
                    },
                    None => {
                        assert(vars@.map_values(|c: Vec<char>| c@) =~= before + Seq::<Seq<char>>::empty());
                    },
                }
                i += 1;
            }
        },
        None => {
            assert(vars@.map_values(|c: Vec<char>| c@) =~= Seq::<Seq<char>>::empty());
        },
    }
    let ghost vv = vars@.map_values(|c: Vec<char>| c@);
    assert(vv == or_vars(inner_op@, opsv));
    if vars.len() == 0 {
        return false;
    }
    assert(opsv == views(ops@));
    assert(spec_is_framing_hidden_set_field(input_ref@, widget_ptr, opsv) == (exists|k: int|
        0 <= k < opsv.len() && #[trigger] sibling_reads(opsv[k], widget_ptr, opsv, vv)));
    let mut j: usize = 0;
    while j < ops.len()
        invariant
            spec_is_framing_hidden_set_field(input_ref@, widget_ptr, opsv) == (exists|k: int|
                0 <= k < opsv.len() && #[trigger] sibling_reads(opsv[k], widget_ptr, opsv, vv)),
            index.wf(),
            opsv == index.opsv(),
            opsv == views(ops@),
            j <= ops@.len(),
            vv == vars@.map_values(|c: Vec<char>| c@),
            forall|k: int| 0 <= k < j ==> !#[trigger] sibling_reads(opsv[k], widget_ptr, opsv, vv),
        decreases ops@.len() - j,
    {
        let op = &ops[j];
        assert(opsv[j as int] == op@);
        if chars_eq_str(type_chars(op).as_slice(), "BuildingBlocks_BindingsBooleanField") {
            match crate::bb_state_filter::parse_points_to_ptr_value(op.get("widget")) {
                Some(other) => {
                    if other != widget_ptr {
                        match op.get("input") {
                            Some(inp) => {
                                match direct_variable_binding_exec(inp, &index) {
                                    Some(b) => {
                                        if contains_chars(&vars, b.as_slice()) {
                                            assert(sibling_reads(opsv[j as int], widget_ptr, opsv, vv));
                                            return true;
                                        }
                                    },
                                    None => {},
                                }
                            },
                            None => {},
                        }
                    }
                },
                None => {},
            }
        }
        j += 1;
    }
    false
}

} // verus!
