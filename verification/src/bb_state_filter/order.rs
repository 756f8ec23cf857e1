//! The pointer values of the boolean operations do not depend on the order
//! in which the operations are listed.
use vstd::prelude::*;

use crate::bb_state_filter::eval::{
    fixpoint, lemma_round, list_value, op_value, points_to_of, round, spec_evaluate_bool_ops, unique_ptrs,
};
use crate::bb_state_filter::graph::{lemma_unvisited_shrinks, ptr_of, ptr_set, type_of, unvisited};
use crate::json::{JsonV, array_at};

verus! {

/// Every value of `m` is in `m2`, unchanged.
pub open spec fn extends(m: Map<u32, bool>, m2: Map<u32, bool>) -> bool {
    forall|p: u32| #[trigger] m.contains_key(p) ==> m2.contains_key(p) && m2[p] == m[p]
}

/// No operation whose pointer has no value in `m` can be evaluated from `m`.
pub open spec fn closed(ops: Seq<JsonV>, sv: Map<Seq<char>, bool>, m: Map<u32, bool>) -> bool {
    forall|i: int|
        0 <= i < ops.len() && (#[trigger] ptr_of(ops[i])) is Some && !m.contains_key(ptr_of(ops[i])->0)
            ==> op_value(ops[i], sv, m) is None
}

/// Every value of `m` is what the operation declaring its pointer evaluates
/// to from `m`.
pub open spec fn consistent(ops: Seq<JsonV>, sv: Map<Seq<char>, bool>, m: Map<u32, bool>) -> bool {
    forall|p: u32|
        #[trigger] m.contains_key(p) ==> exists|i: int|
            0 <= i < ops.len() && #[trigger] ptr_of(ops[i]) == Some(p) && op_value(ops[i], sv, m) == Some(m[p])
}

proof fn lemma_list_value_mono(inputs: Seq<JsonV>, m: Map<u32, bool>, m2: Map<u32, bool>, is_or: bool)
    requires
        extends(m, m2),
        list_value(inputs, m, is_or) is Some,
    ensures
        list_value(inputs, m2, is_or) == list_value(inputs, m, is_or),
    decreases inputs.len(),
{
    if inputs.len() > 0 {
        lemma_list_value_mono(inputs.drop_first(), m, m2, is_or);
        let p = points_to_of(inputs[0])->0;
        assert(m.contains_key(p));
    }
}

/// Knowing more values never changes the value of an operation that can
/// already be evaluated.
proof fn lemma_op_value_mono(op: JsonV, sv: Map<Seq<char>, bool>, m: Map<u32, bool>, m2: Map<u32, bool>)
    requires
        extends(m, m2),
        op_value(op, sv, m) is Some,
    ensures
        op_value(op, sv, m2) == op_value(op, sv, m),
{
    let ty = type_of(op);
    let a = array_at(op, "inputs"@);
    if ty != "BuildingBlocks_BindingsBooleanVariable"@ && ty != "BuildingBlocks_BindingsBooleanInvert"@ && a is Some {
        if ty == "BuildingBlocks_BindingsBooleanEvaluateOr"@ {
            lemma_list_value_mono(a->0, m, m2, true);
        } else if ty == "BuildingBlocks_BindingsBooleanEvaluateAnd"@ {
            lemma_list_value_mono(a->0, m, m2, false);
        }
    }
}

proof fn lemma_consistent_extends(ops: Seq<JsonV>, sv: Map<Seq<char>, bool>, m: Map<u32, bool>, m2: Map<u32, bool>)
    requires
        consistent(ops, sv, m),
        extends(m, m2),
    ensures
        forall|p: u32|
            #[trigger] m.contains_key(p) ==> exists|i: int|
                0 <= i < ops.len() && #[trigger] ptr_of(ops[i]) == Some(p) && op_value(ops[i], sv, m2) == Some(
                    m2[p],
                ),
{
    assert forall|p: u32| #[trigger] m.contains_key(p) implies exists|i: int|
        0 <= i < ops.len() && #[trigger] ptr_of(ops[i]) == Some(p) && op_value(ops[i], sv, m2) == Some(m2[p]) by {
        let i = choose|i: int|
            0 <= i < ops.len() && #[trigger] ptr_of(ops[i]) == Some(p) && op_value(ops[i], sv, m) == Some(m[p]);
        lemma_op_value_mono(ops[i], sv, m, m2);
    }
}

/// A pass keeps the values it started from, and every value it adds is what
/// the operation declaring its pointer evaluates to from the pass's result.
proof fn lemma_round_consistent(ops: Seq<JsonV>, sv: Map<Seq<char>, bool>, m: Map<u32, bool>)
    ensures
        extends(m, round(ops, sv, m).0),
        forall|p: u32|
            #[trigger] round(ops, sv, m).0.contains_key(p) && !m.contains_key(p) ==> exists|i: int|
                0 <= i < ops.len() && #[trigger] ptr_of(ops[i]) == Some(p) && op_value(ops[i], sv, round(ops, sv, m).0)
                    == Some(round(ops, sv, m).0[p]),
    decreases ops.len(),
{
    lemma_round(ops, sv, m);
    if ops.len() > 0 {
        let d = ops.drop_last();
        let prev = round(d, sv, m).0;
        let fin = round(ops, sv, m).0;
        lemma_round_consistent(d, sv, m);
        assert(extends(prev, fin));
        assert forall|p: u32| #[trigger] fin.contains_key(p) && !m.contains_key(p) implies exists|i: int|
            0 <= i < ops.len() && #[trigger] ptr_of(ops[i]) == Some(p) && op_value(ops[i], sv, fin) == Some(fin[p]) by {
            if prev.contains_key(p) {
                let i = choose|i: int|
                    0 <= i < d.len() && #[trigger] ptr_of(d[i]) == Some(p) && op_value(d[i], sv, prev) == Some(prev[p]);
                lemma_op_value_mono(d[i], sv, prev, fin);
                assert(ops[i] == d[i]);
            } else {
                let n = ops.len() - 1;
                assert(ops.last() == ops[n]);
                lemma_op_value_mono(ops[n], sv, prev, fin);
            }
        }
    }
}

/// A pass that finds nothing new leaves no operation it could evaluate.
proof fn lemma_round_closed(ops: Seq<JsonV>, sv: Map<Seq<char>, bool>, m: Map<u32, bool>)
    requires
        !round(ops, sv, m).1,
    ensures
        closed(ops, sv, m),
    decreases ops.len(),
{
    if ops.len() > 0 {
        let d = ops.drop_last();
        lemma_round(d, sv, m);
        lemma_round_closed(d, sv, m);
        assert forall|i: int|
            0 <= i < ops.len() && (#[trigger] ptr_of(ops[i])) is Some && !m.contains_key(ptr_of(ops[i])->0)
                implies op_value(ops[i], sv, m) is None by {
            if i < ops.len() - 1 {
                assert(d[i] == ops[i]);
                assert(ptr_of(d[i]) is Some);
            } else {
                assert(ops.last() == ops[i]);
            }
        }
    }
}

/// The fixpoint is closed, and consistent when its start is.
proof fn lemma_fixpoint_closed_consistent(ops: Seq<JsonV>, sv: Map<Seq<char>, bool>, m: Map<u32, bool>)
    requires
        m.dom().subset_of(ptr_set(ops)),
        consistent(ops, sv, m),
    ensures
        closed(ops, sv, fixpoint(ops, sv, m)),
        consistent(ops, sv, fixpoint(ops, sv, m)),
    decreases unvisited(ops, m.dom()),
{
    let r = round(ops, sv, m);
    lemma_round(ops, sv, m);
    if !r.1 {
        lemma_round_closed(ops, sv, m);
    } else {
        lemma_round_consistent(ops, sv, m);
        lemma_consistent_extends(ops, sv, m, r.0);
        assert(consistent(ops, sv, r.0));
        assert(r.0.dom().subset_of(ptr_set(ops)));
        lemma_unvisited_shrinks(ops, m.dom(), r.0.dom());
        lemma_fixpoint_closed_consistent(ops, sv, r.0);
    }
}

/// A pass over operations that all belong to `ops2` stays below any map that
/// is closed and consistent for `ops2`.
proof fn lemma_round_below(
    ops: Seq<JsonV>,
    ops2: Seq<JsonV>,
    sv: Map<Seq<char>, bool>,
    m: Map<u32, bool>,
    g: Map<u32, bool>,
)
    requires
        forall|i: int| 0 <= i < ops.len() ==> ops2.contains(#[trigger] ops[i]),
        unique_ptrs(ops2),
        closed(ops2, sv, g),
        consistent(ops2, sv, g),
        extends(m, g),
    ensures
        extends(round(ops, sv, m).0, g),
    decreases ops.len(),
{
    if ops.len() > 0 {
        let d = ops.drop_last();
        assert forall|i: int| 0 <= i < d.len() implies ops2.contains(#[trigger] d[i]) by {
            assert(d[i] == ops[i]);
        }
        lemma_round_below(d, ops2, sv, m, g);
        let prev = round(d, sv, m).0;
        let last = ops.last();
        assert(ops2.contains(ops[ops.len() - 1]));
        if let Some(p) = ptr_of(last) {
            if !prev.contains_key(p) {
                if let Some(v) = op_value(last, sv, prev) {
                    lemma_op_value_mono(last, sv, prev, g);
                    let j = choose|j: int| 0 <= j < ops2.len() && ops2[j] == last;
                    assert(ptr_of(ops2[j]) == Some(p));
                    assert(g.contains_key(p));
                    let j2 = choose|j2: int|
                        0 <= j2 < ops2.len() && #[trigger] ptr_of(ops2[j2]) == Some(p) && op_value(ops2[j2], sv, g)
                            == Some(g[p]);
                    assert(j2 == j);
                }
            }
        }
    }
}

proof fn lemma_fixpoint_below(
    ops: Seq<JsonV>,
    ops2: Seq<JsonV>,
    sv: Map<Seq<char>, bool>,
    m: Map<u32, bool>,
    g: Map<u32, bool>,
)
    requires
        m.dom().subset_of(ptr_set(ops)),
        forall|i: int| 0 <= i < ops.len() ==> ops2.contains(#[trigger] ops[i]),
        unique_ptrs(ops2),
        closed(ops2, sv, g),
        consistent(ops2, sv, g),
        extends(m, g),
    ensures
        extends(fixpoint(ops, sv, m), g),
    decreases unvisited(ops, m.dom()),
{
    let r = round(ops, sv, m);
    lemma_round(ops, sv, m);
    if r.1 {
        lemma_round_below(ops, ops2, sv, m, g);
        assert(r.0.dom().subset_of(ptr_set(ops)));
        lemma_unvisited_shrinks(ops, m.dom(), r.0.dom());
        lemma_fixpoint_below(ops, ops2, sv, r.0, g);
    }
}

/// The pointer values do not depend on the order of the operations: two
/// lists holding the same operations, each declaring every pointer at most
/// once (a permutation of such a list, for one), give the same values.
pub proof fn lemma_evaluation_order_independent(ops: Seq<JsonV>, ops2: Seq<JsonV>, sv: Map<Seq<char>, bool>)
    requires
        unique_ptrs(ops),
        unique_ptrs(ops2),
        forall|op: JsonV| ops.contains(op) <==> ops2.contains(op),
    ensures
        spec_evaluate_bool_ops(ops, sv) == spec_evaluate_bool_ops(ops2, sv),
{
    let e = Map::<u32, bool>::empty();
    let f1 = spec_evaluate_bool_ops(ops, sv);
    let f2 = spec_evaluate_bool_ops(ops2, sv);
    assert(e.dom().subset_of(ptr_set(ops)));
    assert(e.dom().subset_of(ptr_set(ops2)));
    lemma_fixpoint_closed_consistent(ops, sv, e);
    lemma_fixpoint_closed_consistent(ops2, sv, e);
    assert forall|i: int| 0 <= i < ops.len() implies ops2.contains(#[trigger] ops[i]) by {
        assert(ops.contains(ops[i]));
    }
    assert forall|i: int| 0 <= i < ops2.len() implies ops.contains(#[trigger] ops2[i]) by {
        assert(ops2.contains(ops2[i]));
    }
    lemma_fixpoint_below(ops, ops2, sv, e, f2);
    lemma_fixpoint_below(ops2, ops, sv, e, f1);
    assert(f1 =~= f2);
}

} // verus!
