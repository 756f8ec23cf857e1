//! The operation graph of a canvas record: operations indexed by their
//! `_Pointer_`, and the measure that bounds every walk through it.
use vstd::prelude::*;
use vstd::set_lib::lemma_len_subset;

use crate::bb_scene::pointers::{parse_ptr_chars, spec_parse_ptr};
use crate::json::{Json, JsonV, str_at, views};

verus! {

/// The pointer id an operation declares in `_Pointer_`.
pub open spec fn ptr_of(op: JsonV) -> Option<u32> {
    match str_at(op, "_Pointer_"@) {
        Some(s) => spec_parse_ptr(s),
        None => None,
    }
}

/// The `_Type_` of a value (empty when absent).
pub open spec fn type_of(v: JsonV) -> Seq<char> {
    match str_at(v, "_Type_"@) {
        Some(s) => s,
        None => Seq::empty(),
    }
}

/// The operation that pointer `p` resolves to: the last one declaring it
/// (a later insertion into a pointer map replaces an earlier one).
pub open spec fn op_for_ptr(ops: Seq<JsonV>, p: u32) -> Option<JsonV>
    decreases ops.len(),
{
    if ops.len() == 0 {
        None
    } else if ptr_of(ops.last()) == Some(p) {
        Some(ops.last())
    } else {
        op_for_ptr(ops.drop_last(), p)
    }
}

/// All pointer ids declared by `ops`.
pub open spec fn ptr_set(ops: Seq<JsonV>) -> Set<u32>
    decreases ops.len(),
{
    if ops.len() == 0 {
        Set::empty()
    } else {
        match ptr_of(ops.last()) {
            Some(p) => ptr_set(ops.drop_last()).insert(p),
            None => ptr_set(ops.drop_last()),
        }
    }
}

/// How many declared pointers a walk that has visited `vis` may still enter.
pub open spec fn unvisited(ops: Seq<JsonV>, vis: Set<u32>) -> nat {
    ptr_set(ops).difference(vis).len()
}

pub proof fn lemma_ptr_set(ops: Seq<JsonV>, p: u32)
    ensures
        ptr_set(ops).finite(),
        ptr_set(ops).contains(p) <==> op_for_ptr(ops, p) is Some,
        op_for_ptr(ops, p) matches Some(op) ==> ptr_of(op) == Some(p),
    decreases ops.len(),
{
    if ops.len() > 0 {
        lemma_ptr_set(ops.drop_last(), p);
    }
}

/// Visiting more pointers never lets a walk enter more of them; visiting a
/// new declared pointer lets it enter one fewer.
pub proof fn lemma_unvisited_shrinks(ops: Seq<JsonV>, v1: Set<u32>, v2: Set<u32>)
    requires
        v1.subset_of(v2),
    ensures
        unvisited(ops, v2) <= unvisited(ops, v1),
        (exists|p: u32| ptr_set(ops).contains(p) && v2.contains(p) && !v1.contains(p))
            ==> unvisited(ops, v2) < unvisited(ops, v1),
{
    lemma_ptr_set(ops, 0);
    let a = ptr_set(ops);
    lemma_len_subset(a.difference(v1), a);
    lemma_len_subset(a.difference(v2), a.difference(v1));
    if exists|p: u32| a.contains(p) && v2.contains(p) && !v1.contains(p) {
        let p = choose|p: u32| a.contains(p) && v2.contains(p) && !v1.contains(p);
        lemma_len_subset(a.difference(v2), a.difference(v1).remove(p));
    }
}

/// Operations of a record together with the pointer each one declares.
pub struct OpIndex<'a> {
    pub ops: &'a [Json],
    pub ptrs: Vec<Option<u32>>,
}

impl<'a> OpIndex<'a> {
    /// The views of the indexed operations.
    pub open spec fn opsv(&self) -> Seq<JsonV> {
        views(self.ops@)
    }

    pub open spec fn wf(&self) -> bool {
        &&& self.ptrs@.len() == self.ops@.len()
        &&& forall|i: int| 0 <= i < self.ops@.len() ==> #[trigger] self.ptrs@[i] == ptr_of(self.ops@[i]@)
    }

    pub fn build(ops: &'a [Json]) -> (r: OpIndex<'a>)
        ensures
            r.wf(),
            r.ops == ops,
    {
        let mut ptrs: Vec<Option<u32>> = Vec::new();
        let mut i: usize = 0;
        while i < ops.len()
            invariant
                i <= ops@.len(),
                ptrs@.len() == i,
                forall|k: int| 0 <= k < i ==> #[trigger] ptrs@[k] == ptr_of(ops@[k]@),
            decreases ops@.len() - i,
        {
            let p = match ops[i].str_field("_Pointer_") {
                Some(s) => parse_ptr_chars(s.as_slice()),
                None => None,
            };
            ptrs.push(p);
            i += 1;
        }
        OpIndex { ops, ptrs }
    }

    /// The operation pointer `p` resolves to.
    pub fn lookup(&self, p: u32) -> (r: Option<&'a Json>)
        requires
            self.wf(),
        ensures
            match r {
                Some(op) => op_for_ptr(self.opsv(), p) == Some(op@),
                None => op_for_ptr(self.opsv(), p) is None,
            },
    {
        let mut i: usize = self.ops.len();
        assert(self.opsv().subrange(0, i as int) =~= self.opsv());
        while i > 0
            invariant
                self.wf(),
                i <= self.ops@.len(),
                op_for_ptr(self.opsv(), p) == op_for_ptr(self.opsv().subrange(0, i as int), p),
            decreases i,
        {
            let ghost pre = self.opsv().subrange(0, i as int);
            assert(pre.last() == self.ops@[i - 1]@);
            if self.ptrs[i - 1] == Some(p) {
                return Some(&self.ops[i - 1]);
            }
            assert(pre.drop_last() =~= self.opsv().subrange(0, i - 1));
            i -= 1;
        }
        None
    }
}

} // verus!
