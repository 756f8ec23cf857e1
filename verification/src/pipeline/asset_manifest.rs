//! The asset references of a scene, for diagnostics: every reference once,
//! in the order the nodes name them, split by whether the asset resolves.
use vstd::prelude::*;

use crate::pipeline::swf_selection::strings_view;

verus! {

/// Every asset a scene references, and which of them resolve.
pub struct AssetReferenceManifest {
    pub all_asset_refs: Vec<String>,
    pub resolved_asset_refs: Vec<String>,
    pub missing_asset_refs: Vec<String>,
}

/// `resolves` answers by reference: two calls with the same reference give
/// the same answer.
pub open spec fn answers_by_ref<F: Fn(&str) -> bool>(resolves: F) -> bool {
    forall|s1: &str, s2: &str, r1: bool, r2: bool|
        #![trigger call_ensures(resolves, (s1,), r1), call_ensures(resolves, (s2,), r2)]
        s1@ == s2@ && call_ensures(resolves, (s1,), r1) && call_ensures(resolves, (s2,), r2) ==> r1 == r2
}

/// What `resolves` answers for the reference `a`.
pub open spec fn resolve_answer<F: Fn(&str) -> bool>(resolves: F, a: Seq<char>) -> bool {
    let (s, r) = choose|s: &str, r: bool| s@ == a && #[trigger] call_ensures(resolves, (s,), r);
    r
}

/// The references of the nodes, each node's in turn.
pub open spec fn flatten_refs(node_refs: Seq<Seq<Seq<char>>>) -> Seq<Seq<char>>
    decreases node_refs.len(),
{
    if node_refs.len() == 0 {
        Seq::empty()
    } else {
        flatten_refs(node_refs.drop_last()) + node_refs.last()
    }
}

/// The first `k` references with repeats left out, first occurrence first.
pub open spec fn distinct_upto(refs: Seq<Seq<char>>, k: int) -> Seq<Seq<char>>
    decreases k,
{
    if k <= 0 {
        Seq::empty()
    } else {
        let d = distinct_upto(refs, k - 1);
        if d.contains(refs[k - 1]) {
            d
        } else {
            d.push(refs[k - 1])
        }
    }
}

/// The references of `refs` that `resolves` accepts (`want`) or rejects.
pub open spec fn split_refs<F: Fn(&str) -> bool>(refs: Seq<Seq<char>>, resolves: F, want: bool) -> Seq<Seq<char>>
    decreases refs.len(),
{
    if refs.len() == 0 {
        Seq::empty()
    } else {
        let pre = split_refs(refs.drop_last(), resolves, want);
        if resolve_answer(resolves, refs.last()) == want {
            pre.push(refs.last())
        } else {
            pre
        }
    }
}

/// The references of `refs` whose answer in `ans` is `want`, in order.
pub open spec fn split_by(refs: Seq<Seq<char>>, ans: Seq<bool>, want: bool) -> Seq<Seq<char>>
    decreases refs.len(),
{
    if refs.len() == 0 || ans.len() == 0 {
        Seq::empty()
    } else {
        let pre = split_by(refs.drop_last(), ans.drop_last(), want);
        if ans.last() == want {
            pre.push(refs.last())
        } else {
            pre
        }
    }
}

/// `resolves` can answer `b` for the reference `a`.
pub open spec fn can_answer<F: Fn(&str) -> bool>(resolves: F, a: Seq<char>, b: bool) -> bool {
    exists|s: &str| s@ == a && #[trigger] call_ensures(resolves, (s,), b)
}

/// `ans` holds, for each reference, an answer `resolves` can give for it.
pub open spec fn possible_answers<F: Fn(&str) -> bool>(resolves: F, refs: Seq<Seq<char>>, ans: Seq<bool>) -> bool {
    &&& ans.len() == refs.len()
    &&& forall|i: int| 0 <= i < refs.len() ==> #[trigger] can_answer(resolves, refs[i], ans[i])
}

proof fn lemma_distinct_prefix(a: Seq<Seq<char>>, b: Seq<Seq<char>>, k: int)
    requires
        0 <= k <= a.len(),
        k <= b.len(),
        a.subrange(0, k) == b.subrange(0, k),
    ensures
        distinct_upto(a, k) == distinct_upto(b, k),
    decreases k,
{
    if k > 0 {
        assert(a.subrange(0, k - 1) =~= a.subrange(0, k).subrange(0, k - 1));
        assert(b.subrange(0, k - 1) =~= b.subrange(0, k).subrange(0, k - 1));
        lemma_distinct_prefix(a, b, k - 1);
        assert(a[k - 1] == a.subrange(0, k)[k - 1]);
        assert(b[k - 1] == b.subrange(0, k)[k - 1]);
    }
}

fn contains_text(list: &Vec<String>, s: &str) -> (r: bool)
    ensures
        r == strings_view(list@).contains(s@),
{
    let ghost lv = strings_view(list@);
    let mut i: usize = 0;
    while i < list.len()
        invariant
            i <= list@.len(),
            lv == strings_view(list@),
            forall|k: int| 0 <= k < i ==> lv[k] != s@,
        decreases list@.len() - i,
    {
        if crate::json::str_eq(list[i].as_str(), s) {
            assert(lv[i as int] == s@);
            return true;
        }
        i += 1;
    }
    false
}

proof fn lemma_resolve_answer<F: Fn(&str) -> bool>(resolves: F, s: &str, r: bool)
    requires
        answers_by_ref(resolves),
        call_ensures(resolves, (s,), r),
    ensures
        resolve_answer(resolves, s@) == r,
{
    assert(exists|s2: &str, r2: bool| s2@ == s@ && #[trigger] call_ensures(resolves, (s2,), r2));
    let (s2, r2) = choose|s2: &str, r2: bool| s2@ == s@ && #[trigger] call_ensures(resolves, (s2,), r2);
    assert(call_ensures(resolves, (s2,), r2) && call_ensures(resolves, (s,), r));
}

/// The asset reference manifest of a scene whose nodes reference
/// `node_refs`: each reference once, in order, asking `resolves` whether
/// its asset can be fetched.
pub fn build_asset_reference_manifest<F: Fn(&str) -> bool>(node_refs: &[Vec<String>], resolves: &F) -> (r:
    AssetReferenceManifest)
    requires
        forall|s: &str| #[trigger] call_requires(*resolves, (s,)),
    ensures
        ({
            let refs = flatten_refs(node_refs@.map_values(|v: Vec<String>| strings_view(v@)));
            let all = distinct_upto(refs, refs.len() as int);
            &&& strings_view(r.all_asset_refs@) == all
            &&& exists|ans: Seq<bool>|
                possible_answers(*resolves, all, ans) && strings_view(r.resolved_asset_refs@) == split_by(
                    all,
                    ans,
                    true,
                ) && strings_view(r.missing_asset_refs@) == split_by(all, ans, false)
            &&& answers_by_ref(*resolves) ==> strings_view(r.resolved_asset_refs@) == split_refs(
                all,
                *resolves,
                true,
            ) && strings_view(r.missing_asset_refs@) == split_refs(all, *resolves, false)
        }),
{
    let ghost nv = node_refs@.map_values(|v: Vec<String>| strings_view(v@));
    let mut all: Vec<String> = Vec::new();
    let mut resolved: Vec<String> = Vec::new();
    let mut missing: Vec<String> = Vec::new();
    let ghost done: Seq<Seq<char>> = Seq::empty();
    let ghost ans: Seq<bool> = Seq::empty();
    let mut n: usize = 0;
    while n < node_refs.len()
        invariant
            forall|s: &str| #[trigger] call_requires(*resolves, (s,)),
            n <= node_refs@.len(),
            nv == node_refs@.map_values(|v: Vec<String>| strings_view(v@)),
            done == flatten_refs(nv.subrange(0, n as int)),
            strings_view(all@) == distinct_upto(done, done.len() as int),
            possible_answers(*resolves, strings_view(all@), ans),
            strings_view(resolved@) == split_by(strings_view(all@), ans, true),
            strings_view(missing@) == split_by(strings_view(all@), ans, false),
            answers_by_ref(*resolves) ==> strings_view(resolved@) == split_refs(strings_view(all@), *resolves, true)
                && strings_view(missing@) == split_refs(strings_view(all@), *resolves, false),
        decreases node_refs@.len() - n,
    {
        let refs = &node_refs[n];
        assert(nv[n as int] == strings_view(refs@));
        let ghost done0 = done;
        let mut i: usize = 0;
        while i < refs.len()
            invariant
                forall|s: &str| #[trigger] call_requires(*resolves, (s,)),
                i <= refs@.len(),
                done == done0 + strings_view(refs@).subrange(0, i as int),
                strings_view(all@) == distinct_upto(done, done.len() as int),
                    possible_answers(*resolves, strings_view(all@), ans),
                strings_view(resolved@) == split_by(strings_view(all@), ans, true),
                strings_view(missing@) == split_by(strings_view(all@), ans, false),
                answers_by_ref(*resolves) ==> strings_view(resolved@) == split_refs(
                    strings_view(all@),
                    *resolves,
                    true,
                ) && strings_view(missing@) == split_refs(strings_view(all@), *resolves, false),
            decreases refs@.len() - i,
        {
            let a = refs[i].as_str();
            let ghost before_all = strings_view(all@);
            proof {
                assert(strings_view(refs@).subrange(0, i + 1) =~= strings_view(refs@).subrange(0, i as int).push(
                    a@,
                ));
                let prev = done;
                done = done.push(a@);
                assert(done.drop_last() =~= done0 + strings_view(refs@).subrange(0, i as int));
                assert(done.subrange(0, prev.len() as int) =~= prev.subrange(0, prev.len() as int));
                lemma_distinct_prefix(done, prev, prev.len() as int);
            }
            if !contains_text(&all, a) {
                let ok = resolves(a);
                proof {
                    if answers_by_ref(*resolves) {
                        lemma_resolve_answer(*resolves, a, ok);
                    }
                }
                let ghost before_res = strings_view(resolved@);
                let ghost before_mis = strings_view(missing@);
                let ghost ans0 = ans;
                all.push(refs[i].clone());
                assert(strings_view(all@) =~= before_all.push(a@));
                assert(strings_view(all@).drop_last() =~= before_all);
                proof {
                    ans = ans.push(ok);
                    assert(ans.drop_last() =~= ans0);
                    let av = strings_view(all@);
                    assert forall|k: int| 0 <= k < av.len() implies #[trigger] can_answer(*resolves, av[k], ans[k]) by {
                        if k < before_all.len() {
                            assert(av[k] == before_all[k] && ans[k] == ans0[k]);
                            assert(can_answer(*resolves, before_all[k], ans0[k]));
                        } else {
                            assert(av[k] == a@ && ans[k] == ok);
                            assert(call_ensures(*resolves, (a,), ok));
                        }
                    }
                    assert(ans.len() == av.len());
                    assert(possible_answers(*resolves, av, ans));
                }
                if ok {
                    resolved.push(refs[i].clone());
                    assert(strings_view(resolved@) =~= before_res.push(a@));
                    assert(strings_view(missing@) =~= before_mis);
                } else {
                    missing.push(refs[i].clone());
                    assert(strings_view(missing@) =~= before_mis.push(a@));
                    assert(strings_view(resolved@) =~= before_res);
                }
            }
            i += 1;
        }
        proof {
            assert(strings_view(refs@).subrange(0, refs@.len() as int) =~= strings_view(refs@));
            let pre = nv.subrange(0, n + 1);
            assert(pre.drop_last() =~= nv.subrange(0, n as int));
            assert(pre.last() == strings_view(refs@));
        }
        n += 1;
    }
    proof {
        assert(nv.subrange(0, nv.len() as int) =~= nv);
        let av = strings_view(all@);
        assert(possible_answers(*resolves, av, ans) && strings_view(resolved@) == split_by(av, ans, true)
            && strings_view(missing@) == split_by(av, ans, false));
    }
    AssetReferenceManifest { all_asset_refs: all, resolved_asset_refs: resolved, missing_asset_refs: missing }
}

} // verus!
