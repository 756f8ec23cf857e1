//! Binding operations of widget clones.
//!
//! A `BuildingBlocks_WidgetClone` node duplicates a library subtree under
//! synthetic node ids. The operations bound to the source widgets are
//! duplicated with it: every operation they read is cloned under a fresh
//! synthetic pointer, and every pointer inside the clones is remapped onto
//! the clone's ids, so cloned visuals keep their authored binding graphs.
use vstd::prelude::*;

use crate::bb_scene::pointers::{parse_points_to_chars, parse_ptr_chars, spec_parse_points_to, spec_parse_ptr};
use crate::bb_scene::types::BbNodeId;
use crate::bb_state_filter::graph::{OpIndex, lemma_ptr_set, lemma_unvisited_shrinks, op_for_ptr, ptr_of, unvisited};
use crate::json::{
    Json, JsonNumber, JsonV, entries_size, jsize, json_view, lemma_entries_elem_smaller,
    lemma_seq_elem_smaller, members_view, seq_size, str_at, views,
};
use crate::strs::{append_str, chars_of, decimal, push_decimal, string_of};

verus! {

/// Hand out the next synthetic node id and advance the counter.
pub fn next_synthetic_id(synthetic_base: &mut u32) -> (r: BbNodeId)
    requires
        *old(synthetic_base) < u32::MAX,
    ensures
        r == *old(synthetic_base),
        *final(synthetic_base) == *old(synthetic_base) + 1,
{
    let id = *synthetic_base;
    *synthetic_base = *synthetic_base + 1;
    id
}

/// The value a key maps to in a list of pairs: the first pair with the key.
pub open spec fn lookup_pair(m: Seq<(u32, u32)>, k: u32) -> Option<u32>
    decreases m.len(),
{
    if m.len() == 0 {
        None
    } else if m[0].0 == k {
        Some(m[0].1)
    } else {
        lookup_pair(m.drop_first(), k)
    }
}

/// The map a list of pairs stands for: each key to the value of its first
/// pair (a list built from a map holds each key once).
pub open spec fn pair_map(m: Seq<(u32, u32)>) -> Map<u32, u32> {
    Map::new(|k: u32| lookup_pair(m, k) is Some, |k: u32| lookup_pair(m, k)->0)
}

/// The new id of a pointer: its cloned node's id, else its cloned
/// operation's pointer.
pub open spec fn new_ptr_of(nodes: Map<u32, u32>, op_ptrs: Map<u32, u32>, p: u32) -> Option<u32> {
    if nodes.contains_key(p) {
        Some(nodes[p])
    } else if op_ptrs.contains_key(p) {
        Some(op_ptrs[p])
    } else {
        None
    }
}

/// A pointer string with its id remapped: `_PointsTo_:ptr:N` and `ptr:N`
/// keep their form; a string that names no remapped id stays as it is.
pub open spec fn remap_text(t: Seq<char>, nodes: Map<u32, u32>, op_ptrs: Map<u32, u32>) -> Seq<char> {
    match spec_parse_points_to(t) {
        Some(p) => match new_ptr_of(nodes, op_ptrs, p) {
            Some(n) => "_PointsTo_:ptr:"@ + decimal(n as nat),
            None => t,
        },
        None => match spec_parse_ptr(t) {
            Some(p) => match new_ptr_of(nodes, op_ptrs, p) {
                Some(n) => "ptr:"@ + decimal(n as nat),
                None => t,
            },
            None => t,
        },
    }
}

/// A JSON value with every pointer string in it remapped.
pub open spec fn remap_json(v: JsonV, nodes: Map<u32, u32>, op_ptrs: Map<u32, u32>) -> JsonV
    decreases v,
{
    match v {
        JsonV::Str(t) => JsonV::Str(remap_text(t, nodes, op_ptrs)),
        JsonV::Array(s) => JsonV::Array(
            Seq::new(s.len(), |i: int| if 0 <= i < s.len() { remap_json(s[i], nodes, op_ptrs) } else { JsonV::Null }),
        ),
        JsonV::Object(m) => JsonV::Object(
            Seq::new(
                m.len(),
                |i: int|
                    if 0 <= i < m.len() {
                        (m[i].0, remap_json(m[i].1, nodes, op_ptrs))
                    } else {
                        (Seq::empty(), JsonV::Null)
                    },
            ),
        ),
        _ => v,
    }
}

fn lookup_pair_exec(m: &[(u32, u32)], k: u32) -> (r: Option<u32>)
    ensures
        r == lookup_pair(m@, k),
{
    let mut i: usize = 0;
    assert(m@.subrange(0, m@.len() as int) =~= m@);
    while i < m.len()
        invariant
            i <= m@.len(),
            lookup_pair(m@, k) == lookup_pair(m@.subrange(i as int, m@.len() as int), k),
        decreases m@.len() - i,
    {
        let ghost rest = m@.subrange(i as int, m@.len() as int);
        assert(rest[0] == m@[i as int]);
        if m[i].0 == k {
            return Some(m[i].1);
        }
        assert(rest.drop_first() =~= m@.subrange(i + 1, m@.len() as int));
        i += 1;
    }
    None
}

fn new_ptr_exec(nodes: &[(u32, u32)], op_ptrs: &[(u32, u32)], p: u32) -> (r: Option<u32>)
    ensures
        r == new_ptr_of(pair_map(nodes@), pair_map(op_ptrs@), p),
{
    match lookup_pair_exec(nodes, p) {
        Some(n) => Some(n),
        None => lookup_pair_exec(op_ptrs, p),
    }
}

fn remap_text_exec(t: &String, nodes: &[(u32, u32)], op_ptrs: &[(u32, u32)]) -> (r: String)
    ensures
        r@ == remap_text(t@, pair_map(nodes@), pair_map(op_ptrs@)),
{
    let c = chars_of(t.as_str());
    match parse_points_to_chars(c.as_slice()) {
        Some(p) => match new_ptr_exec(nodes, op_ptrs, p) {
            Some(n) => {
                let mut out: Vec<char> = Vec::new();
                append_str(&mut out, "_PointsTo_:ptr:");
                push_decimal(&mut out, n as u64);
                string_of(out.as_slice())
            },
            None => t.clone(),
        },
        None => match parse_ptr_chars(c.as_slice()) {
            Some(p) => match new_ptr_exec(nodes, op_ptrs, p) {
                Some(n) => {
                    let mut out: Vec<char> = Vec::new();
                    append_str(&mut out, "ptr:");
                    push_decimal(&mut out, n as u64);
                    string_of(out.as_slice())
                },
                None => t.clone(),
            },
            None => t.clone(),
        },
    }
}

/// A copy of `value` with every pointer string remapped (see [`remap_json`]).
pub fn remapped(value: &Json, nodes: &[(u32, u32)], op_ptrs: &[(u32, u32)]) -> (r: Json)
    ensures
        r@ == remap_json(value@, pair_map(nodes@), pair_map(op_ptrs@)),
    decreases jsize(value@),
{
    match value {
        Json::Null => Json::Null,
        Json::Bool(b) => Json::Bool(*b),
        Json::Number(n) => Json::Number(
            match n {
                JsonNumber::PosInt(u) => JsonNumber::PosInt(*u),
                JsonNumber::NegInt(i) => JsonNumber::NegInt(*i),
                JsonNumber::Float(f) => JsonNumber::Float(*f),
            },
        ),
        Json::String(t) => Json::String(remap_text_exec(t, nodes, op_ptrs)),
        Json::Array(items) => {
            let ghost vs = value@->Array_0;
            let mut out: Vec<Json> = Vec::new();
            let mut i: usize = 0;
            while i < items.len()
                invariant
                    i <= items@.len(),
                    vs.len() == items@.len(),
                    value@ == json_view(Json::Array(*items)),
                    vs == value@->Array_0,
                    forall|k: int| 0 <= k < items@.len() ==> #[trigger] vs[k] == items@[k]@,
                    out@.len() == i,
                    forall|k: int| 0 <= k < i ==> (#[trigger] out@[k])@ == remap_json(items@[k]@, pair_map(nodes@), pair_map(op_ptrs@)),
                decreases items@.len() - i,
            {
                proof {
                    lemma_seq_elem_smaller(vs, i as int);
                }
                out.push(remapped(&items[i], nodes, op_ptrs));
                i += 1;
            }
            let r = Json::Array(out);
            assert(r@->Array_0 =~= remap_json(value@, pair_map(nodes@), pair_map(op_ptrs@))->Array_0);
            r
        },
        Json::Object(members) => {
            let ghost es = value@->Object_0;
            let mut out: Vec<(String, Json)> = Vec::new();
            let mut i: usize = 0;
            while i < members.len()
                invariant
                    i <= members@.len(),
                    es.len() == members@.len(),
                    value@ == json_view(Json::Object(*members)),
                    es == value@->Object_0,
                    forall|k: int| 0 <= k < members@.len() ==> #[trigger] es[k] == (members@[k].0@, members@[k].1@),
                    out@.len() == i,
                    forall|k: int|
                        0 <= k < i ==> (#[trigger] out@[k]).0@ == members@[k].0@ && out@[k].1@ == remap_json(
                            members@[k].1@,
                            pair_map(nodes@),
                            pair_map(op_ptrs@),
                        ),
                decreases members@.len() - i,
            {
                proof {
                    lemma_entries_elem_smaller(es, i as int);
                }
                out.push((members[i].0.clone(), remapped(&members[i].1, nodes, op_ptrs)));
                i += 1;
            }
            let r = Json::Object(out);
            assert(r@->Object_0 =~= remap_json(value@, pair_map(nodes@), pair_map(op_ptrs@))->Object_0);
            r
        },
    }
}

/// Remap every pointer string in `value` onto the clone's node ids and
/// operation pointers.
pub fn remap_operation_ptrs(value: &mut Json, node_id_map: &[(u32, u32)], op_ptr_map: &[(u32, u32)])
    ensures
        final(value)@ == remap_json(old(value)@, pair_map(node_id_map@), pair_map(op_ptr_map@)),
{
    let r = remapped(value, node_id_map, op_ptr_map);
    *value = r;
}


// ───────────────────────────── referenced operations ─────────────────────────────

/// The pointer a string names: `_PointsTo_:ptr:N` or `ptr:N`.
pub open spec fn ref_ptr(t: Seq<char>) -> Option<u32> {
    match spec_parse_points_to(t) {
        Some(p) => Some(p),
        None => spec_parse_ptr(t),
    }
}

/// The operation pointers reachable from a value: every pointer string that
/// names an operation adds it, and the operation is walked in turn, once.
pub open spec fn collect_refs(v: JsonV, ops: Seq<JsonV>, c: Set<u32>) -> Set<u32>
    decreases unvisited(ops, c), jsize(v), 2nat,
{
    match v {
        JsonV::Str(t) => match ref_ptr(t) {
            None => c,
            Some(p) => match op_for_ptr(ops, p) {
                None => c,
                Some(op) => if c.contains(p) {
                    c
                } else {
                    proof {
                        lemma_ptr_set(ops, p);
                        lemma_unvisited_shrinks(ops, c, c.insert(p));
                    }
                    collect_refs(op, ops, c.insert(p))
                },
            },
        },
        JsonV::Array(s) => collect_items(s, ops, c),
        JsonV::Object(m) => collect_members(m, ops, c),
        _ => c,
    }
}

pub open spec fn collect_items(s: Seq<JsonV>, ops: Seq<JsonV>, c: Set<u32>) -> Set<u32>
    decreases unvisited(ops, c), seq_size(s) + 1, 1nat,
{
    if s.len() == 0 {
        c
    } else {
        proof {
            lemma_seq_elem_smaller(s, 0);
        }
        let c1 = c.union(collect_refs(s[0], ops, c));
        proof {
            lemma_unvisited_shrinks(ops, c, c1);
        }
        collect_items(s.subrange(1, s.len() as int), ops, c1)
    }
}

pub open spec fn collect_members(m: Seq<(Seq<char>, JsonV)>, ops: Seq<JsonV>, c: Set<u32>) -> Set<u32>
    decreases unvisited(ops, c), entries_size(m) + 1, 1nat,
{
    if m.len() == 0 {
        c
    } else {
        proof {
            lemma_entries_elem_smaller(m, 0);
        }
        let c1 = c.union(collect_refs(m[0].1, ops, c));
        proof {
            lemma_unvisited_shrinks(ops, c, c1);
        }
        collect_members(m.subrange(1, m.len() as int), ops, c1)
    }
}

/// Add to `collected` every operation pointer reachable from `value` (see
/// [`collect_refs`]).
pub fn collect_referenced_operation_ptrs(
    value: &Json,
    index: &OpIndex,
    collected: &mut std::collections::HashSet<BbNodeId>,
)
    requires
        index.wf(),
    ensures
        final(collected)@ == collect_refs(value@, index.opsv(), old(collected)@),
        old(collected)@.subset_of(final(collected)@),
    decreases unvisited(index.opsv(), old(collected)@), jsize(value@), 2nat,
{
    let ghost ops = index.opsv();
    match value {
        Json::String(t) => {
            let c = chars_of(t.as_str());
            let ptr = match parse_points_to_chars(c.as_slice()) {
                Some(p) => p,
                None => match parse_ptr_chars(c.as_slice()) {
                    Some(p) => p,
                    None => {
                        return;
                    },
                },
            };
            match index.lookup(ptr) {
                None => {},
                Some(op) => {
                    if collected.insert(ptr) {
                        proof {
                            lemma_ptr_set(ops, ptr);
                            lemma_unvisited_shrinks(ops, old(collected)@, collected@);
                        }
                        collect_referenced_operation_ptrs(op, index, collected);
                    }
                },
            }
        },
        Json::Array(items) => {
            let ghost s = value@->Array_0;
            let ghost c0 = collected@;
            proof {
                crate::json::lemma_array_view(*items);
            }
            assert(s.subrange(0, s.len() as int) =~= s);
            let mut i: usize = 0;
            while i < items.len()
                invariant
                    index.wf(),
                    ops == index.opsv(),
                    i <= items@.len(),
                    s == crate::json::views(items@),
                    value@ == JsonV::Array(s),
                    c0 == old(collected)@,
                    c0.subset_of(collected@),
                    collect_items(s, ops, c0) == collect_items(s.subrange(i as int, s.len() as int), ops, collected@),
                decreases items@.len() - i,
            {
                let ghost rest = s.subrange(i as int, s.len() as int);
                let ghost before = collected@;
                assert(rest[0] == items@[i as int]@);
                assert(rest.subrange(1, rest.len() as int) =~= s.subrange(i + 1, s.len() as int));
                proof {
                    lemma_seq_elem_smaller(s, i as int);
                    lemma_unvisited_shrinks(ops, c0, collected@);
                }
                collect_referenced_operation_ptrs(&items[i], index, collected);
                assert(before.union(collected@) =~= collected@);
                i += 1;
            }
        },
        Json::Object(members) => {
            let ghost m = value@->Object_0;
            let ghost c0 = collected@;
            assert(m.len() == members@.len());
            assert(forall|k: int| 0 <= k < members@.len() ==> #[trigger] m[k] == (members@[k].0@, members@[k].1@));
            assert(m.subrange(0, m.len() as int) =~= m);
            let mut i: usize = 0;
            while i < members.len()
                invariant
                    index.wf(),
                    ops == index.opsv(),
                    i <= members@.len(),
                    m.len() == members@.len(),
                    forall|k: int| 0 <= k < members@.len() ==> #[trigger] m[k] == (members@[k].0@, members@[k].1@),
                    value@ == JsonV::Object(m),
                    c0 == old(collected)@,
                    c0.subset_of(collected@),
                    collect_members(m, ops, c0) == collect_members(m.subrange(i as int, m.len() as int), ops, collected@),
                decreases members@.len() - i,
            {
                let ghost rest = m.subrange(i as int, m.len() as int);
                let ghost before = collected@;
                assert(rest[0] == m[i as int]);
                assert(rest.subrange(1, rest.len() as int) =~= m.subrange(i + 1, m.len() as int));
                proof {
                    lemma_entries_elem_smaller(m, i as int);
                    lemma_unvisited_shrinks(ops, c0, collected@);
                }
                collect_referenced_operation_ptrs(&members[i].1, index, collected);
                assert(before.union(collected@) =~= collected@);
                i += 1;
            }
        },
        _ => {},
    }
}

} // verus!

verus! {

fn keys_of(deps: &std::collections::HashSet<u32>) -> (r: Vec<u32>)
    ensures
        r@.no_duplicates(),
        r@.to_set() == deps@,
{
    broadcast use vstd::std_specs::hash::group_hash_axioms;
    let mut keys: Vec<u32> = Vec::new();
    let iter = deps.iter();
    let ghost all = vstd::std_specs::iter::IteratorSpec::remaining(&iter);
    assert(all.unref().to_set() == deps@);
    for p in it: iter
        invariant
            it.seq() == all,
            keys@ == all.unref().take(it.index() as int),
    {
        keys.push(*p);
    }
    proof {
        let u = all.unref();
        assert(keys@ =~= u);
        u.unique_seq_to_set();
    }
    keys
}


// ───────────────────────────── synthetic operation pointers ─────────────────────────────

/// The pointers that lie below `p`.
pub open spec fn below(p: u32) -> spec_fn(u32) -> bool {
    |q: u32| q < p
}

/// How many pointers of `deps` lie below `p`.
pub open spec fn rank(deps: Set<u32>, p: u32) -> nat {
    deps.filter(below(p)).len()
}

/// The synthetic pointer each collected operation pointer gets: the
/// pointers are numbered from `base` up, in ascending order.
pub open spec fn numbering(deps: Set<u32>, base: u32) -> Map<u32, u32> {
    Map::new(|p: u32| deps.contains(p), |p: u32| (base + rank(deps, p)) as u32)
}

proof fn lemma_count_below(s: Seq<u32>, p: u32)
    requires
        s.no_duplicates(),
    ensures
        s.filter(below(p)).len() == rank(s.to_set(), p),
    decreases s.len(),
{
    broadcast use vstd::seq_lib::seq_to_set_is_finite;

    if s.len() == 0 {
        assert(s.to_set().filter(below(p)) =~= Set::empty());
        assert(s.filter(below(p)) =~= Seq::empty()) by {
            reveal(Seq::filter);
        }
    } else {
        let t = s.drop_last();
        let x = s.last();
        assert(t.no_duplicates());
        lemma_count_below(t, p);
        assert(s =~= t.push(x));
        t.lemma_filter_push(x, below(p));
        assert(s.to_set() =~= t.to_set().insert(x));
        assert(!t.to_set().contains(x)) by {
            if t.to_set().contains(x) {
                let j = choose|j: int| 0 <= j < t.len() && t[j] == x;
                assert(s[j] == s[s.len() - 1]);
            }
        }
        t.to_set().lemma_len_filter(below(p));
        if x < p {
            assert(s.to_set().filter(below(p)) =~= t.to_set().filter(below(p)).insert(x));
        } else {
            assert(s.to_set().filter(below(p)) =~= t.to_set().filter(below(p)));
        }
    }
}

proof fn lemma_rank_bounds(deps: Set<u32>, p: u32, q: u32)
    requires
        deps.finite(),
        deps.contains(p),
    ensures
        rank(deps, p) < deps.len(),
        deps.contains(q) && p < q ==> rank(deps, p) < rank(deps, q),
{
    vstd::set_lib::lemma_len_subset(deps.filter(below(p)), deps.remove(p));
    if deps.contains(q) && p < q {
        deps.lemma_len_filter(below(q));
        assert(!deps.filter(below(p)).contains(p));
        vstd::set_lib::lemma_len_subset(deps.filter(below(p)).insert(p), deps.filter(below(q)));
    }
}

/// The synthetic pointers handed to cloned operations are fresh and
/// distinct: each lies in `[base, base + |deps|)`, and they keep the order
/// of the pointers they replace.
pub proof fn lemma_numbering_fresh_and_ordered(deps: Set<u32>, base: u32, p: u32, q: u32)
    requires
        deps.finite(),
        deps.contains(p),
        deps.contains(q),
        base + deps.len() <= u32::MAX,
    ensures
        base <= numbering(deps, base)[p] < base + deps.len(),
        p < q ==> numbering(deps, base)[p] < numbering(deps, base)[q],
        p != q ==> numbering(deps, base)[p] != numbering(deps, base)[q],
{
    lemma_rank_bounds(deps, p, q);
    lemma_rank_bounds(deps, q, p);
}

proof fn lemma_lookup_graph(pairs: Seq<(u32, u32)>, keys: Seq<u32>, f: spec_fn(u32) -> u32, k: u32)
    requires
        pairs.len() == keys.len(),
        forall|j: int| 0 <= j < pairs.len() ==> #[trigger] pairs[j] == (keys[j], f(keys[j])),
    ensures
        lookup_pair(pairs, k) == (if keys.contains(k) { Some(f(k)) } else { None::<u32> }),
    decreases pairs.len(),
{
    if pairs.len() > 0 {
        assert(pairs[0] == (keys[0], f(keys[0])));
        let pt = pairs.drop_first();
        let kt = keys.drop_first();
        assert forall|j: int| 0 <= j < pt.len() implies #[trigger] pt[j] == (kt[j], f(kt[j])) by {
            assert(pairs[j + 1] == (keys[j + 1], f(keys[j + 1])));
        }
        lemma_lookup_graph(pt, kt, f, k);
        if keys[0] != k {
            assert(keys.contains(k) ==> kt.contains(k)) by {
                if keys.contains(k) {
                    let j = choose|j: int| 0 <= j < keys.len() && keys[j] == k;
                    assert(kt[j - 1] == k);
                }
            }
            assert(kt.contains(k) ==> keys.contains(k)) by {
                if kt.contains(k) {
                    let j = choose|j: int| 0 <= j < kt.len() && kt[j] == k;
                    assert(keys[j + 1] == k);
                }
            }
        }
    }
}

fn count_below(keys: &Vec<u32>, p: u32) -> (r: usize)
    ensures
        r == keys@.filter(below(p)).len(),
{
    let mut n: usize = 0;
    let mut j: usize = 0;
    while j < keys.len()
        invariant
            j <= keys@.len(),
            n == keys@.take(j as int).filter(below(p)).len(),
            n <= j,
        decreases keys@.len() - j,
    {
        proof {
            assert(keys@.take(j + 1) =~= keys@.take(j as int).push(keys@[j as int]));
            keys@.take(j as int).lemma_filter_push(keys@[j as int], below(p));
        }
        if keys[j] < p {
            n += 1;
        }
        j += 1;
    }
    assert(keys@.take(keys@.len() as int) =~= keys@);
    n
}

/// Number the collected operation pointers from `base` up, in ascending
/// order (see [`numbering`]).
fn number_ascending(deps: &std::collections::HashSet<u32>, base: u32) -> (r: Vec<(u32, u32)>)
    requires
        base + deps@.len() <= u32::MAX,
    ensures
        pair_map(r@) == numbering(deps@, base),
{
    broadcast use vstd::seq_lib::seq_to_set_is_finite;

    let keys = keys_of(deps);
    proof {
        keys@.unique_seq_to_set();
    }
    let ghost f = |k: u32| (base + rank(deps@, k)) as u32;
    let mut pairs: Vec<(u32, u32)> = Vec::new();
    let mut i: usize = 0;
    while i < keys.len()
        invariant
            i <= keys@.len(),
            keys@.no_duplicates(),
            keys@.to_set() == deps@,
            keys@.len() == deps@.len(),
            base + deps@.len() <= u32::MAX,
            f == (|k: u32| (base + rank(deps@, k)) as u32),
            pairs@.len() == i,
            forall|j: int| 0 <= j < i ==> #[trigger] pairs@[j] == (keys@[j], f(keys@[j])),
        decreases keys@.len() - i,
    {
        let n = count_below(&keys, keys[i]);
        proof {
            lemma_count_below(keys@, keys@[i as int]);
            assert(deps@.contains(keys@[i as int]));
            lemma_rank_bounds(deps@, keys@[i as int], 0);
        }
        pairs.push((keys[i], base + n as u32));
        i += 1;
    }
    proof {
        assert forall|k: u32| #[trigger] pair_map(pairs@).contains_key(k) == numbering(deps@, base).contains_key(k)
            && (pair_map(pairs@).contains_key(k) ==> pair_map(pairs@)[k] == numbering(deps@, base)[k]) by {
            lemma_lookup_graph(pairs@, keys@, f, k);
        }
        assert(pair_map(pairs@) =~= numbering(deps@, base));
    }
    pairs
}


// ───────────────────────────── cloning the bound operations ─────────────────────────────

/// The index of the first member named `key`.
pub open spec fn first_member(m: Seq<(Seq<char>, JsonV)>, key: Seq<char>) -> Option<int>
    decreases m.len(),
{
    if m.len() == 0 {
        None
    } else if m[0].0 == key {
        Some(0)
    } else {
        match first_member(m.drop_first(), key) {
            Some(i) => Some(i + 1),
            None => None,
        }
    }
}

/// A value with its first member named `key` set to `val`; a value without
/// such a member stays as it is.
pub open spec fn with_member(v: JsonV, key: Seq<char>, val: JsonV) -> JsonV {
    match v {
        JsonV::Object(m) => match first_member(m, key) {
            Some(i) => JsonV::Object(m.update(i, (key, val))),
            None => v,
        },
        _ => v,
    }
}

proof fn lemma_first_member(m: Seq<(Seq<char>, JsonV)>, key: Seq<char>)
    ensures
        first_member(m, key) matches Some(i) ==> 0 <= i < m.len() && m[i].0 == key,
    decreases m.len(),
{
    if m.len() > 0 && m[0].0 != key {
        lemma_first_member(m.drop_first(), key);
    }
}

fn first_member_index(members: &Vec<(String, Json)>, key: &str) -> (r: Option<usize>)
    ensures
        match r {
            Some(i) => first_member(members_view(members@), key@) == Some(i as int),
            None => first_member(members_view(members@), key@) is None,
        },
{
    let ghost m0 = members_view(members@);
    assert(m0.subrange(0, m0.len() as int) =~= m0);
    let mut i: usize = 0;
    while i < members.len()
        invariant
            i <= members@.len(),
            m0 == members_view(members@),
            first_member(m0, key@) == match first_member(m0.subrange(i as int, m0.len() as int), key@) {
                Some(j) => Some(j + i),
                None => None::<int>,
            },
        decreases members@.len() - i,
    {
        let ghost rest = m0.subrange(i as int, m0.len() as int);
        assert(rest[0] == m0[i as int]);
        if crate::json::str_eq(members[i].0.as_str(), key) {
            assert(first_member(rest, key@) == Some(0int));
            return Some(i);
        }
        assert(rest.drop_first() =~= m0.subrange(i + 1, m0.len() as int));
        i += 1;
    }
    None
}

fn set_member(value: Json, key: &str, val: Json) -> (r: Json)
    ensures
        r@ == with_member(value@, key@, val@),
{
    match value {
        Json::Object(members) => {
            let mut members = members;
            let ghost m0 = members_view(members@);
            assert(json_view(Json::Object(members))->Object_0 =~= m0);
            match first_member_index(&members, key) {
                Some(i) => {
                    proof {
                        lemma_first_member(m0, key@);
                    }
                    let k = members[i].0.clone();
                    members.set(i, (k, val));
                    let r = Json::Object(members);
                    assert(r@->Object_0 =~= m0.update(i as int, (key@, val@)));
                    r
                },
                None => Json::Object(members),
            }
        },
        other => other,
    }
}

/// Whether an operation is bound (by its `widget` member) to one of the
/// source nodes of a clone.
pub open spec fn is_clone_root(op: JsonV, nodes: Map<u32, u32>) -> bool {
    match str_at(op, "widget"@) {
        Some(s) => match spec_parse_points_to(s) {
            Some(p) => nodes.contains_key(p),
            None => false,
        },
        None => false,
    }
}

/// The operation pointers reachable from the bound operations among the
/// first `n` operations, collected in order.
pub open spec fn clone_deps(ops: Seq<JsonV>, nodes: Map<u32, u32>, n: nat) -> Set<u32>
    decreases n,
{
    if n == 0 || n > ops.len() {
        Set::empty()
    } else {
        let c = clone_deps(ops, nodes, (n - 1) as nat);
        if is_clone_root(ops[n - 1], nodes) {
            collect_refs(ops[n - 1], ops, c)
        } else {
            c
        }
    }
}

/// Whether some operation is bound to a source node.
pub open spec fn has_clone_root(ops: Seq<JsonV>, nodes: Map<u32, u32>) -> bool {
    exists|i: int| 0 <= i < ops.len() && is_clone_root(#[trigger] ops[i], nodes)
}

/// Whether an operation is cloned: it is bound to a source node, or one of
/// them reads it.
pub open spec fn should_clone(op: JsonV, nodes: Map<u32, u32>, deps: Set<u32>) -> bool {
    is_clone_root(op, nodes) || (ptr_of(op) matches Some(p) && deps.contains(p))
}

/// The clone of an operation: its pointers remapped, and its own
/// `_Pointer_` set to its synthetic pointer.
pub open spec fn cloned_op(op: JsonV, nodes: Map<u32, u32>, op_ptrs: Map<u32, u32>) -> JsonV {
    let r = remap_json(op, nodes, op_ptrs);
    match ptr_of(op) {
        Some(p) => if op_ptrs.contains_key(p) {
            with_member(r, "_Pointer_"@, JsonV::Str("ptr:"@ + decimal(op_ptrs[p] as nat)))
        } else {
            r
        },
        None => r,
    }
}

/// The clones of the first `n` operations, in order.
pub open spec fn clones_upto(
    ops: Seq<JsonV>,
    nodes: Map<u32, u32>,
    deps: Set<u32>,
    op_ptrs: Map<u32, u32>,
    n: nat,
) -> Seq<JsonV>
    decreases n,
{
    if n == 0 || n > ops.len() {
        Seq::empty()
    } else {
        let pre = clones_upto(ops, nodes, deps, op_ptrs, (n - 1) as nat);
        if should_clone(ops[n - 1], nodes, deps) {
            pre.push(cloned_op(ops[n - 1], nodes, op_ptrs))
        } else {
            pre
        }
    }
}

/// Duplicate the operations bound to the source nodes of a widget clone.
///
/// `node_id_map` maps each source node to its clone. Every operation bound
/// to a source node, and every operation such an operation reads (directly
/// or through other operations), is cloned, in the order of `operations`,
/// and appended. The operations that are read get synthetic pointers
/// numbered from `synthetic_base` up in ascending order of their pointers,
/// and every pointer inside the clones is remapped onto the clone's ids.
/// Nothing changes when no operation is bound to a source node.
#[verifier::rlimit(40)]
pub fn clone_widget_clone_operations(
    node_id_map: &[(u32, u32)],
    operations: &mut Vec<Json>,
    synthetic_base: &mut u32,
)
    requires
        *old(synthetic_base) + clone_deps(
            views(old(operations)@),
            pair_map(node_id_map@),
            old(operations)@.len() as nat,
        ).len() <= u32::MAX,
    ensures
        ({
            let ops = views(old(operations)@);
            let nodes = pair_map(node_id_map@);
            let deps = clone_deps(ops, nodes, ops.len());
            if has_clone_root(ops, nodes) {
                &&& views(final(operations)@) == ops + clones_upto(
                    ops,
                    nodes,
                    deps,
                    numbering(deps, *old(synthetic_base)),
                    ops.len(),
                )
                &&& *final(synthetic_base) == *old(synthetic_base) + deps.len()
            } else {
                &&& final(operations)@ == old(operations)@
                &&& *final(synthetic_base) == *old(synthetic_base)
            }
        }),
{
    let ghost ops = views(operations@);
    let ghost nodes = pair_map(node_id_map@);
    let ghost n = operations@.len();
    let mut deps: std::collections::HashSet<u32> = std::collections::HashSet::new();
    let mut roots: Vec<bool> = Vec::new();
    let mut any_root = false;
    let index = OpIndex::build(operations.as_slice());
    let mut i: usize = 0;
    while i < index.ops.len()
        invariant
            index.wf(),
            index.ops@ == old(operations)@,
            ops == index.opsv(),
            n == ops.len(),
            i <= n,
            nodes == pair_map(node_id_map@),
            deps@ == clone_deps(ops, nodes, i as nat),
            roots@.len() == i,
            forall|k: int| 0 <= k < i ==> #[trigger] roots@[k] == is_clone_root(ops[k], nodes),
            any_root <==> exists|k: int| 0 <= k < i && is_clone_root(#[trigger] ops[k], nodes),
        decreases n - i,
    {
        let op = &index.ops[i];
        assert(ops[i as int] == op@);
        let is_root = match op.str_field("widget") {
            Some(w) => match parse_points_to_chars(w.as_slice()) {
                Some(p) => {
                    let found = lookup_pair_exec(node_id_map, p);
                    assert(nodes.contains_key(p) == (lookup_pair(node_id_map@, p) is Some));
                    found.is_some()
                },
                None => false,
            },
            None => false,
        };
        assert(is_root == is_clone_root(ops[i as int], nodes));
        if is_root {
            collect_referenced_operation_ptrs(op, &index, &mut deps);
            any_root = true;
        }
        roots.push(is_root);
        assert(deps@ == clone_deps(ops, nodes, (i + 1) as nat));
        i += 1;
    }
    if !any_root {
        return;
    }
    let base = *synthetic_base;
    proof {
        assert(deps@.len() == clone_deps(ops, nodes, n).len());
    }
    let op_ptr_map = number_ascending(&deps, base);
    let ghost op_ptrs = numbering(deps@, base);
    let mut clones: Vec<Json> = Vec::new();
    let mut i: usize = 0;
    while i < index.ops.len()
        invariant
            index.wf(),
            index.ops@ == old(operations)@,
            ops == index.opsv(),
            n == ops.len(),
            i <= n,
            deps@ == clone_deps(ops, nodes, n),
            nodes == pair_map(node_id_map@),
            op_ptrs == numbering(deps@, base),
            roots@.len() == n,
            forall|k: int| 0 <= k < n ==> #[trigger] roots@[k] == is_clone_root(ops[k], nodes),
            pair_map(op_ptr_map@) == op_ptrs,
            views(clones@) == clones_upto(ops, nodes, deps@, op_ptrs, i as nat),
        decreases n - i,
    {
        let op = &index.ops[i];
        assert(ops[i as int] == op@);
        let op_ptr = index.ptrs[i];
        let should = roots[i] || match op_ptr {
            Some(p) => deps.contains(&p),
            None => false,
        };
        if should {
            let mut cloned = remapped(op, node_id_map, op_ptr_map.as_slice());
            if let Some(old_ptr) = op_ptr {
                if let Some(new_ptr) = lookup_pair_exec(op_ptr_map.as_slice(), old_ptr) {
                    let mut text: Vec<char> = Vec::new();
                    append_str(&mut text, "ptr:");
                    push_decimal(&mut text, new_ptr as u64);
                    cloned = set_member(cloned, "_Pointer_", Json::String(string_of(text.as_slice())));
                }
            }
            clones.push(cloned);
        }
        assert(views(clones@) =~= clones_upto(ops, nodes, deps@, op_ptrs, (i + 1) as nat));
        i += 1;
    }
    let count = deps.len();
    operations.append(&mut clones);
    *synthetic_base = base + count as u32;
    assert(views(operations@) =~= ops + clones_upto(ops, nodes, deps@, op_ptrs, n));
}

} // verus!
