//! The node graph of a BuildingBlocks canvas: which scene and library items
//! become nodes under which ids, which parent each has, the children of each
//! node in authored order, and the roots. Layout values stay in the record.
use vstd::prelude::*;

use crate::bb_scene::pointers::{parse_points_to_chars, parse_ptr_chars, spec_parse_points_to, spec_parse_ptr};
use crate::json::{Json, JsonV, array_at, bool_at, str_at, views};
use crate::strs::{chars_of, string_of};

verus! {

/// The first synthetic id, given to items without a `_Pointer_`; real
/// pointers are small, so synthetic ids stay clear of them.
pub const FIRST_SYNTHETIC_ID: u32 = 0x8000_0000u32;

/// A node of the graph.
#[derive(Debug)]
pub struct BbGraphNode {
    pub id: u32,
    /// The node's parent, if any.
    pub parent: Option<u32>,
    /// The node's children, in authored order.
    pub children: Vec<u32>,
    /// The node a list or clone widget points to with `target`.
    pub target: Option<u32>,
    /// The item's `_Type_` (`"Unknown"` when absent).
    pub kind: String,
    pub name: String,
    /// `isActive` and `exportNode`, each true when absent.
    pub is_active: bool,
}

pub struct GraphNodeV {
    pub id: u32,
    pub parent: Option<u32>,
    pub children: Seq<u32>,
    pub target: Option<u32>,
    pub kind: Seq<char>,
    pub name: Seq<char>,
    pub is_active: bool,
}

impl View for BbGraphNode {
    type V = GraphNodeV;

    open spec fn view(&self) -> GraphNodeV {
        GraphNodeV {
            id: self.id,
            parent: self.parent,
            children: self.children@,
            target: self.target,
            kind: self.kind@,
            name: self.name@,
            is_active: self.is_active,
        }
    }
}

/// A pointer string member, read as `_PointsTo_:ptr:N`.
pub open spec fn points_to_at(x: JsonV, key: Seq<char>) -> Option<u32> {
    match str_at(x, key) {
        Some(s) => spec_parse_points_to(s),
        None => None,
    }
}

/// The node an item becomes under id `id`, before children are wired.
pub open spec fn spec_item_node(x: JsonV, id: u32) -> GraphNodeV {
    GraphNodeV {
        id,
        parent: points_to_at(x, "parent"@),
        children: Seq::empty(),
        target: points_to_at(x, "target"@),
        kind: match str_at(x, "_Type_"@) {
            Some(t) => t,
            None => "Unknown"@,
        },
        name: match str_at(x, "name"@) {
            Some(n) => n,
            None => Seq::empty(),
        },
        is_active: match bool_at(x, "isActive"@) {
            Some(b) => b,
            None => true,
        } && match bool_at(x, "exportNode"@) {
            Some(b) => b,
            None => true,
        },
    }
}

/// The nodes the first `k` items become, in order, and the next synthetic
/// id: an item without a string `_Pointer_` takes the next synthetic id, one
/// with a valid `ptr:N` takes `N`, and one with an invalid pointer is
/// skipped.
pub open spec fn parse_items(items: Seq<JsonV>, k: int, next: nat) -> (Seq<GraphNodeV>, nat)
    decreases k,
{
    if k <= 0 {
        (Seq::empty(), next)
    } else {
        let (ns, c) = parse_items(items, k - 1, next);
        let x = items[k - 1];
        match str_at(x, "_Pointer_"@) {
            None => (ns.push(spec_item_node(x, c as u32)), c + 1),
            Some(s) => match spec_parse_ptr(s) {
                Some(id) => (ns.push(spec_item_node(x, id)), c),
                None => (ns, c),
            },
        }
    }
}

/// Synthetic ids are taken at most once per item.
proof fn lemma_parse_items_bound(items: Seq<JsonV>, k: int, next: nat)
    requires
        0 <= k <= items.len(),
    ensures
        next <= parse_items(items, k, next).1 <= next + k,
        parse_items(items, k, next).0.len() <= k,
    decreases k,
{
    if k > 0 {
        lemma_parse_items_bound(items, k - 1, next);
    }
}

/// The nodes by id, a later node replacing an earlier one with its id.
pub open spec fn node_map(ns: Seq<GraphNodeV>) -> Map<u32, GraphNodeV>
    decreases ns.len(),
{
    if ns.len() == 0 {
        Map::empty()
    } else {
        node_map(ns.drop_last()).insert(ns.last().id, ns.last())
    }
}

pub open spec fn ids_of(ns: Seq<GraphNodeV>) -> Seq<u32> {
    ns.map_values(|n: GraphNodeV| n.id)
}

/// Some list or clone node of `m` targets `t`.
pub open spec fn targeted(m: Map<u32, GraphNodeV>, t: u32) -> bool {
    exists|l: u32| m.contains_key(l) && #[trigger] m[l].target == Some(t)
}

/// The smallest id of a node of `m` that targets `t`.
pub open spec fn first_list(m: Map<u32, GraphNodeV>, t: u32) -> u32 {
    choose|l: u32|
        m.contains_key(l) && m[l].target == Some(t) && forall|l2: u32|
            m.contains_key(l2) && #[trigger] m[l2].target == Some(t) ==> l <= l2
}

/// A library template without a parent hangs under the first list that
/// targets it (one template instance stands for the list's rows).
pub open spec fn attached(m: Map<u32, GraphNodeV>, lib: Seq<u32>, n: GraphNodeV) -> GraphNodeV {
    if n.parent is None && lib.contains(n.id) && targeted(m, n.id) {
        GraphNodeV { parent: Some(first_list(m, n.id)), ..n }
    } else {
        n
    }
}

/// The ids among the first `k` of `order` whose node has parent `p`.
pub open spec fn kids_upto(order: Seq<u32>, m: Map<u32, GraphNodeV>, p: u32, k: int) -> Seq<u32>
    decreases k,
{
    if k <= 0 {
        Seq::empty()
    } else {
        let rest = kids_upto(order, m, p, k - 1);
        if m[order[k - 1]].parent == Some(p) {
            rest.push(order[k - 1])
        } else {
            rest
        }
    }
}

/// The scene ids among the first `k` that are roots: without a parent and
/// not library templates.
pub open spec fn roots_upto(scene: Seq<u32>, m: Map<u32, GraphNodeV>, lib: Seq<u32>, k: int) -> Seq<u32>
    decreases k,
{
    if k <= 0 {
        Seq::empty()
    } else {
        let rest = roots_upto(scene, m, lib, k - 1);
        let id = scene[k - 1];
        if m[id].parent is None && !lib.contains(id) {
            rest.push(id)
        } else {
            rest
        }
    }
}

/// The nodes with list templates attached.
#[verifier::opaque]
pub open spec fn attached_map(sn: Seq<GraphNodeV>, ln: Seq<GraphNodeV>) -> Map<u32, GraphNodeV> {
    let m0 = node_map(sn + ln);
    Map::new(|id: u32| m0.contains_key(id), |id: u32| attached(m0, ids_of(ln), m0[id]))
}

/// The nodes of the graph: each with its children, the scene then library
/// items whose parent it is, in that order.
#[verifier::opaque]
pub open spec fn graph_nodes(sn: Seq<GraphNodeV>, ln: Seq<GraphNodeV>) -> Map<u32, GraphNodeV> {
    let m1 = attached_map(sn, ln);
    let order = ids_of(sn + ln);
    Map::new(
        |id: u32| m1.contains_key(id),
        |id: u32| GraphNodeV { children: kids_upto(order, m1, id, order.len() as int), ..m1[id] },
    )
}

/// The roots of the graph, in scene order.
pub open spec fn graph_roots(sn: Seq<GraphNodeV>, ln: Seq<GraphNodeV>) -> Seq<u32> {
    roots_upto(ids_of(sn), attached_map(sn, ln), ids_of(ln), sn.len() as int)
}

/// The scene items' and the library items' nodes of a record value.
pub open spec fn record_nodes(rv: JsonV) -> (Seq<GraphNodeV>, Seq<GraphNodeV>) {
    let scene = match array_at(rv, "scene"@) {
        Some(a) => a,
        None => Seq::empty(),
    };
    let library = match array_at(rv, "library"@) {
        Some(a) => a,
        None => Seq::empty(),
    };
    let (sn, c) = parse_items(scene, scene.len() as int, FIRST_SYNTHETIC_ID as nat);
    (sn, parse_items(library, library.len() as int, c).0)
}

/// The ids of a list of nodes are all different.
pub open spec fn unique_ids(s: Seq<GraphNodeV>) -> bool {
    forall|i: int, j: int| 0 <= i < j < s.len() ==> #[trigger] s[i].id != #[trigger] s[j].id
}

/// The node graph of a canvas record.
#[derive(Debug)]
pub struct BbNodeGraph {
    /// Scene nodes without a parent that are no library template, in scene order.
    pub roots: Vec<u32>,
    /// One node per id.
    pub nodes: Vec<BbGraphNode>,
}

pub open spec fn gviews(s: Seq<BbGraphNode>) -> Seq<GraphNodeV> {
    s.map_values(|n: BbGraphNode| n@)
}

/// The node at `i` is the last with its id.
#[verifier::opaque]
pub open spec fn last_of_id(s: Seq<GraphNodeV>, i: int) -> bool {
    forall|j: int| i < j < s.len() ==> #[trigger] s[j].id != s[i].id
}

proof fn lemma_node_map_last(s: Seq<GraphNodeV>, i: int)
    requires
        0 <= i < s.len(),
        last_of_id(s, i),
    ensures
        node_map(s).contains_key(s[i].id),
        node_map(s)[s[i].id] == s[i],
    decreases s.len(),
{
    reveal(last_of_id);
    if i < s.len() - 1 {
        assert(s.last() == s[s.len() - 1]);
        assert forall|j: int| i < j < s.drop_last().len() implies #[trigger] s.drop_last()[j].id != s.drop_last()[i].id by {
            assert(s.drop_last()[j] == s[j]);
        }
        lemma_node_map_last(s.drop_last(), i);
        assert(s.drop_last()[i] == s[i]);
    }
}

proof fn lemma_node_map_dom(s: Seq<GraphNodeV>, id: u32)
    ensures
        node_map(s).contains_key(id) <==> exists|i: int| 0 <= i < s.len() && #[trigger] s[i].id == id,
    decreases s.len(),
{
    if s.len() > 0 {
        lemma_node_map_dom(s.drop_last(), id);
        if node_map(s.drop_last()).contains_key(id) {
            let i = choose|i: int| 0 <= i < s.drop_last().len() && #[trigger] s.drop_last()[i].id == id;
            assert(s[i] == s.drop_last()[i]);
        }
        if exists|i: int| 0 <= i < s.len() && #[trigger] s[i].id == id {
            let i = choose|i: int| 0 <= i < s.len() && #[trigger] s[i].id == id;
            if i < s.len() - 1 {
                assert(s.drop_last()[i] == s[i]);
            }
        }
    }
}

/// Every id of `s` has a last node.
proof fn lemma_has_last(s: Seq<GraphNodeV>, k: int) -> (j: int)
    requires
        0 <= k < s.len(),
    ensures
        k <= j < s.len(),
        s[j].id == s[k].id,
        last_of_id(s, j),
    decreases s.len() - k,
{
    reveal(last_of_id);
    if exists|j: int| k < j < s.len() && #[trigger] s[j].id == s[k].id {
        let j = choose|j: int| k < j < s.len() && #[trigger] s[j].id == s[k].id;
        lemma_has_last(s, j)
    } else {
        k
    }
}

proof fn lemma_kids_upto_contains(order: Seq<u32>, m: Map<u32, GraphNodeV>, p: u32, k: int, c: u32)
    requires
        0 <= k <= order.len(),
    ensures
        kids_upto(order, m, p, k).contains(c) <==> exists|i: int|
            0 <= i < k && #[trigger] order[i] == c && m[c].parent == Some(p),
    decreases k,
{
    if k > 0 {
        lemma_kids_upto_contains(order, m, p, k - 1, c);
        let rest = kids_upto(order, m, p, k - 1);
        if m[order[k - 1]].parent == Some(p) {
            let full = rest.push(order[k - 1]);
            assert(full.contains(c) <==> (rest.contains(c) || order[k - 1] == c)) by {
                if full.contains(c) {
                    let i = choose|i: int| 0 <= i < full.len() && #[trigger] full[i] == c;
                    if i < rest.len() {
                        assert(rest[i] == c);
                    }
                }
                if rest.contains(c) {
                    let i = choose|i: int| 0 <= i < rest.len() && #[trigger] rest[i] == c;
                    assert(full[i] == c);
                }
                if order[k - 1] == c {
                    assert(full[rest.len() as int] == c);
                }
            }
        }
    }
}

/// Children and parents agree: a node of the graph lists another among its
/// children exactly when that node's parent is it.
pub proof fn lemma_children_match_parents(sn: Seq<GraphNodeV>, ln: Seq<GraphNodeV>, p: u32, c: u32)
    requires
        graph_nodes(sn, ln).contains_key(p),
        graph_nodes(sn, ln).contains_key(c),
    ensures
        graph_nodes(sn, ln)[p].children.contains(c) <==> graph_nodes(sn, ln)[c].parent == Some(p),
{
    let order = ids_of(sn + ln);
    let m1 = attached_map(sn, ln);
    lemma_graph_node_at(sn, ln, p);
    lemma_graph_node_at(sn, ln, c);
    lemma_kids_upto_contains(order, m1, p, order.len() as int, c);
    lemma_node_map_dom(sn + ln, c);
    if m1[c].parent == Some(p) {
        let i = choose|i: int| 0 <= i < (sn + ln).len() && #[trigger] (sn + ln)[i].id == c;
        assert(order[i] == c);
    }
}

// ───────────────────────────── exec ─────────────────────────────

fn points_to_member(x: &Json, key: &str) -> (r: Option<u32>)
    ensures
        r == points_to_at(x@, key@),
{
    match x.str_field(key) {
        Some(v) => parse_points_to_chars(v.as_slice()),
        None => None,
    }
}

/// The node item `x` becomes under id `id`.
fn item_node(x: &Json, id: u32) -> (r: BbGraphNode)
    ensures
        r@ == spec_item_node(x@, id),
{
    let kind = match x.str_field("_Type_") {
        Some(t) => string_of(t.as_slice()),
        None => string_of(chars_of("Unknown").as_slice()),
    };
    let name = match x.str_field("name") {
        Some(n) => string_of(n.as_slice()),
        None => string_of(chars_of("").as_slice()),
    };
    proof {
        reveal_strlit("");
        assert(""@ =~= Seq::<char>::empty());
    }
    let active = match x.bool_field("isActive") {
        Some(b) => b,
        None => true,
    };
    let export = match x.bool_field("exportNode") {
        Some(b) => b,
        None => true,
    };
    BbGraphNode {
        id,
        parent: points_to_member(x, "parent"),
        children: Vec::new(),
        target: points_to_member(x, "target"),
        kind,
        name,
        is_active: active && export,
    }
}

/// Append the nodes of `items`, taking synthetic ids from `next` on; gives
/// the next synthetic id.
fn parse_item_nodes(items: &[Json], next: u32, out: &mut Vec<BbGraphNode>) -> (c: u32)
    requires
        next + items@.len() <= u32::MAX,
    ensures
        gviews(final(out)@) == gviews(old(out)@) + parse_items(views(items@), items@.len() as int, next as nat).0,
        c == parse_items(views(items@), items@.len() as int, next as nat).1,
{
    let ghost iv = views(items@);
    let ghost o0 = gviews(out@);
    let mut c = next;
    let mut i: usize = 0;
    while i < items.len()
        invariant
            iv == views(items@),
            next + items@.len() <= u32::MAX,
            i <= items@.len(),
            gviews(out@) == o0 + parse_items(iv, i as int, next as nat).0,
            c == parse_items(iv, i as int, next as nat).1,
        decreases items@.len() - i,
    {
        proof {
            lemma_parse_items_bound(iv, i as int, next as nat);
        }
        let x = &items[i];
        assert(iv[i as int] == x@);
        let ghost before = gviews(out@);
        let ghost prev = parse_items(iv, i as int, next as nat);
        match x.str_field("_Pointer_") {
            None => {
                let n = item_node(x, c);
                let ghost nv = n@;
                out.push(n);
                assert(gviews(out@) =~= before.push(nv));
                assert(parse_items(iv, i + 1, next as nat) == (prev.0.push(nv), prev.1 + 1));
                c = c + 1;
            },
            Some(ps) => match parse_ptr_chars(ps.as_slice()) {
                Some(id) => {
                    let n = item_node(x, id);
                    let ghost nv = n@;
                    out.push(n);
                    assert(gviews(out@) =~= before.push(nv));
                    assert(parse_items(iv, i + 1, next as nat) == (prev.0.push(nv), prev.1));
                },
                None => {
                    assert(parse_items(iv, i + 1, next as nat) == prev);
                },
            },
        }
        assert(gviews(out@) =~= o0 + parse_items(iv, i + 1, next as nat).0);
        i += 1;
    }
    c
}

/// The index of the last node with the id of node `k`.
fn last_index(all: &Vec<BbGraphNode>, k: usize) -> (r: usize)
    requires
        k < all@.len(),
    ensures
        k <= r < all@.len(),
        all@[r as int].id == all@[k as int].id,
        last_of_id(gviews(all@), r as int),
{
    reveal(last_of_id);
    let ghost v = gviews(all@);
    let n = all.len();
    let mut r = k;
    let mut j = k + 1;
    while j < all.len()
        invariant
            v == gviews(all@),
            k <= r < j <= all@.len(),
            all@[r as int].id == all@[k as int].id,
            forall|i: int| r < i < j ==> #[trigger] v[i].id != v[r as int].id,
        decreases all@.len() - j,
    {
        if all[j].id == all[k].id {
            r = j;
        }
        j += 1;
    }
    r
}

/// Whether a library item became a node with id `id`.
fn in_library(all: &Vec<BbGraphNode>, lib_start: usize, id: u32) -> (r: bool)
    requires
        lib_start <= all@.len(),
    ensures
        r == ids_of(gviews(all@).subrange(lib_start as int, all@.len() as int)).contains(id),
{
    let ghost lib = ids_of(gviews(all@).subrange(lib_start as int, all@.len() as int));
    let mut j = lib_start;
    while j < all.len()
        invariant
            lib_start <= j <= all@.len(),
            lib == ids_of(gviews(all@).subrange(lib_start as int, all@.len() as int)),
            forall|i: int| 0 <= i < j - lib_start ==> #[trigger] lib[i] != id,
        decreases all@.len() - j,
    {
        if all[j].id == id {
            assert(lib[j - lib_start] == id);
            return true;
        }
        j += 1;
    }
    proof {
        if lib.contains(id) {
            let i = choose|i: int| 0 <= i < lib.len() && lib[i] == id;
            assert(lib[i] != id);
        }
    }
    false
}

/// The parent node `j`, the last with its id, has once list templates are
/// attached.
fn attached_parent(all: &Vec<BbGraphNode>, lib_start: usize, j: usize) -> (r: Option<u32>)
    requires
        lib_start <= all@.len(),
        j < all@.len(),
        last_of_id(gviews(all@), j as int),
    ensures
        r == attached(
            node_map(gviews(all@)),
            ids_of(gviews(all@).subrange(lib_start as int, all@.len() as int)),
            gviews(all@)[j as int],
        ).parent,
{
    let ghost v = gviews(all@);
    let ghost m0 = node_map(v);
    let ghost lib = ids_of(v.subrange(lib_start as int, all@.len() as int));
    let id = all[j].id;
    assert(v[j as int].id == id);
    if all[j].parent.is_some() {
        return all[j].parent;
    }
    if !in_library(all, lib_start, id) {
        return None;
    }
    let mut best: Option<u32> = None;
    let mut k: usize = 0;
    while k < all.len()
        invariant
            v == gviews(all@),
            k <= all@.len(),
            match best {
                None => forall|i: int| 0 <= i < k && last_of_id(v, i) ==> #[trigger] v[i].target != Some(id),
                Some(b) => (exists|i: int| 0 <= i < k && last_of_id(v, i) && v[i].target == Some(id) && #[trigger] v[i].id == b)
                    && forall|i: int| 0 <= i < k && last_of_id(v, i) && v[i].target == Some(id) ==> b <= #[trigger] v[i].id,
            },
        decreases all@.len() - k,
    {
        if all[k].target == Some(id) {
            let lk = last_index(all, k);
            if lk == k {
                assert(v[k as int].id == all@[k as int].id);
                match best {
                    None => {
                        best = Some(all[k].id);
                    },
                    Some(b) => {
                        if all[k].id < b {
                            best = Some(all[k].id);
                        }
                    },
                }
            } else {
                assert(v[lk as int].id == v[k as int].id);
                reveal(last_of_id);
                assert(!last_of_id(v, k as int));
            }
        }
        k += 1;
    }
    proof {
        // A node of the map is the last node with its id.
        assert forall|l: u32| m0.contains_key(l) implies exists|i: int| 0 <= i < v.len() && last_of_id(v, i) && #[trigger] v[i].id == l && m0[l] == v[i] by {
            lemma_node_map_dom(v, l);
            let i0 = choose|i: int| 0 <= i < v.len() && #[trigger] v[i].id == l;
            let i = lemma_has_last(v, i0);
            lemma_node_map_last(v, i);
        }
        match best {
            None => {
                if targeted(m0, id) {
                    let l = choose|l: u32| m0.contains_key(l) && #[trigger] m0[l].target == Some(id);
                    let i = choose|i: int| 0 <= i < v.len() && last_of_id(v, i) && #[trigger] v[i].id == l && m0[l] == v[i];
                }
            },
            Some(b) => {
                let i = choose|i: int| 0 <= i < v.len() && last_of_id(v, i) && v[i].target == Some(id) && #[trigger] v[i].id == b;
                lemma_node_map_last(v, i);
                assert(m0.contains_key(b) && m0[b].target == Some(id));
                assert forall|l2: u32| m0.contains_key(l2) && #[trigger] m0[l2].target == Some(id) implies b <= l2 by {
                    let i2 = choose|i2: int| 0 <= i2 < v.len() && last_of_id(v, i2) && #[trigger] v[i2].id == l2 && m0[l2] == v[i2];
                }
                let f = first_list(m0, id);
                assert(m0.contains_key(f) && m0[f].target == Some(id));
                assert(f <= b && b <= f);
            },
        }
    }
    best
}

/// The ids among the first entries of `order` whose parent is `p`.
fn kids_for(order: &Vec<u32>, par: &Vec<Option<u32>>, p: u32, m1: Ghost<Map<u32, GraphNodeV>>) -> (r: Vec<u32>)
    requires
        par@.len() == order@.len(),
        forall|k: int| 0 <= k < order@.len() ==> #[trigger] par@[k] == m1@[order@[k]].parent,
    ensures
        r@ == kids_upto(order@, m1@, p, order@.len() as int),
{
    let mut out: Vec<u32> = Vec::new();
    let mut k: usize = 0;
    while k < order.len()
        invariant
            k <= order@.len(),
            par@.len() == order@.len(),
            forall|k: int| 0 <= k < order@.len() ==> #[trigger] par@[k] == m1@[order@[k]].parent,
            out@ == kids_upto(order@, m1@, p, k as int),
        decreases order@.len() - k,
    {
        assert(par@[k as int] == m1@[order@[k as int]].parent);
        if par[k] == Some(p) {
            out.push(order[k]);
        }
        k += 1;
    }
    out
}


/// What the graph gives an id: its node after attaching, with its children.
proof fn lemma_graph_node_at(sn: Seq<GraphNodeV>, ln: Seq<GraphNodeV>, id: u32)
    ensures
        attached_map(sn, ln).contains_key(id) == node_map(sn + ln).contains_key(id),
        attached_map(sn, ln).contains_key(id) ==> attached_map(sn, ln)[id] == attached(
            node_map(sn + ln),
            ids_of(ln),
            node_map(sn + ln)[id],
        ),
        graph_nodes(sn, ln).contains_key(id) == node_map(sn + ln).contains_key(id),
        graph_nodes(sn, ln).contains_key(id) ==> graph_nodes(sn, ln)[id] == (GraphNodeV {
            children: kids_upto(ids_of(sn + ln), attached_map(sn, ln), id, (sn + ln).len() as int),
            ..attached_map(sn, ln)[id]
        }),
{
    reveal(attached_map);
    reveal(graph_nodes);
}

/// The id of each entry, and the parent that id has once templates are
/// attached.
#[verifier::rlimit(30)]
fn entry_parents(
    all: &Vec<BbGraphNode>,
    lib_start: usize,
    Ghost(sn): Ghost<Seq<GraphNodeV>>,
    Ghost(ln): Ghost<Seq<GraphNodeV>>,
) -> (r: (Vec<u32>, Vec<Option<u32>>))
    requires
        gviews(all@) == sn + ln,
        lib_start == sn.len(),
    ensures
        r.0@ == ids_of(sn + ln),
        r.1@.len() == all@.len(),
        forall|i: int| 0 <= i < all@.len() ==> #[trigger] r.1@[i] == attached_map(sn, ln)[r.0@[i]].parent,
{
    let ghost v = gviews(all@);
    assert(v.subrange(lib_start as int, v.len() as int) =~= ln);
    let n = all.len();
    let mut order: Vec<u32> = Vec::new();
    let mut par: Vec<Option<u32>> = Vec::new();
    let mut k: usize = 0;
    while k < n
        invariant
            n == all@.len(),
            v == gviews(all@),
            v == sn + ln,
            lib_start == sn.len(),
            v.subrange(lib_start as int, v.len() as int) == ln,
            k <= n,
            order@ == ids_of(v).subrange(0, k as int),
            par@.len() == k,
            forall|i: int| 0 <= i < k ==> #[trigger] par@[i] == attached_map(sn, ln)[order@[i]].parent,
        decreases n - k,
    {
        let lk = last_index(all, k);
        let p = attached_parent(all, lib_start, lk);
        proof {
            lemma_node_map_last(v, lk as int);
            lemma_graph_node_at(sn, ln, v[k as int].id);
        }
        order.push(all[k].id);
        par.push(p);
        assert(order@ =~= ids_of(v).subrange(0, k + 1));
        k += 1;
    }
    assert(order@ =~= ids_of(sn + ln));
    (order, par)
}

/// The roots, in scene order.
fn graph_root_ids(
    all: &Vec<BbGraphNode>,
    lib_start: usize,
    order: &Vec<u32>,
    par: &Vec<Option<u32>>,
    Ghost(sn): Ghost<Seq<GraphNodeV>>,
    Ghost(ln): Ghost<Seq<GraphNodeV>>,
) -> (r: Vec<u32>)
    requires
        gviews(all@) == sn + ln,
        lib_start == sn.len(),
        order@ == ids_of(sn + ln),
        par@.len() == all@.len(),
        forall|i: int| 0 <= i < all@.len() ==> #[trigger] par@[i] == attached_map(sn, ln)[order@[i]].parent,
    ensures
        r@ == graph_roots(sn, ln),
{
    let ghost v = gviews(all@);
    assert(v.subrange(lib_start as int, v.len() as int) =~= ln);
    let mut roots: Vec<u32> = Vec::new();
    let mut k: usize = 0;
    while k < lib_start
        invariant
            v == gviews(all@),
            v == sn + ln,
            lib_start == sn.len(),
            lib_start <= all@.len(),
            v.subrange(lib_start as int, v.len() as int) == ln,
            order@ == ids_of(sn + ln),
            par@.len() == all@.len(),
            forall|i: int| 0 <= i < all@.len() ==> #[trigger] par@[i] == attached_map(sn, ln)[order@[i]].parent,
            k <= lib_start,
            roots@ == roots_upto(ids_of(sn), attached_map(sn, ln), ids_of(ln), k as int),
        decreases lib_start - k,
    {
        let id = order[k];
        assert(ids_of(sn)[k as int] == id);
        let in_lib = in_library(all, lib_start, id);
        assert(par@[k as int] == attached_map(sn, ln)[id].parent);
        if par[k].is_none() && !in_lib {
            roots.push(id);
        }
        k += 1;
    }
    roots
}

spec fn covers(nv: Seq<GraphNodeV>, v: Seq<GraphNodeV>, j: int) -> bool {
    forall|jj: int|
        #![trigger last_of_id(v, jj)]
        0 <= jj < j && last_of_id(v, jj) ==> exists|i: int| #![trigger nv[i]] 0 <= i < nv.len() && nv[i].id == v[jj].id
}

spec fn from_lasts(nv: Seq<GraphNodeV>, v: Seq<GraphNodeV>, j: int) -> bool {
    forall|i: int, jj: int|
        #![trigger nv[i], last_of_id(v, jj)]
        0 <= i < nv.len() && j <= jj < v.len() && last_of_id(v, jj) ==> nv[i].id != v[jj].id
}

spec fn all_in(nv: Seq<GraphNodeV>, g: Map<u32, GraphNodeV>) -> bool {
    forall|i: int| 0 <= i < nv.len() ==> g.contains_key(#[trigger] nv[i].id) && nv[i] == g[nv[i].id]
}

#[verifier::rlimit(60)]
proof fn lemma_push_node(before: Seq<GraphNodeV>, v: Seq<GraphNodeV>, j: int, node: GraphNodeV, g: Map<u32, GraphNodeV>)
    requires
        0 <= j < v.len(),
        unique_ids(before),
        covers(before, v, j),
        from_lasts(before, v, j),
        all_in(before, g),
        last_of_id(v, j),
        node.id == v[j].id,
        g.contains_key(node.id),
        node == g[node.id],
    ensures
        unique_ids(before.push(node)),
        covers(before.push(node), v, j + 1),
        from_lasts(before.push(node), v, j + 1),
        all_in(before.push(node), g),
{
    let after = before.push(node);
    assert forall|i: int| 0 <= i < before.len() implies #[trigger] before[i].id != node.id by {
        assert(j <= j < v.len() && last_of_id(v, j));
    }
    assert forall|a: int, b: int| 0 <= a < b < after.len() implies #[trigger] after[a].id != #[trigger] after[b].id by {
        if b == before.len() {
            assert(after[a] == before[a]);
        } else {
            assert(after[a] == before[a] && after[b] == before[b]);
        }
    }
    assert forall|jj: int| #![trigger last_of_id(v, jj)] 0 <= jj < j + 1 && last_of_id(v, jj) implies exists|i: int|
        #![trigger after[i]] 0 <= i < after.len() && after[i].id == v[jj].id by {
        if jj == j {
            assert(after[before.len() as int].id == v[jj].id);
        } else {
            let i = choose|i: int| #![trigger before[i]] 0 <= i < before.len() && before[i].id == v[jj].id;
            assert(after[i] == before[i]);
        }
    }
    assert forall|i: int, jj: int|
        #![trigger after[i], last_of_id(v, jj)]
        0 <= i < after.len() && j + 1 <= jj < v.len() && last_of_id(v, jj) implies after[i].id != v[jj].id by {
        if i < before.len() {
            assert(after[i] == before[i]);
        } else {
            lemma_last_differs(v, j, jj);
        }
    }
    assert forall|i: int| 0 <= i < after.len() implies g.contains_key(#[trigger] after[i].id) && after[i] == g[after[i].id] by {
        if i < before.len() {
            assert(after[i] == before[i]);
        }
    }
}

proof fn lemma_last_differs(v: Seq<GraphNodeV>, j: int, jj: int)
    requires
        0 <= j < jj < v.len(),
        last_of_id(v, j),
    ensures
        v[jj].id != v[j].id,
{
    reveal(last_of_id);
}

proof fn lemma_not_last(v: Seq<GraphNodeV>, j: int, lj: int)
    requires
        0 <= j < lj < v.len(),
        v[lj].id == v[j].id,
    ensures
        !last_of_id(v, j),
{
    reveal(last_of_id);
}

proof fn lemma_skip_entry(before: Seq<GraphNodeV>, v: Seq<GraphNodeV>, j: int, lj: int)
    requires
        0 <= j < lj < v.len(),
        v[lj].id == v[j].id,
        covers(before, v, j),
        from_lasts(before, v, j),
    ensures
        covers(before, v, j + 1),
        from_lasts(before, v, j + 1),
{
    assert forall|jj: int| #![trigger last_of_id(v, jj)] 0 <= jj < j + 1 && last_of_id(v, jj) implies exists|i: int|
        #![trigger before[i]] 0 <= i < before.len() && before[i].id == v[jj].id by {
        if jj == j {
            lemma_not_last(v, j, lj);
        }
    }
}

proof fn lemma_collected(nv: Seq<GraphNodeV>, v: Seq<GraphNodeV>, sn: Seq<GraphNodeV>, ln: Seq<GraphNodeV>)
    requires
        v == sn + ln,
        unique_ids(nv),
        covers(nv, v, v.len() as int),
        all_in(nv, graph_nodes(sn, ln)),
    ensures
        node_map(nv) == graph_nodes(sn, ln),
{
    let g = graph_nodes(sn, ln);
    assert forall|id: u32| #[trigger] node_map(nv).contains_key(id) == g.contains_key(id) by {
        lemma_node_map_dom(nv, id);
        lemma_node_map_dom(v, id);
        lemma_graph_node_at(sn, ln, id);
        if g.contains_key(id) {
            let k0 = choose|i: int| 0 <= i < v.len() && #[trigger] v[i].id == id;
            let jl = lemma_has_last(v, k0);
            let i = choose|i: int| #![trigger nv[i]] 0 <= i < nv.len() && nv[i].id == v[jl].id;
        }
        if node_map(nv).contains_key(id) {
            let i = choose|i: int| 0 <= i < nv.len() && #[trigger] nv[i].id == id;
        }
    }
    assert forall|id: u32| node_map(nv).contains_key(id) implies #[trigger] node_map(nv)[id] == g[id] by {
        lemma_node_map_dom(nv, id);
        let i = choose|i: int| 0 <= i < nv.len() && #[trigger] nv[i].id == id;
        reveal(last_of_id);
        assert(last_of_id(nv, i));
        lemma_node_map_last(nv, i);
    }
    assert(node_map(nv) =~= g);
}

/// One node per id, from the last entry with that id.
#[verifier::rlimit(30)]
fn collect_graph_nodes(
    all: &Vec<BbGraphNode>,
    order: &Vec<u32>,
    par: &Vec<Option<u32>>,
    Ghost(sn): Ghost<Seq<GraphNodeV>>,
    Ghost(ln): Ghost<Seq<GraphNodeV>>,
) -> (r: Vec<BbGraphNode>)
    requires
        gviews(all@) == sn + ln,
        order@ == ids_of(sn + ln),
        par@.len() == all@.len(),
        forall|i: int| 0 <= i < all@.len() ==> #[trigger] par@[i] == attached_map(sn, ln)[order@[i]].parent,
    ensures
        unique_ids(gviews(r@)),
        node_map(gviews(r@)) == graph_nodes(sn, ln),
{
    let ghost v = gviews(all@);
    let ghost g = graph_nodes(sn, ln);
    let n = all.len();
    let mut nodes: Vec<BbGraphNode> = Vec::new();
    let mut j: usize = 0;
    while j < n
        invariant
            n == all@.len(),
            v == gviews(all@),
            v == sn + ln,
            g == graph_nodes(sn, ln),
            order@ == ids_of(sn + ln),
            par@.len() == n,
            forall|i: int| 0 <= i < n ==> #[trigger] par@[i] == attached_map(sn, ln)[order@[i]].parent,
            j <= n,
            unique_ids(gviews(nodes@)),
            covers(gviews(nodes@), v, j as int),
            from_lasts(gviews(nodes@), v, j as int),
            all_in(gviews(nodes@), g),
        decreases n - j,
    {
        let lj = last_index(all, j);
        let ghost before = gviews(nodes@);
        if lj == j {
            let id = all[j].id;
            proof {
                lemma_node_map_last(v, j as int);
                lemma_graph_node_at(sn, ln, id);
                assert(v[j as int].id == id);
                assert(par@[j as int] == attached_map(sn, ln)[id].parent);
            }
            let kids = kids_for(order, par, id, Ghost(attached_map(sn, ln)));
            let node = BbGraphNode {
                id,
                parent: par[j],
                children: kids,
                target: all[j].target,
                kind: string_of(chars_of(all[j].kind.as_str()).as_slice()),
                name: string_of(chars_of(all[j].name.as_str()).as_slice()),
                is_active: all[j].is_active,
            };
            assert(node@ == g[id]);
            let ghost nodev = node@;
            nodes.push(node);
            proof {
                assert(gviews(nodes@) =~= before.push(nodev));
                lemma_push_node(before, v, j as int, nodev, g);
            }
        } else {
            proof {
                lemma_skip_entry(before, v, j as int, lj as int);
            }
        }
        j += 1;
    }
    proof {
        lemma_collected(gviews(nodes@), v, sn, ln);
    }
    nodes
}

/// Build the node graph of a BuildingBlocks canvas record.
///
/// Scene items, then library items, become nodes: an item without a string
/// `_Pointer_` takes the next synthetic id (from [`FIRST_SYNTHETIC_ID`] on),
/// one with a valid `ptr:N` takes `N`, one with an invalid pointer is
/// skipped, and a later node replaces an earlier one with its id. A library
/// template without a parent hangs under the list or clone widget with the
/// smallest id that targets it. Every node's children are the scene and then
/// library items whose parent it is, in authored order; the roots are the
/// scene nodes without a parent that are no library template. A record
/// without `_RecordValue_`, without `_RecordValue_.size` or without a
/// `_RecordValue_.scene` array is refused.
pub fn parse_bb_graph(json: &Json) -> (r: Result<BbNodeGraph, String>)
    requires
        json@.field("_RecordValue_"@) matches Some(rv) ==> ({
            let scene = array_at(rv, "scene"@);
            let library = array_at(rv, "library"@);
            scene is Some ==> scene->0.len() + (if library is Some { library->0.len() } else { 0 }) < 0x8000_0000
        }),
    ensures
        match json@.field("_RecordValue_"@) {
            None => r matches Err(e) && e@ == "missing _RecordValue_"@,
            Some(rv) => if rv.field("size"@) is None {
                r matches Err(e) && e@ == "missing _RecordValue_.size"@
            } else if array_at(rv, "scene"@) is None {
                r matches Err(e) && e@ == "missing or non-array _RecordValue_.scene"@
            } else {
                r matches Ok(g) && {
                    let (sn, ln) = record_nodes(rv);
                    &&& unique_ids(gviews(g.nodes@))
                    &&& node_map(gviews(g.nodes@)) == graph_nodes(sn, ln)
                    &&& g.roots@ == graph_roots(sn, ln)
                }
            },
        },
{
    let rv = match json.get("_RecordValue_") {
        Some(v) => v,
        None => {
            return Err(string_of(chars_of("missing _RecordValue_").as_slice()));
        },
    };
    if rv.get("size").is_none() {
        return Err(string_of(chars_of("missing _RecordValue_.size").as_slice()));
    }
    let scene = match rv.array_field("scene") {
        Some(a) => a,
        None => {
            return Err(string_of(chars_of("missing or non-array _RecordValue_.scene").as_slice()));
        },
    };
    let empty: Vec<Json> = Vec::new();
    let library = match rv.array_field("library") {
        Some(a) => a,
        None => &empty,
    };
    assert(views(empty@) =~= Seq::<JsonV>::empty());
    let mut all: Vec<BbGraphNode> = Vec::new();
    let c = parse_item_nodes(scene.as_slice(), FIRST_SYNTHETIC_ID, &mut all);
    proof {
        lemma_parse_items_bound(views(scene@), scene@.len() as int, FIRST_SYNTHETIC_ID as nat);
    }
    let lib_start = all.len();
    let _ = parse_item_nodes(library.as_slice(), c, &mut all);
    let ghost sn = record_nodes(rv@).0;
    let ghost ln = record_nodes(rv@).1;
    let ghost v = gviews(all@);
    assert(v =~= sn + ln);
    let (order, par) = entry_parents(&all, lib_start, Ghost(sn), Ghost(ln));
    let roots = graph_root_ids(&all, lib_start, &order, &par, Ghost(sn), Ghost(ln));
    let nodes = collect_graph_nodes(&all, &order, &par, Ghost(sn), Ghost(ln));
    Ok(BbNodeGraph { roots, nodes })
}

} // verus!
