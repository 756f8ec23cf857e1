//! Recursive canvas tree resolver.
use vstd::prelude::*;

use crate::canvas::parser::{CanvasParser, spec_parse_record};
use crate::canvas::types::{
    CanvasRecord, CanvasRecordV, CanvasViewV, SceneItemV, ViewComponent, ViewComponentV, components_view,
};
use crate::error::UiError;
use crate::json::{Json, JsonV, str_at};
use crate::strs::{chars_eq, chars_of, string_of};
use crate::table::Table;

verus! {

/// The name a canvas record goes by: `__name`, else `name` (a member that is
/// there but not a string gives no name), else its GUID.
pub open spec fn spec_record_name(json: JsonV, guid: Seq<char>) -> Seq<char> {
    let member = match json.field("__name"@) {
        Some(v) => Some(v),
        None => json.field("name"@),
    };
    match member {
        Some(v) => match v.str_view() {
            Some(s) => s,
            None => guid,
        },
        None => guid,
    }
}

/// `rec` is the parse of a record that `fetch` gave for the GUID `g`.
pub open spec fn fetched_record<F: Fn(&str) -> Result<Json, String>>(
    fetch: F,
    g: Seq<char>,
    rec: CanvasRecordV,
) -> bool {
    exists|s: &str, j: Json|
        s@ == g && #[trigger] call_ensures(fetch, (s,), Ok::<Json, String>(j)) && j@ is Object && rec
            == spec_parse_record(g, spec_record_name(j@, g), j@)
}

/// Every resolved child is the parse of what `fetch` gave for its GUID.
pub open spec fn all_fetched<F: Fn(&str) -> Result<Json, String>>(
    fetch: F,
    m: Map<Seq<char>, CanvasRecord>,
) -> bool {
    forall|g: Seq<char>| #[trigger] m.contains_key(g) ==> fetched_record(fetch, g, m[g]@)
}

// ───────────────────────────── the resolution, as a function of what is fetched ─────────────────────────────

/// A fetch result as plain values: the record, or the fetcher's message.
pub open spec fn fetch_result_view(r: Result<Json, String>) -> Result<JsonV, Seq<char>> {
    match r {
        Ok(j) => Ok(j@),
        Err(e) => Err(e@),
    }
}

/// `fetch` answers by GUID: two calls with the same GUID give the same
/// record, or the same message.
pub open spec fn answers_by_guid<F: Fn(&str) -> Result<Json, String>>(fetch: F) -> bool {
    forall|s1: &str, s2: &str, r1: Result<Json, String>, r2: Result<Json, String>|
        #![trigger call_ensures(fetch, (s1,), r1), call_ensures(fetch, (s2,), r2)]
        s1@ == s2@ && call_ensures(fetch, (s1,), r1) && call_ensures(fetch, (s2,), r2) ==> fetch_result_view(r1)
            == fetch_result_view(r2)
}

/// What `fetch` answers for the GUID `g`.
pub open spec fn fetch_answer<F: Fn(&str) -> Result<Json, String>>(fetch: F, g: Seq<char>) -> Result<
    JsonV,
    Seq<char>,
> {
    let (s, r) = choose|s: &str, r: Result<Json, String>| s@ == g && #[trigger] call_ensures(fetch, (s,), r);
    fetch_result_view(r)
}

/// Why a resolution stopped.
pub enum ResolveFailure {
    /// The GUID was met again on its own path.
    Cycle(Seq<char>),
    /// The GUID lies below the depth limit.
    Depth(Seq<char>),
    /// The fetch of the GUID failed with a message.
    Fetch(Seq<char>, Seq<char>),
    /// The fetched record was not an object.
    Parse,
}

/// The error a failure is reported as.
pub open spec fn reports(e: UiError, f: ResolveFailure, max_depth: usize) -> bool {
    match f {
        ResolveFailure::Cycle(g) => e matches UiError::CycleDetected(s) && s@ == g,
        ResolveFailure::Depth(g) => e matches UiError::MaxDepthExceeded { guid, max_depth: d } && guid@ == g && d
            == max_depth,
        ResolveFailure::Fetch(g, m) => e matches UiError::FetchFailed { guid, source } && guid@ == g && source@ == m,
        ResolveFailure::Parse => e matches UiError::ParseError(m) && m@ == "canvas record JSON is not an object"@,
    }
}

/// The state of a resolution: the GUIDs on the current path, and the
/// sub-canvases resolved so far.
pub struct ResolveState {
    pub visited: Seq<Seq<char>>,
    pub resolved: Map<Seq<char>, CanvasRecordV>,
}

/// `s` without the first occurrence of `g`.
pub open spec fn remove_first(s: Seq<Seq<char>>, g: Seq<char>) -> Seq<Seq<char>>
    decreases s.len(),
{
    if s.len() == 0 {
        s
    } else if s[0] == g {
        s.drop_first()
    } else {
        seq![s[0]].add(remove_first(s.drop_first(), g))
    }
}

/// The sub-canvases the first `k` scene items reference.
pub open spec fn scene_refs(items: Seq<SceneItemV>, k: int) -> Seq<Seq<char>>
    decreases k,
{
    if k <= 0 {
        Seq::empty()
    } else {
        scene_refs(items, k - 1) + match items[k - 1].guid {
            Some(g) => seq![g],
            None => Seq::empty(),
        }
    }
}

/// The sub-canvases the first `k` components of a view reference.
pub open spec fn component_refs(comps: Seq<ViewComponentV>, k: int) -> Seq<Seq<char>>
    decreases k,
{
    if k <= 0 {
        Seq::empty()
    } else {
        component_refs(comps, k - 1) + match comps[k - 1] {
            ViewComponentV::WidgetCanvas { sub_guid: Some(g), .. } => seq![g],
            _ => Seq::empty(),
        }
    }
}

/// The sub-canvases the components of the first `k` views reference.
pub open spec fn view_refs(views: Seq<CanvasViewV>, k: int) -> Seq<Seq<char>>
    decreases k,
{
    if k <= 0 {
        Seq::empty()
    } else {
        view_refs(views, k - 1) + component_refs(views[k - 1].components, views[k - 1].components.len() as int)
    }
}

/// Every sub-canvas reference of a record, in the order they are expanded:
/// the scene items', then the view components'.
pub open spec fn sub_refs(rec: CanvasRecordV) -> Seq<Seq<char>> {
    scene_refs(rec.scene, rec.scene.len() as int) + view_refs(rec.views, rec.views.len() as int)
}

/// Resolving the canvas `g` with `rem` more levels allowed below it.
pub open spec fn resolve_from<F: Fn(&str) -> Result<Json, String>>(
    fetch: F,
    g: Seq<char>,
    st: ResolveState,
    rem: nat,
) -> (Result<CanvasRecordV, ResolveFailure>, ResolveState)
    decreases rem, 2nat, 0nat,
{
    if st.visited.contains(g) {
        (Err(ResolveFailure::Cycle(g)), st)
    } else {
        let st1 = ResolveState { visited: st.visited.push(g), resolved: st.resolved };
        match fetch_answer(fetch, g) {
            Err(m) => (Err(ResolveFailure::Fetch(g, m)), st),
            Ok(j) => if !(j is Object) {
                (Err(ResolveFailure::Parse), st)
            } else {
                let rec = spec_parse_record(g, spec_record_name(j, g), j);
                let subs = sub_refs(rec);
                let (stop, st2) = resolve_refs(fetch, subs, subs.len(), st1, rem);
                match stop {
                    Some(e) => (Err(e), st2),
                    None => (Ok(rec), ResolveState { visited: remove_first(st2.visited, g), resolved: st2.resolved }),
                }
            },
        }
    }
}

/// Expanding the first `k` sub-canvas references of a record, in turn,
/// until one stops the resolution.
pub open spec fn resolve_refs<F: Fn(&str) -> Result<Json, String>>(
    fetch: F,
    subs: Seq<Seq<char>>,
    k: nat,
    st: ResolveState,
    rem: nat,
) -> (Option<ResolveFailure>, ResolveState)
    decreases rem, 1nat, k,
{
    if k == 0 || k > subs.len() {
        (None, st)
    } else {
        let (stop, st1) = resolve_refs(fetch, subs, (k - 1) as nat, st, rem);
        match stop {
            Some(e) => (Some(e), st1),
            None => resolve_ref(fetch, subs[k - 1], st1, rem),
        }
    }
}

/// Expanding one sub-canvas reference: a resolved one is kept; a cycle or
/// a too deep expansion stops the resolution, named by this reference; any
/// other failure leaves the sub-canvas out.
pub open spec fn resolve_ref<F: Fn(&str) -> Result<Json, String>>(
    fetch: F,
    sub: Seq<char>,
    st: ResolveState,
    rem: nat,
) -> (Option<ResolveFailure>, ResolveState)
    decreases rem, 0nat, 0nat,
{
    if st.resolved.contains_key(sub) {
        (None, st)
    } else if rem == 0 {
        (Some(ResolveFailure::Depth(sub)), st)
    } else {
        let (r, st1) = resolve_from(fetch, sub, st, (rem - 1) as nat);
        match r {
            Ok(child) => (None, ResolveState { visited: st1.visited, resolved: st1.resolved.insert(sub, child) }),
            Err(ResolveFailure::Cycle(_)) => (Some(ResolveFailure::Cycle(sub)), st1),
            Err(ResolveFailure::Depth(_)) => (Some(ResolveFailure::Depth(sub)), st1),
            Err(_) => (None, st1),
        }
    }
}

/// The records of a table as plain values.
pub open spec fn records_view(m: Map<Seq<char>, CanvasRecord>) -> Map<Seq<char>, CanvasRecordV> {
    m.map_values(|r: CanvasRecord| r@)
}

/// The state an executing resolution is in.
pub open spec fn state_of(visited: Seq<String>, resolved: Map<Seq<char>, CanvasRecord>) -> ResolveState {
    ResolveState { visited: guids_view(visited), resolved: records_view(resolved) }
}

/// Recursively expands sub-canvas references into a tree of [`CanvasRecord`]s.
pub struct CanvasWidgetTreeResolver {
    max_depth: usize,
}

impl CanvasWidgetTreeResolver {
    /// The deepest level of sub-canvases the resolver expands.
    pub closed spec fn spec_max_depth(&self) -> usize {
        self.max_depth
    }

    /// A resolver with the default maximum depth, 16.
    pub fn new() -> (r: Self)
        ensures
            r.spec_max_depth() == 16,
    {
        CanvasWidgetTreeResolver { max_depth: 16 }
    }

    /// A resolver with a custom maximum expansion depth.
    pub fn with_max_depth(max_depth: usize) -> (r: Self)
        ensures
            r.spec_max_depth() == max_depth,
    {
        CanvasWidgetTreeResolver { max_depth }
    }

    pub fn max_depth(&self) -> (r: usize)
        ensures
            r == self.spec_max_depth(),
    {
        self.max_depth
    }
}

impl Default for CanvasWidgetTreeResolver {
    fn default() -> (r: Self)
        ensures
            r.spec_max_depth() == 16,
    {
        CanvasWidgetTreeResolver::new()
    }
}

/// The output of a successful resolve call: the root record and every
/// sub-canvas record by GUID.
#[derive(Debug)]
pub struct ResolvedCanvas {
    pub root: CanvasRecord,
    pub children: Table<CanvasRecord>,
}

impl ResolvedCanvas {
    /// The resolved sub-canvas with GUID `guid`.
    pub fn child(&self, guid: &str) -> (r: Option<&CanvasRecord>)
        ensures
            match r {
                Some(c) => self.children@.contains_key(guid@) && self.children@[guid@] == *c,
                None => !self.children@.contains_key(guid@),
            },
    {
        let g = chars_of(guid);
        self.children.get(g.as_slice())
    }
}

/// The GUIDs of a list as plain values.
pub open spec fn guids_view(v: Seq<String>) -> Seq<Seq<char>> {
    v.map_values(|s: String| s@)
}

proof fn lemma_fetch_answer<F: Fn(&str) -> Result<Json, String>>(fetch: F, s: &str, r: Result<Json, String>)
    requires
        answers_by_guid(fetch),
        call_ensures(fetch, (s,), r),
    ensures
        fetch_answer(fetch, s@) == fetch_result_view(r),
{
    assert(exists|s2: &str, r2: Result<Json, String>| s2@ == s@ && #[trigger] call_ensures(fetch, (s2,), r2));
    let (s2, r2) = choose|s2: &str, r2: Result<Json, String>| s2@ == s@ && #[trigger] call_ensures(fetch, (s2,), r2);
    assert(call_ensures(fetch, (s2,), r2) && call_ensures(fetch, (s,), r));
}

proof fn lemma_refs_prefix<F: Fn(&str) -> Result<Json, String>>(
    fetch: F,
    a: Seq<Seq<char>>,
    b: Seq<Seq<char>>,
    k: nat,
    st: ResolveState,
    rem: nat,
)
    requires
        k <= a.len(),
        k <= b.len(),
        a.subrange(0, k as int) == b.subrange(0, k as int),
    ensures
        resolve_refs(fetch, a, k, st, rem) == resolve_refs(fetch, b, k, st, rem),
    decreases k,
{
    if k > 0 {
        assert(a.subrange(0, k - 1) =~= a.subrange(0, k as int).subrange(0, k - 1));
        assert(b.subrange(0, k - 1) =~= b.subrange(0, k as int).subrange(0, k - 1));
        lemma_refs_prefix(fetch, a, b, (k - 1) as nat, st, rem);
        assert(a[k - 1] == a.subrange(0, k as int)[k - 1]);
        assert(b[k - 1] == b.subrange(0, k as int)[k - 1]);
    }
}

/// Expanding one more reference continues the expansion of the earlier ones.
proof fn lemma_refs_push<F: Fn(&str) -> Result<Json, String>>(
    fetch: F,
    done: Seq<Seq<char>>,
    g: Seq<char>,
    st: ResolveState,
    rem: nat,
)
    ensures
        resolve_refs(fetch, done.push(g), done.len() + 1, st, rem) == ({
            let (stop, st1) = resolve_refs(fetch, done, done.len(), st, rem);
            match stop {
                Some(e) => (Some(e), st1),
                None => resolve_ref(fetch, g, st1, rem),
            }
        }),
{
    let d2 = done.push(g);
    assert(d2.subrange(0, done.len() as int) =~= done.subrange(0, done.len() as int));
    lemma_refs_prefix(fetch, d2, done, done.len(), st, rem);
    assert(d2[done.len() as int] == g);
}

/// `a` is a prefix of `b`.
pub open spec fn is_prefix(a: Seq<Seq<char>>, b: Seq<Seq<char>>) -> bool {
    a.len() <= b.len() && b.subrange(0, a.len() as int) == a
}

proof fn lemma_prefix_trans(a: Seq<Seq<char>>, b: Seq<Seq<char>>, c: Seq<Seq<char>>)
    requires
        is_prefix(a, b),
        is_prefix(b, c),
    ensures
        is_prefix(a, c),
{
    assert(c.subrange(0, a.len() as int) =~= c.subrange(0, b.len() as int).subrange(0, a.len() as int));
}

proof fn lemma_prefix_append(a: Seq<Seq<char>>, b: Seq<Seq<char>>)
    ensures
        is_prefix(a, a + b),
{
    assert((a + b).subrange(0, a.len() as int) =~= a);
}

proof fn lemma_scene_refs_grow(items: Seq<SceneItemV>, k: int, k2: int)
    requires
        0 <= k <= k2,
    ensures
        is_prefix(scene_refs(items, k), scene_refs(items, k2)),
    decreases k2,
{
    if k2 > k {
        lemma_scene_refs_grow(items, k, k2 - 1);
        let tail = match items[k2 - 1].guid {
            Some(g) => seq![g],
            None => Seq::<Seq<char>>::empty(),
        };
        lemma_prefix_append(scene_refs(items, k2 - 1), tail);
        lemma_prefix_trans(scene_refs(items, k), scene_refs(items, k2 - 1), scene_refs(items, k2));
    } else {
        assert(scene_refs(items, k2).subrange(0, scene_refs(items, k2).len() as int) =~= scene_refs(items, k2));
    }
}

proof fn lemma_component_refs_grow(comps: Seq<ViewComponentV>, k: int, k2: int)
    requires
        0 <= k <= k2,
    ensures
        is_prefix(component_refs(comps, k), component_refs(comps, k2)),
    decreases k2,
{
    if k2 > k {
        lemma_component_refs_grow(comps, k, k2 - 1);
        let tail = match comps[k2 - 1] {
            ViewComponentV::WidgetCanvas { sub_guid: Some(g), .. } => seq![g],
            _ => Seq::<Seq<char>>::empty(),
        };
        lemma_prefix_append(component_refs(comps, k2 - 1), tail);
        lemma_prefix_trans(component_refs(comps, k), component_refs(comps, k2 - 1), component_refs(comps, k2));
    } else {
        assert(component_refs(comps, k2).subrange(0, component_refs(comps, k2).len() as int) =~= component_refs(
            comps,
            k2,
        ));
    }
}

proof fn lemma_view_refs_grow(views: Seq<CanvasViewV>, k: int, k2: int)
    requires
        0 <= k <= k2,
    ensures
        is_prefix(view_refs(views, k), view_refs(views, k2)),
    decreases k2,
{
    if k2 > k {
        lemma_view_refs_grow(views, k, k2 - 1);
        lemma_prefix_append(
            view_refs(views, k2 - 1),
            component_refs(views[k2 - 1].components, views[k2 - 1].components.len() as int),
        );
        lemma_prefix_trans(view_refs(views, k), view_refs(views, k2 - 1), view_refs(views, k2));
    } else {
        assert(view_refs(views, k2).subrange(0, view_refs(views, k2).len() as int) =~= view_refs(views, k2));
    }
}

/// Once a reference stops the expansion, the later ones change nothing.
proof fn lemma_refs_stop_stays<F: Fn(&str) -> Result<Json, String>>(
    fetch: F,
    s: Seq<Seq<char>>,
    k: nat,
    k2: nat,
    st: ResolveState,
    rem: nat,
)
    requires
        k <= k2 <= s.len(),
        resolve_refs(fetch, s, k, st, rem).0 is Some,
    ensures
        resolve_refs(fetch, s, k2, st, rem) == resolve_refs(fetch, s, k, st, rem),
    decreases k2,
{
    if k2 > k {
        lemma_refs_stop_stays(fetch, s, k, (k2 - 1) as nat, st, rem);
    }
}

/// A stop met after expanding a prefix of a record's references is the
/// outcome of expanding all of them.
proof fn lemma_stop_is_final<F: Fn(&str) -> Result<Json, String>>(
    fetch: F,
    done: Seq<Seq<char>>,
    all: Seq<Seq<char>>,
    st: ResolveState,
    rem: nat,
)
    requires
        is_prefix(done, all),
        resolve_refs(fetch, done, done.len(), st, rem).0 is Some,
    ensures
        resolve_refs(fetch, all, all.len(), st, rem) == resolve_refs(fetch, done, done.len(), st, rem),
{
    assert(done.subrange(0, done.len() as int) =~= done);
    lemma_refs_prefix(fetch, all, done, done.len(), st, rem);
    lemma_refs_stop_stays(fetch, all, done.len(), all.len(), st, rem);
}

fn contains_guid(list: &Vec<String>, g: &str) -> (r: bool)
    ensures
        r == guids_view(list@).contains(g@),
{
    let ghost lv = guids_view(list@);
    let gc = chars_of(g);
    let mut i: usize = 0;
    while i < list.len()
        invariant
            i <= list@.len(),
            lv == guids_view(list@),
            gc@ == g@,
            forall|k: int| 0 <= k < i ==> lv[k] != g@,
        decreases list@.len() - i,
    {
        let c = chars_of(list[i].as_str());
        if chars_eq(c.as_slice(), gc.as_slice()) {
            assert(lv[i as int] == g@);
            return true;
        }
        i += 1;
    }
    false
}

fn remove_guid(list: &mut Vec<String>, g: &str)
    ensures
        guids_view(final(list)@) == remove_first(guids_view(old(list)@), g@),
{
    let ghost l0 = guids_view(list@);
    let gc = chars_of(g);
    let mut i: usize = 0;
    assert(l0.subrange(0, 0) =~= Seq::<Seq<char>>::empty());
    assert(l0.subrange(0, l0.len() as int) =~= l0);
    while i < list.len()
        invariant
            i <= list@.len(),
            list@ == old(list)@,
            l0 == guids_view(old(list)@),
            gc@ == g@,
            remove_first(l0, g@) == l0.subrange(0, i as int) + remove_first(l0.subrange(i as int, l0.len() as int), g@),
        decreases list@.len() - i,
    {
        let ghost rest = l0.subrange(i as int, l0.len() as int);
        assert(rest[0] == l0[i as int]);
        let c = chars_of(list[i].as_str());
        if chars_eq(c.as_slice(), gc.as_slice()) {
            list.remove(i);
            assert(guids_view(list@) =~= l0.subrange(0, i as int) + rest.drop_first());
            return;
        }
        assert(rest.drop_first() =~= l0.subrange(i + 1, l0.len() as int));
        assert(l0.subrange(0, i + 1) =~= l0.subrange(0, i as int) + seq![rest[0]]);
        i += 1;
    }
    assert(l0.subrange(i as int, l0.len() as int) =~= Seq::<Seq<char>>::empty());
    assert(l0.subrange(0, i as int) =~= l0);
}

fn record_name(json: &Json, guid: &str) -> (r: String)
    ensures
        r@ == spec_record_name(json@, guid@),
{
    let member = match json.get("__name") {
        Some(v) => Some(v),
        None => json.get("name"),
    };
    match member {
        Some(v) => match v.as_str() {
            Some(s) => string_of(chars_of(s).as_slice()),
            None => string_of(chars_of(guid).as_slice()),
        },
        None => string_of(chars_of(guid).as_slice()),
    }
}

enum Step {
    Continue,
    Stop(UiError),
}

/// A step of the expansion answers for the spec's step.
/// How resolving a fetched record ends: its references are expanded from
/// the state `st1`; then it is either stopped or resolved and left.
spec fn finish_record<F: Fn(&str) -> Result<Json, String>>(
    fetch: F,
    guid: Seq<char>,
    rec: CanvasRecordV,
    st1: ResolveState,
    rem: nat,
) -> (Result<CanvasRecordV, ResolveFailure>, ResolveState) {
    let (stop, st2) = resolve_refs(fetch, sub_refs(rec), sub_refs(rec).len(), st1, rem);
    match stop {
        Some(e) => (Err(e), st2),
        None => (Ok(rec), ResolveState { visited: remove_first(st2.visited, guid), resolved: st2.resolved }),
    }
}

spec fn step_reports(r: Step, stop: Option<ResolveFailure>, max_depth: usize) -> bool {
    match r {
        Step::Continue => stop is None,
        Step::Stop(e) => stop matches Some(f) && reports(e, f, max_depth),
    }
}

impl CanvasWidgetTreeResolver {
    /// Resolve one sub-canvas reference of a record at `remaining` levels
    /// from the depth limit.
    fn resolve_child<F: Fn(&str) -> Result<Json, String>>(
        &self,
        sub: &str,
        fetch: &F,
        visited: &mut Vec<String>,
        resolved: &mut Table<CanvasRecord>,
        remaining: usize,
    ) -> (r: Step)
        requires
            forall|s: &str| #[trigger] call_requires(*fetch, (s,)),
            all_fetched(*fetch, old(resolved)@),
        ensures
            all_fetched(*fetch, final(resolved)@),
            r matches Step::Stop(UiError::MaxDepthExceeded { max_depth, .. }) ==> max_depth
                == self.max_depth,
            answers_by_guid(*fetch) ==> ({
                let (stop, st) = resolve_ref(
                    *fetch,
                    sub@,
                    state_of(old(visited)@, old(resolved)@),
                    remaining as nat,
                );
                &&& state_of(final(visited)@, final(resolved)@) == st
                &&& step_reports(r, stop, self.max_depth)
            }),
        decreases remaining, 0nat,
    {
        let sc = chars_of(sub);
        if resolved.contains_key(sc.as_slice()) {
            return Step::Continue;
        }
        if remaining == 0 {
            return Step::Stop(
                UiError::MaxDepthExceeded {
                    guid: string_of(sc.as_slice()),
                    max_depth: self.max_depth,
                },
            );
        }
        let ghost before = state_of(visited@, resolved@);
        match self.resolve_one(sub, fetch, visited, resolved, remaining - 1) {
            Ok(child) => {
                proof {
                    assert(fetched_record(*fetch, sub@, child@));
                }
                let ghost mid = resolved@;
                let ghost cv = child@;
                resolved.insert(sc, child);
                assert(records_view(resolved@) =~= records_view(mid).insert(sub@, cv));
                Step::Continue
            },
            Err(UiError::CycleDetected(_)) => Step::Stop(UiError::CycleDetected(string_of(sc.as_slice()))),
            Err(UiError::MaxDepthExceeded { .. }) => Step::Stop(
                UiError::MaxDepthExceeded { guid: string_of(sc.as_slice()), max_depth: self.max_depth },
            ),
            // A sub-canvas that cannot be fetched or parsed is left out.
            Err(_) => Step::Continue,
        }
    }

    /// Resolve the canvas `guid` and, below it, every sub-canvas it references
    /// that is not resolved yet; `remaining` more levels may be expanded.
    #[verifier::rlimit(40)]
    fn resolve_one<F: Fn(&str) -> Result<Json, String>>(
        &self,
        guid: &str,
        fetch: &F,
        visited: &mut Vec<String>,
        resolved: &mut Table<CanvasRecord>,
        remaining: usize,
    ) -> (r: Result<CanvasRecord, UiError>)
        requires
            forall|s: &str| #[trigger] call_requires(*fetch, (s,)),
            all_fetched(*fetch, old(resolved)@),
        ensures
            all_fetched(*fetch, final(resolved)@),
            r matches Ok(rec) ==> fetched_record(*fetch, guid@, rec@),
            r matches Err(UiError::MaxDepthExceeded { max_depth, .. }) ==> max_depth == self.max_depth,
            answers_by_guid(*fetch) ==> ({
                let (res, st) = resolve_from(
                    *fetch,
                    guid@,
                    state_of(old(visited)@, old(resolved)@),
                    remaining as nat,
                );
                &&& state_of(final(visited)@, final(resolved)@) == st
                &&& match r {
                    Ok(rec) => res == Ok::<CanvasRecordV, ResolveFailure>(rec@),
                    Err(e) => res matches Err(f) && reports(e, f, self.max_depth),
                }
            }),
        decreases remaining, 1nat,
    {
        let ghost st0 = state_of(visited@, resolved@);
        if contains_guid(visited, guid) {
            return Err(UiError::CycleDetected(string_of(chars_of(guid).as_slice())));
        }
        let res = fetch(guid);
        proof {
            if answers_by_guid(*fetch) {
                lemma_fetch_answer(*fetch, guid, res);
            }
        }
        let json = match res {
            Ok(j) => j,
            Err(e) => {
                return Err(UiError::FetchFailed { guid: string_of(chars_of(guid).as_slice()), source: e });
            },
        };
        let name = record_name(&json, guid);
        let record = match CanvasParser::parse(guid, name.as_str(), &json) {
            Ok(rec) => rec,
            Err(e) => {
                return Err(e);
            },
        };
        proof {
            assert(fetched_record(*fetch, guid@, record@));
        }
        // Only a canvas that was fetched and parsed joins the current path.
        let ghost v0 = visited@;
        visited.push(string_of(chars_of(guid).as_slice()));
        let ghost st1 = ResolveState { visited: st0.visited.push(guid@), resolved: st0.resolved };
        assert(guids_view(visited@) =~= guids_view(v0).push(guid@));
        let ghost rv = record@;
        assert(answers_by_guid(*fetch) ==> resolve_from(*fetch, guid@, st0, remaining as nat) == finish_record(
            *fetch,
            guid@,
            rv,
            st1,
            remaining as nat,
        ));
        let ghost done: Seq<Seq<char>> = Seq::empty();
        let mut i: usize = 0;
        while i < record.scene.len()
            invariant
                forall|s: &str| #[trigger] call_requires(*fetch, (s,)),
                all_fetched(*fetch, resolved@),
                rv == record@,
                st0 == state_of(old(visited)@, old(resolved)@),
                answers_by_guid(*fetch) ==> resolve_from(*fetch, guid@, st0, remaining as nat) == finish_record(
                    *fetch,
                    guid@,
                    rv,
                    st1,
                    remaining as nat,
                ),
                i <= record.scene@.len(),
                done == scene_refs(rv.scene, i as int),
                answers_by_guid(*fetch) ==> ({
                    let (stop, st) = resolve_refs(*fetch, done, done.len(), st1, remaining as nat);
                    stop is None && state_of(visited@, resolved@) == st
                }),
            decreases record.scene@.len() - i,
        {
            assert(rv.scene[i as int] == record.scene@[i as int]@);
            match &record.scene[i].guid {
                Some(sub) => {
                    proof {
                        lemma_refs_push(*fetch, done, sub@, st1, remaining as nat);
                    }
                    let step = self.resolve_child(sub.as_str(), fetch, visited, resolved, remaining);
                    proof {
                        done = done.push(sub@);
                    }
                    match step {
                        Step::Stop(e) => {
                            proof {
                                if answers_by_guid(*fetch) {
                                    assert(done == scene_refs(rv.scene, i + 1));
                                    lemma_scene_refs_grow(rv.scene, i + 1, rv.scene.len() as int);
                                    lemma_prefix_append(
                                        scene_refs(rv.scene, rv.scene.len() as int),
                                        view_refs(rv.views, rv.views.len() as int),
                                    );
                                    lemma_prefix_trans(
                                        done,
                                        scene_refs(rv.scene, rv.scene.len() as int),
                                        sub_refs(rv),
                                    );
                                    lemma_stop_is_final(*fetch, done, sub_refs(rv), st1, remaining as nat);
                                }
                            }
                            return Err(e);
                        },
                        Step::Continue => {},
                    }
                },
                None => {},
            }
            i += 1;
        }
        let ghost scene_done = done;
        let mut v: usize = 0;
        while v < record.views.len()
            invariant
                forall|s: &str| #[trigger] call_requires(*fetch, (s,)),
                all_fetched(*fetch, resolved@),
                rv == record@,
                st0 == state_of(old(visited)@, old(resolved)@),
                answers_by_guid(*fetch) ==> resolve_from(*fetch, guid@, st0, remaining as nat) == finish_record(
                    *fetch,
                    guid@,
                    rv,
                    st1,
                    remaining as nat,
                ),
                v <= record.views@.len(),
                scene_done == scene_refs(rv.scene, rv.scene.len() as int),
                done == scene_done + view_refs(rv.views, v as int),
                answers_by_guid(*fetch) ==> ({
                    let (stop, st) = resolve_refs(*fetch, done, done.len(), st1, remaining as nat);
                    stop is None && state_of(visited@, resolved@) == st
                }),
            decreases record.views@.len() - v,
        {
            let comps = &record.views[v].components;
            let ghost cv = rv.views[v as int].components;
            assert(cv == components_view(comps@));
            let ghost view_done = done;
            let mut c: usize = 0;
            while c < comps.len()
                invariant
                    forall|s: &str| #[trigger] call_requires(*fetch, (s,)),
                    all_fetched(*fetch, resolved@),
                    c <= comps@.len(),
                    cv == components_view(comps@),
                    rv == record@,
                    st0 == state_of(old(visited)@, old(resolved)@),
                    answers_by_guid(*fetch) ==> resolve_from(*fetch, guid@, st0, remaining as nat) == finish_record(
                        *fetch,
                        guid@,
                        rv,
                        st1,
                        remaining as nat,
                    ),
                    v < record.views@.len(),
                    scene_done == scene_refs(rv.scene, rv.scene.len() as int),
                    view_done == scene_done + view_refs(rv.views, v as int),
                    cv == rv.views[v as int].components,
                    done == view_done + component_refs(cv, c as int),
                    answers_by_guid(*fetch) ==> ({
                        let (stop, st) = resolve_refs(*fetch, done, done.len(), st1, remaining as nat);
                        stop is None && state_of(visited@, resolved@) == st
                    }),
                decreases comps@.len() - c,
            {
                assert(cv[c as int] == comps@[c as int]@);
                match &comps[c] {
                    ViewComponent::WidgetCanvas { sub_guid: Some(sg), .. } => {
                        proof {
                            lemma_refs_push(*fetch, done, sg@, st1, remaining as nat);
                        }
                        let step = self.resolve_child(sg.as_str(), fetch, visited, resolved, remaining);
                        proof {
                            done = done.push(sg@);
                        }
                        match step {
                            Step::Stop(e) => {
                                proof {
                                    if answers_by_guid(*fetch) {
                                        assert(done == view_done + component_refs(cv, c + 1));
                                        lemma_component_refs_grow(cv, c + 1, cv.len() as int);
                                        let vr = view_refs(rv.views, v as int);
                                        let cr = component_refs(cv, cv.len() as int);
                                        assert(view_done + cr =~= scene_done + view_refs(rv.views, v + 1));
                                        assert(is_prefix(done, view_done + cr)) by {
                                            assert((view_done + cr).subrange(0, done.len() as int) =~= view_done
                                                + cr.subrange(0, component_refs(cv, c + 1).len() as int));
                                        }
                                        lemma_view_refs_grow(rv.views, v + 1, rv.views.len() as int);
                                        assert(is_prefix(
                                            scene_done + view_refs(rv.views, v + 1),
                                            sub_refs(rv),
                                        )) by {
                                            let a = view_refs(rv.views, v + 1);
                                            let b = view_refs(rv.views, rv.views.len() as int);
                                            assert((scene_done + b).subrange(0, (scene_done + a).len() as int)
                                                =~= scene_done + b.subrange(0, a.len() as int));
                                        }
                                        lemma_prefix_trans(done, view_done + cr, sub_refs(rv));
                                        lemma_stop_is_final(*fetch, done, sub_refs(rv), st1, remaining as nat);
                                    }
                                }
                                return Err(e);
                            },
                            Step::Continue => {},
                        }
                    },
                    _ => {},
                }
                c += 1;
            }
            v += 1;
        }
        remove_guid(visited, guid);
        Ok(record)
    }

    /// Resolve a canvas tree starting from `root_guid`, fetching records with
    /// `fetch` (see [`spec_resolve`]).
    ///
    /// A sub-canvas is expanded once, at most `max_depth` levels below the
    /// root; a sub-canvas met again on its own path is a cycle. A cycle or a
    /// too deep expansion fails the whole resolution, naming the sub-canvas
    /// referenced from the level above; a sub-canvas that cannot be fetched
    /// or parsed is left out. The root and every resolved child are the parse
    /// of what `fetch` gave for their GUID; when `fetch` answers by GUID, the
    /// outcome is exactly the one [`spec_resolve`] gives.
    pub fn resolve<F: Fn(&str) -> Result<Json, String>>(&self, root_guid: &str, fetch: &F) -> (r: Result<
        ResolvedCanvas,
        UiError,
    >)
        requires
            forall|s: &str| #[trigger] call_requires(*fetch, (s,)),
        ensures
            r matches Ok(rc) ==> fetched_record(*fetch, root_guid@, rc.root@) && all_fetched(
                *fetch,
                rc.children@,
            ),
            r matches Err(UiError::MaxDepthExceeded { max_depth, .. }) ==> max_depth == self.spec_max_depth(),
            answers_by_guid(*fetch) ==> ({
                let (res, st) = spec_resolve(*fetch, root_guid@, self.spec_max_depth());
                match r {
                    Ok(rc) => res == Ok::<CanvasRecordV, ResolveFailure>(rc.root@) && records_view(rc.children@)
                        == st.resolved,
                    Err(e) => res matches Err(f) && reports(e, f, self.spec_max_depth()),
                }
            }),
    {
        let mut visited: Vec<String> = Vec::new();
        let mut resolved: Table<CanvasRecord> = Table::new();
        assert(state_of(visited@, resolved@) =~= (ResolveState { visited: Seq::empty(), resolved: Map::empty() }))
            by {
            assert(guids_view(visited@) =~= Seq::<Seq<char>>::empty());
            assert(records_view(resolved@) =~= Map::<Seq<char>, CanvasRecordV>::empty());
        }
        let root = match self.resolve_one(root_guid, fetch, &mut visited, &mut resolved, self.max_depth) {
            Ok(r) => r,
            Err(e) => {
                return Err(e);
            },
        };
        Ok(ResolvedCanvas { root, children: resolved })
    }
}

/// A resolver made by `new` resolves as one made by `with_max_depth(16)`:
/// the outcome depends on the resolver only through its depth limit.
pub proof fn lemma_new_resolves_as_depth_sixteen<F: Fn(&str) -> Result<Json, String>>(
    a: CanvasWidgetTreeResolver,
    b: CanvasWidgetTreeResolver,
    fetch: F,
    root: Seq<char>,
)
    requires
        a.spec_max_depth() == 16,
        b.spec_max_depth() == 16,
    ensures
        spec_resolve(fetch, root, a.spec_max_depth()) == spec_resolve(fetch, root, b.spec_max_depth()),
        spec_resolve(fetch, root, a.spec_max_depth()) == spec_resolve(fetch, root, 16),
{
}

/// The outcome of resolving the canvas `root` with the depth limit
/// `max_depth`: the root record, or why the resolution failed, and the
/// sub-canvases resolved on the way.
pub open spec fn spec_resolve<F: Fn(&str) -> Result<Json, String>>(fetch: F, root: Seq<char>, max_depth: usize) -> (
    Result<CanvasRecordV, ResolveFailure>,
    ResolveState,
) {
    resolve_from(fetch, root, ResolveState { visited: Seq::empty(), resolved: Map::empty() }, max_depth as nat)
}

} // verus!
