//! Pipeline decisions around rendering a UI binding: record names, SWF source
//! candidates, style source selection and diagnostics.
use vstd::prelude::*;

pub mod asset_manifest;
pub mod style_selection;
pub mod swf_imports;
pub mod swf_paths;
pub mod swf_selection;
pub mod swf_walk;

use crate::compose::text_style::{any_tag, has_tag_named, tag_names_view};
use crate::json::{Json, JsonV, array_at, str_at, views};
use crate::strs::{
    append_chars, append_str, chars_of, decimal, eq_ignore_case, eq_ignore_case_str, last_segment,
    last_segment_exec, push_decimal, strip_prefix, strip_prefix_str, string_of, sub_chars,
};

verus! {

/// The DataCore record name of a BuildingBlocks file URL or bare name: the
/// `file://` scheme and the directories are dropped, and so is a trailing
/// `.json` (ASCII case-insensitively).
pub open spec fn spec_extract_record_name(s: Seq<char>) -> Seq<char> {
    let without_scheme = match strip_prefix(s, "file://"@) {
        Some(r) => r,
        None => s,
    };
    let base = last_segment(without_scheme, '/');
    if base.len() >= 5 && eq_ignore_case(base.subrange(base.len() - 5, base.len() as int), ".json"@) {
        base.subrange(0, base.len() - 5)
    } else {
        base
    }
}

/// Extract a DataCore record name from a BuildingBlocks file URL or bare name.
pub fn extract_record_name(file_url_or_name: &str) -> (r: String)
    ensures
        r@ == spec_extract_record_name(file_url_or_name@),
{
    let v = chars_of(file_url_or_name);
    let without_scheme = match strip_prefix_str(v.as_slice(), "file://") {
        Some(r) => r,
        None => v,
    };
    let base = last_segment_exec(without_scheme.as_slice(), '/');
    let n = base.len();
    if n >= 5 {
        let tail = sub_chars(base.as_slice(), n - 5, n);
        if eq_ignore_case_str(tail.as_slice(), ".json") {
            let stem = sub_chars(base.as_slice(), 0, n - 5);
            return string_of(stem.as_slice());
        }
    }
    string_of(base.as_slice())
}

/// The warning that reports a fallback path taken `count` times.
pub open spec fn warning_text(key: Seq<char>, count: u32) -> Seq<char> {
    "fallback path used: "@ + key + "="@ + decimal(count as nat)
}

/// Warnings for the first `k` counters; counters at zero are skipped.
pub open spec fn warnings_upto(counters: Seq<(Seq<char>, u32)>, k: int) -> Seq<Seq<char>>
    decreases k,
{
    if k <= 0 {
        Seq::empty()
    } else {
        warnings_upto(counters, k - 1) + if counters[k - 1].1 > 0 {
            seq![warning_text(counters[k - 1].0, counters[k - 1].1)]
        } else {
            Seq::empty()
        }
    }
}

pub open spec fn counters_view(c: Seq<(&str, u32)>) -> Seq<(Seq<char>, u32)> {
    c.map_values(|p: (&str, u32)| (p.0@, p.1))
}

pub open spec fn string_views(v: Seq<String>) -> Seq<Seq<char>> {
    v.map_values(|s: String| s@)
}

/// One human-readable warning per fallback counter above zero, in order:
/// `fallback path used: {key}={count}`.
pub fn fallback_counter_warnings(counters: &[(&str, u32)]) -> (r: Vec<String>)
    ensures
        string_views(r@) == warnings_upto(counters_view(counters@), counters@.len() as int),
{
    let ghost cv = counters_view(counters@);
    let mut out: Vec<String> = Vec::new();
    let mut i: usize = 0;
    assert(string_views(out@) =~= warnings_upto(cv, 0));
    while i < counters.len()
        invariant
            i <= counters@.len(),
            cv == counters_view(counters@),
            string_views(out@) == warnings_upto(cv, i as int),
        decreases counters@.len() - i,
    {
        let (key, count) = counters[i];
        assert(cv[i as int] == (key@, count));
        let ghost before = string_views(out@);
        if count > 0 {
            let mut text: Vec<char> = Vec::new();
            append_str(&mut text, "fallback path used: ");
            append_str(&mut text, key);
            append_str(&mut text, "=");
            push_decimal(&mut text, count as u64);
            out.push(string_of(text.as_slice()));
            assert(string_views(out@) =~= before + seq![warning_text(key@, count)]);
        } else {
            assert(string_views(out@) =~= before + Seq::<Seq<char>>::empty());
        }
        i += 1;
    }
    out
}

/// Borrowed snapshot of the UiBinding fields the pipeline reads.
pub struct UiBindingView<'a> {
    pub canvas_guid: Option<&'a str>,
    pub content_canvas_guid: Option<&'a str>,
    pub binding_kind: Option<&'a str>,
    pub manufacturer_id: Option<&'a str>,
    pub helper_name: Option<&'a str>,
    pub default_view_index: Option<u32>,
    pub default_screen_slot: Option<u32>,
}

/// A non-empty optional string.
pub open spec fn non_empty(s: Option<&str>) -> bool {
    s matches Some(g) && g@.len() > 0
}

/// The canvas a binding renders: its content canvas when it names one, else
/// its canvas.
pub open spec fn spec_effective_canvas_guid(b: UiBindingView) -> Option<Seq<char>> {
    if non_empty(b.content_canvas_guid) {
        Some(b.content_canvas_guid->0@)
    } else if non_empty(b.canvas_guid) {
        Some(b.canvas_guid->0@)
    } else {
        None
    }
}

/// The canvas GUID a binding renders; `None` when it names none.
pub fn effective_canvas_guid<'a>(b: &UiBindingView<'a>) -> (r: Option<&'a str>)
    ensures
        match r {
            Some(g) => spec_effective_canvas_guid(*b) == Some(g@),
            None => spec_effective_canvas_guid(*b) is None,
        },
{
    match b.content_canvas_guid {
        Some(g) => {
            if !g.is_empty() {
                return Some(g);
            }
        },
        None => {},
    }
    match b.canvas_guid {
        Some(g) => {
            if !g.is_empty() {
                return Some(g);
            }
        },
        None => {},
    }
    None
}

/// The manufacturer brand and style resolution use: the binding's own, else
/// the one the selected style source names (`manufacturer:{id}`), else `drak`.
pub open spec fn spec_effective_manufacturer_id(binding_id: Option<Seq<char>>, style_source: Option<Seq<char>>) -> Seq<
    char,
> {
    match binding_id {
        Some(m) => m,
        None => match style_source {
            Some(s) => match strip_prefix(s, "manufacturer:"@) {
                Some(m) => m,
                None => "drak"@,
            },
            None => "drak"@,
        },
    }
}

pub open spec fn opt_str_view(o: Option<&str>) -> Option<Seq<char>> {
    match o {
        Some(s) => Some(s@),
        None => None,
    }
}

/// The manufacturer id used for brand and style resolution.
pub fn effective_manufacturer_id(binding_id: Option<&str>, style_source: Option<&str>) -> (r: String)
    ensures
        r@ == spec_effective_manufacturer_id(opt_str_view(binding_id), opt_str_view(style_source)),
{
    match binding_id {
        Some(m) => string_of(chars_of(m).as_slice()),
        None => {
            match style_source {
                Some(s) => {
                    let v = chars_of(s);
                    match strip_prefix_str(v.as_slice(), "manufacturer:") {
                        Some(m) => string_of(m.as_slice()),
                        None => string_of(chars_of("drak").as_slice()),
                    }
                },
                None => string_of(chars_of("drak").as_slice()),
            }
        },
    }
}

/// The `_RecordName_` of a canvas root record.
pub open spec fn spec_canvas_record_name(root: JsonV) -> Option<Seq<char>> {
    str_at(root, "_RecordName_"@)
}

/// The `_RecordName_` of a canvas root record.
pub fn canvas_record_name(root_json: &Json) -> (r: Option<String>)
    ensures
        match r {
            Some(s) => spec_canvas_record_name(root_json@) == Some(s@),
            None => spec_canvas_record_name(root_json@) is None,
        },
{
    match root_json.str_field("_RecordName_") {
        Some(v) => Some(string_of(v.as_slice())),
        None => None,
    }
}

/// A scene item whose content a standalone SWF draws.
pub open spec fn is_flash_item(item: JsonV) -> bool {
    match str_at(item, "rendererType"@) {
        Some(t) => eq_ignore_case(t, "Flash"@),
        None => false,
    }
}

/// Some item of `items` is drawn by a standalone SWF.
pub open spec fn has_flash_item(items: Seq<JsonV>) -> bool {
    exists|i: int| 0 <= i < items.len() && #[trigger] is_flash_item(items[i])
}

/// Some top-level scene item of the canvas declares `rendererType: "Flash"`
/// (ASCII case-insensitively): the canvas is drawn by a standalone SWF rather
/// than by BuildingBlocks widgets.
pub open spec fn spec_canvas_has_flash_renderer(root: JsonV) -> bool {
    match root.field("_RecordValue_"@) {
        Some(rv) => match array_at(rv, "scene"@) {
            Some(items) => has_flash_item(items),
            None => false,
        },
        None => false,
    }
}

/// Whether the canvas is drawn by a standalone SWF.
pub fn canvas_has_flash_renderer(root_json: &Json) -> (r: bool)
    ensures
        r == spec_canvas_has_flash_renderer(root_json@),
{
    let rv = match root_json.get("_RecordValue_") {
        Some(v) => v,
        None => {
            return false;
        },
    };
    let items = match rv.array_field("scene") {
        Some(a) => a,
        None => {
            return false;
        },
    };
    let ghost s = views(items@);
    assert(root_json@.field("_RecordValue_"@) == Some(rv@));
    assert(array_at(rv@, "scene"@) == Some(s));
    let mut i: usize = 0;
    while i < items.len()
        invariant
            i <= items@.len(),
            s == views(items@),
            root_json@.field("_RecordValue_"@) == Some(rv@),
            array_at(rv@, "scene"@) == Some(s),
            forall|k: int| 0 <= k < i ==> !#[trigger] is_flash_item(s[k]),
        decreases items@.len() - i,
    {
        assert(s[i as int] == items@[i as int]@);
        match items[i].str_field("rendererType") {
            Some(t) => {
                if eq_ignore_case_str(t.as_slice(), "Flash") {
                    assert(is_flash_item(s[i as int]));
                    assert(has_flash_item(s));
                    assert(spec_canvas_has_flash_renderer(root_json@));
                    return true;
                }
            },
            None => {},
        }
        i += 1;
    }
    false
}

/// Diagnostics captured while rendering a UI image.
#[derive(Debug, Clone)]
pub struct UiRenderDiagnostics {
    pub resolved_canvas_ids: Vec<String>,
    pub resolved_canvas_names: Vec<String>,
    pub selected_style_source: String,
    pub selected_swf_source: String,
    pub render_backend: String,
    pub fallback_counters: std::collections::BTreeMap<String, u32>,
    pub unresolved_references: Vec<String>,
    pub confidence: u8,
}

/// Render output plus diagnostics for provenance metadata.
#[derive(Debug, Clone)]
pub struct UiRenderOutput {
    pub png: Vec<u8>,
    pub diagnostics: UiRenderDiagnostics,
}

/// What the choice of screen background reads of a compiled UI node: its
/// type, whether it is active, and the names of its resolved style tags.
pub struct IrNodeTags {
    pub node_type: String,
    pub is_active: bool,
    pub tag_names: Vec<Option<String>>,
}

/// An inactive image widget tagged `ScreenNameBackground`.
pub open spec fn is_hidden_screen_name_background(n: IrNodeTags) -> bool {
    &&& eq_ignore_case(n.node_type@, "widget_image"@)
    &&& !n.is_active
    &&& any_tag(tag_names_view(n.tag_names@), |t: Seq<char>| eq_ignore_case(t, "ScreenNameBackground"@))
}

/// Whether the style's placeholder screen background is replaced by opaque
/// black: a SWF source was selected and the canvas hides its screen-name
/// background image.
pub fn suppresses_placeholder_screen_background(has_swf_source: bool, nodes: &[IrNodeTags]) -> (r: bool)
    ensures
        r == (has_swf_source && exists|i: int|
            0 <= i < nodes@.len() && is_hidden_screen_name_background(#[trigger] nodes@[i])),
{
    if !has_swf_source {
        return false;
    }
    let mut i: usize = 0;
    while i < nodes.len()
        invariant
            has_swf_source,
            i <= nodes@.len(),
            forall|k: int| 0 <= k < i ==> !is_hidden_screen_name_background(#[trigger] nodes@[k]),
        decreases nodes@.len() - i,
    {
        let n = &nodes[i];
        if eq_ignore_case_str(chars_of(n.node_type.as_str()).as_slice(), "widget_image") && !n.is_active
            && has_tag_named(n.tag_names.as_slice(), "ScreenNameBackground") {
            assert(is_hidden_screen_name_background(nodes@[i as int]));
            return true;
        }
        i += 1;
    }
    false
}

} // verus!
