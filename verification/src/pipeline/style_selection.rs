//! Style source selection: which style record or manufacturer style a canvas
//! is drawn with, and which fallbacks were taken on the way.
use vstd::prelude::*;

use crate::json::{Json, JsonV, str_at};
use crate::pipeline::{extract_record_name, spec_extract_record_name};
use crate::strs::{append_chars, append_str, chars_of, strip_prefix, strip_prefix_str, string_of};

verus! {

/// The style record a canvas names in `_RecordValue_.style`, as a record name.
pub open spec fn spec_canvas_style_name(root: JsonV) -> Option<Seq<char>> {
    match root.field("_RecordValue_"@) {
        Some(rv) => match str_at(rv, "style"@) {
            Some(s) => Some(spec_extract_record_name(s)),
            None => None,
        },
        None => None,
    }
}

/// The style record a canvas names, if any.
pub fn canvas_style_name(raw_root_json: &Json) -> (r: Option<String>)
    ensures
        match r {
            Some(s) => spec_canvas_style_name(raw_root_json@) == Some(s@),
            None => spec_canvas_style_name(raw_root_json@) is None,
        },
{
    match raw_root_json.get("_RecordValue_") {
        Some(rv) => match rv.str_field("style") {
            Some(s) => Some(extract_record_name(string_of(s.as_slice()).as_str())),
            None => None,
        },
        None => None,
    }
}

/// The selected style source and the fallback counters of a selection.
pub struct StyleSelectionManifest {
    pub selected_source: Option<String>,
    pub fallback_counters: Vec<(String, u32)>,
}

pub open spec fn manifest_view(m: StyleSelectionManifest) -> (Option<Seq<char>>, Seq<(Seq<char>, u32)>) {
    (
        match m.selected_source {
            Some(s) => Some(s@),
            None => None,
        },
        m.fallback_counters@.map_values(|p: (String, u32)| (p.0@, p.1)),
    )
}

/// The manufacturer whose style is tried: the given one, else `drak`.
pub open spec fn style_manufacturer(manufacturer_id: Option<Seq<char>>) -> Seq<char> {
    match manufacturer_id {
        Some(m) => m,
        None => "drak"@,
    }
}

/// The style selection given what the fetches found.
///
/// A canvas that names a style record that was found is drawn with it
/// (`canvas:{name}`). Otherwise the manufacturer's style is used
/// (`manufacturer:{id}`) when it was found, else Drake's
/// (`manufacturer:drak`). A named style record that was not found counts
/// `canvas_style_fetch_failed`; a manufacturer style that was not found
/// counts `manufacturer_style_fallback_drak`. Whether the manufacturer style
/// was found does not matter when the canvas style was.
pub open spec fn spec_style_selection(
    style_name: Option<Seq<char>>,
    canvas_style_found: bool,
    manufacturer_id: Option<Seq<char>>,
    manufacturer_style_found: bool,
) -> (Option<Seq<char>>, Seq<(Seq<char>, u32)>) {
    match style_name {
        Some(n) if canvas_style_found => (Some("canvas:"@ + n), Seq::empty()),
        _ => {
            let c0: Seq<(Seq<char>, u32)> = if style_name is Some {
                seq![("canvas_style_fetch_failed"@, 1u32)]
            } else {
                Seq::empty()
            };
            if manufacturer_style_found {
                (Some("manufacturer:"@ + style_manufacturer(manufacturer_id)), c0)
            } else {
                (Some("manufacturer:drak"@), c0.push(("manufacturer_style_fallback_drak"@, 1u32)))
            }
        },
    }
}

/// What a style selection picks. A found canvas style wins and counts
/// nothing. Otherwise the manufacturer's style (`drak`'s when none is
/// given) is picked when it was found, whether or not a canvas style was
/// named, and `manufacturer:drak` when it was not; a named canvas style
/// that was not found counts `canvas_style_fetch_failed` once, and a
/// missing manufacturer style counts `manufacturer_style_fallback_drak`
/// once. Naming a canvas style that is not found changes only the counters.
pub proof fn lemma_style_selection_law(
    style_name: Option<Seq<char>>,
    canvas_style_found: bool,
    manufacturer_id: Option<Seq<char>>,
    manufacturer_style_found: bool,
)
    ensures
        ({
            let (sel, counters) = spec_style_selection(
                style_name,
                canvas_style_found,
                manufacturer_id,
                manufacturer_style_found,
            );
            let mid = match manufacturer_id {
                Some(m) => m,
                None => "drak"@,
            };
            &&& style_name is Some && canvas_style_found ==> sel == Some("canvas:"@ + style_name->0) && counters.len()
                == 0
            &&& !(style_name is Some && canvas_style_found) ==> {
                &&& manufacturer_style_found ==> sel == Some("manufacturer:"@ + mid)
                &&& !manufacturer_style_found ==> sel == Some("manufacturer:drak"@)
                &&& counters.contains(("canvas_style_fetch_failed"@, 1u32)) == (style_name is Some)
                &&& counters.contains(("manufacturer_style_fallback_drak"@, 1u32)) == !manufacturer_style_found
                &&& counters.len() == (if style_name is Some { 1int } else { 0 }) + (if manufacturer_style_found {
                    0int
                } else {
                    1
                })
                &&& spec_style_selection(None, canvas_style_found, manufacturer_id, manufacturer_style_found).0 == sel
            }
        }),
{
    reveal_strlit("canvas_style_fetch_failed");
    reveal_strlit("manufacturer_style_fallback_drak");
    let (sel, counters) = spec_style_selection(style_name, canvas_style_found, manufacturer_id, manufacturer_style_found);
    let f: (Seq<char>, u32) = ("canvas_style_fetch_failed"@, 1u32);
    let d: (Seq<char>, u32) = ("manufacturer_style_fallback_drak"@, 1u32);
    assert(f != d) by {
        assert(f.0.len() != d.0.len());
    }
    if !(style_name is Some && canvas_style_found) {
        if style_name is Some {
            assert(counters[0] == f);
            if !manufacturer_style_found {
                assert(counters[1] == d);
                assert forall|i: int| 0 <= i < counters.len() implies counters[i] == f || counters[i] == d by {}
            }
        } else {
            if !manufacturer_style_found {
                assert(counters[0] == d);
            }
        }
        if manufacturer_style_found {
            assert forall|i: int| 0 <= i < counters.len() implies counters[i] == f by {}
        }
    }
}

/// A selection read back as a style request asks for what was selected: the
/// named canvas style when it was found, else the manufacturer style picked
/// (the given manufacturer's, or `drak`'s), whatever manufacturer the binding
/// names.
pub proof fn lemma_selection_request_round_trip(
    style_name: Option<Seq<char>>,
    canvas_style_found: bool,
    manufacturer_id: Option<Seq<char>>,
    manufacturer_style_found: bool,
    binding_manufacturer: Option<Seq<char>>,
)
    ensures
        ({
            let sel = spec_style_selection(style_name, canvas_style_found, manufacturer_id, manufacturer_style_found).0;
            let req = spec_style_request(sel, binding_manufacturer);
            let mid = match manufacturer_id {
                Some(m) => m,
                None => "drak"@,
            };
            &&& style_name is Some && canvas_style_found ==> req == (true, style_name->0)
            &&& !(style_name is Some && canvas_style_found) && manufacturer_style_found ==> req == (false, mid)
            &&& !(style_name is Some && canvas_style_found) && !manufacturer_style_found ==> req == (false, "drak"@)
        }),
{
    reveal_strlit("canvas:");
    reveal_strlit("manufacturer:");
    reveal_strlit("manufacturer:drak");
    reveal_strlit("drak");
    let sel = spec_style_selection(style_name, canvas_style_found, manufacturer_id, manufacturer_style_found).0;
    let mid = match manufacturer_id {
        Some(m) => m,
        None => "drak"@,
    };
    if style_name is Some && canvas_style_found {
        let n = style_name->0;
        assert(("canvas:"@ + n).subrange(0, 7) =~= "canvas:"@);
        assert(("canvas:"@ + n).subrange(7, ("canvas:"@ + n).len() as int) =~= n);
    } else {
        let m = if manufacturer_style_found { mid } else { "drak"@ };
        let full = "manufacturer:"@ + m;
        assert(sel == Some(full)) by {
            if !manufacturer_style_found {
                assert(full =~= "manufacturer:drak"@);
            }
        }
        assert(full[0] != "canvas:"@[0]);
        assert(full.subrange(0, 13) =~= "manufacturer:"@);
        assert(full.subrange(13, full.len() as int) =~= m);
    }
}

pub open spec fn opt_view(o: Option<&str>) -> Option<Seq<char>> {
    match o {
        Some(s) => Some(s@),
        None => None,
    }
}

fn prefixed(prefix: &str, rest: &[char]) -> (r: String)
    ensures
        r@ == prefix@ + rest@,
{
    let mut v: Vec<char> = Vec::new();
    append_str(&mut v, prefix);
    append_chars(&mut v, rest);
    string_of(v.as_slice())
}

/// The style selection manifest given what the fetches found (see
/// [`spec_style_selection`]). The canvas style is fetched by the name
/// [`canvas_style_name`] gives; the manufacturer style of
/// `manufacturer_id`, or of `drak` when there is none, is fetched only when the
/// canvas style was not found.
pub fn build_style_selection_manifest(
    style_name: Option<&str>,
    canvas_style_found: bool,
    manufacturer_id: Option<&str>,
    manufacturer_style_found: bool,
) -> (r: StyleSelectionManifest)
    ensures
        manifest_view(r) == spec_style_selection(
            opt_view(style_name),
            canvas_style_found,
            opt_view(manufacturer_id),
            manufacturer_style_found,
        ),
        !(style_name is Some && canvas_style_found) && manufacturer_style_found ==> manifest_view(r).0 == Some(
            "manufacturer:"@ + match manufacturer_id {
                Some(m) => m@,
                None => "drak"@,
            },
        ),
{
    proof {
        lemma_style_selection_law(opt_view(style_name), canvas_style_found, opt_view(manufacturer_id), manufacturer_style_found);
    }
    let mut counters: Vec<(String, u32)> = Vec::new();
    match style_name {
        Some(n) => {
            if canvas_style_found {
                let r = StyleSelectionManifest {
                    selected_source: Some(prefixed("canvas:", chars_of(n).as_slice())),
                    fallback_counters: counters,
                };
                assert(manifest_view(r).1 =~= Seq::<(Seq<char>, u32)>::empty());
                return r;
            }
            counters.push((string_of(chars_of("canvas_style_fetch_failed").as_slice()), 1));
        },
        None => {},
    }
    let ghost c0 = counters@.map_values(|p: (String, u32)| (p.0@, p.1));
    let spec_c0: Ghost<Seq<(Seq<char>, u32)>> = Ghost(
        if style_name is Some {
            seq![("canvas_style_fetch_failed"@, 1u32)]
        } else {
            Seq::empty()
        },
    );
    assert(c0 =~= spec_c0@);
    if manufacturer_style_found {
        let m = match manufacturer_id {
            Some(m) => chars_of(m),
            None => chars_of("drak"),
        };
        StyleSelectionManifest {
            selected_source: Some(prefixed("manufacturer:", m.as_slice())),
            fallback_counters: counters,
        }
    } else {
        counters.push((string_of(chars_of("manufacturer_style_fallback_drak").as_slice()), 1));
        let r = StyleSelectionManifest {
            selected_source: Some(string_of(chars_of("manufacturer:drak").as_slice())),
            fallback_counters: counters,
        };
        assert(manifest_view(r).1 =~= c0.push(("manufacturer_style_fallback_drak"@, 1u32)));
        r
    }
}

/// Where the style of an IR document comes from.
pub enum StyleRequest {
    /// A BuildingBlocks style record, by record name.
    CanvasRecord(String),
    /// A manufacturer style, by manufacturer id.
    Manufacturer(String),
}

/// The style request for a selected style source: `canvas:{name}` asks for
/// that style record, `manufacturer:{id}` for that manufacturer's style, and
/// anything else (or nothing) for the binding's manufacturer, `drak` when it
/// has none.
pub open spec fn spec_style_request(selected: Option<Seq<char>>, binding_manufacturer: Option<Seq<char>>) -> (
    bool,
    Seq<char>,
) {
    let fallback = (false, style_manufacturer(binding_manufacturer));
    match selected {
        Some(s) => match strip_prefix(s, "canvas:"@) {
            Some(n) => (true, n),
            None => match strip_prefix(s, "manufacturer:"@) {
                Some(m) => (false, m),
                None => fallback,
            },
        },
        None => fallback,
    }
}

pub open spec fn request_view(r: StyleRequest) -> (bool, Seq<char>) {
    match r {
        StyleRequest::CanvasRecord(n) => (true, n@),
        StyleRequest::Manufacturer(m) => (false, m@),
    }
}

/// Which style an IR document with the given selected style source is drawn
/// with (see [`spec_style_request`]).
pub fn style_request_for(selected_style_source: Option<&str>, binding_manufacturer: Option<&str>) -> (r:
    StyleRequest)
    ensures
        request_view(r) == spec_style_request(opt_view(selected_style_source), opt_view(binding_manufacturer)),
{
    match selected_style_source {
        Some(s) => {
            let v = chars_of(s);
            match strip_prefix_str(v.as_slice(), "canvas:") {
                Some(n) => {
                    return StyleRequest::CanvasRecord(string_of(n.as_slice()));
                },
                None => {},
            }
            match strip_prefix_str(v.as_slice(), "manufacturer:") {
                Some(m) => {
                    return StyleRequest::Manufacturer(string_of(m.as_slice()));
                },
                None => {},
            }
        },
        None => {},
    }
    match binding_manufacturer {
        Some(m) => StyleRequest::Manufacturer(string_of(chars_of(m).as_slice())),
        None => StyleRequest::Manufacturer(string_of(chars_of("drak").as_slice())),
    }
}

} // verus!
