//! Canvas JSON parser.
use vstd::prelude::*;
use vstd::utf8::encode_utf8;

use crate::canvas::types::{
    CanvasRecord, CanvasRecordV, CanvasView, CanvasViewV, Operation, OperationV, RgbaColor,
    SceneItem, SceneItemV, Value, ValueV, ViewComponent, ViewComponentV, components_view,
    lemma_container_view,
};
use crate::error::UiError;
use crate::json::{
    Json, JsonNumber, JsonV, array_at, bool_at, jsize, lemma_array_at_smaller, str_at, u64_at,
    views,
};
use crate::strs::{chars_eq_str, chars_of, contains, contains_str, strip_prefix, strip_prefix_str, string_of};

verus! {

// ───────────────────────────── specification ─────────────────────────────

/// A present, non-empty string.
pub open spec fn non_empty(o: Option<Seq<char>>) -> Option<Seq<char>> {
    match o {
        Some(s) => if s.len() > 0 {
            Some(s)
        } else {
            None
        },
        None => None,
    }
}

/// A present, non-empty string other than `"null"`.
pub open spec fn not_null(o: Option<Seq<char>>) -> Option<Seq<char>> {
    match o {
        Some(s) => if s.len() > 0 && s != "null"@ {
            Some(s)
        } else {
            None
        },
        None => None,
    }
}

/// The first present of two optional values.
pub open spec fn or_else<T>(a: Option<T>, b: Option<T>) -> Option<T> {
    match a {
        Some(x) => Some(x),
        None => b,
    }
}

/// Member `key` as a number truncated to `u32`.
pub open spec fn u32_at(v: JsonV, key: Seq<char>) -> Option<u32> {
    match u64_at(v, key) {
        Some(n) => Some(n as u32),
        None => None,
    }
}

/// A GUID-shaped string: 36 bytes of UTF-8 with `-` at bytes 8, 13, 18, 23.
pub open spec fn spec_looks_like_guid(s: Seq<char>) -> bool {
    let b = encode_utf8(s);
    b.len() == 36 && b[8] == 45u8 && b[13] == 45u8 && b[18] == 45u8 && b[23] == 45u8
}

/// The `_Type_` of a value, empty when absent.
pub open spec fn type_str(v: JsonV) -> Seq<char> {
    match str_at(v, "_Type_"@) {
        Some(t) => t,
        None => Seq::empty(),
    }
}

/// A type name without its `BuildingBlocks_` prefix.
pub open spec fn type_suffix(t: Seq<char>) -> Seq<char> {
    match strip_prefix(t, "BuildingBlocks_"@) {
        Some(s) => s,
        None => t,
    }
}

pub open spec fn is_widget_canvas_kind(s: Seq<char>) -> bool {
    s == "WidgetCanvas"@ || s == "WidgetCanvasURL"@
}

pub open spec fn is_text_kind(s: Seq<char>) -> bool {
    s == "Text"@ || s == "TextField"@ || s == "Label"@ || s == "TextWidget"@ || s == "WidgetText"@
        || s == "BindingsText"@ || s == "DynamicText"@ || s == "SpriteText"@
}

pub open spec fn is_shape_kind(s: Seq<char>) -> bool {
    s == "Shape"@ || s == "Rectangle"@ || s == "Rect"@ || s == "Circle"@ || s == "Line"@ || s
        == "WidgetShape"@
}

pub open spec fn is_sprite_kind(s: Seq<char>) -> bool {
    s == "Sprite"@ || s == "WidgetSprite"@ || s == "SpriteInstance"@ || s == "MovieClip"@
}

pub open spec fn is_image_kind(s: Seq<char>) -> bool {
    s == "Image"@ || s == "Bitmap"@ || s == "Texture"@ || s == "WidgetImage"@
}

pub open spec fn is_container_kind(s: Seq<char>) -> bool {
    s == "Group"@ || s == "Container"@ || s == "Panel"@ || s == "WidgetGroup"@ || s == "Canvas"@
}

pub open spec fn unwrap_or_empty(o: Option<Seq<char>>) -> Seq<char> {
    match o {
        Some(s) => s,
        None => Seq::empty(),
    }
}

/// The component a scene item of type `t` stands for. An unknown type is an
/// empty container.
pub open spec fn spec_classify(t: Seq<char>, item: JsonV) -> ViewComponentV
    decreases jsize(item), 1nat, 0nat,
{
    let suffix = type_suffix(t);
    if is_widget_canvas_kind(suffix) {
        let path = not_null(str_at(item, "canvas"@));
        let sub_guid = match path {
            Some(p) => if spec_looks_like_guid(p) {
                Some(p)
            } else {
                None
            },
            None => None,
        };
        ViewComponentV::WidgetCanvas {
            canvas_path: if sub_guid is Some {
                None
            } else {
                path
            },
            url_postfix: non_empty(str_at(item, "urlPostfix"@)),
            url_optional: non_empty(str_at(item, "urlOptional"@)),
            sub_guid,
        }
    } else if is_text_kind(suffix) {
        ViewComponentV::TextField {
            binding_path: or_else(str_at(item, "binding"@), str_at(item, "bindingPath"@)),
            default_text: or_else(str_at(item, "text"@), str_at(item, "defaultText"@)),
            font_id: or_else(str_at(item, "fontId"@), str_at(item, "font"@)),
            color: u32_at(item, "color"@),
        }
    } else if is_shape_kind(suffix) {
        let raw = or_else(item.field("shapeId"@), item.field("characterId"@));
        ViewComponentV::Shape {
            shape_id: match raw {
                Some(v) => match v.u64_val() {
                    Some(n) => Some(n as u16),
                    None => None,
                },
                None => None,
            },
            fill: or_else(u32_at(item, "fill"@), u32_at(item, "fillColor"@)),
        }
    } else if is_sprite_kind(suffix) {
        ViewComponentV::Sprite {
            swf_path: unwrap_or_empty(or_else(str_at(item, "swfPath"@), str_at(item, "swf"@))),
            linkage_name: unwrap_or_empty(or_else(str_at(item, "linkageName"@), str_at(item, "name"@))),
        }
    } else if is_image_kind(suffix) {
        ViewComponentV::Image {
            texture_path: unwrap_or_empty(
                or_else(
                    str_at(item, "texturePath"@),
                    or_else(str_at(item, "texture"@), str_at(item, "path"@)),
                ),
            ),
        }
    } else if is_container_kind(suffix) {
        ViewComponentV::Container {
            children: match array_at(item, "children"@) {
                Some(a) => children_upto(item, a.len() as int),
                None => Seq::empty(),
            },
        }
    } else {
        ViewComponentV::Container { children: Seq::empty() }
    }
}

/// The components of the first `k` children of a container item.
pub open spec fn children_upto(item: JsonV, k: int) -> Seq<ViewComponentV>
    decreases jsize(item), 0nat, k,
{
    match array_at(item, "children"@) {
        Some(a) => if k <= 0 || k > a.len() {
            Seq::empty()
        } else {
            proof {
                lemma_array_at_smaller(item, "children"@, k - 1);
            }
            children_upto(item, k - 1).push(spec_classify(type_str(a[k - 1]), a[k - 1]))
        },
        None => Seq::empty(),
    }
}

/// A reference to a screen canvas in `views[].screens[]`.
pub open spec fn spec_parse_screen_ref(screen: JsonV) -> ViewComponentV {
    ViewComponentV::WidgetCanvas {
        canvas_path: or_else(str_at(screen, "canvasPath"@), str_at(screen, "canvas"@)),
        url_postfix: str_at(screen, "urlPostfix"@),
        url_optional: str_at(screen, "urlOptional"@),
        sub_guid: match screen {
            JsonV::Str(s) => if s.len() > 0 && s != "null"@ {
                Some(s)
            } else {
                None
            },
            JsonV::Object(_) => non_empty(str_at(screen, "canvas"@)),
            _ => None,
        },
    }
}

/// View number `idx`: named by `name`, default when it says so (`default`,
/// else `defaultView`) or, saying nothing, when it is the first.
pub open spec fn spec_parse_view(v: JsonV, idx: int) -> CanvasViewV {
    CanvasViewV {
        name: unwrap_or_empty(str_at(v, "name"@)),
        ordinal: idx as u32,
        components: match array_at(v, "screens"@) {
            Some(s) => s.map_values(|x: JsonV| spec_parse_screen_ref(x)),
            None => Seq::empty(),
        },
        default: match or_else(bool_at(v, "default"@), bool_at(v, "defaultView"@)) {
            Some(b) => b,
            None => idx == 0,
        },
    }
}

pub open spec fn array_of(v: Option<JsonV>) -> Seq<JsonV> {
    match v {
        Some(JsonV::Array(a)) => a,
        _ => Seq::empty(),
    }
}

pub open spec fn spec_parse_views(v: Option<JsonV>) -> Seq<CanvasViewV> {
    let a = array_of(v);
    Seq::new(a.len(), |i: int| spec_parse_view(a[i], i))
}

/// A packed `0xAARRGGBB` number or an `{r, g, b, a}` object (missing
/// components are 255).
pub open spec fn spec_parse_rgba_color(v: Option<JsonV>) -> Option<RgbaColor> {
    match v {
        Some(JsonV::Number(_)) => match v->0.u64_val() {
            Some(n) => {
                let packed = n as u32;
                Some(
                    RgbaColor {
                        r: ((packed >> 16u32) & 0xFFu32) as u8,
                        g: ((packed >> 8u32) & 0xFFu32) as u8,
                        b: (packed & 0xFFu32) as u8,
                        a: ((packed >> 24u32) & 0xFFu32) as u8,
                    },
                )
            },
            None => None,
        },
        Some(JsonV::Object(_)) => {
            let o = v->0;
            Some(
                RgbaColor {
                    r: component_or_255(o, "r"@),
                    g: component_or_255(o, "g"@),
                    b: component_or_255(o, "b"@),
                    a: component_or_255(o, "a"@),
                },
            )
        },
        _ => None,
    }
}

pub open spec fn component_or_255(o: JsonV, key: Seq<char>) -> u8 {
    match u64_at(o, key) {
        Some(n) => n as u8,
        None => 255u8,
    }
}

/// Members a scene item keeps in typed fields.
pub open spec fn is_typed_key(k: Seq<char>) -> bool {
    k == "_Type_"@ || k == "canvas"@ || k == "urlPostfix"@ || k == "urlOptional"@ || k
        == "transform"@ || k == "color"@
}

/// The members of `m` whose key is not a typed key, in order.
pub open spec fn keep_untyped(m: Seq<(Seq<char>, JsonV)>) -> Seq<(Seq<char>, JsonV)>
    decreases m.len(),
{
    if m.len() == 0 {
        Seq::empty()
    } else if is_typed_key(m.last().0) {
        keep_untyped(m.drop_last())
    } else {
        keep_untyped(m.drop_last()).push(m.last())
    }
}

pub open spec fn untyped_members(item: JsonV) -> Seq<(Seq<char>, JsonV)> {
    match item {
        JsonV::Object(m) => keep_untyped(m),
        _ => Seq::empty(),
    }
}

pub open spec fn spec_parse_scene_item(item: JsonV) -> SceneItemV {
    SceneItemV {
        kind: type_str(item),
        guid: not_null(str_at(item, "canvas"@)),
        url_postfix: non_empty(str_at(item, "urlPostfix"@)),
        url_optional: non_empty(str_at(item, "urlOptional"@)),
        transform: item.field("transform"@),
        color: spec_parse_rgba_color(item.field("color"@)),
        properties: untyped_members(item),
    }
}

/// Whether a JSON number fits `i64` (`serde_json::Number::is_i64`).
pub open spec fn is_i64(n: JsonNumber) -> bool {
    match n {
        JsonNumber::PosInt(u) => u <= i64::MAX as u64,
        JsonNumber::NegInt(_) => true,
        JsonNumber::Float(_) => false,
    }
}

/// The typed default value of an operation: read from `defaultValue`,
/// `value` or `default`, typed by the operation kind when the kind names one,
/// else by the JSON value.
pub open spec fn spec_extract_default_value(kind: Seq<char>, item: JsonV) -> Option<ValueV> {
    match or_else(item.field("defaultValue"@), or_else(item.field("value"@), item.field("default"@))) {
        None => None,
        Some(raw) => if contains(kind, "Boolean"@) || contains(kind, "Bool"@) {
            match raw.bool_val() {
                Some(b) => Some(ValueV::Bool(b)),
                None => None,
            }
        } else if (contains(kind, "Integer"@) || contains(kind, "Int"@)) && raw.i64_val() is Some {
            Some(ValueV::Int(raw.i64_val()->0))
        } else if (contains(kind, "Float"@) || contains(kind, "Number"@)) && raw is Number {
            Some(ValueV::Float(raw->Number_0))
        } else {
            match raw {
                JsonV::Bool(b) => Some(ValueV::Bool(b)),
                JsonV::Number(n) => if is_i64(n) {
                    Some(ValueV::Int(raw.i64_val()->0))
                } else {
                    Some(ValueV::Float(n))
                },
                JsonV::Str(s) => if spec_looks_like_guid(s) {
                    Some(ValueV::Guid(s))
                } else {
                    Some(ValueV::Str(s))
                },
                _ => None,
            }
        },
    }
}

pub open spec fn spec_parse_operation(item: JsonV) -> OperationV {
    let kind = type_str(item);
    OperationV {
        kind,
        binding_path: non_empty(or_else(str_at(item, "binding"@), str_at(item, "bindingPath"@))),
        target_property: non_empty(or_else(str_at(item, "property"@), str_at(item, "targetProperty"@))),
        default_value: spec_extract_default_value(kind, item),
    }
}

/// The record a canvas JSON object parses to.
pub open spec fn spec_parse_record(guid: Seq<char>, name: Seq<char>, json: JsonV) -> CanvasRecordV {
    CanvasRecordV {
        guid,
        name,
        views: spec_parse_views(json.field("views"@)),
        scene: array_of(json.field("scene"@)).map_values(|x: JsonV| spec_parse_scene_item(x)),
        operations: array_of(json.field("operations"@)).map_values(|x: JsonV| spec_parse_operation(x)),
    }
}

/// The length of a member read as an array: the array's length, and 0 when
/// the member is missing or not an array.
pub open spec fn member_len(json: JsonV, key: Seq<char>) -> nat {
    match json.field(key) {
        Some(JsonV::Array(a)) => a.len(),
        _ => 0,
    }
}

/// A parsed record keeps the GUID and name it was given, and has exactly as
/// many views, scene items and operations as the JSON's `views`, `scene`
/// and `operations` arrays (none where a member is missing or not an
/// array).
pub proof fn lemma_parse_keeps_lengths(guid: Seq<char>, name: Seq<char>, json: JsonV)
    ensures
        ({
            let rec = spec_parse_record(guid, name, json);
            &&& rec.guid == guid
            &&& rec.name == name
            &&& rec.views.len() == member_len(json, "views"@)
            &&& rec.scene.len() == member_len(json, "scene"@)
            &&& rec.operations.len() == member_len(json, "operations"@)
        }),
{
}

/// The default flag of a parsed view: a view's own boolean `default` (or,
/// without one, `defaultView`) is its flag, whatever it says; only a view
/// with neither flag is the default when it comes first.
pub proof fn lemma_view_default_flag(guid: Seq<char>, name: Seq<char>, json: JsonV, i: int)
    requires
        json.field("views"@) is Some,
        json.field("views"@)->0 is Array,
        0 <= i < json.field("views"@)->0->Array_0.len(),
    ensures
        ({
            let v = json.field("views"@)->0->Array_0[i];
            let df = v.field("default"@);
            let dv = v.field("defaultView"@);
            let d = spec_parse_record(guid, name, json).views[i].default;
            &&& i < spec_parse_record(guid, name, json).views.len()
            &&& (df is Some && df->0 is Bool) ==> d == df->0->Bool_0
            &&& !(df is Some && df->0 is Bool) && (dv is Some && dv->0 is Bool) ==> d == dv->0->Bool_0
            &&& !(df is Some && df->0 is Bool) && !(dv is Some && dv->0 is Bool) ==> d == (i == 0)
        }),
{
}

// ───────────────────────────── exec ─────────────────────────────

/// Whether `s` is shaped like a GUID (see [`spec_looks_like_guid`]).
pub fn looks_like_guid(s: &str) -> (r: bool)
    ensures
        r == spec_looks_like_guid(s@),
{
    let b = s.as_bytes();
    b.len() == 36 && b[8] == 45u8 && b[13] == 45u8 && b[18] == 45u8 && b[23] == 45u8
}
pub open spec fn opt_chars_view(o: Option<Vec<char>>) -> Option<Seq<char>> {
    match o {
        Some(v) => Some(v@),
        None => None,
    }
}

pub open spec fn opt_string_view(o: Option<String>) -> Option<Seq<char>> {
    match o {
        Some(s) => Some(s@),
        None => None,
    }
}

fn to_string_opt(o: Option<Vec<char>>) -> (r: Option<String>)
    ensures
        opt_string_view(r) == opt_chars_view(o),
{
    match o {
        Some(v) => Some(string_of(v.as_slice())),
        None => None,
    }
}

/// String member `key`, as a `String`.
fn str_field(v: &Json, key: &str) -> (r: Option<String>)
    ensures
        opt_string_view(r) == str_at(v@, key@),
{
    to_string_opt(v.str_field(key))
}

fn first_str_field(v: &Json, a: &str, b: &str) -> (r: Option<String>)
    ensures
        opt_string_view(r) == or_else(str_at(v@, a@), str_at(v@, b@)),
{
    match str_field(v, a) {
        Some(s) => Some(s),
        None => str_field(v, b),
    }
}

fn non_empty_exec(o: Option<String>) -> (r: Option<String>)
    ensures
        opt_string_view(r) == non_empty(opt_string_view(o)),
{
    match o {
        Some(s) => if !s.as_str().is_empty() {
            Some(s)
        } else {
            None
        },
        None => None,
    }
}

fn not_null_exec(o: Option<String>) -> (r: Option<String>)
    ensures
        opt_string_view(r) == not_null(opt_string_view(o)),
{
    match o {
        Some(s) => {
            let c = chars_of(s.as_str());
            if c.len() > 0 && !chars_eq_str(c.as_slice(), "null") {
                Some(s)
            } else {
                None
            }
        },
        None => None,
    }
}

fn u32_field(v: &Json, key: &str) -> (r: Option<u32>)
    ensures
        r == u32_at(v@, key@),
{
    match v.u64_field(key) {
        Some(n) => Some(n as u32),
        None => None,
    }
}

fn unwrap_or_empty_exec(o: Option<String>) -> (r: String)
    ensures
        r@ == unwrap_or_empty(opt_string_view(o)),
{
    match o {
        Some(s) => s,
        None => String::new(),
    }
}

fn type_string(v: &Json) -> (r: Vec<char>)
    ensures
        r@ == type_str(v@),
{
    match v.str_field("_Type_") {
        Some(t) => t,
        None => Vec::new(),
    }
}

/// Classify a scene item of type `t` into a [`ViewComponent`].
pub fn classify_component(t: &[char], item: &Json) -> (r: ViewComponent)
    ensures
        r@ == spec_classify(t@, item@),
    decreases jsize(item@), 1nat, 0nat,
{
    let suffix = match strip_prefix_str(t, "BuildingBlocks_") {
        Some(s) => s,
        None => crate::strs::copy_chars(t),
    };
    let sf = suffix.as_slice();
    if chars_eq_str(sf, "WidgetCanvas") || chars_eq_str(sf, "WidgetCanvasURL") {
        let path = not_null_exec(str_field(item, "canvas"));
        let sub_guid = match &path {
            Some(p) => if looks_like_guid(p.as_str()) {
                Some(p.clone())
            } else {
                None
            },
            None => None,
        };
        let canvas_path = if sub_guid.is_some() {
            None
        } else {
            path
        };
        ViewComponent::WidgetCanvas {
            canvas_path,
            url_postfix: non_empty_exec(str_field(item, "urlPostfix")),
            url_optional: non_empty_exec(str_field(item, "urlOptional")),
            sub_guid,
        }
    } else if chars_eq_str(sf, "Text") || chars_eq_str(sf, "TextField") || chars_eq_str(sf, "Label")
        || chars_eq_str(sf, "TextWidget") || chars_eq_str(sf, "WidgetText") || chars_eq_str(
        sf,
        "BindingsText",
    ) || chars_eq_str(sf, "DynamicText") || chars_eq_str(sf, "SpriteText") {
        ViewComponent::TextField {
            binding_path: first_str_field(item, "binding", "bindingPath"),
            default_text: first_str_field(item, "text", "defaultText"),
            font_id: first_str_field(item, "fontId", "font"),
            color: u32_field(item, "color"),
        }
    } else if chars_eq_str(sf, "Shape") || chars_eq_str(sf, "Rectangle") || chars_eq_str(sf, "Rect")
        || chars_eq_str(sf, "Circle") || chars_eq_str(sf, "Line") || chars_eq_str(sf, "WidgetShape") {
        let raw = match item.get("shapeId") {
            Some(v) => Some(v),
            None => item.get("characterId"),
        };
        let shape_id = match raw {
            Some(v) => match v.as_u64() {
                Some(n) => Some(n as u16),
                None => None,
            },
            None => None,
        };
        let fill = match u32_field(item, "fill") {
            Some(f) => Some(f),
            None => u32_field(item, "fillColor"),
        };
        ViewComponent::Shape { shape_id, fill }
    } else if chars_eq_str(sf, "Sprite") || chars_eq_str(sf, "WidgetSprite") || chars_eq_str(
        sf,
        "SpriteInstance",
    ) || chars_eq_str(sf, "MovieClip") {
        ViewComponent::Sprite {
            swf_path: unwrap_or_empty_exec(first_str_field(item, "swfPath", "swf")),
            linkage_name: unwrap_or_empty_exec(first_str_field(item, "linkageName", "name")),
        }
    } else if chars_eq_str(sf, "Image") || chars_eq_str(sf, "Bitmap") || chars_eq_str(sf, "Texture")
        || chars_eq_str(sf, "WidgetImage") {
        let p = match str_field(item, "texturePath") {
            Some(p) => Some(p),
            None => first_str_field(item, "texture", "path"),
        };
        ViewComponent::Image { texture_path: unwrap_or_empty_exec(p) }
    } else if chars_eq_str(sf, "Group") || chars_eq_str(sf, "Container") || chars_eq_str(sf, "Panel")
        || chars_eq_str(sf, "WidgetGroup") || chars_eq_str(sf, "Canvas") {
        let mut children: Vec<ViewComponent> = Vec::new();
        match item.array_field("children") {
            Some(arr) => {
                let ghost a = views(arr@);
                let mut i: usize = 0;
                assert(components_view(children@) =~= children_upto(item@, 0));
                while i < arr.len()
                    invariant
                        i <= arr@.len(),
                        a == views(arr@),
                        array_at(item@, "children"@) == Some(a),
                        components_view(children@) == children_upto(item@, i as int),
                    decreases arr@.len() - i,
                {
                    let c = &arr[i];
                    assert(a[i as int] == c@);
                    proof {
                        lemma_array_at_smaller(item@, "children"@, i as int);
                    }
                    let ct = type_string(c);
                    let child = classify_component(ct.as_slice(), c);
                    let ghost before = components_view(children@);
                    children.push(child);
                    assert(components_view(children@) =~= before.push(child@));
                    i += 1;
                }
                proof {
                    lemma_container_view(children);
                }
                ViewComponent::Container { children }
            },
            None => {
                proof {
                    lemma_container_view(children);
                }
                assert(components_view(children@) =~= Seq::<ViewComponentV>::empty());
                ViewComponent::Container { children }
            },
        }
    } else {
        let children: Vec<ViewComponent> = Vec::new();
        proof {
            lemma_container_view(children);
        }
        assert(components_view(children@) =~= Seq::<ViewComponentV>::empty());
        ViewComponent::Container { children }
    }
}

fn parse_screen_ref(screen: &Json) -> (r: ViewComponent)
    ensures
        r@ == spec_parse_screen_ref(screen@),
{
    let sub_guid = match screen {
        Json::String(s) => {
            let c = chars_of(s.as_str());
            if c.len() > 0 && !chars_eq_str(c.as_slice(), "null") {
                Some(s.clone())
            } else {
                None
            }
        },
        Json::Object(_) => non_empty_exec(str_field(screen, "canvas")),
        _ => None,
    };
    ViewComponent::WidgetCanvas {
        canvas_path: first_str_field(screen, "canvasPath", "canvas"),
        url_postfix: str_field(screen, "urlPostfix"),
        url_optional: str_field(screen, "urlOptional"),
        sub_guid,
    }
}

fn array_of_exec(v: Option<&Json>) -> (r: &[Json])
    ensures
        views(r@) == array_of(crate::json::opt_view(v)),
{
    match v {
        Some(Json::Array(a)) => {
            proof {
                crate::json::lemma_array_view(*a);
            }
            a.as_slice()
        },
        _ => {
            let e: &[Json] = &[];
            assert(views(e@) =~= Seq::<JsonV>::empty());
            e
        },
    }
}

fn parse_views(value: Option<&Json>) -> (r: Vec<CanvasView>)
    ensures
        r@.map_values(|v: CanvasView| v@) == spec_parse_views(crate::json::opt_view(value)),
{
    let arr = array_of_exec(value);
    let ghost a = views(arr@);
    let mut out: Vec<CanvasView> = Vec::new();
    let mut idx: usize = 0;
    while idx < arr.len()
        invariant
            idx <= arr@.len(),
            a == views(arr@),
            out@.len() == idx,
            forall|k: int| 0 <= k < idx ==> (#[trigger] out@[k])@ == spec_parse_view(a[k], k),
        decreases arr@.len() - idx,
    {
        let v = &arr[idx];
        assert(a[idx as int] == v@);
        let name = unwrap_or_empty_exec(str_field(v, "name"));
        let flag = match v.bool_field("default") {
            Some(b) => Some(b),
            None => v.bool_field("defaultView"),
        };
        let default = match flag {
            Some(b) => b,
            None => idx == 0,
        };
        let mut components: Vec<ViewComponent> = Vec::new();
        match v.array_field("screens") {
            Some(screens) => {
                let ghost sc = views(screens@);
                let mut j: usize = 0;
                while j < screens.len()
                    invariant
                        j <= screens@.len(),
                        sc == views(screens@),
                        components@.len() == j,
                        forall|k: int| 0 <= k < j ==> (#[trigger] components@[k])@ == spec_parse_screen_ref(sc[k]),
                    decreases screens@.len() - j,
                {
                    assert(sc[j as int] == screens@[j as int]@);
                    components.push(parse_screen_ref(&screens[j]));
                    j += 1;
                }
                assert(crate::canvas::types::components_view(components@) =~= sc.map_values(
                    |x: JsonV| spec_parse_screen_ref(x),
                ));
            },
            None => {
                assert(crate::canvas::types::components_view(components@) =~= Seq::<ViewComponentV>::empty());
            },
        }
        let view = CanvasView { name, ordinal: idx as u32, components, default };
        assert(view@ == spec_parse_view(a[idx as int], idx as int));
        out.push(view);
        idx += 1;
    }
    assert(out@.map_values(|v: CanvasView| v@) =~= spec_parse_views(crate::json::opt_view(value)));
    out
}

fn component_or_255_exec(o: &Json, key: &str) -> (r: u8)
    ensures
        r == component_or_255(o@, key@),
{
    match o.u64_field(key) {
        Some(n) => n as u8,
        None => 255u8,
    }
}

/// A packed `0xAARRGGBB` number or an `{r, g, b, a}` object.
pub fn parse_rgba_color(value: Option<&Json>) -> (r: Option<RgbaColor>)
    ensures
        r == spec_parse_rgba_color(crate::json::opt_view(value)),
{
    match value {
        Some(Json::Number(_)) => {
            let v = value.unwrap();
            match v.as_u64() {
                Some(n) => {
                    let packed = n as u32;
                    Some(
                        RgbaColor {
                            r: ((packed >> 16u32) & 0xFFu32) as u8,
                            g: ((packed >> 8u32) & 0xFFu32) as u8,
                            b: (packed & 0xFFu32) as u8,
                            a: ((packed >> 24u32) & 0xFFu32) as u8,
                        },
                    )
                },
                None => None,
            }
        },
        Some(Json::Object(_)) => {
            let o = value.unwrap();
            Some(
                RgbaColor {
                    r: component_or_255_exec(o, "r"),
                    g: component_or_255_exec(o, "g"),
                    b: component_or_255_exec(o, "b"),
                    a: component_or_255_exec(o, "a"),
                },
            )
        },
        _ => None,
    }
}

fn is_typed_key_exec(k: &str) -> (r: bool)
    ensures
        r == is_typed_key(k@),
{
    let c = chars_of(k);
    let s = c.as_slice();
    chars_eq_str(s, "_Type_") || chars_eq_str(s, "canvas") || chars_eq_str(s, "urlPostfix") || chars_eq_str(
        s,
        "urlOptional",
    ) || chars_eq_str(s, "transform") || chars_eq_str(s, "color")
}

fn untyped_members_exec(item: &Json) -> (r: Vec<(String, Json)>)
    ensures
        r@.map_values(|p: (String, Json)| (p.0@, p.1@)) == untyped_members(item@),
{
    let mut out: Vec<(String, Json)> = Vec::new();
    match item {
        Json::Object(m) => {
            let ghost ents = item@->Object_0;
            assert(ents.len() == m@.len());
            assert(forall|k: int| 0 <= k < m@.len() ==> #[trigger] ents[k] == (m@[k].0@, m@[k].1@));
            let mut i: usize = 0;
            assert(keep_untyped(ents.subrange(0, 0)) =~= Seq::<(Seq<char>, JsonV)>::empty());
            while i < m.len()
                invariant
                    i <= m@.len(),
                    ents.len() == m@.len(),
                    forall|k: int| 0 <= k < m@.len() ==> #[trigger] ents[k] == (m@[k].0@, m@[k].1@),
                    out@.map_values(|p: (String, Json)| (p.0@, p.1@)) == keep_untyped(ents.subrange(0, i as int)),
                decreases m@.len() - i,
            {
                let ghost before = out@.map_values(|p: (String, Json)| (p.0@, p.1@));
                let ghost pre = ents.subrange(0, i + 1);
                assert(pre.drop_last() =~= ents.subrange(0, i as int));
                assert(pre.last() == ents[i as int]);
                assert(ents[i as int].0 == m@[i as int].0@);
                if !is_typed_key_exec(m[i].0.as_str()) {
                    out.push((m[i].0.clone(), m[i].1.deep_clone()));
                    assert(out@.map_values(|p: (String, Json)| (p.0@, p.1@)) =~= before.push(ents[i as int]));
                } else {
                    assert(out@.map_values(|p: (String, Json)| (p.0@, p.1@)) =~= before);
                }
                i += 1;
            }
            assert(ents.subrange(0, m@.len() as int) =~= ents);
        },
        _ => {
            assert(out@.map_values(|p: (String, Json)| (p.0@, p.1@)) =~= Seq::<(Seq<char>, JsonV)>::empty());
        },
    }
    out
}

fn parse_scene_item(item: &Json) -> (r: SceneItem)
    ensures
        r@ == spec_parse_scene_item(item@),
{
    let transform = match item.get("transform") {
        Some(t) => Some(t.deep_clone()),
        None => None,
    };
    SceneItem {
        kind: string_of(type_string(item).as_slice()),
        guid: not_null_exec(str_field(item, "canvas")),
        url_postfix: non_empty_exec(str_field(item, "urlPostfix")),
        url_optional: non_empty_exec(str_field(item, "urlOptional")),
        transform,
        color: parse_rgba_color(item.get("color")),
        properties: untyped_members_exec(item),
    }
}

fn copy_number(n: &JsonNumber) -> (r: JsonNumber)
    ensures
        r == *n,
{
    match n {
        JsonNumber::PosInt(u) => JsonNumber::PosInt(*u),
        JsonNumber::NegInt(i) => JsonNumber::NegInt(*i),
        JsonNumber::Float(f) => JsonNumber::Float(*f),
    }
}

pub open spec fn opt_value_view(o: Option<Value>) -> Option<ValueV> {
    match o {
        Some(v) => Some(v@),
        None => None,
    }
}

fn extract_default_value(kind: &[char], item: &Json) -> (r: Option<Value>)
    ensures
        opt_value_view(r) == spec_extract_default_value(kind@, item@),
{
    let raw = match item.get("defaultValue") {
        Some(v) => v,
        None => match item.get("value") {
            Some(v) => v,
            None => match item.get("default") {
                Some(v) => v,
                None => {
                    return None;
                },
            },
        },
    };
    if contains_str(kind, "Boolean") || contains_str(kind, "Bool") {
        return match raw.as_bool() {
            Some(b) => Some(Value::Bool(b)),
            None => None,
        };
    }
    if contains_str(kind, "Integer") || contains_str(kind, "Int") {
        match raw.as_i64() {
            Some(n) => {
                return Some(Value::Int(n));
            },
            None => {},
        }
    }
    if contains_str(kind, "Float") || contains_str(kind, "Number") {
        match raw {
            Json::Number(n) => {
                return Some(Value::Float(copy_number(n)));
            },
            _ => {},
        }
    }
    match raw {
        Json::Bool(b) => Some(Value::Bool(*b)),
        Json::Number(n) => {
            match raw.as_i64() {
                Some(i) => Some(Value::Int(i)),
                None => Some(Value::Float(copy_number(n))),
            }
        },
        Json::String(s) => {
            if looks_like_guid(s.as_str()) {
                Some(Value::Guid(s.clone()))
            } else {
                Some(Value::Str(s.clone()))
            }
        },
        _ => None,
    }
}

fn parse_operation(item: &Json) -> (r: Operation)
    ensures
        r@ == spec_parse_operation(item@),
{
    let kind = type_string(item);
    let default_value = extract_default_value(kind.as_slice(), item);
    Operation {
        kind: string_of(kind.as_slice()),
        binding_path: non_empty_exec(first_str_field(item, "binding", "bindingPath")),
        target_property: non_empty_exec(first_str_field(item, "property", "targetProperty")),
        default_value,
    }
}

/// Parses canvas record JSON into a [`CanvasRecord`].
pub struct CanvasParser;

impl CanvasParser {
    /// Parse a canvas record JSON object into a [`CanvasRecord`]; anything
    /// but an object is a parse error.
    pub fn parse(guid: &str, name: &str, json: &Json) -> (r: Result<CanvasRecord, UiError>)
        ensures
            match r {
                Ok(rec) => json@ is Object && rec@ == spec_parse_record(guid@, name@, json@),
                Err(e) => !(json@ is Object) && (e matches UiError::ParseError(m)
                    && m@ == "canvas record JSON is not an object"@),
            },
    {
        if !json.is_object() {
            return Err(UiError::ParseError(string_of(chars_of("canvas record JSON is not an object").as_slice())));
        }
        let parsed_views = parse_views(json.get("views"));
        let scene_arr = array_of_exec(json.get("scene"));
        let ghost sa = views(scene_arr@);
        let mut scene: Vec<SceneItem> = Vec::new();
        let mut i: usize = 0;
        while i < scene_arr.len()
            invariant
                i <= scene_arr@.len(),
                sa == views(scene_arr@),
                scene@.len() == i,
                forall|k: int| 0 <= k < i ==> (#[trigger] scene@[k])@ == spec_parse_scene_item(sa[k]),
            decreases scene_arr@.len() - i,
        {
            assert(sa[i as int] == scene_arr@[i as int]@);
            scene.push(parse_scene_item(&scene_arr[i]));
            i += 1;
        }
        let ops_arr = array_of_exec(json.get("operations"));
        let ghost oa = views(ops_arr@);
        let mut operations: Vec<Operation> = Vec::new();
        let mut j: usize = 0;
        while j < ops_arr.len()
            invariant
                j <= ops_arr@.len(),
                oa == views(ops_arr@),
                operations@.len() == j,
                forall|k: int| 0 <= k < j ==> (#[trigger] operations@[k])@ == spec_parse_operation(oa[k]),
            decreases ops_arr@.len() - j,
        {
            assert(oa[j as int] == ops_arr@[j as int]@);
            operations.push(parse_operation(&ops_arr[j]));
            j += 1;
        }
        let rec = CanvasRecord {
            guid: string_of(chars_of(guid).as_slice()),
            name: string_of(chars_of(name).as_slice()),
            views: parsed_views,
            scene,
            operations,
        };
        assert(rec@.scene =~= sa.map_values(|x: JsonV| spec_parse_scene_item(x)));
        assert(rec@.operations =~= oa.map_values(|x: JsonV| spec_parse_operation(x)));
        Ok(rec)
    }

    /// Classify a single scene-item JSON object into a [`ViewComponent`].
    pub fn parse_view_component(item: &Json) -> (r: ViewComponent)
        ensures
            r@ == spec_classify(type_str(item@), item@),
    {
        let t = type_string(item);
        classify_component(t.as_slice(), item)
    }
}

} // verus!
