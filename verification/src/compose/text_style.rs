//! Decisions the renderer takes from a node's resolved style tags and from
//! the font record of its text style: which colour token a text or a custom
//! shape is drawn with, and how a SWF font is sized and ranked.
//!
//! A node's style tags are given by their names (`None` for a tag without
//! one), a text style by its label style and its resolved font record.
use vstd::prelude::*;

use crate::json::{Json, JsonV};
use crate::strs::{
    chars_of, contains, contains_str, eq_ignore_case, eq_ignore_case_str, lower, to_lower, trim,
    trim_chars,
};

verus! {

/// The names of a node's style tags.
pub open spec fn tag_names_view(names: Seq<Option<String>>) -> Seq<Option<Seq<char>>> {
    names.map_values(|o: Option<String>| match o {
        Some(s) => Some(s@),
        None => None,
    })
}

/// An optional static text as characters.
pub open spec fn token_view(t: Option<&str>) -> Option<Seq<char>> {
    match t {
        Some(s) => Some(s@),
        None => None,
    }
}

/// Whether some tag name satisfies `p`.
pub open spec fn any_tag(names: Seq<Option<Seq<char>>>, p: spec_fn(Seq<char>) -> bool) -> bool {
    exists|i: int| 0 <= i < names.len() && (#[trigger] names[i] matches Some(n) && p(n))
}

/// The first token `f` gives for a tag name, in tag order.
pub open spec fn first_tag_token(
    names: Seq<Option<Seq<char>>>,
    f: spec_fn(Seq<char>) -> Option<Seq<char>>,
) -> Option<Seq<char>>
    decreases names.len(),
{
    if names.len() == 0 {
        None
    } else {
        match names[0] {
            Some(n) => match f(n) {
                Some(t) => Some(t),
                None => first_tag_token(names.drop_first(), f),
            },
            None => first_tag_token(names.drop_first(), f),
        }
    }
}

/// A tag named `modify`, ignoring surrounding white space and ASCII case.
pub open spec fn is_modify_tag(n: Seq<char>) -> bool {
    eq_ignore_case(trim(n), "modify"@)
}

/// The emphasis flag tag, ignoring ASCII case.
pub open spec fn is_emphasis_tag(n: Seq<char>) -> bool {
    eq_ignore_case(n, "UI_Generic_Flag_03"@)
}

/// The text colour token a style tag asks for.
pub open spec fn text_tag_token(n: Seq<char>) -> Option<Seq<char>> {
    let t = lower(trim(n));
    if t == "primary"@ || t == "ui_generic_flag_03"@ {
        Some("Foreground"@)
    } else if t == "modify"@ {
        Some("Base"@)
    } else {
        None
    }
}

/// The custom-shape colour token a style tag asks for.
pub open spec fn shape_tag_token(n: Seq<char>) -> Option<Seq<char>> {
    let t = lower(trim(n));
    if t == "primary"@ {
        Some("Accent1"@)
    } else if t == "modify"@ {
        Some("Accent5"@)
    } else {
        None
    }
}

fn tag_chars(names: &[Option<String>], i: usize) -> (r: Option<Vec<char>>)
    requires
        i < names@.len(),
    ensures
        match r {
            Some(c) => tag_names_view(names@)[i as int] == Some(c@),
            None => tag_names_view(names@)[i as int] is None,
        },
{
    match &names[i] {
        Some(s) => Some(chars_of(s.as_str())),
        None => None,
    }
}

fn any_tag_modify(names: &[Option<String>]) -> (r: bool)
    ensures
        r == any_tag(tag_names_view(names@), |n: Seq<char>| is_modify_tag(n)),
{
    let ghost nv = tag_names_view(names@);
    let mut i: usize = 0;
    while i < names.len()
        invariant
            i <= names@.len(),
            nv == tag_names_view(names@),
            forall|k: int| 0 <= k < i ==> !(#[trigger] nv[k] matches Some(n) && is_modify_tag(n)),
        decreases names@.len() - i,
    {
        if let Some(c) = tag_chars(names, i) {
            let t = trim_chars(c.as_slice());
            if eq_ignore_case_str(t.as_slice(), "modify") {
                assert(nv[i as int] matches Some(n) && is_modify_tag(n));
                return true;
            }
        }
        i += 1;
    }
    false
}

fn any_tag_emphasis(names: &[Option<String>]) -> (r: bool)
    ensures
        r == any_tag(tag_names_view(names@), |n: Seq<char>| is_emphasis_tag(n)),
{
    let ghost nv = tag_names_view(names@);
    let mut i: usize = 0;
    while i < names.len()
        invariant
            i <= names@.len(),
            nv == tag_names_view(names@),
            forall|k: int| 0 <= k < i ==> !(#[trigger] nv[k] matches Some(n) && is_emphasis_tag(n)),
        decreases names@.len() - i,
    {
        if let Some(c) = tag_chars(names, i) {
            if eq_ignore_case_str(c.as_slice(), "UI_Generic_Flag_03") {
                assert(nv[i as int] matches Some(n) && is_emphasis_tag(n));
                return true;
            }
        }
        i += 1;
    }
    false
}

/// Whether some style tag is named `name`, ignoring ASCII case.
pub fn has_tag_named(tag_names: &[Option<String>], name: &str) -> (r: bool)
    ensures
        r == any_tag(tag_names_view(tag_names@), |n: Seq<char>| eq_ignore_case(n, name@)),
{
    let ghost nv = tag_names_view(tag_names@);
    let mut i: usize = 0;
    while i < tag_names.len()
        invariant
            i <= tag_names@.len(),
            nv == tag_names_view(tag_names@),
            forall|k: int| 0 <= k < i ==> !(#[trigger] nv[k] matches Some(n) && eq_ignore_case(n, name@)),
        decreases tag_names@.len() - i,
    {
        if let Some(c) = tag_chars(tag_names, i) {
            if eq_ignore_case_str(c.as_slice(), name) {
                assert(nv[i as int] matches Some(n) && eq_ignore_case(n, name@));
                return true;
            }
        }
        i += 1;
    }
    false
}

/// Whether a custom shape carries a `modify` style tag.
pub fn custom_shape_has_modify_tag(tag_names: &[Option<String>]) -> (r: bool)
    ensures
        r == any_tag(tag_names_view(tag_names@), |n: Seq<char>| is_modify_tag(n)),
{
    any_tag_modify(tag_names)
}

/// The colour token an emphasis-flagged text is drawn with, whatever its
/// style says: `Foreground`.
pub fn explicit_text_colour_override(tag_names: &[Option<String>]) -> (r: Option<&'static str>)
    ensures
        token_view(r) == if any_tag(tag_names_view(tag_names@), |n: Seq<char>| is_emphasis_tag(n)) {
            Some("Foreground"@)
        } else {
            None
        },
{
    if any_tag_emphasis(tag_names) {
        Some("Foreground")
    } else {
        None
    }
}

/// An emphasis-flagged text whose style asks for `Bright` is drawn in
/// `Foreground` instead.
pub fn text_colour_token_override<'a>(tag_names: &[Option<String>], token: &'a str) -> (r: Option<&'a str>)
    ensures
        token_view(r) == if any_tag(tag_names_view(tag_names@), |n: Seq<char>| is_emphasis_tag(n))
            && eq_ignore_case(token@, "Bright"@) {
            Some("Foreground"@)
        } else {
            None
        },
{
    let has_emphasis_flag = any_tag_emphasis(tag_names);
    if has_emphasis_flag && eq_ignore_case_str(chars_of(token).as_slice(), "Bright") {
        Some("Foreground")
    } else {
        None
    }
}

/// The colour token of an untagged heading: `Base` for the label styles
/// `Heading1` and `Heading3`.
pub fn label_style_colour_token(label_style: Option<&str>, tag_names: &[Option<String>]) -> (r: Option<
    &'static str,
>)
    ensures
        token_view(r) == if tag_names@.len() == 0 && (label_style matches Some(l) && (l@ == "Heading1"@ || l@
            == "Heading3"@)) {
            Some("Base"@)
        } else {
            None
        },
{
    if tag_names.len() != 0 {
        return None;
    }
    match label_style {
        Some(l) => {
            let c = chars_of(l);
            if crate::strs::chars_eq_str(c.as_slice(), "Heading1") || crate::strs::chars_eq_str(
                c.as_slice(),
                "Heading3",
            ) {
                Some("Base")
            } else {
                None
            }
        },
        None => None,
    }
}

fn lowered_trim_is(c: &[char], word: &str) -> (r: bool)
    ensures
        r == (lower(trim(c@)) == word@),
{
    let t = to_lower(trim_chars(c).as_slice());
    crate::strs::chars_eq_str(t.as_slice(), word)
}

/// The text colour token the first telling style tag asks for (see
/// [`text_tag_token`]).
pub fn style_tag_colour_token(tag_names: &[Option<String>]) -> (r: Option<&'static str>)
    ensures
        token_view(r) == first_tag_token(tag_names_view(tag_names@), |n: Seq<char>| text_tag_token(n)),
{
    let ghost nv = tag_names_view(tag_names@);
    let ghost f = |n: Seq<char>| text_tag_token(n);
    let mut i: usize = 0;
    assert(nv.subrange(0, nv.len() as int) =~= nv);
    while i < tag_names.len()
        invariant
            i <= tag_names@.len(),
            nv == tag_names_view(tag_names@),
            f == (|n: Seq<char>| text_tag_token(n)),
            first_tag_token(nv, f) == first_tag_token(nv.subrange(i as int, nv.len() as int), f),
        decreases tag_names@.len() - i,
    {
        let ghost rest = nv.subrange(i as int, nv.len() as int);
        assert(rest[0] == nv[i as int]);
        assert(rest.drop_first() =~= nv.subrange(i + 1, nv.len() as int));
        if let Some(c) = tag_chars(tag_names, i) {
            if lowered_trim_is(c.as_slice(), "primary") || lowered_trim_is(c.as_slice(), "ui_generic_flag_03") {
                return Some("Foreground");
            }
            if lowered_trim_is(c.as_slice(), "modify") {
                return Some("Base");
            }
        }
        i += 1;
    }
    None
}

/// The custom-shape colour token the first telling style tag asks for (see
/// [`shape_tag_token`]).
pub fn custom_shape_style_tag_colour_token(tag_names: &[Option<String>]) -> (r: Option<&'static str>)
    ensures
        token_view(r) == first_tag_token(tag_names_view(tag_names@), |n: Seq<char>| shape_tag_token(n)),
{
    let ghost nv = tag_names_view(tag_names@);
    let ghost f = |n: Seq<char>| shape_tag_token(n);
    let mut i: usize = 0;
    assert(nv.subrange(0, nv.len() as int) =~= nv);
    while i < tag_names.len()
        invariant
            i <= tag_names@.len(),
            nv == tag_names_view(tag_names@),
            f == (|n: Seq<char>| shape_tag_token(n)),
            first_tag_token(nv, f) == first_tag_token(nv.subrange(i as int, nv.len() as int), f),
        decreases tag_names@.len() - i,
    {
        let ghost rest = nv.subrange(i as int, nv.len() as int);
        assert(rest[0] == nv[i as int]);
        assert(rest.drop_first() =~= nv.subrange(i + 1, nv.len() as int));
        if let Some(c) = tag_chars(tag_names, i) {
            if lowered_trim_is(c.as_slice(), "primary") {
                return Some("Accent1");
            }
            if lowered_trim_is(c.as_slice(), "modify") {
                return Some("Accent5");
            }
        }
        i += 1;
    }
    None
}

/// Whether two text styles name the same label style, ignoring ASCII case;
/// a style without one matches nothing.
pub fn same_label_style(left: Option<&str>, right: Option<&str>) -> (r: bool)
    ensures
        r == match (left, right) {
            (Some(a), Some(b)) => eq_ignore_case(a@, b@),
            _ => false,
        },
{
    match (left, right) {
        (Some(a), Some(b)) => eq_ignore_case_str(chars_of(a).as_slice(), b),
        _ => false,
    }
}

/// The value of a resolved font record: its `_RecordValue_`, else the
/// record itself.
pub open spec fn font_record_value(record: JsonV) -> JsonV {
    match record.field("_RecordValue_"@) {
        Some(v) => v,
        None => record,
    }
}

/// The font symbol a text style's font record names, when not empty.
pub open spec fn spec_font_symbol(record: Option<JsonV>) -> Option<Seq<char>> {
    match record {
        Some(rec) => match font_record_value(rec).field("font"@) {
            Some(f) => match f.str_view() {
                Some(s) => if s.len() > 0 {
                    Some(s)
                } else {
                    None
                },
                None => None,
            },
            None => None,
        },
        None => None,
    }
}

fn font_record_value_exec(record: &Json) -> (r: &Json)
    ensures
        r@ == font_record_value(record@),
{
    match record.get("_RecordValue_") {
        Some(v) => v,
        None => record,
    }
}

/// The font symbol of a text style's resolved font record (see
/// [`spec_font_symbol`]).
pub fn font_symbol_from_text_style(font_record: Option<&Json>) -> (r: Option<&str>)
    ensures
        token_view(r) == spec_font_symbol(crate::json::opt_view(font_record)),
{
    let rec = match font_record {
        Some(rec) => rec,
        None => {
            return None;
        },
    };
    let value = font_record_value_exec(rec);
    match value.get("font") {
        Some(f) => match f.as_str() {
            Some(s) => {
                if chars_of(s).len() > 0 {
                    Some(s)
                } else {
                    None
                }
            },
            None => None,
        },
        None => None,
    }
}

/// Whether a text style's font record names a paint file (not blank).
pub fn font_style_has_paint_file(font_record: Option<&Json>) -> (r: bool)
    ensures
        r == match font_record {
            Some(rec) => match font_record_value(rec@).field("paintFile"@) {
                Some(p) => p.str_view() matches Some(s) && trim(s).len() > 0,
                None => false,
            },
            None => false,
        },
{
    match font_record {
        Some(rec) => match font_record_value_exec(rec).get("paintFile") {
            Some(p) => match p.as_str() {
                Some(s) => trim_chars(chars_of(s).as_slice()).len() > 0,
                None => false,
            },
            None => false,
        },
        None => false,
    }
}

/// Whether SWF text of a style is fitted to its rectangle: always, but for
/// the `$Low-Reg` font.
pub fn swf_style_should_fit_to_rect(font_record: Option<&Json>) -> (r: bool)
    ensures
        r == !(spec_font_symbol(crate::json::opt_view(font_record)) matches Some(s) && eq_ignore_case(
            s,
            "$Low-Reg"@,
        )),
{
    match font_symbol_from_text_style(font_record) {
        Some(s) => !eq_ignore_case_str(chars_of(s).as_slice(), "$Low-Reg"),
        None => true,
    }
}

/// How heavy a font looks, from its symbol and name: thin 0, light 1,
/// book 2, regular 3, medium 4, unnamed 5, bold 6; a bold face adds 10.
pub open spec fn spec_title3_font_weight_rank(symbol: Seq<char>, font_name: Seq<char>, is_bold: bool) -> int {
    let combined = lower(symbol) + " "@ + lower(font_name);
    let name_rank: int = if contains(combined, "thin"@) {
        0
    } else if contains(combined, "light"@) {
        1
    } else if contains(combined, "book"@) {
        2
    } else if contains(combined, "regular"@) {
        3
    } else if contains(combined, "med"@) || contains(combined, "medium"@) {
        4
    } else if contains(combined, "bold"@) {
        6
    } else {
        5
    };
    name_rank + if is_bold {
        10int
    } else {
        0int
    }
}

/// The weight rank of a font for Title3 headings (see
/// [`spec_title3_font_weight_rank`]).
pub fn title3_font_weight_rank(symbol: &str, font_name: &str, font_is_bold: bool) -> (r: i32)
    ensures
        r == spec_title3_font_weight_rank(symbol@, font_name@, font_is_bold),
{
    let mut combined = to_lower(chars_of(symbol).as_slice());
    combined.push(' ');
    crate::strs::append_chars(&mut combined, to_lower(chars_of(font_name).as_slice()).as_slice());
    let c = combined.as_slice();
    assert(c@ == lower(symbol@) + " "@ + lower(font_name@)) by {
        reveal_strlit(" ");
    }
    let name_rank: i32 = if contains_str(c, "thin") {
        0
    } else if contains_str(c, "light") {
        1
    } else if contains_str(c, "book") {
        2
    } else if contains_str(c, "regular") {
        3
    } else if contains_str(c, "med") || contains_str(c, "medium") {
        4
    } else if contains_str(c, "bold") {
        6
    } else {
        5
    };
    name_rank + if font_is_bold {
        10
    } else {
        0
    }
}


/// Whether a telemetry switch value turns font telemetry on: `1`, or
/// `true` or `yes` in any ASCII case.
pub fn telemetry_switch_on(value: &str) -> (r: bool)
    ensures
        r == (value@ == "1"@ || eq_ignore_case(value@, "true"@) || eq_ignore_case(value@, "yes"@)),
{
    let v = chars_of(value);
    crate::strs::chars_eq_str(v.as_slice(), "1") || eq_ignore_case_str(v.as_slice(), "true")
        || eq_ignore_case_str(v.as_slice(), "yes")
}

} // verus!
