//! Brand slugs and titles used to find manufacturer logo assets.
use vstd::prelude::*;

use crate::json::{Json, str_at};
use crate::strs::{
    chars_of, last_segment, last_segment_exec, lower, starts_with, string_of, to_lower, trim, trim_chars,
    upper_char, upper_char_exec,
};

verus! {

/// `s` with every leading occurrence of `p` removed (`trim_start_matches`).
pub open spec fn trim_start_all(s: Seq<char>, p: Seq<char>) -> Seq<char>
    decreases s.len(),
{
    if p.len() > 0 && starts_with(s, p) {
        trim_start_all(s.subrange(p.len() as int, s.len() as int), p)
    } else {
        s
    }
}

/// An ASCII letter, digit or underscore.
pub open spec fn is_slug_char(c: char) -> bool {
    ('a' <= c && c <= 'z') || ('A' <= c && c <= 'Z') || ('0' <= c && c <= '9') || c == '_'
}

/// The slug characters of `s`, in order.
pub open spec fn slug_chars(s: Seq<char>) -> Seq<char>
    decreases s.len(),
{
    if s.len() == 0 {
        Seq::empty()
    } else if is_slug_char(s.last()) {
        slug_chars(s.drop_last()).push(s.last())
    } else {
        slug_chars(s.drop_last())
    }
}

/// The brand slug of an identifier: ASCII lower-cased, leading `s_` prefixes
/// removed, then only ASCII letters, digits and `_` kept.
pub open spec fn spec_brand_slug(identifier: Seq<char>) -> Seq<char> {
    slug_chars(trim_start_all(lower(identifier), "s_"@))
}

/// `v` with every leading `s_` removed.
fn trim_leading_s(v: &[char]) -> (r: Vec<char>)
    ensures
        r@ == trim_start_all(v@, "s_"@),
{
    let mut start: usize = 0;
    let ghost p = "s_"@;
    assert(p.len() == 2 && p[0] == 's' && p[1] == '_') by {
        reveal_strlit("s_");
    }
    assert(v@.subrange(0, v@.len() as int) =~= v@);
    while v.len() - start >= 2 && v[start] == 's' && v[start + 1] == '_'
        invariant
            start <= v@.len(),
            p == "s_"@,
            p.len() == 2 && p[0] == 's' && p[1] == '_',
            trim_start_all(v@, p) == trim_start_all(v@.subrange(start as int, v@.len() as int), p),
        decreases v@.len() - start,
    {
        let ghost rest = v@.subrange(start as int, v@.len() as int);
        assert(rest.subrange(0, 2) =~= p);
        assert(rest.subrange(2, rest.len() as int) =~= v@.subrange(start + 2, v@.len() as int));
        start += 2;
    }
    let ghost rest = v@.subrange(start as int, v@.len() as int);
    assert(!starts_with(rest, p)) by {
        if starts_with(rest, p) {
            assert(rest.subrange(0, 2)[0] == v@[start as int]);
            assert(rest.subrange(0, 2)[1] == v@[start + 1]);
        }
    }
    crate::strs::sub_chars(v, start, v.len())
}

/// The slug characters of `v`, in order.
fn slug_filter(v: &[char]) -> (r: Vec<char>)
    ensures
        r@ == slug_chars(v@),
{
    let mut out: Vec<char> = Vec::new();
    let mut i: usize = 0;
    assert(slug_chars(v@.subrange(0, 0)) =~= Seq::<char>::empty());
    while i < v.len()
        invariant
            i <= v@.len(),
            out@ == slug_chars(v@.subrange(0, i as int)),
        decreases v@.len() - i,
    {
        let c = v[i];
        let ghost pre = v@.subrange(0, i + 1);
        assert(pre.drop_last() =~= v@.subrange(0, i as int));
        assert(pre.last() == c);
        if ('a' <= c && c <= 'z') || ('A' <= c && c <= 'Z') || ('0' <= c && c <= '9') || c == '_' {
            out.push(c);
        }
        i += 1;
    }
    assert(v@.subrange(0, v@.len() as int) =~= v@);
    out
}

/// The brand slug of an identifier (see [`spec_brand_slug`]).
pub fn brand_slug(identifier: &str) -> (r: String)
    ensures
        r@ == spec_brand_slug(identifier@),
{
    let l = to_lower(chars_of(identifier).as_slice());
    let t = trim_leading_s(l.as_slice());
    string_of(slug_filter(t.as_slice()).as_slice())
}

/// The brand slug of a scene node: its `__BrandIdentifier`, else the
/// style's name.
pub fn node_brand_slug(raw: &Json, style_name: &str) -> (r: String)
    ensures
        r@ == match str_at(raw@, "__BrandIdentifier"@) {
            Some(id) => spec_brand_slug(id),
            None => spec_brand_slug(style_name@),
        },
{
    match raw.get("__BrandIdentifier") {
        Some(v) => match v.as_str() {
            Some(id) => brand_slug(id),
            None => brand_slug(style_name),
        },
        None => brand_slug(style_name),
    }
}

/// The brand slug of a compiled UI document: the last `:`-separated part
/// of its selected style source (else of the style's name), trimmed,
/// leading `s_` removed, ASCII lower-cased, and only ASCII letters, digits
/// and `_` kept.
pub open spec fn spec_brand_slug_from_ir(selected_style_source: Option<Seq<char>>, style_name: Seq<char>) -> Seq<
    char,
> {
    let source = match selected_style_source {
        Some(s) => s,
        None => style_name,
    };
    slug_chars(lower(trim_start_all(trim(last_segment(source, ':')), "s_"@)))
}

/// The brand slug of a compiled UI document (see
/// [`spec_brand_slug_from_ir`]).
pub fn brand_slug_from_ir(selected_style_source: Option<&str>, style_name: &str) -> (r: String)
    ensures
        r@ == spec_brand_slug_from_ir(
            match selected_style_source {
                Some(s) => Some(s@),
                None => None,
            },
            style_name@,
        ),
{
    let source = match selected_style_source {
        Some(s) => chars_of(s),
        None => chars_of(style_name),
    };
    let token = last_segment_exec(source.as_slice(), ':');
    let trimmed = trim_chars(token.as_slice());
    let stripped = trim_leading_s(trimmed.as_slice());
    let lowered = to_lower(stripped.as_slice());
    string_of(slug_filter(lowered.as_slice()).as_slice())
}

/// A slug as a title: its first character ASCII upper-cased.
pub open spec fn spec_brand_title(slug: Seq<char>) -> Seq<char> {
    if slug.len() == 0 {
        Seq::empty()
    } else {
        seq![upper_char(slug[0])] + slug.drop_first()
    }
}

/// A slug as a title (see [`spec_brand_title`]).
pub fn brand_title(slug: &str) -> (r: String)
    ensures
        r@ == spec_brand_title(slug@),
{
    let c = chars_of(slug);
    if c.len() == 0 {
        return String::new();
    }
    let mut out: Vec<char> = Vec::new();
    out.push(upper_char_exec(c[0]));
    let mut i: usize = 1;
    while i < c.len()
        invariant
            1 <= i <= c@.len(),
            out@ == seq![upper_char(c@[0])] + c@.subrange(1, i as int),
        decreases c@.len() - i,
    {
        out.push(c[i]);
        assert(c@.subrange(1, i + 1) =~= c@.subrange(1, i as int).push(c@[i as int]));
        i += 1;
    }
    assert(c@.subrange(1, c@.len() as int) =~= c@.drop_first());
    string_of(out.as_slice())
}

/// The directory slug of a brand's logo: `bioc` logos live under
/// `bioticorp`; every other slug is its own.
pub open spec fn spec_brand_logo_slug(slug: Seq<char>) -> Seq<char> {
    if slug == "bioc"@ {
        "bioticorp"@
    } else {
        slug
    }
}

/// The directory slug of a brand's logo (see [`spec_brand_logo_slug`]).
pub fn brand_logo_slug(slug: &str) -> (r: &str)
    ensures
        r@ == spec_brand_logo_slug(slug@),
{
    if crate::json::str_eq(slug, "bioc") {
        "bioticorp"
    } else {
        slug
    }
}

} // verus!
