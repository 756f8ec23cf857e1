//! Pointer strings of BuildingBlocks records.
//!
//! Scene items and operations carry `_Pointer_: "ptr:N"`; references to them
//! are written `"_PointsTo_:ptr:N"`.
use vstd::prelude::*;

use crate::bb_scene::types::BbNodeId;
use crate::strs::{chars_of, parse_u32, parse_u32_exec, strip_prefix, strip_prefix_str};

verus! {

/// `"ptr:N"` → `N`.
pub open spec fn spec_parse_ptr(s: Seq<char>) -> Option<u32> {
    match strip_prefix(s, "ptr:"@) {
        Some(rest) => parse_u32(rest),
        None => None,
    }
}

/// `"_PointsTo_:ptr:N"` → `N`.
pub open spec fn spec_parse_points_to(s: Seq<char>) -> Option<u32> {
    match strip_prefix(s, "_PointsTo_:"@) {
        Some(rest) => spec_parse_ptr(rest),
        None => None,
    }
}

/// Parse `"ptr:N"` → `Some(N)`.
pub fn parse_ptr(s: &str) -> (r: Option<BbNodeId>)
    ensures
        r == spec_parse_ptr(s@),
{
    let v = chars_of(s);
    parse_ptr_chars(v.as_slice())
}

pub fn parse_ptr_chars(v: &[char]) -> (r: Option<BbNodeId>)
    ensures
        r == spec_parse_ptr(v@),
{
    match strip_prefix_str(v, "ptr:") {
        Some(rest) => parse_u32_exec(rest.as_slice()),
        None => None,
    }
}

/// Parse `"_PointsTo_:ptr:N"` → `Some(N)`.
pub fn parse_points_to(s: &str) -> (r: Option<BbNodeId>)
    ensures
        r == spec_parse_points_to(s@),
{
    let v = chars_of(s);
    parse_points_to_chars(v.as_slice())
}

pub fn parse_points_to_chars(v: &[char]) -> (r: Option<BbNodeId>)
    ensures
        r == spec_parse_points_to(v@),
{
    match strip_prefix_str(v, "_PointsTo_:") {
        Some(rest) => parse_ptr_chars(rest.as_slice()),
        None => None,
    }
}

/// Stripping `"_PointsTo_:"` then `"ptr:"` is stripping `"_PointsTo_:ptr:"`.
pub proof fn lemma_points_to_prefix(s: Seq<char>)
    ensures
        spec_parse_points_to(s) == match strip_prefix(s, "_PointsTo_:ptr:"@) {
            Some(rest) => parse_u32(rest),
            None => None,
        },
{
    reveal_strlit("_PointsTo_:");
    reveal_strlit("ptr:");
    reveal_strlit("_PointsTo_:ptr:");
    let a = "_PointsTo_:"@;
    let b = "ptr:"@;
    let c = "_PointsTo_:ptr:"@;
    assert(c =~= a + b);
    assert(c.subrange(0, a.len() as int) =~= a);
    assert(c.subrange(a.len() as int, c.len() as int) =~= b);
    if strip_prefix(s, c) is Some {
        assert(s.subrange(0, c.len() as int) == c);
        assert(s.subrange(0, a.len() as int) =~= s.subrange(0, c.len() as int).subrange(0, a.len() as int));
        assert(s.subrange(0, a.len() as int) =~= c.subrange(0, a.len() as int));
        let rest = s.subrange(a.len() as int, s.len() as int);
        assert(rest.subrange(0, b.len() as int) =~= s.subrange(0, c.len() as int).subrange(a.len() as int, c.len() as int));
        assert(rest.subrange(b.len() as int, rest.len() as int) =~= s.subrange(
            c.len() as int,
            s.len() as int,
        ));
    } else if strip_prefix(s, a) is Some {
        let rest = s.subrange(a.len() as int, s.len() as int);
        if strip_prefix(rest, b) is Some {
            assert(s.subrange(0, c.len() as int) =~= s.subrange(0, a.len() as int) + rest.subrange(0, b.len() as int));
            assert(s.subrange(0, c.len() as int) =~= c);
        }
    }
}

} // verus!
