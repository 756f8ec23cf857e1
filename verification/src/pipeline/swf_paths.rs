//! P4K path arithmetic for SWF sources: normalisation to the `Data/` root and
//! resolution of the relative URLs that `ImportAssets` tags carry.
use vstd::prelude::*;

use crate::strs::{
    append_chars, append_str, chars_eq_str, chars_of, lower, replace_char, replace_char_exec,
    starts_with, starts_with_str, string_of, to_lower,
};

verus! {

/// Backslashes turned into slashes.
pub open spec fn forward_slashes(s: Seq<char>) -> Seq<char> {
    replace_char(s, '\\', '/')
}

/// A path under the P4K `Data/` root (ASCII case-insensitively).
pub open spec fn under_data_root(s: Seq<char>) -> bool {
    starts_with(lower(s), "data/"@)
}

/// A path rooted at `Data/`: kept when it already is, else prefixed.
pub open spec fn data_rooted(s: Seq<char>) -> Seq<char> {
    if under_data_root(s) {
        s
    } else {
        "Data/"@ + s
    }
}

/// A P4K SWF path with forward slashes, rooted at `Data/`.
pub open spec fn spec_normalize_p4k_swf_path(path: Seq<char>) -> Seq<char> {
    data_rooted(forward_slashes(path))
}

/// The segments of the first `k` characters of `s` split at `c`; there is
/// always at least one segment.
pub open spec fn split_upto(s: Seq<char>, c: char, k: int) -> Seq<Seq<char>>
    decreases k,
{
    if k <= 0 {
        seq![Seq::empty()]
    } else {
        let p = split_upto(s, c, k - 1);
        if s[k - 1] == c {
            p.push(Seq::empty())
        } else {
            p.update(p.len() - 1, p.last().push(s[k - 1]))
        }
    }
}

/// `s` split at every `c` (`str::split`).
pub open spec fn split(s: Seq<char>, c: char) -> Seq<Seq<char>> {
    split_upto(s, c, s.len() as int)
}

/// The first `k` parts joined with `c` between them.
pub open spec fn join_upto(parts: Seq<Seq<char>>, c: char, k: int) -> Seq<char>
    decreases k,
{
    if k <= 0 {
        Seq::empty()
    } else if k == 1 {
        parts[0]
    } else {
        join_upto(parts, c, k - 1) + seq![c] + parts[k - 1]
    }
}

/// Parts joined with `c` between them (`join`).
pub open spec fn join(parts: Seq<Seq<char>>, c: char) -> Seq<char> {
    join_upto(parts, c, parts.len() as int)
}

/// The directory stack after walking the first `k` segments of a relative
/// URL: empty segments and `.` stay, `..` leaves a directory, anything else
/// enters one.
pub open spec fn walk_upto(dirs: Seq<Seq<char>>, segs: Seq<Seq<char>>, k: int) -> Seq<Seq<char>>
    decreases k,
{
    if k <= 0 {
        dirs
    } else {
        let d = walk_upto(dirs, segs, k - 1);
        let s = segs[k - 1];
        if s.len() == 0 || s == "."@ {
            d
        } else if s == ".."@ {
            if d.len() > 0 {
                d.drop_last()
            } else {
                d
            }
        } else {
            d.push(s)
        }
    }
}

/// The P4K path an import URL names relative to the SWF at `base`.
///
/// An empty URL names nothing; a URL already under `Data/` stands as it is;
/// otherwise it is resolved against the directory of `base` and rooted at
/// `Data/`.
pub open spec fn spec_resolve_relative_swf_path(base: Seq<char>, url: Seq<char>) -> Seq<char> {
    let import = forward_slashes(url);
    if import.len() == 0 {
        Seq::empty()
    } else if under_data_root(import) {
        import
    } else {
        let dirs = split(forward_slashes(base), '/').drop_last();
        let segs = split(import, '/');
        data_rooted(join(walk_upto(dirs, segs, segs.len() as int), '/'))
    }
}

// ───────────────────────────── exec ─────────────────────────────

fn data_rooted_exec(v: Vec<char>) -> (r: Vec<char>)
    ensures
        r@ == data_rooted(v@),
{
    let l = to_lower(v.as_slice());
    if starts_with_str(l.as_slice(), "data/") {
        v
    } else {
        let mut out: Vec<char> = Vec::new();
        append_str(&mut out, "Data/");
        append_chars(&mut out, v.as_slice());
        out
    }
}

/// Normalise a P4K SWF path: forward slashes, rooted at `Data/`.
pub fn normalize_p4k_swf_path(path: &str) -> (r: String)
    ensures
        r@ == spec_normalize_p4k_swf_path(path@),
{
    let v = chars_of(path);
    let replaced = replace_char_exec(v.as_slice(), '\\', '/');
    let rooted = data_rooted_exec(replaced);
    string_of(rooted.as_slice())
}

/// Split `v` at every `c`.
pub fn split_chars(v: &[char], c: char) -> (r: Vec<Vec<char>>)
    ensures
        r@.map_values(|p: Vec<char>| p@) == split(v@, c),
        r@.len() >= 1,
{
    let mut out: Vec<Vec<char>> = Vec::new();
    out.push(Vec::new());
    let mut i: usize = 0;
    assert(out@.map_values(|p: Vec<char>| p@) =~= split_upto(v@, c, 0));
    while i < v.len()
        invariant
            i <= v@.len(),
            out@.len() >= 1,
            out@.map_values(|p: Vec<char>| p@) == split_upto(v@, c, i as int),
        decreases v@.len() - i,
    {
        let ghost before = out@.map_values(|p: Vec<char>| p@);
        if v[i] == c {
            out.push(Vec::new());
            assert(out@.map_values(|p: Vec<char>| p@) =~= before.push(Seq::empty()));
        } else {
            let last = out.len() - 1;
            let mut seg = out.pop().unwrap();
            seg.push(v[i]);
            out.push(seg);
            assert(out@.map_values(|p: Vec<char>| p@) =~= before.update(
                before.len() - 1,
                before.last().push(v@[i as int]),
            ));
        }
        i += 1;
    }
    assert(v@.len() == i);
    out
}

/// Join `parts` with `c` between them.
pub fn join_chars(parts: &[Vec<char>], c: char) -> (r: Vec<char>)
    ensures
        r@ == join(parts@.map_values(|p: Vec<char>| p@), c),
{
    let ghost ps = parts@.map_values(|p: Vec<char>| p@);
    let mut out: Vec<char> = Vec::new();
    let mut i: usize = 0;
    while i < parts.len()
        invariant
            i <= parts@.len(),
            ps == parts@.map_values(|p: Vec<char>| p@),
            out@ == join_upto(ps, c, i as int),
        decreases parts@.len() - i,
    {
        if i > 0 {
            out.push(c);
        }
        append_chars(&mut out, parts[i].as_slice());
        assert(ps[i as int] == parts@[i as int]@);
        i += 1;
    }
    out
}

/// Resolve an import URL found in the SWF at `base_path` to a P4K path.
pub fn resolve_relative_swf_path(base_path: &str, import_url: &str) -> (r: String)
    ensures
        r@ == spec_resolve_relative_swf_path(base_path@, import_url@),
{
    let u = chars_of(import_url);
    let import = replace_char_exec(u.as_slice(), '\\', '/');
    if import.len() == 0 {
        return String::new();
    }
    let il = to_lower(import.as_slice());
    if starts_with_str(il.as_slice(), "data/") {
        return string_of(import.as_slice());
    }
    let b = chars_of(base_path);
    let base_norm = replace_char_exec(b.as_slice(), '\\', '/');
    let mut dirs = split_chars(base_norm.as_slice(), '/');
    let ghost all = dirs@.map_values(|p: Vec<char>| p@);
    dirs.pop();
    assert(dirs@.map_values(|p: Vec<char>| p@) =~= all.drop_last());
    let segs = split_chars(import.as_slice(), '/');
    let ghost sv = segs@.map_values(|p: Vec<char>| p@);
    let ghost d0 = dirs@.map_values(|p: Vec<char>| p@);
    let mut i: usize = 0;
    while i < segs.len()
        invariant
            i <= segs@.len(),
            sv == segs@.map_values(|p: Vec<char>| p@),
            dirs@.map_values(|p: Vec<char>| p@) == walk_upto(d0, sv, i as int),
        decreases segs@.len() - i,
    {
        let s = segs[i].as_slice();
        assert(sv[i as int] == s@);
        let ghost before = dirs@.map_values(|p: Vec<char>| p@);
        if s.len() == 0 || chars_eq_str(s, ".") {
        } else if chars_eq_str(s, "..") {
            if dirs.len() > 0 {
                dirs.pop();
                assert(dirs@.map_values(|p: Vec<char>| p@) =~= before.drop_last());
            }
        } else {
            dirs.push(crate::strs::copy_chars(s));
            assert(dirs@.map_values(|p: Vec<char>| p@) =~= before.push(s@));
        }
        i += 1;
    }
    let joined = join_chars(dirs.as_slice(), '/');
    let rooted = data_rooted_exec(joined);
    string_of(rooted.as_slice())
}


// ───────────────────────────── laws ─────────────────────────────

/// No backslash in `s`.
pub open spec fn slash_only(s: Seq<char>) -> bool {
    forall|i: int| 0 <= i < s.len() ==> s[i] != '\\'
}

proof fn lemma_forward_slashes(s: Seq<char>)
    ensures
        slash_only(forward_slashes(s)),
        slash_only(s) ==> forward_slashes(s) == s,
{
    if slash_only(s) {
        assert(forward_slashes(s) =~= s);
    }
}

proof fn lemma_data_rooted(s: Seq<char>)
    requires
        slash_only(s),
    ensures
        slash_only(data_rooted(s)),
        under_data_root(data_rooted(s)),
{
    reveal_strlit("Data/");
    reveal_strlit("data/");
    if !under_data_root(s) {
        let r = "Data/"@ + s;
        assert(lower(r).subrange(0, 5) =~= "data/"@);
    }
}

proof fn lemma_split_slash_only(s: Seq<char>, c: char, k: int)
    requires
        slash_only(s),
        0 <= k <= s.len(),
    ensures
        split_upto(s, c, k).len() >= 1,
        forall|j: int| 0 <= j < split_upto(s, c, k).len() ==> slash_only(#[trigger] split_upto(s, c, k)[j]),
    decreases k,
{
    if k > 0 {
        lemma_split_slash_only(s, c, k - 1);
        let p = split_upto(s, c, k - 1);
        assert(s[k - 1] != '\\');
        if s[k - 1] != c {
            let t = p.last().push(s[k - 1]);
            assert(slash_only(p[p.len() - 1]));
            assert forall|i: int| 0 <= i < t.len() implies t[i] != '\\' by {
                if i < p.last().len() {
                    assert(t[i] == p.last()[i]);
                }
            }
            let q = p.update(p.len() - 1, t);
            assert forall|j: int| 0 <= j < q.len() implies slash_only(#[trigger] q[j]) by {
                if j != p.len() - 1 {
                    assert(slash_only(p[j]));
                }
            }
        } else {
            let q = p.push(Seq::empty());
            assert forall|j: int| 0 <= j < q.len() implies slash_only(#[trigger] q[j]) by {
                if j < p.len() {
                    assert(slash_only(p[j]));
                }
            }
        }
    }
}

proof fn lemma_walk_slash_only(dirs: Seq<Seq<char>>, segs: Seq<Seq<char>>, k: int)
    requires
        forall|j: int| 0 <= j < dirs.len() ==> slash_only(#[trigger] dirs[j]),
        forall|j: int| 0 <= j < segs.len() ==> slash_only(#[trigger] segs[j]),
        0 <= k <= segs.len(),
    ensures
        forall|j: int| 0 <= j < walk_upto(dirs, segs, k).len() ==> slash_only(#[trigger] walk_upto(dirs, segs, k)[j]),
    decreases k,
{
    if k > 0 {
        lemma_walk_slash_only(dirs, segs, k - 1);
        let d = walk_upto(dirs, segs, k - 1);
        assert(slash_only(segs[k - 1]));
        assert forall|j: int| 0 <= j < walk_upto(dirs, segs, k).len() implies slash_only(
            #[trigger] walk_upto(dirs, segs, k)[j],
        ) by {
            if j < d.len() {
                assert(slash_only(d[j]));
            }
        }
    }
}

proof fn lemma_join_slash_only(parts: Seq<Seq<char>>, c: char, k: int)
    requires
        c != '\\',
        forall|j: int| 0 <= j < parts.len() ==> slash_only(#[trigger] parts[j]),
        0 <= k <= parts.len(),
    ensures
        slash_only(join_upto(parts, c, k)),
    decreases k,
{
    if k > 1 {
        lemma_join_slash_only(parts, c, k - 1);
        assert(slash_only(parts[k - 1]));
        let a = join_upto(parts, c, k - 1);
        let r = a + seq![c] + parts[k - 1];
        assert forall|i: int| 0 <= i < r.len() implies r[i] != '\\' by {
            if i < a.len() {
                assert(r[i] == a[i]);
            } else if i > a.len() {
                assert(r[i] == parts[k - 1][i - a.len() - 1]);
            }
        }
    } else if k == 1 {
        assert(slash_only(parts[0]));
    }
}

/// Normalising a P4K path twice changes nothing more.
pub proof fn lemma_normalize_idempotent(path: Seq<char>)
    ensures
        spec_normalize_p4k_swf_path(spec_normalize_p4k_swf_path(path)) == spec_normalize_p4k_swf_path(path),
{
    let f = forward_slashes(path);
    lemma_forward_slashes(path);
    lemma_data_rooted(f);
    let n = data_rooted(f);
    lemma_forward_slashes(n);
}

/// A resolved import path is already normalised, so it names a file the
/// same way as a normalised root path does.
pub proof fn lemma_resolved_imports_are_normalized(base: Seq<char>, url: Seq<char>)
    ensures
        spec_resolve_relative_swf_path(base, url).len() > 0 ==> spec_normalize_p4k_swf_path(
            spec_resolve_relative_swf_path(base, url),
        ) == spec_resolve_relative_swf_path(base, url),
{
    let import = forward_slashes(url);
    lemma_forward_slashes(url);
    if import.len() == 0 {
    } else if under_data_root(import) {
        lemma_forward_slashes(import);
    } else {
        let fb = forward_slashes(base);
        lemma_forward_slashes(base);
        let all = split(fb, '/');
        lemma_split_slash_only(fb, '/', fb.len() as int);
        let dirs = all.drop_last();
        assert forall|j: int| 0 <= j < dirs.len() implies slash_only(#[trigger] dirs[j]) by {
            assert(dirs[j] == all[j]);
            assert(slash_only(all[j]));
        }
        let segs = split(import, '/');
        lemma_split_slash_only(import, '/', import.len() as int);
        lemma_walk_slash_only(dirs, segs, segs.len() as int);
        let w = walk_upto(dirs, segs, segs.len() as int);
        lemma_join_slash_only(w, '/', w.len() as int);
        let j = join(w, '/');
        lemma_data_rooted(j);
        lemma_forward_slashes(data_rooted(j));
    }
}

} // verus!
