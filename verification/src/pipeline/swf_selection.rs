//! SWF source candidates: structural derivation of the standalone SWF a
//! Flash canvas plays, merging of candidate lists, and the imports a SWF
//! declares.
use vstd::prelude::*;

use crate::json::JsonV;
use crate::pipeline::swf_paths::{resolve_relative_swf_path, spec_resolve_relative_swf_path};
use crate::strs::{
    append_chars, append_str, chars_eq, chars_eq_str, chars_of, contains, contains_str, ends_with,
    lower, occurs_at, starts_with, starts_with_str, strip_prefix, strip_prefix_str, strip_suffix,
    strip_suffix_str, string_of, sub_chars, to_lower, to_upper, upper,
};

verus! {

// ───────────────────────────── structural candidates ─────────────────────────────

/// The SWF root of ship interfaces in the P4K.
pub open spec fn swf_root() -> Seq<char> {
    "Data\\UI\\ShipInterface\\assets\\SWF\\"@
}

/// The P4K brand code: the first three characters of the manufacturer id,
/// ASCII upper-cased (`rsi` → `RSI`, `drak` → `DRA`, `aegs` → `AEG`).
pub open spec fn brand_code(manufacturer_id: Seq<char>) -> Seq<char> {
    upper(
        manufacturer_id.subrange(
            0,
            if manufacturer_id.len() < 3 {
                manufacturer_id.len() as int
            } else {
                3
            },
        ),
    )
}

/// The canvas name without its DataCore record prefix.
pub open spec fn canvas_short_name(record_name: Seq<char>) -> Seq<char> {
    match strip_prefix(record_name, "BuildingBlocks_Canvas."@) {
        Some(n) => n,
        None => record_name,
    }
}

/// A generic multi-ship canvas (`MC_S_*` or `GEN_MC_S_*`).
pub open spec fn is_generic_mc(name: Seq<char>) -> bool {
    starts_with(name, "MC_S_"@) || starts_with(name, "GEN_MC_S_"@)
}

/// The SWF stem of a canvas name: without a leading `MC_S_` / `GEN_MC_S_`
/// and a trailing `_Master` / `_master`.
pub open spec fn swf_stem(name: Seq<char>) -> Seq<char> {
    let w = match strip_prefix(name, "MC_S_"@) {
        Some(r) => r,
        None => match strip_prefix(name, "GEN_MC_S_"@) {
            Some(r) => r,
            None => name,
        },
    };
    match strip_suffix(w, "_Master"@) {
        Some(r) => r,
        None => match strip_suffix(w, "_master"@) {
            Some(r) => r,
            None => w,
        },
    }
}

/// The support-screen directories a status SWF may live in, in preference order.
pub open spec fn support_dirs() -> Seq<Seq<char>> {
    seq![
        "SupportScreen16-9"@,
        "SupportScreen1-1"@,
        "SupportScreenBespoke2"@,
        "Support_Bespoke_2"@,
    ]
}

/// `{stem}Status.swf` and `{stem}.swf` in one support directory of a brand.
pub open spec fn support_pair(brand: Seq<char>, dir: Seq<char>, stem: Seq<char>) -> Seq<Seq<char>> {
    let base = swf_root() + brand + "\\"@ + dir + "\\"@ + stem;
    seq![base + "Status.swf"@, base + ".swf"@]
}

/// The pairs of the first `k` support directories.
pub open spec fn support_paths_upto(brand: Seq<char>, stem: Seq<char>, k: int) -> Seq<Seq<char>>
    decreases k,
{
    if k <= 0 {
        Seq::empty()
    } else {
        support_paths_upto(brand, stem, k - 1) + support_pair(brand, support_dirs()[k - 1], stem)
    }
}

/// The status SWF candidates of a brand, every support directory in turn.
pub open spec fn support_paths(brand: Seq<char>, stem: Seq<char>) -> Seq<Seq<char>> {
    support_paths_upto(brand, stem, 4)
}

/// The half of an annunciator screen a canvas shows: `1` for `_left`, `2` for
/// `_right`, `1` otherwise (ASCII case-insensitively).
pub open spec fn annunciator_halve(name: Seq<char>) -> char {
    let l = lower(name);
    if contains(l, "_left"@) {
        '1'
    } else if contains(l, "_right"@) {
        '2'
    } else {
        '1'
    }
}

/// Ships whose annunciator SWFs stand for their whole brand.
pub open spec fn annunciator_ships(brand: Seq<char>) -> Seq<Seq<char>> {
    if brand == "DRA"@ {
        seq!["DRAK_Buccaneer"@, "DRAK_Dragonfly"@]
    } else if brand == "ORI"@ {
        seq!["ORIG_85X"@]
    } else if brand == "MIS"@ {
        seq!["MISC_Freelancer_Base"@]
    } else {
        Seq::empty()
    }
}

/// The annunciator SWF under one ship of a brand.
pub open spec fn ship_annunciator_path(brand: Seq<char>, ship: Seq<char>, file: Seq<char>) -> Seq<char> {
    swf_root() + brand + "\\"@ + ship + "\\AnnunciatorScreen\\"@ + file
}

/// Annunciator SWF candidates: the brand's own directory, then the brand's
/// representative ships.
pub open spec fn spec_annunciator_swf_candidates(name: Seq<char>, brand: Seq<char>) -> Seq<Seq<char>> {
    let file = "AnnunciatorHalve"@ + seq![annunciator_halve(name)] + ".swf"@;
    seq![swf_root() + brand + "\\AnnunciatorScreen\\"@ + file] + annunciator_ships(brand).map_values(
        |ship: Seq<char>| ship_annunciator_path(brand, ship, file),
    )
}

/// Candidate P4K paths of the standalone SWF of a Flash canvas, in preference
/// order: annunciator halves for annunciator canvases; otherwise the status
/// SWFs of the canvas stem under the brand's support directories, followed
/// for generic `MC_S_` canvases of other brands by the same paths under
/// `RSI`, which hosts the shared SWFs.
pub open spec fn spec_flash_swf_candidates(record_name: Seq<char>, manufacturer_id: Seq<char>) -> Seq<
    Seq<char>,
> {
    let name = canvas_short_name(record_name);
    let brand = brand_code(manufacturer_id);
    if brand.len() == 0 {
        Seq::empty()
    } else if contains(lower(name), "annunciator"@) {
        spec_annunciator_swf_candidates(name, brand)
    } else {
        let stem = swf_stem(name);
        if stem.len() == 0 {
            Seq::empty()
        } else if is_generic_mc(name) && brand != "RSI"@ {
            support_paths(brand, stem) + support_paths("RSI"@, stem)
        } else {
            support_paths(brand, stem)
        }
    }
}

/// The candidate of one brand, support directory `k` and file kind `s`
/// (`0` for `{stem}Status.swf`, `1` for `{stem}.swf`).
pub open spec fn support_entry(brand: Seq<char>, k: int, stem: Seq<char>, s: int) -> Seq<char> {
    swf_root() + brand + "\\"@ + support_dirs()[k] + "\\"@ + stem + (if s == 0 {
        "Status.swf"@
    } else {
        ".swf"@
    })
}

proof fn lemma_support_paths_upto(brand: Seq<char>, stem: Seq<char>, k: int)
    requires
        0 <= k <= 4,
    ensures
        support_paths_upto(brand, stem, k).len() == 2 * k,
        forall|i: int|
            0 <= i < 2 * k ==> #[trigger] support_paths_upto(brand, stem, k)[i] == support_entry(
                brand,
                i / 2,
                stem,
                i % 2,
            ),
    decreases k,
{
    if k > 0 {
        lemma_support_paths_upto(brand, stem, k - 1);
        let prev = support_paths_upto(brand, stem, k - 1);
        let pair = support_pair(brand, support_dirs()[k - 1], stem);
        assert forall|i: int| 0 <= i < 2 * k implies #[trigger] support_paths_upto(brand, stem, k)[i]
            == support_entry(brand, i / 2, stem, i % 2) by {
            if i >= 2 * k - 2 {
                assert(i / 2 == k - 1);
                assert(support_paths_upto(brand, stem, k)[i] == pair[i - (2 * k - 2)]);
            } else {
                assert(support_paths_upto(brand, stem, k)[i] == prev[i]);
            }
        }
    }
}

/// A position at which two different support directories differ.
spec fn dir_diff(k1: int, k2: int) -> int {
    if k1 == 3 || k2 == 3 {
        7
    } else if k1 == 2 || k2 == 2 {
        13
    } else {
        14
    }
}

proof fn lemma_dirs_differ(k1: int, k2: int)
    requires
        0 <= k1 < 4,
        0 <= k2 < 4,
        k1 != k2,
    ensures
        dir_diff(k1, k2) < support_dirs()[k1].len(),
        dir_diff(k1, k2) < support_dirs()[k2].len(),
        support_dirs()[k1][dir_diff(k1, k2)] != support_dirs()[k2][dir_diff(k1, k2)],
{
    reveal_strlit("SupportScreen16-9");
    reveal_strlit("SupportScreen1-1");
    reveal_strlit("SupportScreenBespoke2");
    reveal_strlit("Support_Bespoke_2");
}

/// Two candidates of one brand differ unless directory and kind agree.
proof fn lemma_entries_distinct(brand: Seq<char>, stem: Seq<char>, k1: int, s1: int, k2: int, s2: int)
    requires
        0 <= k1 < 4,
        0 <= k2 < 4,
        0 <= s1 < 2,
        0 <= s2 < 2,
        k1 != k2 || s1 != s2,
    ensures
        support_entry(brand, k1, stem, s1) != support_entry(brand, k2, stem, s2),
{
    reveal_strlit("Status.swf");
    reveal_strlit(".swf");
    let p = swf_root() + brand + "\\"@;
    let e1 = support_entry(brand, k1, stem, s1);
    let e2 = support_entry(brand, k2, stem, s2);
    if k1 != k2 {
        lemma_dirs_differ(k1, k2);
        let j = p.len() + dir_diff(k1, k2);
        assert(e1[j] == support_dirs()[k1][dir_diff(k1, k2)]);
        assert(e2[j] == support_dirs()[k2][dir_diff(k1, k2)]);
    } else {
        let base = p + support_dirs()[k1] + "\\"@ + stem;
        let j = base.len() as int;
        assert(e1[j] != e2[j]);
    }
}

/// A candidate of a brand other than `RSI` (of at most three characters)
/// differs from every `RSI` candidate.
proof fn lemma_brands_distinct(brand: Seq<char>, stem: Seq<char>, k1: int, s1: int, k2: int, s2: int)
    requires
        0 < brand.len() <= 3,
        brand != "RSI"@,
    ensures
        support_entry(brand, k1, stem, s1) != support_entry("RSI"@, k2, stem, s2),
{
    reveal_strlit("RSI");
    reveal_strlit("\\");
    reveal_strlit("Data\\UI\\ShipInterface\\assets\\SWF\\");
    let r = swf_root();
    let e1 = support_entry(brand, k1, stem, s1);
    let e2 = support_entry("RSI"@, k2, stem, s2);
    let rsi = "RSI"@;
    if exists|j: int| 0 <= j < brand.len() && brand[j] != rsi[j] {
        let j = choose|j: int| 0 <= j < brand.len() && brand[j] != rsi[j];
        assert(e1[r.len() + j] == brand[j]);
        assert(e2[r.len() + j] == rsi[j]);
    } else {
        if brand.len() == 3 {
            assert(brand =~= rsi);
        }
        let j = brand.len() as int;
        assert(e1[r.len() + j] == '\\');
        assert(e2[r.len() + j] == rsi[j]);
    }
}

/// What the lower-cased short name of a canvas holds, its lower-cased
/// record name holds too.
proof fn lemma_short_name_lowered(record_name: Seq<char>, p: Seq<char>)
    ensures
        contains(lower(canvas_short_name(record_name)), p) ==> contains(lower(record_name), p),
{
    let name = canvas_short_name(record_name);
    if contains(lower(name), p) {
        let k = record_name.len() - name.len();
        assert(name =~= record_name.subrange(k, record_name.len() as int));
        let i = choose|i: int| occurs_at(lower(name), p, i);
        assert(lower(record_name).subrange(i + k, i + k + p.len()) =~= lower(name).subrange(i, i + p.len()));
        assert(occurs_at(lower(record_name), p, i + k));
    }
}

/// For a canvas that is no annunciator: no brand or no stem gives no
/// candidate; otherwise the candidates are pairwise different, begin with
/// `{stem}Status.swf` and `{stem}.swf` under the brand's
/// `SupportScreen16-9`, and a generic `MC_S_` canvas of another brand
/// than `RSI` has the same two under `RSI` right after the brand's own.
pub proof fn lemma_flash_candidates_distinct(record_name: Seq<char>, manufacturer_id: Seq<char>)
    requires
        !contains(lower(record_name), "annunciator"@),
    ensures
        ({
            let c = spec_flash_swf_candidates(record_name, manufacturer_id);
            let name = canvas_short_name(record_name);
            let b = brand_code(manufacturer_id);
            let stem = swf_stem(name);
            &&& (b.len() == 0 || stem.len() == 0) ==> c.len() == 0
            &&& (b.len() > 0 && stem.len() > 0) ==> {
                &&& forall|i: int, j: int| 0 <= i < j < c.len() ==> #[trigger] c[i] != #[trigger] c[j]
                &&& c[0] == swf_root() + b + "\\SupportScreen16-9\\"@ + stem + "Status.swf"@
                &&& c[1] == swf_root() + b + "\\SupportScreen16-9\\"@ + stem + ".swf"@
                &&& is_generic_mc(name) && b != "RSI"@ ==> {
                    &&& c.len() == 16
                    &&& c[8] == swf_root() + "RSI"@ + "\\SupportScreen16-9\\"@ + stem + "Status.swf"@
                    &&& c[9] == swf_root() + "RSI"@ + "\\SupportScreen16-9\\"@ + stem + ".swf"@
                }
            }
        }),
{
    let c = spec_flash_swf_candidates(record_name, manufacturer_id);
    let name = canvas_short_name(record_name);
    let b = brand_code(manufacturer_id);
    let stem = swf_stem(name);
    lemma_short_name_lowered(record_name, "annunciator"@);
    if b.len() > 0 && stem.len() > 0 {
        reveal_strlit("\\SupportScreen16-9\\");
        reveal_strlit("SupportScreen16-9");
        reveal_strlit("\\");
        let d0 = swf_root() + b + "\\SupportScreen16-9\\"@ + stem;
        assert(swf_root() + b + "\\"@ + support_dirs()[0] + "\\"@ + stem =~= d0);
        let d8 = swf_root() + "RSI"@ + "\\SupportScreen16-9\\"@ + stem;
        assert(swf_root() + "RSI"@ + "\\"@ + support_dirs()[0] + "\\"@ + stem =~= d8);
        lemma_support_paths_upto(b, stem, 4);
        lemma_support_paths_upto("RSI"@, stem, 4);
        let own = support_paths(b, stem);
        assert(own[0] == support_entry(b, 0, stem, 0));
        assert(own[1] == support_entry(b, 0, stem, 1));
        assert forall|i: int, j: int| 0 <= i < j < own.len() implies #[trigger] own[i] != #[trigger] own[j] by {
            lemma_entries_distinct(b, stem, i / 2, i % 2, j / 2, j % 2);
        }
        if is_generic_mc(name) && b != "RSI"@ {
            let rsi = support_paths("RSI"@, stem);
            assert(b.len() <= 3);
            assert(c == own + rsi);
            assert(c[8] == rsi[0]);
            assert(rsi[0] == support_entry("RSI"@, 0, stem, 0));
            assert(c[9] == rsi[1]);
            assert(rsi[1] == support_entry("RSI"@, 0, stem, 1));
            assert forall|i: int, j: int| 0 <= i < j < c.len() implies #[trigger] c[i] != #[trigger] c[j] by {
                if j < 8 {
                    assert(c[i] == own[i] && c[j] == own[j]);
                } else if i >= 8 {
                    assert(c[i] == rsi[i - 8] && c[j] == rsi[j - 8]);
                    lemma_entries_distinct("RSI"@, stem, (i - 8) / 2, (i - 8) % 2, (j - 8) / 2, (j - 8) % 2);
                } else {
                    assert(c[i] == own[i] && c[j] == rsi[j - 8]);
                    lemma_brands_distinct(b, stem, i / 2, i % 2, (j - 8) / 2, (j - 8) % 2);
                }
            }
        } else {
            assert(c == own);
        }
    }
}

/// A status SWF path: `{root}{brand}\{dir}\{stem}{file}`.
pub open spec fn status_path(brand: Seq<char>, dir: Seq<char>, stem: Seq<char>, file: Seq<char>) -> Seq<char> {
    "Data\\UI\\ShipInterface\\assets\\SWF\\"@ + brand + "\\"@ + dir + "\\"@ + stem + file
}

/// For a canvas that is no annunciator, with a brand and a stem, the
/// brand's candidates come first: `{stem}Status.swf` then `{stem}.swf` under
/// `SupportScreen16-9`, `SupportScreen1-1`, `SupportScreenBespoke2` and
/// `Support_Bespoke_2`, in that order; only a generic `MC_S_` canvas of a
/// brand other than `RSI` has more (the same under `RSI`).
pub proof fn lemma_flash_candidates_directories(record_name: Seq<char>, manufacturer_id: Seq<char>)
    requires
        !contains(lower(record_name), "annunciator"@),
        brand_code(manufacturer_id).len() > 0,
        swf_stem(canvas_short_name(record_name)).len() > 0,
    ensures
        ({
            let c = spec_flash_swf_candidates(record_name, manufacturer_id);
            let name = canvas_short_name(record_name);
            let b = brand_code(manufacturer_id);
            let stem = swf_stem(name);
            &&& c.len() >= 8
            &&& c[0] == status_path(b, "SupportScreen16-9"@, stem, "Status.swf"@)
            &&& c[1] == status_path(b, "SupportScreen16-9"@, stem, ".swf"@)
            &&& c[2] == status_path(b, "SupportScreen1-1"@, stem, "Status.swf"@)
            &&& c[3] == status_path(b, "SupportScreen1-1"@, stem, ".swf"@)
            &&& c[4] == status_path(b, "SupportScreenBespoke2"@, stem, "Status.swf"@)
            &&& c[5] == status_path(b, "SupportScreenBespoke2"@, stem, ".swf"@)
            &&& c[6] == status_path(b, "Support_Bespoke_2"@, stem, "Status.swf"@)
            &&& c[7] == status_path(b, "Support_Bespoke_2"@, stem, ".swf"@)
            &&& !(is_generic_mc(name) && b != "RSI"@) ==> c.len() == 8
        }),
{
    let name = canvas_short_name(record_name);
    let b = brand_code(manufacturer_id);
    let stem = swf_stem(name);
    let c = spec_flash_swf_candidates(record_name, manufacturer_id);
    lemma_short_name_lowered(record_name, "annunciator"@);
    lemma_support_paths_upto(b, stem, 4);
    lemma_support_paths_upto("RSI"@, stem, 4);
    let own = support_paths(b, stem);
    assert forall|i: int| 0 <= i < 8 implies #[trigger] c[i] == own[i] by {
        if is_generic_mc(name) && b != "RSI"@ {
            assert(c == own + support_paths("RSI"@, stem));
        }
    }
    assert(own[0] == support_entry(b, 0, stem, 0));
    assert(own[1] == support_entry(b, 0, stem, 1));
    assert(own[2] == support_entry(b, 1, stem, 0));
    assert(own[3] == support_entry(b, 1, stem, 1));
    assert(own[4] == support_entry(b, 2, stem, 0));
    assert(own[5] == support_entry(b, 2, stem, 1));
    assert(own[6] == support_entry(b, 3, stem, 0));
    assert(own[7] == support_entry(b, 3, stem, 1));
}

/// The annunciator file a canvas name picks: `AnnunciatorHalve2.swf` for a
/// `_right` canvas that is no `_left` one, `AnnunciatorHalve1.swf` otherwise.
pub open spec fn halve_file(name: Seq<char>) -> Seq<char> {
    if !contains(lower(name), "_left"@) && contains(lower(name), "_right"@) {
        "AnnunciatorHalve2.swf"@
    } else {
        "AnnunciatorHalve1.swf"@
    }
}

/// The candidates of an annunciator canvas: the brand's own
/// `AnnunciatorScreen` file first, then the same file under the brand's
/// representative ships: `DRAK_Buccaneer` and `DRAK_Dragonfly` for `DRA`,
/// `ORIG_85X` for `ORI`, `MISC_Freelancer_Base` for `MIS`, none for any
/// other brand.
pub proof fn lemma_annunciator_candidates(record_name: Seq<char>, manufacturer_id: Seq<char>)
    requires
        contains(lower(canvas_short_name(record_name)), "annunciator"@),
        brand_code(manufacturer_id).len() > 0,
    ensures
        ({
            let c = spec_flash_swf_candidates(record_name, manufacturer_id);
            let b = brand_code(manufacturer_id);
            let file = halve_file(canvas_short_name(record_name));
            let root = "Data\\UI\\ShipInterface\\assets\\SWF\\"@;
            &&& c.len() >= 1
            &&& c[0] == root + b + "\\AnnunciatorScreen\\"@ + file
            &&& b == "DRA"@ ==> c.len() == 3 && c[1] == root + "DRA\\DRAK_Buccaneer\\AnnunciatorScreen\\"@ + file
                && c[2] == root + "DRA\\DRAK_Dragonfly\\AnnunciatorScreen\\"@ + file
            &&& b == "ORI"@ ==> c.len() == 2 && c[1] == root + "ORI\\ORIG_85X\\AnnunciatorScreen\\"@ + file
            &&& b == "MIS"@ ==> c.len() == 2 && c[1] == root + "MIS\\MISC_Freelancer_Base\\AnnunciatorScreen\\"@
                + file
            &&& b != "DRA"@ && b != "ORI"@ && b != "MIS"@ ==> c.len() == 1
        }),
{
    let name = canvas_short_name(record_name);
    let b = brand_code(manufacturer_id);
    let c = spec_flash_swf_candidates(record_name, manufacturer_id);
    let file = halve_file(name);
    reveal_strlit("AnnunciatorHalve");
    reveal_strlit(".swf");
    reveal_strlit("AnnunciatorHalve1.swf");
    reveal_strlit("AnnunciatorHalve2.swf");
    reveal_strlit("\\");
    reveal_strlit("\\AnnunciatorScreen\\");
    reveal_strlit("Data\\UI\\ShipInterface\\assets\\SWF\\");
    reveal_strlit("DRA");
    reveal_strlit("ORI");
    reveal_strlit("MIS");
    reveal_strlit("DRAK_Buccaneer");
    reveal_strlit("DRAK_Dragonfly");
    reveal_strlit("ORIG_85X");
    reveal_strlit("MISC_Freelancer_Base");
    reveal_strlit("DRA\\DRAK_Buccaneer\\AnnunciatorScreen\\");
    reveal_strlit("DRA\\DRAK_Dragonfly\\AnnunciatorScreen\\");
    reveal_strlit("ORI\\ORIG_85X\\AnnunciatorScreen\\");
    reveal_strlit("MIS\\MISC_Freelancer_Base\\AnnunciatorScreen\\");
    let f = "AnnunciatorHalve"@ + seq![annunciator_halve(name)] + ".swf"@;
    assert(f =~= file);
    let root = swf_root();
    let ships = annunciator_ships(b);
    assert(c == seq![root + b + "\\AnnunciatorScreen\\"@ + f] + ships.map_values(
        |ship: Seq<char>| ship_annunciator_path(b, ship, f),
    ));
    assert(c[0] == root + b + "\\AnnunciatorScreen\\"@ + file);
    assert(c.len() == 1 + ships.len());
    assert("DRA"@[0] != "ORI"@[0] && "DRA"@[0] != "MIS"@[0] && "ORI"@[0] != "MIS"@[0]);
    if b == "DRA"@ {
        assert(ships.len() == 2);
        assert(c[1] == ship_annunciator_path(b, "DRAK_Buccaneer"@, f));
        assert(c[1] =~= root + "DRA\\DRAK_Buccaneer\\AnnunciatorScreen\\"@ + file);
        assert(c[2] =~= root + "DRA\\DRAK_Dragonfly\\AnnunciatorScreen\\"@ + file);
    } else if b == "ORI"@ {
        assert(ships.len() == 1);
        assert(c[1] =~= root + "ORI\\ORIG_85X\\AnnunciatorScreen\\"@ + file);
    } else if b == "MIS"@ {
        assert(ships.len() == 1);
        assert(c[1] =~= root + "MIS\\MISC_Freelancer_Base\\AnnunciatorScreen\\"@ + file);
    }
}

pub open spec fn strings_view(v: Seq<String>) -> Seq<Seq<char>> {
    v.map_values(|s: String| s@)
}

// ───────────────────────────── exec ─────────────────────────────

fn support_pair_exec(out: &mut Vec<String>, brand: &[char], dir: &str, stem: &[char])
    ensures
        strings_view(final(out)@) == strings_view(old(out)@) + support_pair(brand@, dir@, stem@),
{
    let mut base: Vec<char> = Vec::new();
    append_str(&mut base, "Data\\UI\\ShipInterface\\assets\\SWF\\");
    append_chars(&mut base, brand);
    append_str(&mut base, "\\");
    append_str(&mut base, dir);
    append_str(&mut base, "\\");
    append_chars(&mut base, stem);
    let mut a = crate::strs::copy_chars(base.as_slice());
    append_str(&mut a, "Status.swf");
    let mut b = base;
    append_str(&mut b, ".swf");
    let ghost before = strings_view(out@);
    out.push(string_of(a.as_slice()));
    out.push(string_of(b.as_slice()));
    assert(strings_view(out@) =~= before + support_pair(brand@, dir@, stem@));
}

fn support_paths_exec(out: &mut Vec<String>, brand: &[char], stem: &[char])
    ensures
        strings_view(final(out)@) == strings_view(old(out)@) + support_paths(brand@, stem@),
{
    let ghost o = strings_view(out@);
    assert(support_paths_upto(brand@, stem@, 0) =~= Seq::<Seq<char>>::empty());
    support_pair_exec(out, brand, "SupportScreen16-9", stem);
    assert(strings_view(out@) =~= o + support_paths_upto(brand@, stem@, 1));
    support_pair_exec(out, brand, "SupportScreen1-1", stem);
    assert(strings_view(out@) =~= o + support_paths_upto(brand@, stem@, 2));
    support_pair_exec(out, brand, "SupportScreenBespoke2", stem);
    assert(strings_view(out@) =~= o + support_paths_upto(brand@, stem@, 3));
    support_pair_exec(out, brand, "Support_Bespoke_2", stem);
    assert(strings_view(out@) =~= o + support_paths_upto(brand@, stem@, 4));
}

/// Candidate P4K paths for an annunciator canvas.
pub fn annunciator_swf_candidates(canvas_name: &str, brand: &str) -> (r: Vec<String>)
    ensures
        strings_view(r@) == spec_annunciator_swf_candidates(canvas_name@, brand@),
{
    let n = chars_of(canvas_name);
    let nl = to_lower(n.as_slice());
    let halve = if contains_str(nl.as_slice(), "_left") {
        '1'
    } else if contains_str(nl.as_slice(), "_right") {
        '2'
    } else {
        '1'
    };
    let mut file: Vec<char> = Vec::new();
    append_str(&mut file, "AnnunciatorHalve");
    file.push(halve);
    append_str(&mut file, ".swf");
    let ghost fv = "AnnunciatorHalve"@ + seq![annunciator_halve(canvas_name@)] + ".swf"@;
    assert(file@ =~= fv);
    let b = chars_of(brand);
    let mut out: Vec<String> = Vec::new();
    let mut first: Vec<char> = Vec::new();
    append_str(&mut first, "Data\\UI\\ShipInterface\\assets\\SWF\\");
    append_chars(&mut first, b.as_slice());
    append_str(&mut first, "\\AnnunciatorScreen\\");
    append_chars(&mut first, file.as_slice());
    out.push(string_of(first.as_slice()));
    let ships: Vec<&str> = if chars_eq_str(b.as_slice(), "DRA") {
        vec!["DRAK_Buccaneer", "DRAK_Dragonfly"]
    } else if chars_eq_str(b.as_slice(), "ORI") {
        vec!["ORIG_85X"]
    } else if chars_eq_str(b.as_slice(), "MIS") {
        vec!["MISC_Freelancer_Base"]
    } else {
        Vec::new()
    };
    let ghost sh = annunciator_ships(brand@);
    assert(ships@.map_values(|s: &str| s@) =~= sh);
    let ghost head = seq![swf_root() + brand@ + "\\AnnunciatorScreen\\"@ + fv];
    assert(strings_view(out@) =~= head);
    let mut i: usize = 0;
    while i < ships.len()
        invariant
            i <= ships@.len(),
            file@ == fv,
            b@ == brand@,
            ships@.map_values(|s: &str| s@) == sh,
            strings_view(out@) == head + sh.subrange(0, i as int).map_values(
                |ship: Seq<char>| ship_annunciator_path(brand@, ship, fv),
            ),
        decreases ships@.len() - i,
    {
        let mut p: Vec<char> = Vec::new();
        append_str(&mut p, "Data\\UI\\ShipInterface\\assets\\SWF\\");
        append_chars(&mut p, b.as_slice());
        append_str(&mut p, "\\");
        append_str(&mut p, ships[i]);
        append_str(&mut p, "\\AnnunciatorScreen\\");
        append_chars(&mut p, file.as_slice());
        let ghost before = strings_view(out@);
        out.push(string_of(p.as_slice()));
        assert(sh[i as int] == ships@[i as int]@);
        assert(sh.subrange(0, i + 1).map_values(|ship: Seq<char>| ship_annunciator_path(brand@, ship, fv))
            =~= sh.subrange(0, i as int).map_values(
            |ship: Seq<char>| ship_annunciator_path(brand@, ship, fv),
        ).push(ship_annunciator_path(brand@, sh[i as int], fv)));
        assert(strings_view(out@) =~= before.push(p@));
        i += 1;
    }
    assert(sh.subrange(0, sh.len() as int) =~= sh);
    out
}

/// Derive candidate P4K paths for the standalone SWF of a Flash canvas from
/// its record name and the manufacturer id (see [`spec_flash_swf_candidates`]).
pub fn flash_swf_candidates(record_name: &str, manufacturer_id: &str) -> (r: Vec<String>)
    ensures
        strings_view(r@) == spec_flash_swf_candidates(record_name@, manufacturer_id@),
{
    let rn = chars_of(record_name);
    let name = match strip_prefix_str(rn.as_slice(), "BuildingBlocks_Canvas.") {
        Some(n) => n,
        None => rn,
    };
    let m = chars_of(manufacturer_id);
    let take: usize = if m.len() < 3 {
        m.len()
    } else {
        3
    };
    let head = sub_chars(m.as_slice(), 0, take);
    let brand = to_upper(head.as_slice());
    if brand.len() == 0 {
        let r: Vec<String> = Vec::new();
        assert(strings_view(r@) =~= Seq::<Seq<char>>::empty());
        return r;
    }
    let nl = to_lower(name.as_slice());
    if contains_str(nl.as_slice(), "annunciator") {
        let n = string_of(name.as_slice());
        let b = string_of(brand.as_slice());
        return annunciator_swf_candidates(n.as_str(), b.as_str());
    }
    let generic = starts_with_str(name.as_slice(), "MC_S_") || starts_with_str(name.as_slice(), "GEN_MC_S_");
    let w = match strip_prefix_str(name.as_slice(), "MC_S_") {
        Some(r) => r,
        None => match strip_prefix_str(name.as_slice(), "GEN_MC_S_") {
            Some(r) => r,
            None => crate::strs::copy_chars(name.as_slice()),
        },
    };
    let stem = match strip_suffix_str(w.as_slice(), "_Master") {
        Some(r) => r,
        None => match strip_suffix_str(w.as_slice(), "_master") {
            Some(r) => r,
            None => w,
        },
    };
    let mut out: Vec<String> = Vec::new();
    if stem.len() == 0 {
        assert(strings_view(out@) =~= Seq::<Seq<char>>::empty());
        return out;
    }
    assert(strings_view(out@) =~= Seq::<Seq<char>>::empty());
    support_paths_exec(&mut out, brand.as_slice(), stem.as_slice());
    if generic && !chars_eq_str(brand.as_slice(), "RSI") {
        let rsi = chars_of("RSI");
        support_paths_exec(&mut out, rsi.as_slice(), stem.as_slice());
    }
    out
}

// ───────────────────────────── candidate lists ─────────────────────────────

/// A candidate SWF path with the rule that proposed it and its preference rank.
#[derive(Debug, Clone, PartialEq, Eq)]
pub struct SwfPathCandidate {
    pub path: String,
    pub reason: &'static str,
    pub rank: u32,
}

/// Path, reason and rank of a candidate.
pub open spec fn cand_view(c: SwfPathCandidate) -> (Seq<char>, Seq<char>, u32) {
    (c.path@, c.reason@, c.rank)
}

pub open spec fn cands_view(s: Seq<SwfPathCandidate>) -> Seq<(Seq<char>, Seq<char>, u32)> {
    s.map_values(|c: SwfPathCandidate| cand_view(c))
}

/// The paths of a list of candidates.
pub open spec fn cand_paths(s: Seq<(Seq<char>, Seq<char>, u32)>) -> Seq<Seq<char>> {
    s.map_values(|c: (Seq<char>, Seq<char>, u32)| c.0)
}

/// The first `k` candidates with every path after its first occurrence dropped.
pub open spec fn dedup_upto(s: Seq<(Seq<char>, Seq<char>, u32)>, k: int) -> Seq<(Seq<char>, Seq<char>, u32)>
    decreases k,
{
    if k <= 0 {
        Seq::empty()
    } else {
        let d = dedup_upto(s, k - 1);
        if cand_paths(d).contains(s[k - 1].0) {
            d
        } else {
            d.push(s[k - 1])
        }
    }
}

/// `primary` then `secondary`, each path kept at its first occurrence.
pub open spec fn spec_merge_unique(
    primary: Seq<(Seq<char>, Seq<char>, u32)>,
    secondary: Seq<(Seq<char>, Seq<char>, u32)>,
) -> Seq<(Seq<char>, Seq<char>, u32)> {
    dedup_upto(primary + secondary, (primary.len() + secondary.len()) as int)
}

proof fn lemma_dedup(s: Seq<(Seq<char>, Seq<char>, u32)>, k: int)
    requires
        0 <= k <= s.len(),
    ensures
        forall|i: int, j: int|
            0 <= i < j < dedup_upto(s, k).len() ==> #[trigger] dedup_upto(s, k)[i].0 != #[trigger] dedup_upto(
                s,
                k,
            )[j].0,
        forall|p: Seq<char>|
            #[trigger] cand_paths(dedup_upto(s, k)).contains(p) <==> cand_paths(s.subrange(0, k)).contains(p),
        forall|i: int|
            0 <= i < dedup_upto(s, k).len() ==> exists|j: int|
                0 <= j < k && s[j] == #[trigger] dedup_upto(s, k)[i] && forall|j2: int|
                    0 <= j2 < j ==> #[trigger] s[j2].0 != s[j].0,
    decreases k,
{
    if k > 0 {
        lemma_dedup(s, k - 1);
        let d = dedup_upto(s, k - 1);
        let e = dedup_upto(s, k);
        let x = s[k - 1];
        let pk = s.subrange(0, k);
        let pk1 = s.subrange(0, k - 1);
        assert(pk =~= pk1.push(x));
        assert(cand_paths(pk) =~= cand_paths(pk1).push(x.0));
        if cand_paths(d).contains(x.0) {
            assert forall|p: Seq<char>|
                #[trigger] cand_paths(e).contains(p) <==> cand_paths(pk).contains(p) by {
                if cand_paths(pk).contains(p) && p != x.0 {
                    let i = choose|i: int| 0 <= i < cand_paths(pk).len() && cand_paths(pk)[i] == p;
                    assert(cand_paths(pk1)[i] == p);
                }
                if cand_paths(pk1).contains(p) {
                    let i = choose|i: int| 0 <= i < cand_paths(pk1).len() && cand_paths(pk1)[i] == p;
                    assert(cand_paths(pk)[i] == p);
                }
            }
        } else {
            assert(e == d.push(x));
            assert(cand_paths(e) =~= cand_paths(d).push(x.0));
            assert forall|i: int, j: int| 0 <= i < j < e.len() implies #[trigger] e[i].0 != #[trigger] e[j].0 by {
                if j == e.len() - 1 {
                    assert(cand_paths(d)[i] == d[i].0);
                } else {
                    assert(e[i] == d[i] && e[j] == d[j]);
                }
            }
            assert forall|p: Seq<char>|
                #[trigger] cand_paths(e).contains(p) <==> cand_paths(pk).contains(p) by {
                if cand_paths(pk).contains(p) && p != x.0 {
                    let i = choose|i: int| 0 <= i < cand_paths(pk).len() && cand_paths(pk)[i] == p;
                    assert(cand_paths(pk1)[i] == p);
                    assert(cand_paths(d).contains(p));
                    let i2 = choose|i2: int| 0 <= i2 < cand_paths(d).len() && cand_paths(d)[i2] == p;
                    assert(cand_paths(e)[i2] == p);
                }
                if cand_paths(e).contains(p) && p != x.0 {
                    let i = choose|i: int| 0 <= i < cand_paths(e).len() && cand_paths(e)[i] == p;
                    assert(cand_paths(d)[i] == p);
                    assert(cand_paths(d).contains(p));
                    assert(cand_paths(pk1).contains(p));
                    let i2 = choose|i2: int| 0 <= i2 < cand_paths(pk1).len() && cand_paths(pk1)[i2] == p;
                    assert(cand_paths(pk)[i2] == p);
                }
                if p == x.0 {
                    assert(cand_paths(e)[e.len() - 1] == p);
                    assert(cand_paths(pk)[k - 1] == p);
                }
            }
            assert forall|i: int| 0 <= i < e.len() implies exists|j: int|
                0 <= j < k && s[j] == #[trigger] e[i] && forall|j2: int| 0 <= j2 < j ==> #[trigger] s[j2].0 != s[j].0 by {
                if i < d.len() {
                    assert(e[i] == d[i]);
                } else {
                    assert forall|j2: int| 0 <= j2 < k - 1 implies #[trigger] s[j2].0 != s[k - 1].0 by {
                        if s[j2].0 == x.0 {
                            assert(cand_paths(pk1)[j2] == x.0);
                            assert(cand_paths(pk1).contains(x.0));
                        }
                    }
                    assert(s[k - 1] == e[i]);
                }
            }
        }
    }
}

/// A merged candidate list names each path once; it names exactly the paths
/// of its inputs; and each of its candidates is the first input candidate
/// with that path, reason and rank included.
pub proof fn lemma_merge_unique_candidates(
    primary: Seq<(Seq<char>, Seq<char>, u32)>,
    secondary: Seq<(Seq<char>, Seq<char>, u32)>,
)
    ensures
        ({
            let m = spec_merge_unique(primary, secondary);
            let all = primary + secondary;
            &&& forall|i: int, j: int| 0 <= i < j < m.len() ==> #[trigger] m[i].0 != #[trigger] m[j].0
            &&& forall|p: Seq<char>| #[trigger] cand_paths(m).contains(p) <==> cand_paths(all).contains(p)
            &&& forall|i: int|
                0 <= i < m.len() ==> exists|j: int|
                    0 <= j < all.len() && all[j] == #[trigger] m[i] && forall|j2: int|
                        0 <= j2 < j ==> #[trigger] all[j2].0 != all[j].0
        }),
{
    let all = primary + secondary;
    lemma_dedup(all, all.len() as int);
    assert(all.subrange(0, all.len() as int) =~= all);
}

fn push_if_new(out: &mut Vec<SwfPathCandidate>, c: &SwfPathCandidate)
    ensures
        cands_view(final(out)@) == (if cand_paths(cands_view(old(out)@)).contains(c.path@) {
            cands_view(old(out)@)
        } else {
            cands_view(old(out)@).push(cand_view(*c))
        }),
{
    let ghost ov = cands_view(out@);
    let mut j: usize = 0;
    while j < out.len()
        invariant
            j <= out@.len(),
            ov == cands_view(out@),
            forall|k: int| 0 <= k < j ==> #[trigger] ov[k].0 != c.path@,
        decreases out@.len() - j,
    {
        if out[j].path == c.path {
            assert(cand_paths(ov)[j as int] == c.path@);
            return;
        }
        j += 1;
    }
    assert(!cand_paths(ov).contains(c.path@)) by {
        if cand_paths(ov).contains(c.path@) {
            let k = choose|k: int| 0 <= k < cand_paths(ov).len() && cand_paths(ov)[k] == c.path@;
            assert(ov[k].0 == c.path@);
        }
    }
    out.push(SwfPathCandidate { path: c.path.clone(), reason: c.reason, rank: c.rank });
    assert(cands_view(out@) =~= ov.push(cand_view(*c)));
}

/// `primary` then `secondary`, keeping only the first candidate of each path.
pub fn merge_unique_candidates(primary: &[SwfPathCandidate], secondary: &[SwfPathCandidate]) -> (r: Vec<
    SwfPathCandidate,
>)
    ensures
        cands_view(r@) == spec_merge_unique(cands_view(primary@), cands_view(secondary@)),
{
    let ghost all = cands_view(primary@) + cands_view(secondary@);
    let mut out: Vec<SwfPathCandidate> = Vec::new();
    let mut i: usize = 0;
    assert(cands_view(out@) =~= dedup_upto(all, 0));
    while i < primary.len()
        invariant
            i <= primary@.len(),
            all == cands_view(primary@) + cands_view(secondary@),
            cands_view(out@) == dedup_upto(all, i as int),
        decreases primary@.len() - i,
    {
        assert(all[i as int] == cand_view(primary@[i as int]));
        push_if_new(&mut out, &primary[i]);
        i += 1;
    }
    let mut k: usize = 0;
    while k < secondary.len()
        invariant
            k <= secondary@.len(),
            all == cands_view(primary@) + cands_view(secondary@),
            cands_view(out@) == dedup_upto(all, (primary@.len() + k) as int),
        decreases secondary@.len() - k,
    {
        assert(all[primary@.len() + k] == cand_view(secondary@[k as int]));
        push_if_new(&mut out, &secondary[k]);
        k += 1;
    }
    out
}


// ───────────────────────────── selection ─────────────────────────────

/// Preference rank of the candidate at index `i` (1-based, saturating).
pub open spec fn spec_rank(i: int) -> u32 {
    if i + 1 <= u32::MAX {
        (i + 1) as u32
    } else {
        u32::MAX
    }
}

fn rank_of(i: usize) -> (r: u32)
    ensures
        r == spec_rank(i as int),
{
    if i < 4294967295usize {
        (i + 1) as u32
    } else {
        4294967295u32
    }
}

/// Paths as candidates proposed by one rule, ranked by position.
pub open spec fn ranked(paths: Seq<Seq<char>>, reason: Seq<char>) -> Seq<(Seq<char>, Seq<char>, u32)> {
    Seq::new(paths.len(), |i: int| (paths[i], reason, spec_rank(i)))
}

/// Paths as candidates with `reason`, ranked by position.
pub fn rank_candidates(paths: Vec<String>, reason: &'static str) -> (r: Vec<SwfPathCandidate>)
    ensures
        cands_view(r@) == ranked(strings_view(paths@), reason@),
{
    let mut out: Vec<SwfPathCandidate> = Vec::new();
    let mut i: usize = 0;
    while i < paths.len()
        invariant
            i <= paths@.len(),
            out@.len() == i,
            forall|k: int| 0 <= k < i ==> #[trigger] cand_view(out@[k]) == (paths@[k]@, reason@, spec_rank(k)),
        decreases paths@.len() - i,
    {
        out.push(SwfPathCandidate { path: paths[i].clone(), reason, rank: rank_of(i) });
        i += 1;
    }
    assert(cands_view(out@) =~= ranked(strings_view(paths@), reason@));
    out
}

/// The structural SWF candidates of a canvas root record: none unless the
/// canvas is drawn by a standalone SWF; otherwise the paths derived from its
/// record name (empty when it has none) and the manufacturer id.
pub open spec fn spec_flash_structural_candidates(root: JsonV, manufacturer_id: Seq<char>) -> Seq<
    (Seq<char>, Seq<char>, u32),
> {
    if crate::pipeline::spec_canvas_has_flash_renderer(root) {
        let name = match crate::pipeline::spec_canvas_record_name(root) {
            Some(n) => n,
            None => Seq::empty(),
        };
        ranked(spec_flash_swf_candidates(name, manufacturer_id), "flash_structural_candidate"@)
    } else {
        Seq::empty()
    }
}

/// The structural SWF candidates of a canvas root record.
pub fn flash_structural_candidates(root: &crate::json::Json, manufacturer_id: &str) -> (r: Vec<
    SwfPathCandidate,
>)
    ensures
        cands_view(r@) == spec_flash_structural_candidates(root@, manufacturer_id@),
{
    if !crate::pipeline::canvas_has_flash_renderer(root) {
        let r: Vec<SwfPathCandidate> = Vec::new();
        assert(cands_view(r@) =~= Seq::<(Seq<char>, Seq<char>, u32)>::empty());
        return r;
    }
    let name = match crate::pipeline::canvas_record_name(root) {
        Some(n) => n,
        None => String::new(),
    };
    let paths = flash_swf_candidates(name.as_str(), manufacturer_id);
    rank_candidates(paths, "flash_structural_candidate")
}

/// The candidates whose SWF loaded, in order, and the fallback counters of
/// the selection: `swf_candidate_miss` when none did.
pub open spec fn spec_select_valid(
    ordered: Seq<(Seq<char>, Seq<char>, u32)>,
    loaded: Seq<bool>,
) -> (Seq<(Seq<char>, Seq<char>, u32)>, Seq<(Seq<char>, u32)>) {
    let valid = valid_upto(ordered, loaded, ordered.len() as int);
    (valid, if valid.len() == 0 {
        seq![("swf_candidate_miss"@, 1u32)]
    } else {
        Seq::empty()
    })
}

/// The first `k` candidates whose SWF loaded; a candidate without an answer
/// did not load.
pub open spec fn valid_upto(
    ordered: Seq<(Seq<char>, Seq<char>, u32)>,
    loaded: Seq<bool>,
    k: int,
) -> Seq<(Seq<char>, Seq<char>, u32)>
    decreases k,
{
    if k <= 0 {
        Seq::empty()
    } else if k - 1 < loaded.len() && loaded[k - 1] {
        valid_upto(ordered, loaded, k - 1).push(ordered[k - 1])
    } else {
        valid_upto(ordered, loaded, k - 1)
    }
}

/// The SWF sources considered for a canvas and the ones that loaded.
pub struct SwfSelectionManifest {
    pub flash_candidates: Vec<SwfPathCandidate>,
    pub ordered_candidates: Vec<SwfPathCandidate>,
    pub valid_candidates: Vec<SwfPathCandidate>,
    pub fallback_counters: Vec<(String, u32)>,
}

/// The selection manifest: the structural candidates, then the candidates
/// referenced by the scene, each path once; the ones whose SWF loaded
/// (`loaded[i]` answers for the i-th ordered candidate); and the fallback
/// counters.
pub fn build_swf_selection_manifest(
    flash: Vec<SwfPathCandidate>,
    scene: Vec<SwfPathCandidate>,
    loaded: &[bool],
) -> (r: SwfSelectionManifest)
    ensures
        cands_view(r.flash_candidates@) == cands_view(flash@),
        cands_view(r.ordered_candidates@) == spec_merge_unique(cands_view(flash@), cands_view(scene@)),
        (cands_view(r.valid_candidates@), r.fallback_counters@.map_values(|p: (String, u32)| (p.0@, p.1)))
            == spec_select_valid(cands_view(r.ordered_candidates@), loaded@),
{
    let ordered = merge_unique_candidates(flash.as_slice(), scene.as_slice());
    let ghost ov = cands_view(ordered@);
    let mut valid: Vec<SwfPathCandidate> = Vec::new();
    let mut i: usize = 0;
    while i < ordered.len()
        invariant
            i <= ordered@.len(),
            ov == cands_view(ordered@),
            cands_view(valid@) == valid_upto(ov, loaded@, i as int),
        decreases ordered@.len() - i,
    {
        if i < loaded.len() && loaded[i] {
            let c = &ordered[i];
            let ghost before = cands_view(valid@);
            valid.push(SwfPathCandidate { path: c.path.clone(), reason: c.reason, rank: c.rank });
            assert(cands_view(valid@) =~= before.push(ov[i as int]));
        }
        i += 1;
    }
    let mut counters: Vec<(String, u32)> = Vec::new();
    if valid.len() == 0 {
        counters.push((crate::strs::string_of(crate::strs::chars_of("swf_candidate_miss").as_slice()), 1));
    }
    let ghost cv = counters@.map_values(|p: (String, u32)| (p.0@, p.1));
    assert(cv =~= spec_select_valid(ov, loaded@).1);
    SwfSelectionManifest { flash_candidates: flash, ordered_candidates: ordered, valid_candidates: valid, fallback_counters: counters }
}


/// The SWF path a scene item references: sprite-like items name it in
/// `swfPath`, else `swf`; any other item, or a non-string value, names none.
pub open spec fn item_swf_path(item: crate::canvas::types::SceneItemV) -> Seq<char> {
    if crate::canvas::parser::is_sprite_kind(crate::canvas::parser::type_suffix(item.kind)) {
        let raw = crate::canvas::parser::or_else(
            crate::json::entries_get(item.properties, "swfPath"@),
            crate::json::entries_get(item.properties, "swf"@),
        );
        match raw {
            Some(JsonV::Str(p)) => p,
            _ => Seq::empty(),
        }
    } else {
        Seq::empty()
    }
}

/// The non-empty SWF paths of the first `k` items, each once, in order.
pub open spec fn swf_paths_upto(items: Seq<crate::canvas::types::SceneItemV>, k: int) -> Seq<Seq<char>>
    decreases k,
{
    if k <= 0 {
        Seq::empty()
    } else {
        let prev = swf_paths_upto(items, k - 1);
        let p = item_swf_path(items[k - 1]);
        if p.len() == 0 || prev.contains(p) {
            prev
        } else {
            prev.push(p)
        }
    }
}

/// The scene items of a resolved canvas: the root's, then each child's in
/// resolution order.
pub open spec fn resolved_items(rc: crate::canvas::resolver::ResolvedCanvas) -> Seq<
    crate::canvas::types::SceneItemV,
> {
    rc.root@.scene + children_items(rc.children.entry_seq(), rc.children.entry_seq().len() as int)
}

pub open spec fn children_items(
    entries: Seq<(Vec<char>, crate::canvas::types::CanvasRecord)>,
    k: int,
) -> Seq<crate::canvas::types::SceneItemV>
    decreases k,
{
    if k <= 0 {
        Seq::empty()
    } else {
        children_items(entries, k - 1) + entries[k - 1].1@.scene
    }
}

fn item_swf_path_exec(item: &crate::canvas::types::SceneItem) -> (r: Vec<char>)
    ensures
        r@ == item_swf_path(item@),
{
    let kind = chars_of(item.kind.as_str());
    let suffix = match strip_prefix_str(kind.as_slice(), "BuildingBlocks_") {
        Some(s) => s,
        None => kind,
    };
    let sf = suffix.as_slice();
    if !(chars_eq_str(sf, "Sprite") || chars_eq_str(sf, "WidgetSprite") || chars_eq_str(sf, "SpriteInstance")
        || chars_eq_str(sf, "MovieClip")) {
        return Vec::new();
    }
    assert(item@.properties == crate::json::members_view(item.properties@));
    let raw = match crate::json::lookup_member(&item.properties, "swfPath") {
        Some(v) => Some(v),
        None => crate::json::lookup_member(&item.properties, "swf"),
    };
    match raw {
        Some(crate::json::Json::String(p)) => chars_of(p.as_str()),
        _ => Vec::new(),
    }
}

fn push_path_once(out: &mut Vec<String>, p: Vec<char>)
    ensures
        strings_view(final(out)@) == (if p@.len() == 0 || strings_view(old(out)@).contains(p@) {
            strings_view(old(out)@)
        } else {
            strings_view(old(out)@).push(p@)
        }),
{
    let ghost o = strings_view(out@);
    if p.len() == 0 {
        return;
    }
    let mut j: usize = 0;
    while j < out.len()
        invariant
            j <= out@.len(),
            o == strings_view(out@),
            forall|k: int| 0 <= k < j ==> o[k] != p@,
        decreases out@.len() - j,
    {
        if chars_eq(chars_of(out[j].as_str()).as_slice(), p.as_slice()) {
            assert(o[j as int] == p@);
            return;
        }
        j += 1;
    }
    assert(!o.contains(p@));
    out.push(string_of(p.as_slice()));
    assert(strings_view(out@) =~= o.push(p@));
}

/// The distinct SWF paths the scene items of a resolved canvas reference:
/// the root's items first, then each child's.
pub fn collect_swf_paths(canvas: &crate::canvas::resolver::ResolvedCanvas) -> (r: Vec<String>)
    ensures
        strings_view(r@) == swf_paths_upto(resolved_items(*canvas), resolved_items(*canvas).len() as int),
{
    let ghost items = resolved_items(*canvas);
    let ghost root_items = canvas.root@.scene;
    let mut out: Vec<String> = Vec::new();
    assert(strings_view(out@) =~= swf_paths_upto(items, 0));
    let mut i: usize = 0;
    while i < canvas.root.scene.len()
        invariant
            i <= canvas.root.scene@.len(),
            items == resolved_items(*canvas),
            root_items == canvas.root@.scene,
            strings_view(out@) == swf_paths_upto(items, i as int),
        decreases canvas.root.scene@.len() - i,
    {
        assert(items[i as int] == canvas.root.scene@[i as int]@);
        let p = item_swf_path_exec(&canvas.root.scene[i]);
        push_path_once(&mut out, p);
        i += 1;
    }
    let ents = &canvas.children.entries;
    proof {
        crate::table::lemma_entry_seq(&canvas.children);
    }
    let mut c: usize = 0;
    while c < ents.len()
        invariant
            c <= ents@.len(),
            items == resolved_items(*canvas),
            ents@ == canvas.children.entries@,
            items == canvas.root@.scene + children_items(ents@, ents@.len() as int),
            strings_view(out@) == swf_paths_upto(
                items,
                (canvas.root@.scene.len() + children_items(ents@, c as int).len()) as int,
            ),
        decreases ents@.len() - c,
    {
        let rec = &ents[c].1;
        let ghost base: int = (canvas.root@.scene.len() + children_items(ents@, c as int).len()) as int;
        proof {
            lemma_children_items_prefix(ents@, c as int + 1, ents@.len() as int);
        }
        let mut k: usize = 0;
        while k < rec.scene.len()
            invariant
                k <= rec.scene@.len(),
                items == canvas.root@.scene + children_items(ents@, ents@.len() as int),
                base == canvas.root@.scene.len() + children_items(ents@, c as int).len(),
                c < ents@.len(),
                rec@ == ents@[c as int].1@,
                children_items(ents@, c as int + 1) == children_items(ents@, c as int) + rec@.scene,
                children_items(ents@, ents@.len() as int).subrange(0, children_items(ents@, c as int + 1).len() as int)
                    == children_items(ents@, c as int + 1),
                children_items(ents@, c as int + 1).len() <= children_items(ents@, ents@.len() as int).len(),
                strings_view(out@) == swf_paths_upto(items, base + k),
            decreases rec.scene@.len() - k,
        {
            proof {
                let ci = children_items(ents@, c as int);
                let ci1 = children_items(ents@, c as int + 1);
                let all = children_items(ents@, ents@.len() as int);
                let x = ci.len() + k;
                assert(ci1[x] == rec@.scene[k as int]);
                assert(all.subrange(0, ci1.len() as int)[x] == ci1[x]);
                assert(all[x] == ci1[x]);
                assert(items[canvas.root@.scene.len() + x] == all[x]);
            }
            assert(items[base + k] == rec.scene@[k as int]@);
            let p = item_swf_path_exec(&rec.scene[k]);
            push_path_once(&mut out, p);
            k += 1;
        }
        c += 1;
    }
    assert(items.len() == canvas.root@.scene.len() + children_items(ents@, ents@.len() as int).len());
    out
}

proof fn lemma_children_items_prefix(
    entries: Seq<(Vec<char>, crate::canvas::types::CanvasRecord)>,
    a: int,
    b: int,
)
    requires
        0 <= a <= b,
    ensures
        children_items(entries, b).subrange(0, children_items(entries, a).len() as int) == children_items(
            entries,
            a,
        ),
        children_items(entries, a).len() <= children_items(entries, b).len(),
    decreases b - a,
{
    if a < b {
        lemma_children_items_prefix(entries, a, b - 1);
        let cb1 = children_items(entries, b - 1);
        let ca = children_items(entries, a);
        assert(children_items(entries, b).subrange(0, ca.len() as int) =~= cb1.subrange(0, ca.len() as int));
    } else {
        assert(children_items(entries, b).subrange(0, children_items(entries, a).len() as int) =~= children_items(
            entries,
            a,
        ));
    }
}

/// The scene SWF references of a resolved canvas as candidates.
pub fn scene_swf_candidates(canvas: &crate::canvas::resolver::ResolvedCanvas) -> (r: Vec<SwfPathCandidate>)
    ensures
        cands_view(r@) == ranked(
            swf_paths_upto(resolved_items(*canvas), resolved_items(*canvas).len() as int),
            "scene_swf_reference"@,
        ),
{
    let paths = collect_swf_paths(canvas);
    rank_candidates(paths, "scene_swf_reference")
}


// ───────────────────────────── the first SWF that loads ─────────────────────────────

/// `loads` answers by path: two calls with the same path give the same
/// answer.
pub open spec fn answers_by_path<F: Fn(&str) -> bool>(loads: F) -> bool {
    forall|s1: &str, s2: &str, r1: bool, r2: bool|
        #![trigger call_ensures(loads, (s1,), r1), call_ensures(loads, (s2,), r2)]
        s1@ == s2@ && call_ensures(loads, (s1,), r1) && call_ensures(loads, (s2,), r2) ==> r1 == r2
}

/// What `loads` answers for the path `p`.
pub open spec fn load_answer<F: Fn(&str) -> bool>(loads: F, p: Seq<char>) -> bool {
    let (s, r) = choose|s: &str, r: bool| s@ == p && #[trigger] call_ensures(loads, (s,), r);
    r
}

/// The first of `paths` that `loads` accepts.
pub open spec fn first_loading<F: Fn(&str) -> bool>(paths: Seq<Seq<char>>, loads: F) -> Option<Seq<char>>
    decreases paths.len(),
{
    if paths.len() == 0 {
        None
    } else if load_answer(loads, paths[0]) {
        Some(paths[0])
    } else {
        first_loading(paths.drop_first(), loads)
    }
}

proof fn lemma_load_answer<F: Fn(&str) -> bool>(loads: F, s: &str, r: bool)
    requires
        answers_by_path(loads),
        call_ensures(loads, (s,), r),
    ensures
        load_answer(loads, s@) == r,
{
    assert(exists|s2: &str, r2: bool| s2@ == s@ && #[trigger] call_ensures(loads, (s2,), r2));
    let (s2, r2) = choose|s2: &str, r2: bool| s2@ == s@ && #[trigger] call_ensures(loads, (s2,), r2);
    assert(call_ensures(loads, (s2,), r2) && call_ensures(loads, (s,), r));
}

/// The first of `paths` whose SWF loads, asking `loads` of each in turn.
pub fn pick_first_valid_swf_source<F: Fn(&str) -> bool>(paths: &[String], loads: &F) -> (r: Option<String>)
    requires
        forall|s: &str| #[trigger] call_requires(*loads, (s,)),
    ensures
        r matches Some(p) ==> strings_view(paths@).contains(p@),
        answers_by_path(*loads) ==> match r {
            Some(p) => first_loading(strings_view(paths@), *loads) == Some(p@),
            None => first_loading(strings_view(paths@), *loads) is None,
        },
{
    let ghost pv = strings_view(paths@);
    let mut i: usize = 0;
    assert(pv.subrange(0, pv.len() as int) =~= pv);
    while i < paths.len()
        invariant
            forall|s: &str| #[trigger] call_requires(*loads, (s,)),
            i <= paths@.len(),
            pv == strings_view(paths@),
            answers_by_path(*loads) ==> first_loading(pv, *loads) == first_loading(
                pv.subrange(i as int, pv.len() as int),
                *loads,
            ),
        decreases paths@.len() - i,
    {
        let ghost rest = pv.subrange(i as int, pv.len() as int);
        assert(rest[0] == pv[i as int]);
        assert(pv[i as int] == paths@[i as int]@);
        let path = paths[i].as_str();
        let ok = loads(path);
        proof {
            if answers_by_path(*loads) {
                lemma_load_answer(*loads, path, ok);
            }
        }
        if ok {
            return Some(paths[i].clone());
        }
        assert(rest.drop_first() =~= pv.subrange(i + 1, pv.len() as int));
        i += 1;
    }
    None
}

/// The SWF a canvas is drawn from: for a Flash canvas the first of its
/// structural candidates that loads, else the first SWF its scene references
/// that loads.
pub open spec fn spec_select_swf_source<F: Fn(&str) -> bool>(
    root: JsonV,
    canvas: crate::canvas::resolver::ResolvedCanvas,
    manufacturer_id: Seq<char>,
    loads: F,
) -> Option<Seq<char>> {
    let flash = if crate::pipeline::spec_canvas_has_flash_renderer(root) {
        let name = match crate::pipeline::spec_canvas_record_name(root) {
            Some(n) => n,
            None => Seq::empty(),
        };
        first_loading(spec_flash_swf_candidates(name, manufacturer_id), loads)
    } else {
        None
    };
    match flash {
        Some(p) => Some(p),
        None => first_loading(swf_paths_upto(resolved_items(canvas), resolved_items(canvas).len() as int), loads),
    }
}

/// Every path a canvas's SWF may be drawn from: its structural candidates
/// when it is a Flash canvas, then the SWFs its scene references.
pub open spec fn swf_source_candidates(
    root: JsonV,
    canvas: crate::canvas::resolver::ResolvedCanvas,
    manufacturer_id: Seq<char>,
) -> Seq<Seq<char>> {
    let flash = if crate::pipeline::spec_canvas_has_flash_renderer(root) {
        let name = match crate::pipeline::spec_canvas_record_name(root) {
            Some(n) => n,
            None => Seq::empty(),
        };
        spec_flash_swf_candidates(name, manufacturer_id)
    } else {
        Seq::empty()
    };
    flash + swf_paths_upto(resolved_items(canvas), resolved_items(canvas).len() as int)
}

/// The SWF a canvas is drawn from (see [`spec_select_swf_source`]); whatever
/// `loads` answers, it is one of the canvas's candidates.
pub fn select_swf_source<F: Fn(&str) -> bool>(
    raw_root_json: &crate::json::Json,
    resolved: &crate::canvas::resolver::ResolvedCanvas,
    manufacturer_id: &str,
    loads: &F,
) -> (r: Option<String>)
    requires
        forall|s: &str| #[trigger] call_requires(*loads, (s,)),
    ensures
        r matches Some(p) ==> swf_source_candidates(raw_root_json@, *resolved, manufacturer_id@).contains(p@),
        answers_by_path(*loads) ==> match r {
            Some(p) => spec_select_swf_source(raw_root_json@, *resolved, manufacturer_id@, *loads) == Some(p@),
            None => spec_select_swf_source(raw_root_json@, *resolved, manufacturer_id@, *loads) is None,
        },
{
    let flash_source = if crate::pipeline::canvas_has_flash_renderer(raw_root_json) {
        let name = match crate::pipeline::canvas_record_name(raw_root_json) {
            Some(n) => n,
            None => String::new(),
        };
        proof {
            reveal_strlit("");
            assert(""@ =~= Seq::<char>::empty());
        }
        let candidates = flash_swf_candidates(name.as_str(), manufacturer_id);
        pick_first_valid_swf_source(candidates.as_slice(), loads)
    } else {
        None
    };
    let ghost cands = swf_source_candidates(raw_root_json@, *resolved, manufacturer_id@);
    let ghost scene = swf_paths_upto(resolved_items(*resolved), resolved_items(*resolved).len() as int);
    let ghost flash = cands.subrange(0, cands.len() - scene.len());
    assert(cands.subrange(cands.len() - scene.len(), cands.len() as int) =~= scene);
    assert(flash =~= (if crate::pipeline::spec_canvas_has_flash_renderer(raw_root_json@) {
        spec_flash_swf_candidates(
            match crate::pipeline::spec_canvas_record_name(raw_root_json@) {
                Some(n) => n,
                None => Seq::empty(),
            },
            manufacturer_id@,
        )
    } else {
        Seq::empty()
    }));
    match flash_source {
        Some(p) => {
            proof {
                let i = choose|i: int| 0 <= i < flash.len() && flash[i] == p@;
                assert(cands[i] == p@);
            }
            Some(p)
        },
        None => {
            let swf_paths = collect_swf_paths(resolved);
            let r = pick_first_valid_swf_source(swf_paths.as_slice(), loads);
            proof {
                if r is Some {
                    let pp = r->0@;
                    let i = choose|i: int| 0 <= i < scene.len() && scene[i] == pp;
                    assert(cands[cands.len() - scene.len() + i] == pp);
                }
            }
            r
        },
    }
}

} // verus!
