//! The uniform matte of a rasterised custom shape: the dominant opaque
//! colour, and the part of it that is connected to the image border, which
//! is cleared to transparent.
//!
//! An image is given as its raw RGBA bytes, row by row, four bytes a pixel.
use vstd::prelude::*;

verus! {

/// An opaque colour.
pub type Rgb = (u8, u8, u8);

/// The pixel at index `i`.
pub open spec fn pixel(data: Seq<u8>, i: int) -> (u8, u8, u8, u8) {
    (data[4 * i], data[4 * i + 1], data[4 * i + 2], data[4 * i + 3])
}

/// The pixel at index `i` is the opaque colour `c`.
pub open spec fn is_colour(data: Seq<u8>, i: int, c: Rgb) -> bool {
    pixel(data, i) == (c.0, c.1, c.2, 255u8)
}

/// How many of the first `k` pixels have alpha `a`.
pub open spec fn count_alpha(data: Seq<u8>, a: u8, k: int) -> nat
    decreases k,
{
    if k <= 0 {
        0
    } else {
        count_alpha(data, a, k - 1) + if data[4 * (k - 1) + 3] == a {
            1nat
        } else {
            0nat
        }
    }
}

/// How many of the first `k` pixels are the opaque colour `c`.
pub open spec fn count_colour(data: Seq<u8>, c: Rgb, k: int) -> nat
    decreases k,
{
    if k <= 0 {
        0
    } else {
        count_colour(data, c, k - 1) + if is_colour(data, k - 1, c) {
            1nat
        } else {
            0nat
        }
    }
}

/// What the matte decision counts: transparent pixels, opaque pixels, and
/// the most frequent opaque colour with its count (`None` when no pixel is
/// opaque).
pub struct MatteStats {
    pub transparent: usize,
    pub opaque: usize,
    pub matte: Option<(Rgb, usize)>,
}
proof fn lemma_count_bound(data: Seq<u8>, a: u8, c: Rgb, k: int)
    requires
        k >= 0,
    ensures
        count_alpha(data, a, k) <= k,
        count_colour(data, c, k) <= k,
    decreases k,
{
    if k > 0 {
        lemma_count_bound(data, a, c, k - 1);
    }
}

proof fn lemma_opaque_has_colour(data: Seq<u8>, k: int) -> (c: Rgb)
    requires
        count_alpha(data, 255u8, k) > 0,
    ensures
        count_colour(data, c, k) > 0,
    decreases k,
{
    if count_alpha(data, 255u8, k - 1) > 0 {
        let c = lemma_opaque_has_colour(data, k - 1);
        c
    } else {
        let p = pixel(data, k - 1);
        (p.0, p.1, p.2)
    }
}

fn find_colour(colours: &Vec<(Rgb, usize)>, c: Rgb) -> (r: Option<usize>)
    ensures
        match r {
            Some(j) => j < colours@.len() && colours@[j as int].0 == c,
            None => forall|j: int| 0 <= j < colours@.len() ==> colours@[j].0 != c,
        },
{
    let mut j: usize = 0;
    while j < colours.len()
        invariant
            j <= colours@.len(),
            forall|k: int| 0 <= k < j ==> colours@[k].0 != c,
        decreases colours@.len() - j,
    {
        let e = colours[j].0;
        if e.0 == c.0 && e.1 == c.1 && e.2 == c.2 {
            return Some(j);
        }
        j += 1;
    }
    None
}

/// Count the transparent and the opaque pixels, and find a most frequent
/// opaque colour (which of equally frequent colours is left open).
#[verifier::rlimit(40)]
pub fn matte_stats(data: &[u8]) -> (r: MatteStats)
    requires
        data@.len() % 4 == 0,
    ensures
        ({
            let n = data@.len() as int / 4;
            &&& r.transparent == count_alpha(data@, 0u8, n)
            &&& r.opaque == count_alpha(data@, 255u8, n)
            &&& match r.matte {
                None => r.opaque == 0,
                Some((c, m)) => m == count_colour(data@, c, n) && m > 0 && forall|c2: Rgb|
                    #[trigger] count_colour(data@, c2, n) <= m,
            }
        }),
{
    let n = data.len() / 4;
    assert(4 * n == data@.len());
    assert(data@.len() <= usize::MAX);
    let mut transparent: usize = 0;
    let mut opaque: usize = 0;
    let mut colours: Vec<(Rgb, usize)> = Vec::new();
    let mut i: usize = 0;
    while i < n
        invariant
            n == data@.len() / 4,
            4 * n == data@.len(),
            4 * n <= usize::MAX,
            i <= n,
            transparent == count_alpha(data@, 0u8, i as int),
            opaque == count_alpha(data@, 255u8, i as int),
            forall|j: int| 0 <= j < colours@.len() ==> #[trigger] colours@[j].1 == count_colour(data@, colours@[j].0, i as int),
            forall|j: int| 0 <= j < colours@.len() ==> #[trigger] colours@[j].1 > 0,
            forall|j: int, l: int| 0 <= j < l < colours@.len() ==> colours@[j].0 != colours@[l].0,
            forall|c: Rgb| #[trigger] count_colour(data@, c, i as int) > 0 ==> exists|j: int|
                0 <= j < colours@.len() && colours@[j].0 == c,
        decreases n - i,
    {
        proof {
            lemma_count_bound(data@, 0u8, (0u8, 0u8, 0u8), i as int);
            lemma_count_bound(data@, 255u8, (0u8, 0u8, 0u8), i as int);
        }
        let r = data[4 * i];
        let g = data[4 * i + 1];
        let b = data[4 * i + 2];
        let a = data[4 * i + 3];
        let ghost k = i as int + 1;
        assert(pixel(data@, i as int) == (r, g, b, a));
        if a == 0 {
            transparent += 1;
        }
        if a == 255 {
            opaque += 1;
            let c: Rgb = (r, g, b);
            let ghost before = colours@;
            match find_colour(&colours, c) {
                Some(j) => {
                    let m = colours[j].1;
                    proof {
                        lemma_count_bound(data@, 0u8, c, i as int);
                        assert(before[j as int].1 == count_colour(data@, c, i as int));
                    }
                    colours.set(j, (c, m + 1));
                },
                None => {
                    assert(count_colour(data@, c, i as int) == 0) by {
                        if count_colour(data@, c, i as int) > 0 {
                            let jj = choose|jj: int| 0 <= jj < before.len() && before[jj].0 == c;
                            assert(before[jj].0 != c);
                        }
                    }
                    colours.push((c, 1));
                },
            }
            assert forall|j: int| 0 <= j < colours@.len() implies #[trigger] colours@[j].1 == count_colour(
                data@,
                colours@[j].0,
                k,
            ) by {
                if j < before.len() {
                    let x = before[j].0;
                    assert(count_colour(data@, x, i as int) == before[j].1);
                    assert(count_colour(data@, x, k) == count_colour(data@, x, i as int) + if is_colour(
                        data@,
                        i as int,
                        x,
                    ) {
                        1nat
                    } else {
                        0nat
                    });
                    if x == c {
                        assert(colours@[j].1 == before[j].1 + 1);
                    } else {
                        assert(!is_colour(data@, i as int, x));
                        assert(colours@[j] == before[j]);
                    }
                } else {
                    assert(colours@[j] == (c, 1usize));
                }
            }
            assert forall|c2: Rgb| #[trigger] count_colour(data@, c2, k) > 0 implies exists|j: int|
                0 <= j < colours@.len() && colours@[j].0 == c2 by {
                if c2 == c {
                    if exists|j: int| 0 <= j < before.len() && before[j].0 == c {
                        let j = choose|j: int| 0 <= j < before.len() && before[j].0 == c;
                        assert(colours@[j].0 == c);
                    } else {
                        assert(colours@[colours@.len() - 1].0 == c);
                    }
                } else {
                    assert(count_colour(data@, c2, i as int) > 0);
                    let j = choose|j: int| 0 <= j < before.len() && before[j].0 == c2;
                    assert(colours@[j].0 == c2);
                }
            }
        } else {
            assert forall|c2: Rgb| #[trigger] count_colour(data@, c2, k) == count_colour(data@, c2, i as int) by {}
        }
        i += 1;
    }
    let mut best: Option<(Rgb, usize)> = None;
    let mut j: usize = 0;
    while j < colours.len()
        invariant
            j <= colours@.len(),
            forall|k: int| 0 <= k < colours@.len() ==> #[trigger] colours@[k].1 == count_colour(data@, colours@[k].0, n as int),
            forall|k: int| 0 <= k < colours@.len() ==> #[trigger] colours@[k].1 > 0,
            match best {
                None => j == 0,
                Some((c, m)) => m == count_colour(data@, c, n as int) && m > 0 && forall|k: int|
                    0 <= k < j ==> #[trigger] colours@[k].1 <= m,
            },
        decreases colours@.len() - j,
    {
        let e = colours[j];
        match best {
            None => {
                best = Some(e);
            },
            Some((_, m)) => {
                if e.1 > m {
                    best = Some(e);
                }
            },
        }
        j += 1;
    }
    proof {
        if opaque > 0 {
            let c = lemma_opaque_has_colour(data@, n as int);
            let k = choose|k: int| 0 <= k < colours@.len() && colours@[k].0 == c;
            assert(colours@[k].0 == c);
        }
        if let Some((c, m)) = best {
            assert forall|c2: Rgb| #[trigger] count_colour(data@, c2, n as int) <= m by {
                if count_colour(data@, c2, n as int) > 0 {
                    let k = choose|k: int| 0 <= k < colours@.len() && colours@[k].0 == c2;
                    assert(colours@[k].1 <= m);
                }
            }
        }
    }
    MatteStats { transparent, opaque, matte: best }
}


// ───────────────────────────── the border-connected matte ─────────────────────────────

/// The pixel at column `x`, row `y` of an image `w` pixels wide.
pub open spec fn pixel_xy(data: Seq<u8>, w: int, x: int, y: int) -> (u8, u8, u8, u8) {
    pixel(data, y * w + x)
}

/// Column `x`, row `y` lies in a `w` by `h` image and holds the opaque
/// colour `c`.
pub open spec fn matte_at(data: Seq<u8>, w: int, h: int, c: Rgb, x: int, y: int) -> bool {
    0 <= x < w && 0 <= y < h && pixel_xy(data, w, x, y) == (c.0, c.1, c.2, 255u8)
}

/// Column `x`, row `y` lies on the edge of a `w` by `h` image.
pub open spec fn on_border(w: int, h: int, x: int, y: int) -> bool {
    x == 0 || y == 0 || x == w - 1 || y == h - 1
}

/// Two pixels share an edge.
pub open spec fn adjacent(p: (int, int), q: (int, int)) -> bool {
    ||| p.0 == q.0 && (p.1 == q.1 + 1 || q.1 == p.1 + 1)
    ||| p.1 == q.1 && (p.0 == q.0 + 1 || q.0 == p.0 + 1)
}

/// A path of matte pixels that starts on the image edge, each pixel next to
/// the one before.
pub open spec fn matte_path(data: Seq<u8>, w: int, h: int, c: Rgb, path: Seq<(int, int)>) -> bool {
    &&& path.len() > 0
    &&& on_border(w, h, path[0].0, path[0].1)
    &&& forall|k: int| 0 <= k < path.len() ==> matte_at(data, w, h, c, (#[trigger] path[k]).0, path[k].1)
    &&& forall|k: int| 0 <= k < path.len() - 1 ==> adjacent(#[trigger] path[k], path[k + 1])
}

/// The pixel at column `x`, row `y` is matte reached from the image edge
/// through matte pixels.
pub open spec fn border_connected(data: Seq<u8>, w: int, h: int, c: Rgb, x: int, y: int) -> bool {
    exists|path: Seq<(int, int)>| matte_path(data, w, h, c, path) && path.last() == (x, y)
}

/// Whether a pixel is marked in a `w`-wide mask.
pub open spec fn marked(v: Seq<bool>, w: int, x: int, y: int) -> bool {
    v[y * w + x]
}

/// How many pixels of a mask are unmarked.
pub open spec fn unmarked(v: Seq<bool>) -> nat
    decreases v.len(),
{
    if v.len() == 0 {
        0
    } else {
        unmarked(v.drop_last()) + if v.last() {
            0nat
        } else {
            1nat
        }
    }
}

/// The pixel at column `x`, row `y` waits on the stack.
pub open spec fn stacked(s: Seq<(u32, u32)>, x: int, y: int) -> bool {
    exists|k: int| 0 <= k < s.len() && s[k].0 == x && s[k].1 == y
}

/// Every matte neighbour of column `x`, row `y` is marked.
pub open spec fn neighbours_marked(data: Seq<u8>, w: int, h: int, c: Rgb, v: Seq<bool>, x: int, y: int) -> bool {
    &&& matte_at(data, w, h, c, x - 1, y) ==> marked(v, w, x - 1, y)
    &&& matte_at(data, w, h, c, x + 1, y) ==> marked(v, w, x + 1, y)
    &&& matte_at(data, w, h, c, x, y - 1) ==> marked(v, w, x, y - 1)
    &&& matte_at(data, w, h, c, x, y + 1) ==> marked(v, w, x, y + 1)
}

pub(crate) proof fn lemma_index(w: int, h: int, x: int, y: int)
    requires
        0 <= x < w,
        0 <= y < h,
    ensures
        0 <= y * w + x < w * h,
        (y + 1) * w <= w * h,
{
    assert(0 <= y * w) by (nonlinear_arith)
        requires
            0 <= y,
            0 <= w,
    ;
    assert((y + 1) * w <= w * h) by (nonlinear_arith)
        requires
            0 <= y < h,
            0 <= w,
    ;
    assert((y + 1) * w == y * w + w) by (nonlinear_arith);
}

proof fn lemma_index_injective(w: int, h: int, x1: int, y1: int, x2: int, y2: int)
    requires
        0 <= x1 < w,
        0 <= y1 < h,
        0 <= x2 < w,
        0 <= y2 < h,
        y1 * w + x1 == y2 * w + x2,
    ensures
        x1 == x2 && y1 == y2,
{
    if y1 < y2 {
        assert(y1 * w + w <= y2 * w) by (nonlinear_arith)
            requires
                y1 < y2,
                0 <= w,
        ;
    } else if y2 < y1 {
        assert(y2 * w + w <= y1 * w) by (nonlinear_arith)
            requires
                y2 < y1,
                0 <= w,
        ;
    }
}

proof fn lemma_unmarked_mark(v: Seq<bool>, i: int)
    requires
        0 <= i < v.len(),
        !v[i],
    ensures
        unmarked(v.update(i, true)) + 1 == unmarked(v),
    decreases v.len(),
{
    let u = v.update(i, true);
    if i == v.len() - 1 {
        assert(u.drop_last() =~= v.drop_last());
    } else {
        assert(u.drop_last() =~= v.drop_last().update(i, true));
        lemma_unmarked_mark(v.drop_last(), i);
    }
}

/// A matte pixel next to a border-connected one is border-connected.
proof fn lemma_extend(data: Seq<u8>, w: int, h: int, c: Rgb, x: int, y: int, nx: int, ny: int)
    requires
        border_connected(data, w, h, c, x, y),
        adjacent((x, y), (nx, ny)),
        matte_at(data, w, h, c, nx, ny),
    ensures
        border_connected(data, w, h, c, nx, ny),
{
    let path = choose|path: Seq<(int, int)>| matte_path(data, w, h, c, path) && path.last() == (x, y);
    let p2 = path.push((nx, ny));
    assert forall|k: int| 0 <= k < p2.len() implies matte_at(data, w, h, c, (#[trigger] p2[k]).0, p2[k].1) by {
        if k < path.len() {
            assert(p2[k] == path[k]);
        }
    }
    assert forall|k: int| 0 <= k < p2.len() - 1 implies adjacent(#[trigger] p2[k], p2[k + 1]) by {
        if k < path.len() - 1 {
            assert(p2[k] == path[k] && p2[k + 1] == path[k + 1]);
        } else {
            assert(p2[k] == path.last());
        }
    }
    assert(p2.last() == (nx, ny));
}

/// Mark the pixel at column `x`, row `y` and put it on the stack when it is
/// unmarked matte.
fn visit(
    data: &[u8],
    w: u32,
    h: u32,
    c: Rgb,
    marks: &mut Vec<bool>,
    stack: &mut Vec<(u32, u32)>,
    x: u32,
    y: u32,
    Ghost(from): Ghost<Option<(int, int)>>,
)
    requires
        data@.len() == 4 * ((w as int) * (h as int)),
        x < w,
        y < h,
        old(marks)@.len() == (w as int) * (h as int),
        match from {
            Some(p) => 0 <= p.0 < w && 0 <= p.1 < h && border_connected(data@, w as int, h as int, c, p.0, p.1)
                && adjacent(p, (x as int, y as int)),
            None => on_border(w as int, h as int, x as int, y as int),
        },
        forall|a: int, b: int|
            0 <= a < w && 0 <= b < h && #[trigger] marked(old(marks)@, w as int, a, b) ==> border_connected(
                data@,
                w as int,
                h as int,
                c,
                a,
                b,
            ),
        forall|k: int|
            0 <= k < old(stack)@.len() ==> (#[trigger] old(stack)@[k]).0 < w && old(stack)@[k].1 < h && marked(
                old(marks)@,
                w as int,
                old(stack)@[k].0 as int,
                old(stack)@[k].1 as int,
            ),
        forall|k: int, l: int| 0 <= k < l < old(stack)@.len() ==> old(stack)@[k] != old(stack)@[l],
    ensures
        final(marks)@.len() == old(marks)@.len(),
        forall|a: int, b: int|
            0 <= a < w && 0 <= b < h && #[trigger] marked(final(marks)@, w as int, a, b) ==> border_connected(
                data@,
                w as int,
                h as int,
                c,
                a,
                b,
            ),
        forall|k: int|
            0 <= k < final(stack)@.len() ==> (#[trigger] final(stack)@[k]).0 < w && final(stack)@[k].1 < h
                && marked(final(marks)@, w as int, final(stack)@[k].0 as int, final(stack)@[k].1 as int),
        forall|k: int, l: int| 0 <= k < l < final(stack)@.len() ==> final(stack)@[k] != final(stack)@[l],
        matte_at(data@, w as int, h as int, c, x as int, y as int) ==> marked(
            final(marks)@,
            w as int,
            x as int,
            y as int,
        ),
        forall|a: int, b: int|
            0 <= a < w && 0 <= b < h && #[trigger] marked(old(marks)@, w as int, a, b) ==> marked(
                final(marks)@,
                w as int,
                a,
                b,
            ),
        forall|a: int, b: int|
            0 <= a < w && 0 <= b < h && !marked(old(marks)@, w as int, a, b) && #[trigger] marked(
                final(marks)@,
                w as int,
                a,
                b,
            ) ==> a == x && b == y && stacked(final(stack)@, a, b),
        forall|a: int, b: int| #[trigger] stacked(old(stack)@, a, b) ==> stacked(final(stack)@, a, b),
        forall|a: int, b: int|
            #[trigger] stacked(final(stack)@, a, b) ==> stacked(old(stack)@, a, b) || (a == x && b == y),
        (final(stack)@.len() == old(stack)@.len() && unmarked(final(marks)@) == unmarked(old(marks)@)) || (
        final(stack)@.len() == old(stack)@.len() + 1 && unmarked(final(marks)@) + 1 == unmarked(old(marks)@)),
{
    proof {
        lemma_index(w as int, h as int, x as int, y as int);
    }
    assert(data@.len() == data.len());
    assert((y as int) * (w as int) + (x as int) < (w as int) * (h as int));
    assert(4 * ((w as int) * (h as int)) <= usize::MAX);
    let idx = (y as usize) * (w as usize) + (x as usize);
    let base = 4 * idx;
    if marks[idx] {
        return;
    }
    if !(data[base] == c.0 && data[base + 1] == c.1 && data[base + 2] == c.2 && data[base + 3] == 255) {
        assert(!matte_at(data@, w as int, h as int, c, x as int, y as int));
        return;
    }
    assert(matte_at(data@, w as int, h as int, c, x as int, y as int));
    proof {
        match from {
            Some(p) => {
                lemma_extend(data@, w as int, h as int, c, p.0, p.1, x as int, y as int);
            },
            None => {
                let path = seq![(x as int, y as int)];
                assert(matte_path(data@, w as int, h as int, c, path));
                assert(path.last() == (x as int, y as int));
                assert(border_connected(data@, w as int, h as int, c, x as int, y as int));
            },
        }
        lemma_unmarked_mark(marks@, idx as int);
    }
    assert(border_connected(data@, w as int, h as int, c, x as int, y as int));
    let ghost m0 = marks@;
    let ghost s0 = stack@;
    marks.set(idx, true);
    stack.push((x, y));
    assert forall|a: int, b: int| 0 <= a < w && 0 <= b < h && #[trigger] marked(m0, w as int, a, b) != marked(
        marks@,
        w as int,
        a,
        b,
    ) implies a == x && b == y by {
        lemma_index(w as int, h as int, a, b);
        if b * (w as int) + a == idx as int {
            lemma_index_injective(w as int, h as int, a, b, x as int, y as int);
        }
    }
    assert forall|a: int, b: int| 0 <= a < w && 0 <= b < h && #[trigger] marked(marks@, w as int, a, b) implies border_connected(
        data@,
        w as int,
        h as int,
        c,
        a,
        b,
    ) by {
        if !marked(m0, w as int, a, b) {
            assert(marked(m0, w as int, a, b) != marked(marks@, w as int, a, b));
            assert(a == x && b == y);
        } else {
            assert(marked(old(marks)@, w as int, a, b));
        }
    }
    assert forall|k: int| 0 <= k < stack@.len() implies (#[trigger] stack@[k]).0 < w && stack@[k].1 < h && marked(
        marks@,
        w as int,
        stack@[k].0 as int,
        stack@[k].1 as int,
    ) by {
        if k < s0.len() {
            assert(stack@[k] == s0[k]);
            lemma_index(w as int, h as int, s0[k].0 as int, s0[k].1 as int);
        }
    }
    assert forall|k: int, l: int| 0 <= k < l < stack@.len() implies stack@[k] != stack@[l] by {
        if l == s0.len() {
            assert(marked(m0, w as int, s0[k].0 as int, s0[k].1 as int));
        }
    }
    assert forall|a: int, b: int| #[trigger] stacked(s0, a, b) implies stacked(stack@, a, b) by {
        let k = choose|k: int| 0 <= k < s0.len() && s0[k].0 == a && s0[k].1 == b;
        assert(stack@[k] == s0[k]);
    }
    assert forall|a: int, b: int| #[trigger] stacked(stack@, a, b) implies stacked(s0, a, b) || (a == x && b == y)
        by {
        let k = choose|k: int| 0 <= k < stack@.len() && stack@[k].0 == a && stack@[k].1 == b;
        if k < s0.len() {
            assert(stack@[k] == s0[k]);
        }
    }
    assert(stack@[s0.len() as int] == (x, y));
}


/// The facts every step of the fill keeps: marked pixels are
/// border-connected matte; the stack holds marked pixels of the image, each
/// once.
pub open spec fn fill_sound(data: Seq<u8>, w: int, h: int, c: Rgb, v: Seq<bool>, s: Seq<(u32, u32)>) -> bool {
    &&& v.len() == w * h
    &&& forall|x: int, y: int|
        0 <= x < w && 0 <= y < h && #[trigger] marked(v, w, x, y) ==> border_connected(data, w, h, c, x, y)
    &&& forall|k: int|
        0 <= k < s.len() ==> (#[trigger] s[k]).0 < w && s[k].1 < h && marked(v, w, s[k].0 as int, s[k].1 as int)
    &&& forall|k: int, l: int| 0 <= k < l < s.len() ==> s[k] != s[l]
}

/// Visit the four neighbours of the border-connected pixel at column `x`,
/// row `y`.
fn visit_neighbours(
    data: &[u8],
    w: u32,
    h: u32,
    c: Rgb,
    marks: &mut Vec<bool>,
    stack: &mut Vec<(u32, u32)>,
    x: u32,
    y: u32,
)
    requires
        data@.len() == 4 * ((w as int) * (h as int)),
        x < w,
        y < h,
        border_connected(data@, w as int, h as int, c, x as int, y as int),
        fill_sound(data@, w as int, h as int, c, old(marks)@, old(stack)@),
    ensures
        fill_sound(data@, w as int, h as int, c, final(marks)@, final(stack)@),
        neighbours_marked(data@, w as int, h as int, c, final(marks)@, x as int, y as int),
        forall|a: int, b: int|
            0 <= a < w && 0 <= b < h && #[trigger] marked(old(marks)@, w as int, a, b) ==> marked(
                final(marks)@,
                w as int,
                a,
                b,
            ),
        forall|a: int, b: int|
            0 <= a < w && 0 <= b < h && !marked(old(marks)@, w as int, a, b) && #[trigger] marked(
                final(marks)@,
                w as int,
                a,
                b,
            ) ==> stacked(final(stack)@, a, b),
        forall|a: int, b: int| #[trigger] stacked(old(stack)@, a, b) ==> stacked(final(stack)@, a, b),
        final(stack)@.len() + unmarked(final(marks)@) == old(stack)@.len() + unmarked(old(marks)@),
        final(stack)@.len() >= old(stack)@.len(),
{
    let ghost xi = x as int;
    let ghost yi = y as int;
    let ghost m0 = marks@;
    let ghost s0 = stack@;
    if x > 0 {
        visit(data, w, h, c, marks, stack, x - 1, y, Ghost(Some((xi, yi))));
    }
    let ghost m1 = marks@;
    let ghost s1 = stack@;
    if x + 1 < w {
        visit(data, w, h, c, marks, stack, x + 1, y, Ghost(Some((xi, yi))));
    }
    let ghost m2 = marks@;
    let ghost s2 = stack@;
    if y > 0 {
        visit(data, w, h, c, marks, stack, x, y - 1, Ghost(Some((xi, yi))));
    }
    let ghost m3 = marks@;
    let ghost s3 = stack@;
    if y + 1 < h {
        visit(data, w, h, c, marks, stack, x, y + 1, Ghost(Some((xi, yi))));
    }
    assert forall|a: int, b: int|
        0 <= a < w && 0 <= b < h && !marked(m0, w as int, a, b) && #[trigger] marked(
            marks@,
            w as int,
            a,
            b,
        ) implies stacked(stack@, a, b) by {
        if marked(m1, w as int, a, b) {
            assert(stacked(s1, a, b));
            assert(stacked(s2, a, b));
            assert(stacked(s3, a, b));
        } else if marked(m2, w as int, a, b) {
            assert(stacked(s2, a, b));
            assert(stacked(s3, a, b));
        } else if marked(m3, w as int, a, b) {
            assert(stacked(s3, a, b));
        }
    }
    assert forall|a: int, b: int| #[trigger] stacked(s0, a, b) implies stacked(stack@, a, b) by {
        assert(stacked(s1, a, b));
        assert(stacked(s2, a, b));
        assert(stacked(s3, a, b));
    }
    assert forall|a: int, b: int| 0 <= a < w && 0 <= b < h && #[trigger] marked(m0, w as int, a, b) implies marked(
        marks@,
        w as int,
        a,
        b,
    ) by {
        assert(marked(m1, w as int, a, b));
        assert(marked(m2, w as int, a, b));
        assert(marked(m3, w as int, a, b));
    }
    assert(neighbours_marked(data@, w as int, h as int, c, marks@, x as int, y as int)) by {
        if matte_at(data@, w as int, h as int, c, xi - 1, yi) {
            assert(marked(m1, w as int, xi - 1, yi));
            assert(marked(m2, w as int, xi - 1, yi));
            assert(marked(m3, w as int, xi - 1, yi));
        }
        if matte_at(data@, w as int, h as int, c, xi + 1, yi) {
            assert(marked(m2, w as int, xi + 1, yi));
            assert(marked(m3, w as int, xi + 1, yi));
        }
        if matte_at(data@, w as int, h as int, c, xi, yi - 1) {
            assert(marked(m3, w as int, xi, yi - 1));
        }
    }
}

/// Every matte pixel on the image edge is marked.
pub open spec fn seeds_marked(data: Seq<u8>, w: int, h: int, c: Rgb, v: Seq<bool>) -> bool {
    forall|x: int, y: int|
        on_border(w, h, x, y) && #[trigger] matte_at(data, w, h, c, x, y) ==> marked(v, w, x, y)
}

/// Every marked pixel has its matte neighbours marked.
pub open spec fn fill_closed(data: Seq<u8>, w: int, h: int, c: Rgb, v: Seq<bool>) -> bool {
    forall|x: int, y: int|
        0 <= x < w && 0 <= y < h && #[trigger] marked(v, w, x, y) ==> neighbours_marked(data, w, h, c, v, x, y)
}

proof fn lemma_path_marked(data: Seq<u8>, w: int, h: int, c: Rgb, v: Seq<bool>, path: Seq<(int, int)>, k: int)
    requires
        matte_path(data, w, h, c, path),
        seeds_marked(data, w, h, c, v),
        fill_closed(data, w, h, c, v),
        0 <= k < path.len(),
    ensures
        marked(v, w, path[k].0, path[k].1),
    decreases k,
{
    assert(matte_at(data, w, h, c, path[k].0, path[k].1));
    if k > 0 {
        lemma_path_marked(data, w, h, c, v, path, k - 1);
        assert(adjacent(path[k - 1], path[k]));
        assert(matte_at(data, w, h, c, path[k - 1].0, path[k - 1].1));
        assert(neighbours_marked(data, w, h, c, v, path[k - 1].0, path[k - 1].1));
    }
}

proof fn lemma_pop(data: Seq<u8>, w: int, h: int, c: Rgb, m: Seq<bool>, s0: Seq<(u32, u32)>, s1: Seq<(u32, u32)>)
    requires
        fill_sound(data, w, h, c, m, s0),
        s0.len() > 0,
        s1 == s0.subrange(0, s0.len() - 1),
    ensures
        fill_sound(data, w, h, c, m, s1),
        !stacked(s1, s0[s0.len() - 1].0 as int, s0[s0.len() - 1].1 as int),
        s0[s0.len() - 1].0 < w && s0[s0.len() - 1].1 < h,
        marked(m, w, s0[s0.len() - 1].0 as int, s0[s0.len() - 1].1 as int),
        forall|k: int| 0 <= k < s1.len() ==> s1[k] == s0[k],
{
    let top = s0[s0.len() - 1];
    assert(top == s0[s0.len() - 1]);
    if stacked(s1, top.0 as int, top.1 as int) {
        let k = choose|k: int| 0 <= k < s1.len() && s1[k].0 == top.0 && s1[k].1 == top.1;
        assert(s0[k] == s1[k]);
        assert(s0[k] != s0[s0.len() - 1]);
    }
    assert forall|k: int| 0 <= k < s1.len() implies (#[trigger] s1[k]).0 < w && s1[k].1 < h && marked(
        m,
        w,
        s1[k].0 as int,
        s1[k].1 as int,
    ) by {
        assert(s0[k] == s1[k]);
    }
    assert forall|k: int, l: int| 0 <= k < l < s1.len() implies s1[k] != s1[l] by {
        assert(s0[k] == s1[k] && s0[l] == s1[l]);
    }
}

proof fn lemma_seeds_stay(data: Seq<u8>, w: int, h: int, c: Rgb, m0: Seq<bool>, m1: Seq<bool>)
    requires
        seeds_marked(data, w, h, c, m0),
        forall|a: int, b: int| 0 <= a < w && 0 <= b < h && #[trigger] marked(m0, w, a, b) ==> marked(m1, w, a, b),
    ensures
        seeds_marked(data, w, h, c, m1),
{
    assert forall|a: int, b: int| on_border(w, h, a, b) && #[trigger] matte_at(data, w, h, c, a, b) implies marked(
        m1,
        w,
        a,
        b,
    ) by {
        assert(marked(m0, w, a, b));
    }
}

proof fn lemma_fill_step(
    data: Seq<u8>,
    w: int,
    h: int,
    c: Rgb,
    m0: Seq<bool>,
    s0: Seq<(u32, u32)>,
    s1: Seq<(u32, u32)>,
    m2: Seq<bool>,
    s2: Seq<(u32, u32)>,
    x: int,
    y: int,
)
    requires
        s1.len() + 1 == s0.len(),
        forall|k: int| 0 <= k < s1.len() ==> s1[k] == s0[k],
        s0[s0.len() - 1].0 == x && s0[s0.len() - 1].1 == y,
        forall|a: int, b: int|
            0 <= a < w && 0 <= b < h && #[trigger] marked(m0, w, a, b) && !stacked(s0, a, b) ==> neighbours_marked(
                data,
                w,
                h,
                c,
                m0,
                a,
                b,
            ),
        neighbours_marked(data, w, h, c, m2, x, y),
        forall|a: int, b: int| 0 <= a < w && 0 <= b < h && #[trigger] marked(m0, w, a, b) ==> marked(m2, w, a, b),
        forall|a: int, b: int|
            0 <= a < w && 0 <= b < h && !marked(m0, w, a, b) && #[trigger] marked(m2, w, a, b) ==> stacked(s2, a, b),
        forall|a: int, b: int| #[trigger] stacked(s1, a, b) ==> stacked(s2, a, b),
    ensures
        forall|a: int, b: int|
            0 <= a < w && 0 <= b < h && #[trigger] marked(m2, w, a, b) && !stacked(s2, a, b) ==> neighbours_marked(
                data,
                w,
                h,
                c,
                m2,
                a,
                b,
            ),
{
    assert forall|a: int, b: int|
        0 <= a < w && 0 <= b < h && #[trigger] marked(m2, w, a, b) && !stacked(s2, a, b) implies neighbours_marked(
        data,
        w,
        h,
        c,
        m2,
        a,
        b,
    ) by {
        if a == x && b == y {
        } else if !marked(m0, w, a, b) {
        } else {
            if stacked(s0, a, b) {
                let k = choose|k: int| 0 <= k < s0.len() && s0[k].0 == a && s0[k].1 == b;
                assert(k < s1.len());
                assert(s1[k] == s0[k]);
                assert(stacked(s1, a, b));
            }
            assert(neighbours_marked(data, w, h, c, m0, a, b));
            if matte_at(data, w, h, c, a - 1, b) {
                assert(marked(m0, w, a - 1, b));
            }
            if matte_at(data, w, h, c, a + 1, b) {
                assert(marked(m0, w, a + 1, b));
            }
            if matte_at(data, w, h, c, a, b - 1) {
                assert(marked(m0, w, a, b - 1));
            }
            if matte_at(data, w, h, c, a, b + 1) {
                assert(marked(m0, w, a, b + 1));
            }
        }
    }
}

/// The matte pixels connected to the image edge: a flood fill from every
/// matte pixel on the edge.
#[verifier::rlimit(40)]
fn border_matte_mask(data: &[u8], w: u32, h: u32, c: Rgb) -> (r: Vec<bool>)
    requires
        data@.len() == 4 * ((w as int) * (h as int)),
    ensures
        r@.len() == (w as int) * (h as int),
        forall|x: int, y: int|
            0 <= x < w && 0 <= y < h ==> #[trigger] marked(r@, w as int, x, y) == border_connected(
                data@,
                w as int,
                h as int,
                c,
                x,
                y,
            ),
{
    assert(data@.len() == data.len());
    assert(4 * ((w as int) * (h as int)) <= usize::MAX);
    let total = (w as usize) * (h as usize);
    let mut marks: Vec<bool> = Vec::new();
    while marks.len() < total
        invariant
            marks@.len() <= total,
            total == (w as int) * (h as int),
            forall|k: int| 0 <= k < marks@.len() ==> !#[trigger] marks@[k],
        decreases total - marks@.len(),
    {
        marks.push(false);
    }
    let mut stack: Vec<(u32, u32)> = Vec::new();
    if w == 0 || h == 0 {
        return marks;
    }
    let ghost wi = w as int;
    let ghost hi = h as int;
    assert forall|x: int, y: int| 0 <= x < w && 0 <= y < h && #[trigger] marked(marks@, wi, x, y) implies false by {
        lemma_index(wi, hi, x, y);
    }
    let mut x: u32 = 0;
    while x < w
        invariant
            data@.len() == 4 * (wi * hi),
            wi == w,
            hi == h,
            0 < h,
            x <= w,
            fill_sound(data@, wi, hi, c, marks@, stack@),
            forall|a: int, b: int|
                0 <= a < w && 0 <= b < h && #[trigger] marked(marks@, wi, a, b) ==> stacked(stack@, a, b),
            forall|a: int|
                0 <= a < x && #[trigger] matte_at(data@, wi, hi, c, a, 0) ==> marked(marks@, wi, a, 0),
            forall|a: int|
                0 <= a < x && #[trigger] matte_at(data@, wi, hi, c, a, hi - 1) ==> marked(marks@, wi, a, hi - 1),
        decreases w - x,
    {
        let ghost m0 = marks@;
        let ghost s0 = stack@;
        visit(data, w, h, c, &mut marks, &mut stack, x, 0, Ghost(None));
        let ghost m1 = marks@;
        let ghost s1 = stack@;
        if h > 1 {
            visit(data, w, h, c, &mut marks, &mut stack, x, h - 1, Ghost(None));
        }
        assert forall|a: int, b: int|
            0 <= a < w && 0 <= b < h && #[trigger] marked(marks@, wi, a, b) implies stacked(stack@, a, b) by {
            if marked(m0, wi, a, b) {
                assert(stacked(s0, a, b));
                assert(stacked(s1, a, b));
            } else if marked(m1, wi, a, b) {
                assert(stacked(s1, a, b));
            }
        }
        assert forall|a: int| 0 <= a < x + 1 && #[trigger] matte_at(data@, wi, hi, c, a, 0) implies marked(
            marks@,
            wi,
            a,
            0,
        ) by {
            if a < x {
                assert(marked(m0, wi, a, 0));
            }
            assert(marked(m1, wi, a, 0));
        }
        assert forall|a: int| 0 <= a < x + 1 && #[trigger] matte_at(data@, wi, hi, c, a, hi - 1) implies marked(
            marks@,
            wi,
            a,
            hi - 1,
        ) by {
            if a < x {
                assert(marked(m0, wi, a, hi - 1));
                assert(marked(m1, wi, a, hi - 1));
            } else if h == 1 {
                assert(marked(m1, wi, a, 0));
            }
        }
        x += 1;
    }
    let mut y: u32 = 0;
    while y < h
        invariant
            data@.len() == 4 * (wi * hi),
            wi == w,
            hi == h,
            0 < w,
            0 < h,
            y <= h,
            fill_sound(data@, wi, hi, c, marks@, stack@),
            forall|a: int, b: int|
                0 <= a < w && 0 <= b < h && #[trigger] marked(marks@, wi, a, b) ==> stacked(stack@, a, b),
            forall|a: int|
                0 <= a < w && #[trigger] matte_at(data@, wi, hi, c, a, 0) ==> marked(marks@, wi, a, 0),
            forall|a: int|
                0 <= a < w && #[trigger] matte_at(data@, wi, hi, c, a, hi - 1) ==> marked(marks@, wi, a, hi - 1),
            forall|b: int|
                0 <= b < y && #[trigger] matte_at(data@, wi, hi, c, 0, b) ==> marked(marks@, wi, 0, b),
            forall|b: int|
                0 <= b < y && #[trigger] matte_at(data@, wi, hi, c, wi - 1, b) ==> marked(marks@, wi, wi - 1, b),
        decreases h - y,
    {
        let ghost m0 = marks@;
        let ghost s0 = stack@;
        visit(data, w, h, c, &mut marks, &mut stack, 0, y, Ghost(None));
        let ghost m1 = marks@;
        let ghost s1 = stack@;
        if w > 1 {
            visit(data, w, h, c, &mut marks, &mut stack, w - 1, y, Ghost(None));
        }
        assert forall|a: int, b: int|
            0 <= a < w && 0 <= b < h && #[trigger] marked(marks@, wi, a, b) implies stacked(stack@, a, b) by {
            if marked(m0, wi, a, b) {
                assert(stacked(s0, a, b));
                assert(stacked(s1, a, b));
            } else if marked(m1, wi, a, b) {
                assert(stacked(s1, a, b));
            }
        }
        assert forall|a: int| 0 <= a < w && #[trigger] matte_at(data@, wi, hi, c, a, 0) implies marked(
            marks@,
            wi,
            a,
            0,
        ) by {
            assert(marked(m0, wi, a, 0));
            assert(marked(m1, wi, a, 0));
        }
        assert forall|a: int| 0 <= a < w && #[trigger] matte_at(data@, wi, hi, c, a, hi - 1) implies marked(
            marks@,
            wi,
            a,
            hi - 1,
        ) by {
            assert(marked(m0, wi, a, hi - 1));
            assert(marked(m1, wi, a, hi - 1));
        }
        assert forall|b: int| 0 <= b < y + 1 && #[trigger] matte_at(data@, wi, hi, c, 0, b) implies marked(
            marks@,
            wi,
            0,
            b,
        ) by {
            if b < y {
                assert(marked(m0, wi, 0, b));
            }
            assert(marked(m1, wi, 0, b));
        }
        assert forall|b: int| 0 <= b < y + 1 && #[trigger] matte_at(data@, wi, hi, c, wi - 1, b) implies marked(
            marks@,
            wi,
            wi - 1,
            b,
        ) by {
            if b < y {
                assert(marked(m0, wi, wi - 1, b));
                assert(marked(m1, wi, wi - 1, b));
            } else if w == 1 {
                assert(marked(m1, wi, 0, b));
            }
        }
        y += 1;
    }
    assert(seeds_marked(data@, wi, hi, c, marks@)) by {
        assert forall|a: int, b: int| on_border(wi, hi, a, b) && #[trigger] matte_at(data@, wi, hi, c, a, b) implies marked(
            marks@,
            wi,
            a,
            b,
        ) by {
            if b == 0 {
                assert(matte_at(data@, wi, hi, c, a, 0));
            } else if b == hi - 1 {
                assert(matte_at(data@, wi, hi, c, a, hi - 1));
            } else if a == 0 {
                assert(matte_at(data@, wi, hi, c, 0, b));
            } else {
                assert(matte_at(data@, wi, hi, c, wi - 1, b));
            }
        }
    }
    loop
        invariant
            data@.len() == 4 * (wi * hi),
            wi == w,
            hi == h,
            fill_sound(data@, wi, hi, c, marks@, stack@),
            seeds_marked(data@, wi, hi, c, marks@),
            forall|a: int, b: int|
                0 <= a < w && 0 <= b < h && #[trigger] marked(marks@, wi, a, b) && !stacked(stack@, a, b)
                    ==> neighbours_marked(data@, wi, hi, c, marks@, a, b),
        ensures
            fill_sound(data@, wi, hi, c, marks@, stack@),
            seeds_marked(data@, wi, hi, c, marks@),
            fill_closed(data@, wi, hi, c, marks@),
        decreases unmarked(marks@), stack@.len(),
    {
        let ghost s0 = stack@;
        let ghost m0 = marks@;
        match stack.pop() {
            None => {
                assert forall|a: int, b: int|
                    0 <= a < w && 0 <= b < h && #[trigger] marked(marks@, wi, a, b) implies neighbours_marked(
                    data@,
                    wi,
                    hi,
                    c,
                    marks@,
                    a,
                    b,
                ) by {
                    assert(!stacked(stack@, a, b));
                }
                break;
            },
            Some(top) => {
                let (x, y) = top;
                let ghost s1 = stack@;
                proof {
                    lemma_pop(data@, wi, hi, c, marks@, s0, s1);
                }
                assert(marked(marks@, wi, x as int, y as int));
                visit_neighbours(data, w, h, c, &mut marks, &mut stack, x, y);
                proof {
                    lemma_fill_step(data@, wi, hi, c, m0, s0, s1, marks@, stack@, x as int, y as int);
                }
                proof {
                    lemma_seeds_stay(data@, wi, hi, c, m0, marks@);
                }
            },
        }
    }
    proof {
        assert forall|x: int, y: int|
            0 <= x < w && 0 <= y < h && #[trigger] border_connected(data@, wi, hi, c, x, y) implies marked(
            marks@,
            wi,
            x,
            y,
        ) by {
            let path = choose|path: Seq<(int, int)>| matte_path(data@, wi, hi, c, path) && path.last() == (x, y);
            lemma_path_marked(data@, wi, hi, c, marks@, path, path.len() - 1);
        }
    }
    marks
}


/// The image with the matte that is connected to its edge cleared to
/// transparent black; every other pixel is kept. A matte region enclosed by
/// other colours (such as the glyph of a centred logo) stays.
pub fn clear_border_matte(data: &[u8], width: u32, height: u32, matte: Rgb) -> (r: Vec<u8>)
    requires
        data@.len() == 4 * ((width as int) * (height as int)),
    ensures
        is_cleared(data@, r@, width as int, height as int, matte),
{
    let mask = border_matte_mask(data, width, height, matte);
    assert(data@.len() == data.len());
    assert(data@.len() <= usize::MAX);
    let total = mask.len();
    let mut out: Vec<u8> = Vec::new();
    let mut i: usize = 0;
    while i < total
        invariant
            total == mask@.len(),
            data@.len() == 4 * total,
            4 * total <= usize::MAX,
            i <= total,
            out@.len() == 4 * i,
            forall|k: int| 0 <= k < i ==> #[trigger] pixel(out@, k) == if mask@[k] {
                (0u8, 0u8, 0u8, 0u8)
            } else {
                pixel(data@, k)
            },
        decreases total - i,
    {
        let ghost before = out@;
        if mask[i] {
            out.push(0);
            out.push(0);
            out.push(0);
            out.push(0);
        } else {
            out.push(data[4 * i]);
            out.push(data[4 * i + 1]);
            out.push(data[4 * i + 2]);
            out.push(data[4 * i + 3]);
        }
        assert forall|k: int| 0 <= k < i + 1 implies #[trigger] pixel(out@, k) == if mask@[k] {
            (0u8, 0u8, 0u8, 0u8)
        } else {
            pixel(data@, k)
        } by {
            if k < i {
                assert(pixel(before, k) == pixel(out@, k));
            }
        }
        i += 1;
    }
    assert forall|x: int, y: int| 0 <= x < width && 0 <= y < height implies #[trigger] pixel_xy(
        out@,
        width as int,
        x,
        y,
    ) == if border_connected(data@, width as int, height as int, matte, x, y) {
        (0u8, 0u8, 0u8, 0u8)
    } else {
        pixel_xy(data@, width as int, x, y)
    } by {
        lemma_index(width as int, height as int, x, y);
        assert(marked(mask@, width as int, x, y) == border_connected(
            data@,
            width as int,
            height as int,
            matte,
            x,
            y,
        ));
    }
    out
}


/// `out` is `data` with the matte of colour `c` that is connected to the
/// edge of the `w` by `h` image cleared.
pub open spec fn is_cleared(data: Seq<u8>, out: Seq<u8>, w: int, h: int, c: Rgb) -> bool {
    &&& out.len() == data.len()
    &&& forall|x: int, y: int|
        0 <= x < w && 0 <= y < h ==> #[trigger] pixel_xy(out, w, x, y) == if border_connected(data, w, h, c, x, y) {
            (0u8, 0u8, 0u8, 0u8)
        } else {
            pixel_xy(data, w, x, y)
        }
}

/// Clearing the border matte a second time changes nothing: no matte pixel
/// left is connected to the edge.
pub proof fn lemma_clear_idempotent(data: Seq<u8>, r1: Seq<u8>, r2: Seq<u8>, w: int, h: int, c: Rgb)
    requires
        is_cleared(data, r1, w, h, c),
        is_cleared(r1, r2, w, h, c),
    ensures
        forall|x: int, y: int| 0 <= x < w && 0 <= y < h ==> #[trigger] pixel_xy(r2, w, x, y) == pixel_xy(r1, w, x, y),
{
    assert forall|x: int, y: int| 0 <= x < w && 0 <= y < h implies #[trigger] pixel_xy(r2, w, x, y) == pixel_xy(
        r1,
        w,
        x,
        y,
    ) by {
        if border_connected(r1, w, h, c, x, y) {
            let path = choose|path: Seq<(int, int)>| matte_path(r1, w, h, c, path) && path.last() == (x, y);
            assert forall|k: int| 0 <= k < path.len() implies matte_at(data, w, h, c, (#[trigger] path[k]).0, path[k].1)
                by {
                assert(matte_at(r1, w, h, c, path[k].0, path[k].1));
                assert(pixel_xy(r1, w, path[k].0, path[k].1) == pixel_xy(data, w, path[k].0, path[k].1));
            }
            assert(matte_path(data, w, h, c, path));
            assert(border_connected(data, w, h, c, x, y));
            assert(matte_at(r1, w, h, c, path[path.len() - 1].0, path[path.len() - 1].1));
        }
    }
}

} // verus!
