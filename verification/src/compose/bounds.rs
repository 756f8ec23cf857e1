//! Fitting a rasterised shape to its target: the bounds of its visible
//! pixels are cropped and scaled to the target size.
//!
//! An image is given as its raw RGBA bytes, row by row, four bytes a pixel.
use vstd::prelude::*;

use crate::compose::matte::{lemma_index, pixel_xy};

verus! {

/// Whether the pixel at column `x`, row `y` is not fully transparent.
pub open spec fn visible(data: Seq<u8>, w: int, x: int, y: int) -> bool {
    pixel_xy(data, w, x, y).3 != 0u8
}

/// `b` = (min x, min y, max x, max y) bounds the visible pixels of a `w` by
/// `h` image tightly.
pub open spec fn tight_bounds(data: Seq<u8>, w: int, h: int, b: (u32, u32, u32, u32)) -> bool {
    &&& b.0 <= b.2 < w && b.1 <= b.3 < h
    &&& forall|x: int, y: int|
        0 <= x < w && 0 <= y < h && #[trigger] visible(data, w, x, y) ==> b.0 <= x <= b.2 && b.1 <= y <= b.3
    &&& exists|y: int| 0 <= y < h && #[trigger] visible(data, w, b.0 as int, y)
    &&& exists|y: int| 0 <= y < h && #[trigger] visible(data, w, b.2 as int, y)
    &&& exists|x: int| 0 <= x < w && #[trigger] visible(data, w, x, b.1 as int)
    &&& exists|x: int| 0 <= x < w && #[trigger] visible(data, w, x, b.3 as int)
}

/// The bounds of the pixels that are not fully transparent: the smallest
/// and largest column and row holding one; `None` when there is none.
#[verifier::spinoff_prover]
pub fn nontransparent_bounds(data: &[u8], width: u32, height: u32) -> (r: Option<(u32, u32, u32, u32)>)
    requires
        data@.len() == 4 * ((width as int) * (height as int)),
    ensures
        match r {
            None => forall|x: int, y: int|
                0 <= x < width && 0 <= y < height ==> !#[trigger] visible(data@, width as int, x, y),
            Some(b) => tight_bounds(data@, width as int, height as int, b),
        },
{
    let ghost w = width as int;
    let ghost h = height as int;
    assert(data@.len() == data.len());
    let mut found = false;
    let mut min_x: u32 = 0;
    let mut min_y: u32 = 0;
    let mut max_x: u32 = 0;
    let mut max_y: u32 = 0;
    let mut y: u32 = 0;
    while y < height
        invariant
            w == width,
            h == height,
            data@.len() == 4 * (w * h),
            data@.len() <= usize::MAX,
            y <= height,
            !found ==> forall|a: int, b: int| 0 <= a < w && 0 <= b < y ==> !#[trigger] visible(data@, w, a, b),
            found ==> ({
                &&& min_x <= max_x < w && min_y <= max_y < y
                &&& forall|a: int, b: int|
                    0 <= a < w && 0 <= b < y && #[trigger] visible(data@, w, a, b) ==> min_x <= a <= max_x && min_y
                        <= b <= max_y
                &&& exists|b: int| 0 <= b < h && #[trigger] visible(data@, w, min_x as int, b)
                &&& exists|b: int| 0 <= b < h && #[trigger] visible(data@, w, max_x as int, b)
                &&& exists|a: int| 0 <= a < w && #[trigger] visible(data@, w, a, min_y as int)
                &&& exists|a: int| 0 <= a < w && #[trigger] visible(data@, w, a, max_y as int)
            }),
        decreases height - y,
    {
        let mut x: u32 = 0;
        while x < width
            invariant
                w == width,
                h == height,
                data@.len() == 4 * (w * h),
                data@.len() <= usize::MAX,
                y < height,
                x <= width,
                !found ==> forall|a: int, b: int|
                    0 <= a < w && (0 <= b < y || (b == y && a < x)) ==> !#[trigger] visible(data@, w, a, b),
                found ==> ({
                    &&& min_x <= max_x < w && min_y <= max_y <= y
                    &&& forall|a: int, b: int|
                        0 <= a < w && (0 <= b < y || (b == y && a < x)) && #[trigger] visible(data@, w, a, b)
                            ==> min_x <= a <= max_x && min_y <= b <= max_y
                    &&& exists|b: int| 0 <= b < h && #[trigger] visible(data@, w, min_x as int, b)
                    &&& exists|b: int| 0 <= b < h && #[trigger] visible(data@, w, max_x as int, b)
                    &&& exists|a: int| 0 <= a < w && #[trigger] visible(data@, w, a, min_y as int)
                    &&& exists|a: int| 0 <= a < w && #[trigger] visible(data@, w, a, max_y as int)
                }),
            decreases width - x,
        {
            proof {
                lemma_index(w, h, x as int, y as int);
            }
            let idx = (y as usize) * (width as usize) + (x as usize);
            assert(pixel_xy(data@, w, x as int, y as int).3 == data@[4 * idx + 3]);
            if data[4 * idx + 3] > 0 {
                assert(visible(data@, w, x as int, y as int));
                if !found {
                    found = true;
                    min_x = x;
                    max_x = x;
                    min_y = y;
                    max_y = y;
                } else {
                    if x < min_x {
                        min_x = x;
                    }
                    if x > max_x {
                        max_x = x;
                    }
                    max_y = y;
                }
            }
            x += 1;
        }
        y += 1;
    }
    assert(y == height);
    if found {
        Some((min_x, min_y, max_x, max_y))
    } else {
        assert forall|x: int, y: int| 0 <= x < width && 0 <= y < height implies !#[trigger] visible(
            data@,
            width as int,
            x,
            y,
        ) by {
            assert(!visible(data@, w, x, y));
        }
        None
    }
}


/// The `cw` by `ch` rectangle of a `w`-wide image whose top left pixel is at
/// column `x0`, row `y0`.
pub open spec fn crop_rgba(data: Seq<u8>, w: int, x0: int, y0: int, cw: int, ch: int) -> Seq<u8> {
    Seq::new(
        (4 * (cw * ch)) as nat,
        |i: int| data[4 * ((y0 + (i / 4) / cw) * w + (x0 + (i / 4) % cw)) + i % 4],
    )
}

proof fn lemma_crop_index(cw: int, cx: int, cy: int, k: int)
    requires
        0 <= cx < cw,
        0 <= cy,
        0 <= k < 4,
    ensures
        (4 * (cy * cw + cx) + k) / 4 == cy * cw + cx,
        (4 * (cy * cw + cx) + k) % 4 == k,
        (cy * cw + cx) / cw == cy,
        (cy * cw + cx) % cw == cx,
{
    vstd::arithmetic::div_mod::lemma_fundamental_div_mod_converse(4 * (cy * cw + cx) + k, 4, cy * cw + cx, k);
    vstd::arithmetic::div_mod::lemma_fundamental_div_mod_converse(cy * cw + cx, cw, cy, cx);
}

/// Copy the `cw` by `ch` rectangle at column `x0`, row `y0` out of a
/// `width` by `height` image.
fn crop_exec(data: &[u8], width: u32, height: u32, x0: u32, y0: u32, cw: u32, ch: u32) -> (r: Vec<u8>)
    requires
        data@.len() == 4 * ((width as int) * (height as int)),
        0 < cw,
        x0 + cw <= width,
        y0 + ch <= height,
    ensures
        r@ == crop_rgba(data@, width as int, x0 as int, y0 as int, cw as int, ch as int),
{
    let ghost w = width as int;
    let ghost h = height as int;
    let ghost target = crop_rgba(data@, w, x0 as int, y0 as int, cw as int, ch as int);
    assert(data@.len() == data.len());
    let mut out: Vec<u8> = Vec::new();
    let mut cy: u32 = 0;
    while cy < ch
        invariant
            w == width,
            h == height,
            data@.len() == 4 * (w * h),
            data@.len() <= usize::MAX,
            0 < cw,
            x0 + cw <= width,
            y0 + ch <= height,
            cy <= ch,
            target == crop_rgba(data@, w, x0 as int, y0 as int, cw as int, ch as int),
            out@.len() == 4 * ((cy as int) * (cw as int)),
            forall|i: int| 0 <= i < out@.len() ==> out@[i] == #[trigger] target[i],
        decreases ch - cy,
    {
        let mut cx: u32 = 0;
        while cx < cw
            invariant
                w == width,
                h == height,
                data@.len() == 4 * (w * h),
                data@.len() <= usize::MAX,
                0 < cw,
                x0 + cw <= width,
                y0 + ch <= height,
                cy < ch,
                cx <= cw,
                target == crop_rgba(data@, w, x0 as int, y0 as int, cw as int, ch as int),
                out@.len() == 4 * ((cy as int) * (cw as int) + cx),
                forall|i: int| 0 <= i < out@.len() ==> out@[i] == #[trigger] target[i],
            decreases cw - cx,
        {
            proof {
                lemma_index(w, h, (x0 + cx) as int, (y0 + cy) as int);
                lemma_index(cw as int, ch as int, cx as int, cy as int);
            }
            let idx = ((y0 + cy) as usize) * (width as usize) + ((x0 + cx) as usize);
            let mut k: usize = 0;
            while k < 4
                invariant
                    w == width,
                    h == height,
                    data@.len() == 4 * (w * h),
                    data@.len() <= usize::MAX,
                    0 < cw,
                    cx < cw,
                    cy < ch,
                    k <= 4,
                    idx == ((y0 + cy) as int) * w + (x0 + cx) as int,
                    idx < w * h,
                    (cy as int) * (cw as int) + cx < (cw as int) * (ch as int),
                    target == crop_rgba(data@, w, x0 as int, y0 as int, cw as int, ch as int),
                    out@.len() == 4 * ((cy as int) * (cw as int) + cx) + k,
                    forall|i: int| 0 <= i < out@.len() ==> out@[i] == #[trigger] target[i],
                decreases 4 - k,
            {
                let ghost i = out@.len() as int;
                proof {
                    lemma_crop_index(cw as int, cx as int, cy as int, k as int);
                }
                out.push(data[4 * idx + k]);
                assert(out@[i] == target[i]);
                k += 1;
            }
            cx += 1;
        }
        proof {
            assert((cy as int) * (cw as int) + (cw as int) == ((cy + 1) as int) * (cw as int)) by (nonlinear_arith);
        }
        cy += 1;
    }
    proof {
        assert((ch as int) * (cw as int) == (cw as int) * (ch as int)) by (nonlinear_arith);
        assert(out@.len() == target.len());
        assert(out@ =~= target);
    }
    out
}


/// `image::imageops::resize` with `FilterType::Lanczos3` on an RGBA image
/// given by its bytes. Claimed of it: the result holds `nw` by `nh` pixels,
/// and scaling to the image's own size copies it (`resize` copies the
/// image instead of resampling then).
/// Its pixel values are not stated: the kernel goes through `f32::sin`,
/// whose rounding std leaves open, so they are not a function of the
/// arguments alone.
#[verifier::external_body]
fn resize_lanczos3(data: &[u8], w: u32, h: u32, nw: u32, nh: u32) -> (r: Vec<u8>)
    requires
        data@.len() == 4 * ((w as int) * (h as int)),
        4 * ((w as int) * (nh as int)) <= usize::MAX,
        4 * ((nw as int) * (nh as int)) <= usize::MAX,
        4 * (w as int) <= usize::MAX,
        4 * (nw as int) <= usize::MAX,
    ensures
        r@.len() == 4 * ((nw as int) * (nh as int)),
        nw == w && nh == h ==> r@ == data@,
{
    match image::RgbaImage::from_raw(w, h, data.to_vec()) {
        Some(img) => image::imageops::resize(&img, nw, nh, image::imageops::FilterType::Lanczos3).into_raw(),
        None => Vec::new(),
    }
}

/// Tight bounds that leave out part of the image.
pub open spec fn crops(w: int, h: int, b: (u32, u32, u32, u32)) -> bool {
    !(b.0 == 0 && b.1 == 0 && b.2 + 1 == w && b.3 + 1 == h)
}

/// The image has tight bounds that leave out part of it.
pub open spec fn has_crop(data: Seq<u8>, w: int, h: int) -> bool {
    exists|b: (u32, u32, u32, u32)| tight_bounds(data, w, h, b) && crops(w, h, b)
}

/// Those bounds (they are unique when they exist).
pub open spec fn crop_bounds(data: Seq<u8>, w: int, h: int) -> (u32, u32, u32, u32) {
    choose|b: (u32, u32, u32, u32)| tight_bounds(data, w, h, b) && crops(w, h, b)
}

/// The crop of an image to the bounds of its visible pixels, with the
/// crop's width and height; `None` for an empty image, one with no visible
/// pixel, and one whose visible pixels reach all four edges.
pub fn crop_to_nontransparent_bounds(data: &[u8], width: u32, height: u32) -> (r: Option<(Vec<u8>, u32, u32)>)
    requires
        data@.len() == 4 * ((width as int) * (height as int)),
    ensures
        match r {
            Some((c, cw, ch)) => {
                let b = crop_bounds(data@, width as int, height as int);
                &&& has_crop(data@, width as int, height as int)
                &&& tight_bounds(data@, width as int, height as int, b)
                &&& cw == b.2 - b.0 + 1
                &&& ch == b.3 - b.1 + 1
                &&& c@ == crop_rgba(data@, width as int, b.0 as int, b.1 as int, cw as int, ch as int)
            },
            None => !has_crop(data@, width as int, height as int),
        },
{
    if width == 0 || height == 0 {
        assert forall|b: (u32, u32, u32, u32)| !tight_bounds(data@, width as int, height as int, b) by {}
        return None;
    }
    let bounds = nontransparent_bounds(data, width, height);
    let (x0, y0, x1, y1) = match bounds {
        None => {
            assert forall|b: (u32, u32, u32, u32)| !tight_bounds(data@, width as int, height as int, b) by {
                if tight_bounds(data@, width as int, height as int, b) {
                    let y = choose|y: int| 0 <= y < height && #[trigger] visible(data@, width as int, b.0 as int, y);
                }
            }
            return None;
        },
        Some(b) => b,
    };
    let ghost b = (x0, y0, x1, y1);
    proof {
        lemma_tight_bounds_unique(data@, width as int, height as int, b);
    }
    if x0 == 0 && y0 == 0 && x1 + 1 == width && y1 + 1 == height {
        return None;
    }
    let cw = x1 - x0 + 1;
    let ch = y1 - y0 + 1;
    let cropped = crop_exec(data, width, height, x0, y0, cw, ch);
    proof {
        assert(tight_bounds(data@, width as int, height as int, b) && crops(width as int, height as int, b));
        assert(crop_bounds(data@, width as int, height as int) == b);
    }
    Some((cropped, cw, ch))
}

/// Crop a rasterised image to the bounds of its visible pixels and scale
/// the crop to the target size (at least one pixel each way). An empty
/// image, one with no visible pixel, and one whose visible pixels reach all
/// four edges come back as they are.
pub fn expand_nontransparent_bounds_to_target(
    data: Vec<u8>,
    width: u32,
    height: u32,
    target_w: u32,
    target_h: u32,
) -> (r: (Vec<u8>, u32, u32))
    requires
        data@.len() == 4 * ((width as int) * (height as int)),
        has_crop(data@, width as int, height as int) ==> {
            let b = crop_bounds(data@, width as int, height as int);
            let nw = if target_w == 0 { 1int } else { target_w as int };
            let nh = if target_h == 0 { 1int } else { target_h as int };
            &&& 4 * ((b.2 - b.0 + 1) * nh) <= usize::MAX
            &&& 4 * (nw * nh) <= usize::MAX
        },
    ensures
        ({
            let (out, ow, oh) = r;
            let nw = if target_w == 0 { 1u32 } else { target_w };
            let nh = if target_h == 0 { 1u32 } else { target_h };
            if has_crop(data@, width as int, height as int) {
                let b = crop_bounds(data@, width as int, height as int);
                let cw = b.2 - b.0 + 1;
                let ch = b.3 - b.1 + 1;
                &&& ow == nw && oh == nh
                &&& out@.len() == 4 * ((nw as int) * (nh as int))
                &&& nw == cw && nh == ch ==> out@ == crop_rgba(data@, width as int, b.0 as int, b.1 as int, cw, ch)
            } else {
                out@ == data@ && ow == width && oh == height
            }
        }),
{
    let (cropped, cw, ch) = match crop_to_nontransparent_bounds(data.as_slice(), width, height) {
        None => {
            return (data, width, height);
        },
        Some(c) => c,
    };
    let nw = if target_w == 0 { 1u32 } else { target_w };
    let nh = if target_h == 0 { 1u32 } else { target_h };
    proof {
        assert((cw as int) <= (cw as int) * (nh as int)) by (nonlinear_arith)
            requires
                nh >= 1,
                cw >= 0,
        ;
        assert((nw as int) <= (nw as int) * (nh as int)) by (nonlinear_arith)
            requires
                nh >= 1,
                nw >= 0,
        ;
    }
    let out = resize_lanczos3(cropped.as_slice(), cw, ch, nw, nh);
    (out, nw, nh)
}

/// Tight bounds are unique.
proof fn lemma_tight_bounds_unique(data: Seq<u8>, w: int, h: int, b: (u32, u32, u32, u32))
    requires
        tight_bounds(data, w, h, b),
    ensures
        forall|b2: (u32, u32, u32, u32)| #[trigger] tight_bounds(data, w, h, b2) ==> b2 == b,
{
    assert forall|b2: (u32, u32, u32, u32)| #[trigger] tight_bounds(data, w, h, b2) implies b2 == b by {
        let y = choose|y: int| 0 <= y < h && #[trigger] visible(data, w, b.0 as int, y);
        let y2 = choose|y: int| 0 <= y < h && #[trigger] visible(data, w, b2.0 as int, y);
        let y3 = choose|y: int| 0 <= y < h && #[trigger] visible(data, w, b.2 as int, y);
        let y4 = choose|y: int| 0 <= y < h && #[trigger] visible(data, w, b2.2 as int, y);
        let x = choose|x: int| 0 <= x < w && #[trigger] visible(data, w, x, b.1 as int);
        let x2 = choose|x: int| 0 <= x < w && #[trigger] visible(data, w, x, b2.1 as int);
        let x3 = choose|x: int| 0 <= x < w && #[trigger] visible(data, w, x, b.3 as int);
        let x4 = choose|x: int| 0 <= x < w && #[trigger] visible(data, w, x, b2.3 as int);
    }
}

} // verus!
