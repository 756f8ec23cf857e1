//! Which post-process passes give a rendered screen the manufacturer's CRT
//! look, and in which order they run.
use vstd::prelude::*;

verus! {

/// Options controlling which post-process passes are active. Every pass but
/// glow is on by default; glow is off because its pass does nothing yet.
#[derive(Debug, Clone, Copy, PartialEq, Eq, Structural)]
pub struct PostProcessOptions {
    /// Multiply lit pixels by the manufacturer's primary tint.
    pub apply_tint: bool,
    /// Darken horizontal scanlines.
    pub apply_scanlines: bool,
    /// Darken a vertical pixel grid.
    pub apply_pixel_grid: bool,
    /// Darken the corners radially.
    pub apply_vignette: bool,
    /// Soft phosphor glow.
    pub apply_glow: bool,
}

impl Default for PostProcessOptions {
    fn default() -> (r: Self)
        ensures
            r == (PostProcessOptions {
                apply_tint: true,
                apply_scanlines: true,
                apply_pixel_grid: true,
                apply_vignette: true,
                apply_glow: false,
            }),
    {
        PostProcessOptions {
            apply_tint: true,
            apply_scanlines: true,
            apply_pixel_grid: true,
            apply_vignette: true,
            apply_glow: false,
        }
    }
}

/// One post-process pass.
#[derive(Debug, Clone, Copy, PartialEq, Eq, Structural)]
pub enum PostProcessPass {
    Tint,
    Scanlines,
    PixelGrid,
    Vignette,
    Glow,
}

/// The enabled passes, in the fixed order tint, scanlines, pixel grid,
/// vignette, glow.
pub open spec fn spec_enabled_passes(o: PostProcessOptions) -> Seq<PostProcessPass> {
    (if o.apply_tint {
        seq![PostProcessPass::Tint]
    } else {
        Seq::empty()
    }) + (if o.apply_scanlines {
        seq![PostProcessPass::Scanlines]
    } else {
        Seq::empty()
    }) + (if o.apply_pixel_grid {
        seq![PostProcessPass::PixelGrid]
    } else {
        Seq::empty()
    }) + (if o.apply_vignette {
        seq![PostProcessPass::Vignette]
    } else {
        Seq::empty()
    }) + (if o.apply_glow {
        seq![PostProcessPass::Glow]
    } else {
        Seq::empty()
    })
}

/// The passes a post-processor runs for `opts`, in order.
pub fn enabled_passes(opts: &PostProcessOptions) -> (r: Vec<PostProcessPass>)
    ensures
        r@ == spec_enabled_passes(*opts),
        r@.contains(PostProcessPass::Tint) == opts.apply_tint,
        r@.contains(PostProcessPass::Scanlines) == opts.apply_scanlines,
        r@.contains(PostProcessPass::PixelGrid) == opts.apply_pixel_grid,
        r@.contains(PostProcessPass::Vignette) == opts.apply_vignette,
        r@.contains(PostProcessPass::Glow) == opts.apply_glow,
{
    let mut out: Vec<PostProcessPass> = Vec::new();
    if opts.apply_tint {
        out.push(PostProcessPass::Tint);
    }
    if opts.apply_scanlines {
        out.push(PostProcessPass::Scanlines);
    }
    if opts.apply_pixel_grid {
        out.push(PostProcessPass::PixelGrid);
    }
    if opts.apply_vignette {
        out.push(PostProcessPass::Vignette);
    }
    if opts.apply_glow {
        out.push(PostProcessPass::Glow);
    }
    assert(out@ =~= spec_enabled_passes(*opts));
    proof {
        lemma_each_pass_follows_its_flag(*opts);
    }
    out
}

/// Each pass runs exactly when its own option is on, whatever the other
/// options are.
pub proof fn lemma_each_pass_follows_its_flag(o: PostProcessOptions)
    ensures
        spec_enabled_passes(o).contains(PostProcessPass::Tint) == o.apply_tint,
        spec_enabled_passes(o).contains(PostProcessPass::Scanlines) == o.apply_scanlines,
        spec_enabled_passes(o).contains(PostProcessPass::PixelGrid) == o.apply_pixel_grid,
        spec_enabled_passes(o).contains(PostProcessPass::Vignette) == o.apply_vignette,
        spec_enabled_passes(o).contains(PostProcessPass::Glow) == o.apply_glow,
{
    let t = opt_pass(o.apply_tint, PostProcessPass::Tint);
    let sc = opt_pass(o.apply_scanlines, PostProcessPass::Scanlines);
    let pg = opt_pass(o.apply_pixel_grid, PostProcessPass::PixelGrid);
    let vg = opt_pass(o.apply_vignette, PostProcessPass::Vignette);
    let gl = opt_pass(o.apply_glow, PostProcessPass::Glow);
    assert(spec_enabled_passes(o) == t + sc + pg + vg + gl);
    assert forall|q: PostProcessPass| #[trigger] spec_enabled_passes(o).contains(q) == (t.contains(q) || sc.contains(q)
        || pg.contains(q) || vg.contains(q) || gl.contains(q)) by {
        lemma_add_contains(t, sc, q);
        lemma_add_contains(t + sc, pg, q);
        lemma_add_contains(t + sc + pg, vg, q);
        lemma_add_contains(t + sc + pg + vg, gl, q);
    }
    assert forall|b: bool, p: PostProcessPass, q: PostProcessPass| #[trigger] opt_pass(b, p).contains(q) == (b && p == q) by {
        if b && p == q {
            assert(opt_pass(b, p)[0] == q);
        }
    }
}

spec fn opt_pass(b: bool, p: PostProcessPass) -> Seq<PostProcessPass> {
    if b {
        seq![p]
    } else {
        Seq::empty()
    }
}

proof fn lemma_add_contains(a: Seq<PostProcessPass>, b: Seq<PostProcessPass>, x: PostProcessPass)
    ensures
        (a + b).contains(x) == (a.contains(x) || b.contains(x)),
{
    if (a + b).contains(x) {
        let i = choose|i: int| 0 <= i < (a + b).len() && (a + b)[i] == x;
        if i >= a.len() {
            assert(b[i - a.len()] == x);
        }
    }
    if a.contains(x) {
        let i = choose|i: int| 0 <= i < a.len() && a[i] == x;
        assert((a + b)[i] == x);
    }
    if b.contains(x) {
        let i = choose|i: int| 0 <= i < b.len() && b[i] == x;
        assert((a + b)[a.len() + i] == x);
    }
}

} // verus!
