//! The compositor: every source pixel becomes one cell of the output.
use crate::mask::{count_true, is_mask};
use crate::pattern::{
    disc_spec, effective_style, lines_drawn, lines_spec, render_cell, renders, scaled_count,
    stipple_spec, Mark, Style, DOT_RATIO, RADIUS_SCALE,
};
use crate::pixel::{hue_spec, ink_spec, Pixel, INK_SCALE};
use rand::rngs::SmallRng;
use vstd::arithmetic::div_mod::lemma_fundamental_div_mod_converse;
use vstd::prelude::*;

verus! {

broadcast use vstd::seq_lib::group_to_multiset_ensures;

/// A decoded source image: `width * height` pixels, row by row.
#[derive(Debug)]
pub struct SourceImage {
    pub width: u32,
    pub height: u32,
    pub pixels: Vec<Pixel>,
}

impl SourceImage {
    /// The pixel vector holds exactly one pixel per grid position.
    pub open spec fn wf(&self) -> bool {
        self.pixels@.len() == self.width * self.height
    }

    /// An image from its dimensions and its pixels row by row; `None` when
    /// the number of pixels does not match the dimensions.
    pub fn new(width: u32, height: u32, pixels: Vec<Pixel>) -> (r: Option<SourceImage>)
        ensures
            r is Some <==> pixels@.len() == width * height,
            r matches Some(img) ==> img.wf() && img.width == width && img.height == height
                && img.pixels@ == pixels@,
    {
        proof {
            assert(width * height <= 0x1_0000_0000 * 0x1_0000_0000) by (nonlinear_arith)
                requires width <= u32::MAX, height <= u32::MAX;
        }
        if pixels.len() as u128 == (width as u128) * (height as u128) {
            Some(SourceImage { width, height, pixels })
        } else {
            None
        }
    }
}

/// Why an image cannot be drawn.
#[derive(Clone, Copy, Debug, PartialEq, Eq, Structural)]
pub enum GenError {
    /// The cell size is zero.
    ZeroCell,
    /// The source image has no pixels.
    EmptyImage,
    /// An output dimension does not fit in `u32`.
    TooLarge,
}

/// The output: its size in pixels, and the marks of each cell, in the order
/// of the source pixels.
#[derive(Debug)]
pub struct Plan {
    pub width: u32,
    pub height: u32,
    pub cells: Vec<Vec<Mark>>,
}

/// The cells of `plan` draw the pixels of `img` in `style`, one cell per pixel.
pub open spec fn plan_draws(plan: Plan, img: SourceImage, cell: nat, style: Style) -> bool {
    &&& plan.cells@.len() == img.pixels@.len()
    &&& forall|i: int|
        0 <= i < plan.cells@.len() ==> renders(
            effective_style(style, img.pixels@[i]),
            cell,
            (i % img.width as int) as nat,
            (i / img.width as int) as nat,
            ink_spec(img.pixels@[i]) as nat,
            #[trigger] plan.cells@[i]@,
        )
}

/// Draws every pixel of `img` as a `cell` by `cell` square in `style`.
/// The output is `cell * width` by `cell * height` pixels.
pub fn generate(img: &SourceImage, cell: u32, style: Style, rng: &mut SmallRng) -> (r: Result<Plan, GenError>)
    requires
        img.wf(),
    ensures
        r == Err::<Plan, GenError>(GenError::ZeroCell) <==> cell == 0,
        r == Err::<Plan, GenError>(GenError::EmptyImage) <==> cell > 0 && (img.width == 0
            || img.height == 0),
        r == Err::<Plan, GenError>(GenError::TooLarge) <==> cell > 0 && img.width > 0
            && img.height > 0 && (cell * img.width > u32::MAX || cell * img.height > u32::MAX),
        r matches Ok(plan) ==> plan.width == cell * img.width && plan.height == cell * img.height
            && plan_draws(plan, *img, cell as nat, style),
{
    if cell == 0 {
        return Err(GenError::ZeroCell);
    }
    if img.width == 0 || img.height == 0 {
        return Err(GenError::EmptyImage);
    }
    let w = img.width;
    let h = img.height;
    proof {
        assert(cell * w <= 0xffff_ffff * 0xffff_ffff) by (nonlinear_arith)
            requires cell <= 0xffff_ffff, w <= 0xffff_ffff;
        assert(cell * h <= 0xffff_ffff * 0xffff_ffff) by (nonlinear_arith)
            requires cell <= 0xffff_ffff, h <= 0xffff_ffff;
    }
    if (cell as u64) * (w as u64) > u32::MAX as u64 || (cell as u64) * (h as u64) > u32::MAX as u64 {
        return Err(GenError::TooLarge);
    }
    let mut cells: Vec<Vec<Mark>> = Vec::new();
    let mut y: u32 = 0;
    while y < h
        invariant
            img.wf(),
            w == img.width,
            h == img.height,
            w > 0,
            cell >= 1,
            cell * w <= u32::MAX,
            cell * h <= u32::MAX,
            y <= h,
            cells@.len() == y * w,
            cells@.len() <= img.pixels@.len(),
            forall|i: int|
                0 <= i < cells@.len() ==> renders(
                    effective_style(style, img.pixels@[i]),
                    cell as nat,
                    (i % w as int) as nat,
                    (i / w as int) as nat,
                    ink_spec(img.pixels@[i]) as nat,
                    #[trigger] cells@[i]@,
                ),
        decreases h - y,
    {
        let mut x: u32 = 0;
        while x < w
            invariant
                img.wf(),
                w == img.width,
                h == img.height,
                w > 0,
                cell >= 1,
                cell * w <= u32::MAX,
                cell * h <= u32::MAX,
                y < h,
                x <= w,
                cells@.len() == y * w + x,
                cells@.len() <= img.pixels@.len(),
                forall|i: int|
                    0 <= i < cells@.len() ==> renders(
                        effective_style(style, img.pixels@[i]),
                        cell as nat,
                        (i % w as int) as nat,
                        (i / w as int) as nat,
                        ink_spec(img.pixels@[i]) as nat,
                        #[trigger] cells@[i]@,
                    ),
            decreases w - x,
        {
            proof {
                assert((x + 1) * cell <= cell * w) by (nonlinear_arith)
                    requires x < w;
                assert((y + 1) * cell <= cell * h) by (nonlinear_arith)
                    requires y < h;
                assert(y * w + x < w * h) by (nonlinear_arith)
                    requires x < w, y < h;
                lemma_fundamental_div_mod_converse((y * w + x) as int, w as int, y as int, x as int);
                assert(y * w + x < img.pixels@.len());
            }
            let i: usize = cells.len();
            let p = img.pixels[i];
            let marks = render_cell(style, cell, x, y, p, rng);
            cells.push(marks);
            x = x + 1;
        }
        assert((y + 1) * w == y * w + w) by (nonlinear_arith);
        y = y + 1;
    }
    assert(h * w == w * h) by (nonlinear_arith);
    assert(cells@.len() == img.pixels@.len());
    Ok(Plan { width: cell * w, height: cell * h, cells })
}

/// The cell of a pure-white pixel gets a disc of radius zero; the cell of a
/// pure-black pixel gets a disc of radius `0.6036 * cell`.
pub proof fn lemma_disc_radius_extremes(cell: nat, x: nat, y: nat, white: Pixel, black: Pixel)
    requires
        cell <= u32::MAX,
        white.r == 255 && white.g == 255 && white.b == 255,
        black.r == 0 && black.g == 0 && black.b == 0,
    ensures
        ink_spec(white) == 0,
        disc_spec(cell, x, y, ink_spec(white) as nat)->radius_num == 0,
        ink_spec(black) == INK_SCALE,
        disc_spec(cell, x, y, ink_spec(black) as nat)->radius_num * 10000 == DOT_RATIO * cell
            * RADIUS_SCALE,
{
    assert(INK_SCALE * cell * DOT_RATIO <= 2549745 * 0x1_0000_0000 * 6036) by (nonlinear_arith)
        requires cell <= 0x1_0000_0000;
    assert(INK_SCALE * cell * DOT_RATIO * 10000 == DOT_RATIO * cell * RADIUS_SCALE) by (nonlinear_arith);
}

/// Every mark is a disc of radius zero: nothing is inked.
pub open spec fn ink_free(marks: Seq<Mark>) -> bool {
    forall|i: int| 0 <= i < marks.len() ==> (#[trigger] marks[i] matches Mark::Disc { radius_num, .. } && radius_num == 0)
}

proof fn lemma_empty_mask_draws_nothing(cell: nat, x: nat, y: nat, m: Seq<bool>, vertical: bool, alpha: u8)
    requires
        count_true(m) == 0,
    ensures
        lines_spec(cell, x, y, m, vertical, alpha) == Seq::<Mark>::empty(),
    decreases m.len(),
{
    if m.len() > 0 {
        let d = m.drop_last();
        assert(m =~= d.push(m.last()));
        assert(m.to_multiset() =~= d.to_multiset().insert(m.last()));
        lemma_empty_mask_draws_nothing(cell, x, y, d, vertical, alpha);
    }
}

/// A pure-white pixel draws no ink in any style but the grid, whose sparsest
/// pattern keeps one dot per cell.
pub proof fn lemma_white_draws_no_ink(style: Style, cell: nat, x: nat, y: nat, white: Pixel, marks: Seq<Mark>)
    requires
        white.r == 255 && white.g == 255 && white.b == 255,
        effective_style(style, white) != Style::Grid,
        renders(effective_style(style, white), cell, x, y, ink_spec(white) as nat, marks),
    ensures
        ink_free(marks),
{
    assert(ink_spec(white) == 0);
    assert(2 * 0 * cell == 0 && 2 * 0 * (cell * cell) == 0 && 0 * cell * DOT_RATIO == 0)
        by (nonlinear_arith);
    assert(scaled_count(cell, 0) == 0);
    assert(scaled_count(cell * cell, 0) == 0);
    match effective_style(style, white) {
        Style::VLines | Style::HLines => {
            let vertical = effective_style(style, white) == Style::VLines;
            let m = choose|m: Seq<bool>|
                is_mask(m, cell, scaled_count(cell, 0)) && marks == #[trigger] lines_spec(cell, x, y, m, vertical, 255);
            lemma_empty_mask_draws_nothing(cell, x, y, m, vertical, 255);
        },
        Style::Cross => {
            let (a, b) = choose|a: Seq<Mark>, b: Seq<Mark>|
                lines_drawn(cell, x, y, 0, true, 127, a) && lines_drawn(cell, x, y, 0, false, 127, b)
                    && marks == a + b;
            let ma = choose|m: Seq<bool>|
                is_mask(m, cell, scaled_count(cell, 0)) && a == #[trigger] lines_spec(cell, x, y, m, true, 127);
            let mb = choose|m: Seq<bool>|
                is_mask(m, cell, scaled_count(cell, 0)) && b == #[trigger] lines_spec(cell, x, y, m, false, 127);
            lemma_empty_mask_draws_nothing(cell, x, y, ma, true, 127);
            lemma_empty_mask_draws_nothing(cell, x, y, mb, false, 127);
            assert(marks =~= Seq::<Mark>::empty());
        },
        Style::Stipple => {
            let start = choose|start: u32|
                marks == #[trigger] stipple_spec(cell, x, y, scaled_count(cell * cell, 0), start as nat);
            assert(marks.len() == 0);
        },
        _ => {},
    }
}

/// Under the hue-multiplexed style, a pixel of hue 200 is drawn as the dot
/// style draws it: one disc centred in its cell.
pub proof fn lemma_hue_200_draws_disc(cell: nat, x: nat, y: nat, p: Pixel, marks: Seq<Mark>)
    requires
        hue_spec(p) == 200,
        renders(effective_style(Style::Multi, p), cell, x, y, ink_spec(p) as nat, marks),
    ensures
        effective_style(Style::Multi, p) == Style::Dots,
        marks == seq![disc_spec(cell, x, y, ink_spec(p) as nat)],
        marks[0] is Disc,
{
}

} // verus!
