//! The pattern generators: for one cell, the marks that carry its coverage.
use crate::halton::{halton_coord, halton_from_seed, halton_points_spec, lemma_coord_below};
use crate::pixel::{hue_spec, ink_spec, pixel_coverage, pixel_to_hue, Pixel};
use crate::mask::{bool_vec, is_mask};
use crate::pixel::INK_SCALE;
use crate::random::next_u64;
use rand::rngs::SmallRng;
use vstd::arithmetic::div_mod::{lemma_fundamental_div_mod, lemma_fundamental_div_mod_converse};
use vstd::prelude::*;

verus! {

/// A disc's radius is `radius_num / RADIUS_SCALE` pixels; `RADIUS_SCALE` is
/// `INK_SCALE * 10000`, matching `DOT_RATIO` in ten-thousandths.
pub const RADIUS_SCALE: u128 = 25497450000;

/// The disc radius per unit of coverage and cell size, in ten-thousandths:
/// midway between `1/2` and `sqrt(2)/2`.
pub const DOT_RATIO: u128 = 6036;

/// One drawing primitive, in output pixel coordinates.
#[derive(Clone, Copy, Debug, PartialEq, Eq, Structural)]
pub enum Mark {
    /// A filled black disc without outline.
    Disc { cx: u32, cy: u32, radius_num: u128 },
    /// A black line one pixel wide, with the given opacity.
    Line { x0: u32, y0: u32, x1: u32, y1: u32, alpha: u8 },
    /// A single black pixel.
    Dot { x: u32, y: u32 },
}

/// How the cells of an image are drawn.
#[derive(Clone, Copy, Debug, PartialEq, Eq, Structural)]
pub enum Style {
    Dots,
    VLines,
    HLines,
    Cross,
    Stipple,
    Grid,
    Multi,
}

/// The cell at grid position `(x, y)` lies inside a `u32` coordinate range.
pub open spec fn cell_fits(cell: nat, x: nat, y: nat) -> bool {
    cell >= 1 && (x + 1) * cell <= u32::MAX && (y + 1) * cell <= u32::MAX
}

pub open spec fn disc_spec(cell: nat, x: nat, y: nat, ink: nat) -> Mark {
    Mark::Disc {
        cx: (x * cell + cell / 2) as u32,
        cy: (y * cell + cell / 2) as u32,
        radius_num: (ink * cell * DOT_RATIO) as u128,
    }
}

/// `round(t * n)` for the coverage `t = ink / INK_SCALE`.
pub open spec fn scaled_count(n: nat, ink: nat) -> nat {
    ((2 * ink * n + INK_SCALE) / (2 * INK_SCALE as int)) as nat
}

/// The line at offset `l` of a cell: a column if `vertical`, else a row.
pub open spec fn line_at(cell: nat, x: nat, y: nat, l: nat, vertical: bool, alpha: u8) -> Mark {
    if vertical {
        Mark::Line {
            x0: (x * cell + l) as u32,
            y0: (y * cell) as u32,
            x1: (x * cell + l) as u32,
            y1: (y * cell + cell) as u32,
            alpha,
        }
    } else {
        Mark::Line {
            x0: (x * cell) as u32,
            y0: (y * cell + l) as u32,
            x1: (x * cell + cell) as u32,
            y1: (y * cell + l) as u32,
            alpha,
        }
    }
}

/// The lines at the offsets that the mask sets, in increasing order.
pub open spec fn lines_spec(cell: nat, x: nat, y: nat, m: Seq<bool>, vertical: bool, alpha: u8) -> Seq<Mark>
    decreases m.len(),
{
    if m.len() == 0 {
        Seq::empty()
    } else {
        let rest = lines_spec(cell, x, y, m.drop_last(), vertical, alpha);
        if m.last() {
            rest.push(line_at(cell, x, y, (m.len() - 1) as nat, vertical, alpha))
        } else {
            rest
        }
    }
}

/// `marks` are the lines of a mask with exactly `round(t * cell)` entries set.
pub open spec fn lines_drawn(cell: nat, x: nat, y: nat, ink: nat, vertical: bool, alpha: u8, marks: Seq<Mark>) -> bool {
    exists|m: Seq<bool>|
        is_mask(m, cell, scaled_count(cell, ink)) && marks == #[trigger] lines_spec(
            cell,
            x,
            y,
            m,
            vertical,
            alpha,
        )
}

/// The stipple dots of a cell: the Halton points from index `start` on.
pub open spec fn stipple_spec(cell: nat, x: nat, y: nat, count: nat, start: nat) -> Seq<Mark> {
    Seq::new(
        count,
        |j: int|
            Mark::Dot {
                x: (x * cell + halton_coord((start + j) as nat, 2, cell)) as u32,
                y: (y * cell + halton_coord((start + j) as nat, 3, cell)) as u32,
            },
    )
}

/// The grid step as a fraction `(num, den)`: `1 / t` held within `[1, cell]`.
pub open spec fn grid_step(cell: nat, ink: nat) -> (nat, nat) {
    if INK_SCALE <= cell * ink {
        (INK_SCALE as nat, ink)
    } else {
        (cell, 1)
    }
}

/// The number of grid positions `j` along an edge, those with `j * step < cell`.
pub open spec fn grid_len(cell: nat, ink: nat) -> nat {
    let (sn, sd) = grid_step(cell, ink);
    ((cell * sd + sn - 1) / (sn as int)) as nat
}

/// The pixel offset of the `j`-th grid position.
pub open spec fn grid_offset(cell: nat, ink: nat, j: nat) -> nat {
    let (sn, sd) = grid_step(cell, ink);
    (j * sn) / sd
}

/// The grid dots of a cell, column by column.
pub open spec fn grid_spec(cell: nat, x: nat, y: nat, ink: nat) -> Seq<Mark> {
    let m = grid_len(cell, ink);
    Seq::new(
        m * m,
        |k: int|
            Mark::Dot {
                x: (x * cell + grid_offset(cell, ink, (k / m as int) as nat)) as u32,
                y: (y * cell + grid_offset(cell, ink, (k % m as int) as nat)) as u32,
            },
    )
}

/// A filled disc centred in the cell, of radius `t * cell * 0.6036`.
pub fn dots(cell: u32, x: u32, y: u32, ink: u32) -> (r: Vec<Mark>)
    requires
        cell_fits(cell as nat, x as nat, y as nat),
        ink <= INK_SCALE,
    ensures
        r@ == seq![disc_spec(cell as nat, x as nat, y as nat, ink as nat)],
{
    proof {
        assert(x * cell + cell / 2 <= (x + 1) * cell) by (nonlinear_arith)
            requires cell >= 1;
        assert(y * cell + cell / 2 <= (y + 1) * cell) by (nonlinear_arith)
            requires cell >= 1;
        assert(ink * cell * DOT_RATIO <= 2549745 * 0x1_0000_0000 * 6036) by (nonlinear_arith)
            requires ink <= 2549745, cell < 0x1_0000_0000;
    }
    let cx = x * cell + cell / 2;
    let cy = y * cell + cell / 2;
    let radius_num = (ink as u128) * (cell as u128) * DOT_RATIO;
    let mut r: Vec<Mark> = Vec::new();
    r.push(Mark::Disc { cx, cy, radius_num });
    r
}

/// `round(t * n)`, which lies in `[0, n]`.
pub fn scaled_count_exec(n: u64, ink: u32) -> (k: u64)
    requires
        ink <= INK_SCALE,
    ensures
        k == scaled_count(n as nat, ink as nat),
        k <= n,
{
    proof {
        assert(2 * ink * n + INK_SCALE <= 2 * 2549745 * 0x1_0000_0000_0000_0000 + 2549745) by (nonlinear_arith)
            requires ink <= 2549745, n <= 0x1_0000_0000_0000_0000;
        assert((2 * ink * n + INK_SCALE) / (2 * INK_SCALE as int) <= n) by (nonlinear_arith)
            requires ink <= 2549745, INK_SCALE == 2549745;
    }
    ((2 * (ink as u128) * (n as u128) + INK_SCALE as u128) / (2 * INK_SCALE as u128)) as u64
}

/// The lines of a cell at the offsets that `mask` sets.
pub fn draw_lines(cell: u32, x: u32, y: u32, mask: &Vec<bool>, vertical: bool, alpha: u8) -> (r: Vec<Mark>)
    requires
        cell_fits(cell as nat, x as nat, y as nat),
        mask@.len() == cell,
    ensures
        r@ == lines_spec(cell as nat, x as nat, y as nat, mask@, vertical, alpha),
{
    proof {
        assert(x * cell + cell == (x + 1) * cell) by (nonlinear_arith);
        assert(y * cell + cell == (y + 1) * cell) by (nonlinear_arith);
    }
    let mut r: Vec<Mark> = Vec::new();
    let mut l: u32 = 0;
    while l < cell
        invariant
            cell_fits(cell as nat, x as nat, y as nat),
            x * cell + cell <= u32::MAX,
            y * cell + cell <= u32::MAX,
            mask@.len() == cell,
            l <= cell,
            r@ == lines_spec(cell as nat, x as nat, y as nat, mask@.take(l as int), vertical, alpha),
        decreases cell - l,
    {
        assert(mask@.take(l + 1).drop_last() =~= mask@.take(l as int));
        if mask[l as usize] {
            let m = if vertical {
                Mark::Line { x0: x * cell + l, y0: y * cell, x1: x * cell + l, y1: y * cell + cell, alpha }
            } else {
                Mark::Line { x0: x * cell, y0: y * cell + l, x1: x * cell + cell, y1: y * cell + l, alpha }
            };
            r.push(m);
        }
        l = l + 1;
    }
    assert(mask@.take(cell as int) =~= mask@);
    r
}

/// A mask of length `n` with exactly `round(t * n)` entries set, shuffled by `rng`.
pub fn proportion_mask(n: u32, ink: u32, rng: &mut SmallRng) -> (m: Vec<bool>)
    requires
        ink <= INK_SCALE,
    ensures
        is_mask(m@, n as nat, scaled_count(n as nat, ink as nat)),
{
    let k = scaled_count_exec(n as u64, ink);
    bool_vec(n as usize, k as usize, rng)
}

fn masked_lines(cell: u32, x: u32, y: u32, ink: u32, vertical: bool, alpha: u8, rng: &mut SmallRng) -> (r: Vec<Mark>)
    requires
        cell_fits(cell as nat, x as nat, y as nat),
        ink <= INK_SCALE,
    ensures
        lines_drawn(cell as nat, x as nat, y as nat, ink as nat, vertical, alpha, r@),
{
    let mask = proportion_mask(cell, ink, rng);
    let r = draw_lines(cell, x, y, &mask, vertical, alpha);
    assert(is_mask(mask@, cell as nat, scaled_count(cell as nat, ink as nat)));
    r
}

/// Vertical lines spanning the cell at `round(t * cell)` shuffled columns.
pub fn vline(cell: u32, x: u32, y: u32, ink: u32, rng: &mut SmallRng) -> (r: Vec<Mark>)
    requires
        cell_fits(cell as nat, x as nat, y as nat),
        ink <= INK_SCALE,
    ensures
        lines_drawn(cell as nat, x as nat, y as nat, ink as nat, true, 255, r@),
{
    masked_lines(cell, x, y, ink, true, 255, rng)
}

/// Horizontal lines spanning the cell at `round(t * cell)` shuffled rows.
pub fn hline(cell: u32, x: u32, y: u32, ink: u32, rng: &mut SmallRng) -> (r: Vec<Mark>)
    requires
        cell_fits(cell as nat, x as nat, y as nat),
        ink <= INK_SCALE,
    ensures
        lines_drawn(cell as nat, x as nat, y as nat, ink as nat, false, 255, r@),
{
    masked_lines(cell, x, y, ink, false, 255, rng)
}

/// Half-opaque vertical lines, then half-opaque horizontal lines, each set
/// with its own mask.
pub fn cross(cell: u32, x: u32, y: u32, ink: u32, rng: &mut SmallRng) -> (r: Vec<Mark>)
    requires
        cell_fits(cell as nat, x as nat, y as nat),
        ink <= INK_SCALE,
    ensures
        exists|a: Seq<Mark>, b: Seq<Mark>|
            lines_drawn(cell as nat, x as nat, y as nat, ink as nat, true, 127, a)
                && lines_drawn(cell as nat, x as nat, y as nat, ink as nat, false, 127, b)
                && r@ == a + b,
{
    let mut r = masked_lines(cell, x, y, ink, true, 127, rng);
    let ghost a = r@;
    let mut h = masked_lines(cell, x, y, ink, false, 127, rng);
    let ghost b = h@;
    r.append(&mut h);
    assert(r@ == a + b);
    r
}

/// `round(t * cell * cell)` single-pixel dots at Halton positions in the cell,
/// from a starting index drawn from `rng`.
pub fn stipple(cell: u32, x: u32, y: u32, ink: u32, rng: &mut SmallRng) -> (r: Vec<Mark>)
    requires
        cell_fits(cell as nat, x as nat, y as nat),
        ink <= INK_SCALE,
    ensures
        exists|start: u32|
            r@ == #[trigger] stipple_spec(
                cell as nat,
                x as nat,
                y as nat,
                scaled_count((cell * cell) as nat, ink as nat),
                start as nat,
            ),
{
    proof {
        assert(cell * cell <= u64::MAX) by (nonlinear_arith)
            requires cell <= u32::MAX;
        assert(x * cell + cell == (x + 1) * cell) by (nonlinear_arith);
        assert(y * cell + cell == (y + 1) * cell) by (nonlinear_arith);
    }
    let count = scaled_count_exec((cell as u64) * (cell as u64), ink);
    let seed = next_u64(rng);
    let ps = halton_from_seed(cell, cell, count, seed);
    let ghost start = choose|start: u32|
        ps@ == halton_points_spec(cell as nat, cell as nat, count as nat, start as nat);
    let ghost goal = stipple_spec(cell as nat, x as nat, y as nat, count as nat, start as nat);
    let mut r: Vec<Mark> = Vec::new();
    let mut j: usize = 0;
    while j < ps.len()
        invariant
            ps@ == halton_points_spec(cell as nat, cell as nat, count as nat, start as nat),
            ps@.len() == count,
            forall|q: int| 0 <= q < count ==> #[trigger] ps@[q].x < cell && ps@[q].y < cell,
            goal == stipple_spec(cell as nat, x as nat, y as nat, count as nat, start as nat),
            cell >= 1,
            x * cell + cell <= u32::MAX,
            y * cell + cell <= u32::MAX,
            j <= ps@.len(),
            r@ == goal.take(j as int),
        decreases ps@.len() - j,
    {
        let p = ps[j];
        proof {
            lemma_coord_below((start + j) as nat, 2, cell as nat);
            lemma_coord_below((start + j) as nat, 3, cell as nat);
        }
        r.push(Mark::Dot { x: x * cell + p.x, y: y * cell + p.y });
        j = j + 1;
        assert(r@ =~= goal.take(j as int));
    }
    assert(r@ =~= goal);
    assert(r@ == stipple_spec(
        cell as nat,
        x as nat,
        y as nat,
        scaled_count((cell * cell) as nat, ink as nat),
        start as nat,
    ));
    r
}

proof fn lemma_grid_geometry(cell: nat, ink: nat)
    requires
        cell >= 1,
        ink <= INK_SCALE,
    ensures
        grid_step(cell, ink).0 >= 1,
        grid_step(cell, ink).1 >= 1,
        grid_step(cell, ink).1 <= grid_step(cell, ink).0,
        grid_len(cell, ink) <= cell,
        forall|j: nat| j < grid_len(cell, ink) ==> #[trigger] grid_offset(cell, ink, j) < cell,
{
    let (sn, sd) = grid_step(cell, ink);
    if INK_SCALE <= cell * ink {
        assert(ink >= 1) by (nonlinear_arith)
            requires INK_SCALE <= cell * ink, INK_SCALE == 2549745;
    }
    let m = grid_len(cell, ink);
    assert(m <= cell) by (nonlinear_arith)
        requires m == (cell * sd + sn - 1) / (sn as int), sd <= sn, sn >= 1;
    lemma_fundamental_div_mod((cell * sd + sn - 1) as int, sn as int);
    assert forall|j: nat| j < grid_len(cell, ink) implies #[trigger] grid_offset(cell, ink, j) < cell by {
        assert(j * sn < cell * sd) by (nonlinear_arith)
            requires
                j < m,
                cell * sd + sn - 1 == sn * m + (cell * sd + sn - 1) % (sn as int),
                (cell * sd + sn - 1) % (sn as int) >= 0,
                sn >= 1,
        ;
        lemma_fundamental_div_mod((j * sn) as int, sd as int);
        assert((j * sn) / sd < cell) by (nonlinear_arith)
            requires
                j * sn < cell * sd,
                j * sn == sd * ((j * sn) / sd) + (j * sn) % sd,
                (j * sn) % sd >= 0,
                sd >= 1,
        ;
    }
}

proof fn lemma_grid_index(a: nat, b: nat, m: nat)
    requires
        a < m,
        b < m,
    ensures
        (a * m + b) / m == a,
        (a * m + b) % m == b,
        a * m + b < m * m,
{
    lemma_fundamental_div_mod_converse((a * m + b) as int, m as int, a as int, b as int);
    assert(a * m + b < m * m) by (nonlinear_arith)
        requires a < m, b < m;
}

/// Single-pixel dots on a regular sub-grid of the cell, with spacing
/// `1 / t` held within `[1, cell]`.
pub fn grid(cell: u32, x: u32, y: u32, ink: u32) -> (r: Vec<Mark>)
    requires
        cell_fits(cell as nat, x as nat, y as nat),
        ink <= INK_SCALE,
    ensures
        r@ == grid_spec(cell as nat, x as nat, y as nat, ink as nat),
{
    proof {
        lemma_grid_geometry(cell as nat, ink as nat);
        assert(x * cell + cell == (x + 1) * cell) by (nonlinear_arith);
        assert(y * cell + cell == (y + 1) * cell) by (nonlinear_arith);
        assert((cell as u64) * (ink as u64) <= 0x1_0000_0000 * 2549745) by (nonlinear_arith)
            requires cell <= u32::MAX, ink <= 2549745;
    }
    let (sn, sd): (u64, u64) = if (INK_SCALE as u64) <= (cell as u64) * (ink as u64) {
        (INK_SCALE as u64, ink as u64)
    } else {
        (cell as u64, 1)
    };
    let ghost spec_step = grid_step(cell as nat, ink as nat);
    assert(sn == spec_step.0 && sd == spec_step.1);
    proof {
        assert(sd <= 2549745);
        assert(sn <= 0x1_0000_0000);
        assert(cell * sd + sn <= 0x1_0000_0000 * 2549745 + 0x1_0000_0000) by (nonlinear_arith)
            requires cell <= u32::MAX, sd <= 2549745, sn <= 0x1_0000_0000;
    }
    let m: u64 = ((cell as u64) * sd + sn - 1) / sn;
    assert(m == grid_len(cell as nat, ink as nat));
    let mut offs: Vec<u32> = Vec::new();
    let mut j: u64 = 0;
    while j < m
        invariant
            m == grid_len(cell as nat, ink as nat),
            m <= cell,
            sn == grid_step(cell as nat, ink as nat).0,
            sd == grid_step(cell as nat, ink as nat).1,
            1 <= sd <= sn,
            sn <= 0x1_0000_0000,
            forall|q: nat| q < m ==> #[trigger] grid_offset(cell as nat, ink as nat, q) < cell,
            j <= m,
            offs@.len() == j,
            forall|q: int| 0 <= q < j ==> #[trigger] offs@[q] == grid_offset(cell as nat, ink as nat, q as nat),
        decreases m - j,
    {
        proof {
            assert(j * sn <= 0x1_0000_0000 * 0x1_0000_0000) by (nonlinear_arith)
                requires j <= 0x1_0000_0000, sn <= 0x1_0000_0000;
            assert(grid_offset(cell as nat, ink as nat, j as nat) < cell);
        }
        offs.push((j * sn / sd) as u32);
        j = j + 1;
    }
    let ghost goal = grid_spec(cell as nat, x as nat, y as nat, ink as nat);
    let mut r: Vec<Mark> = Vec::new();
    let mut a: u64 = 0;
    while a < m
        invariant
            m == grid_len(cell as nat, ink as nat),
            m <= cell,
            offs@.len() == m,
            forall|q: int| 0 <= q < m ==> #[trigger] offs@[q] < cell,
            forall|q: int| 0 <= q < m ==> #[trigger] offs@[q] == grid_offset(cell as nat, ink as nat, q as nat),
            goal == grid_spec(cell as nat, x as nat, y as nat, ink as nat),
            x * cell + cell <= u32::MAX,
            y * cell + cell <= u32::MAX,
            a <= m,
            r@ == goal.take(a * m),
        decreases m - a,
    {
        let mut b: u64 = 0;
        while b < m
            invariant
                m == grid_len(cell as nat, ink as nat),
                m <= cell,
                offs@.len() == m,
                forall|q: int| 0 <= q < m ==> #[trigger] offs@[q] < cell,
                forall|q: int| 0 <= q < m ==> #[trigger] offs@[q] == grid_offset(cell as nat, ink as nat, q as nat),
                goal == grid_spec(cell as nat, x as nat, y as nat, ink as nat),
                x * cell + cell <= u32::MAX,
                y * cell + cell <= u32::MAX,
                a < m,
                b <= m,
                r@ == goal.take(a * m + b),
            decreases m - b,
        {
            proof {
                lemma_grid_index(a as nat, b as nat, m as nat);
            }
            let ox = offs[a as usize];
            let oy = offs[b as usize];
            r.push(Mark::Dot { x: x * cell + ox, y: y * cell + oy });
            assert(r@ =~= goal.take(a * m + b + 1));
            b = b + 1;
        }
        assert((a + 1) * m == a * m + m) by (nonlinear_arith);
        a = a + 1;
    }
    assert(r@ =~= goal);
    r
}

/// The style that the hue-multiplexed style applies at hue `h`.
pub open spec fn hue_style(h: int) -> Style {
    if 15 <= h <= 45 {
        Style::Cross
    } else if 46 <= h <= 75 {
        Style::Stipple
    } else if 76 <= h <= 165 {
        Style::VLines
    } else if 166 <= h <= 255 {
        Style::Dots
    } else if 256 <= h <= 345 {
        Style::Grid
    } else {
        Style::HLines
    }
}

/// The style that draws pixel `p` when the image is drawn in `style`.
pub open spec fn effective_style(style: Style, p: Pixel) -> Style {
    if style == Style::Multi {
        hue_style(hue_spec(p))
    } else {
        style
    }
}

/// `marks` are a drawing of the cell `(x, y)` at coverage `ink` in style `s`.
pub open spec fn renders(s: Style, cell: nat, x: nat, y: nat, ink: nat, marks: Seq<Mark>) -> bool {
    match s {
        Style::Dots => marks == seq![disc_spec(cell, x, y, ink)],
        Style::VLines => lines_drawn(cell, x, y, ink, true, 255, marks),
        Style::HLines => lines_drawn(cell, x, y, ink, false, 255, marks),
        Style::Cross => exists|a: Seq<Mark>, b: Seq<Mark>|
            lines_drawn(cell, x, y, ink, true, 127, a) && lines_drawn(cell, x, y, ink, false, 127, b)
                && marks == a + b,
        Style::Stipple => exists|start: u32|
            marks == #[trigger] stipple_spec(cell, x, y, scaled_count(cell * cell, ink), start as nat),
        Style::Grid => marks == grid_spec(cell, x, y, ink),
        Style::Multi => false,
    }
}

/// The style that the hue-multiplexed style applies at hue `hue`.
pub fn style_for_hue(hue: i32) -> (s: Style)
    ensures
        s == hue_style(hue as int),
{
    if 15 <= hue && hue <= 45 {
        Style::Cross
    } else if 46 <= hue && hue <= 75 {
        Style::Stipple
    } else if 76 <= hue && hue <= 165 {
        Style::VLines
    } else if 166 <= hue && hue <= 255 {
        Style::Dots
    } else if 256 <= hue && hue <= 345 {
        Style::Grid
    } else {
        Style::HLines
    }
}

/// The marks of the cell `(x, y)` for source pixel `p`, drawn in `style`.
pub fn render_cell(style: Style, cell: u32, x: u32, y: u32, p: Pixel, rng: &mut SmallRng) -> (r: Vec<Mark>)
    requires
        cell_fits(cell as nat, x as nat, y as nat),
    ensures
        renders(effective_style(style, p), cell as nat, x as nat, y as nat, ink_spec(p) as nat, r@),
{
    let ink = pixel_coverage(p);
    let s = match style {
        Style::Multi => style_for_hue(pixel_to_hue(p)),
        _ => style,
    };
    match s {
        Style::Dots => dots(cell, x, y, ink),
        Style::VLines => vline(cell, x, y, ink, rng),
        Style::HLines => hline(cell, x, y, ink, rng),
        Style::Cross => cross(cell, x, y, ink, rng),
        Style::Stipple => stipple(cell, x, y, ink, rng),
        Style::Grid => grid(cell, x, y, ink),
        // `s` is never `Multi` here: `style_for_hue` picks one of the other styles.
        Style::Multi => hline(cell, x, y, ink, rng),
    }
}

} // verus!
