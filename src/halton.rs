//! Halton sequences: low-discrepancy points from radical inverses in bases 2 and 3.
use crate::random::{next_u32, rng_from_seed};
use vstd::arithmetic::div_mod::{lemma_div_decreases, lemma_fundamental_div_mod};
use vstd::prelude::*;

verus! {

/// A point on the pixel grid.
#[derive(Clone, Copy, Debug, PartialEq, Eq, Structural)]
pub struct Point {
    pub x: u32,
    pub y: u32,
}

/// The radical inverse of `i` in base `b`, as a fraction `(numerator, denominator)`:
/// the base-`b` digits of `i` mirrored behind the radix point.
pub open spec fn radical_inverse(i: nat, b: nat) -> (nat, nat)
    decreases i,
    via radical_inverse_decreases
{
    if i == 0 || b < 2 {
        (0, 1)
    } else {
        let (n, d) = radical_inverse(i / b, b);
        ((i % b) * d + n, d * b)
    }
}

#[via_fn]
proof fn radical_inverse_decreases(i: nat, b: nat) {
    if !(i == 0 || b < 2) {
        lemma_div_decreases(i as int, b as int);
    }
}

/// The `i`-th Halton value in base `b`, scaled to `[0, dim)` and truncated to a pixel.
pub open spec fn halton_coord(i: nat, b: nat, dim: nat) -> nat {
    let (n, d) = radical_inverse(i, b);
    (n * dim) / d
}

/// The points of the base-2/base-3 Halton sequence with indices `start .. start + n`,
/// scaled to a `width` by `height` rectangle.
pub open spec fn halton_points_spec(width: nat, height: nat, n: nat, start: nat) -> Seq<Point> {
    Seq::new(
        n,
        |j: int|
            Point {
                x: halton_coord((start + j) as nat, 2, width) as u32,
                y: halton_coord((start + j) as nat, 3, height) as u32,
            },
    )
}

proof fn lemma_step_bounds(i: nat, b: nat, n: nat, d: nat)
    requires
        2 <= b,
        i > 0,
        n < d,
        d <= 1 || d <= b * (i / b),
        1 <= d,
    ensures
        (i % b) * d + n < d * b,
        d * b <= b * i,
{
    lemma_fundamental_div_mod(i as int, b as int);
    assert(b * (i / b) <= i);
    assert(d <= i);
    assert((i % b) * d + n < d * b) by (nonlinear_arith)
        requires i % b < b, n < d, 0 <= i % b;
    assert(d * b <= b * i) by (nonlinear_arith)
        requires d <= i, b >= 2;
}

/// The radical inverse of `i` in base `b`, exactly, as a fraction.
fn halton_fraction(i: u128, b: u128) -> (r: (u128, u128))
    requires
        2 <= b <= 3,
        i < 0x4_0000_0000_0000_0000,
    ensures
        r.0 == radical_inverse(i as nat, b as nat).0,
        r.1 == radical_inverse(i as nat, b as nat).1,
        r.0 < r.1,
        1 <= r.1,
        r.1 <= 1 || r.1 <= b * i,
    decreases i,
{
    if i == 0 {
        (0, 1)
    } else {
        proof {
            lemma_div_decreases(i as int, b as int);
        }
        let (n, d) = halton_fraction(i / b, b);
        proof {
            lemma_step_bounds(i as nat, b as nat, n as nat, d as nat);
            assert(b * i <= 3 * 0x4_0000_0000_0000_0000) by (nonlinear_arith)
                requires b <= 3, i < 0x4_0000_0000_0000_0000;
        }
        ((i % b) * d + n, d * b)
    }
}

proof fn lemma_scaled_below(n: nat, d: nat, dim: nat)
    requires
        n < d,
        dim > 0,
    ensures
        (n * dim) / d < dim,
{
    let q = (n * dim) / d;
    lemma_fundamental_div_mod((n * dim) as int, d as int);
    assert(q < dim) by (nonlinear_arith)
        requires
            n * dim == d * q + (n * dim) % d,
            (n * dim) % d >= 0,
            n < d,
            dim > 0,
            q >= 0,
    ;
}

/// The `i`-th Halton value in base `b`, scaled to `[0, dim)` as a pixel offset.
fn halton_coord_exec(i: u128, b: u128, dim: u32) -> (c: u32)
    requires
        2 <= b <= 3,
        i < 0x4_0000_0000_0000_0000,
        dim > 0,
    ensures
        c == halton_coord(i as nat, b as nat, dim as nat),
        c < dim,
{
    let (n, d) = halton_fraction(i, b);
    proof {
        assert(b * i <= 3 * 0x4_0000_0000_0000_0000) by (nonlinear_arith)
            requires b <= 3, i < 0x4_0000_0000_0000_0000;
        assert(n * dim < 0x10_0000_0000_0000_0000_0000_0000) by (nonlinear_arith)
            requires n < 3 * 0x4_0000_0000_0000_0000, dim < 0x1_0000_0000;
        lemma_scaled_below(n as nat, d as nat, dim as nat);
    }
    let c: u128 = n * (dim as u128) / d;
    c as u32
}

/// The Halton points with indices `start .. start + n`, in a `width` by `height` rectangle.
pub fn halton_points(width: u32, height: u32, n: u64, start: u32) -> (ps: Vec<Point>)
    requires
        width > 0,
        height > 0,
    ensures
        ps@ == halton_points_spec(width as nat, height as nat, n as nat, start as nat),
        ps@.len() == n,
        forall|j: int| 0 <= j < n ==> #[trigger] ps@[j].x < width && ps@[j].y < height,
{
    let mut ps: Vec<Point> = Vec::new();
    let mut j: u64 = 0;
    while j < n
        invariant
            width > 0,
            height > 0,
            j <= n,
            ps@ == halton_points_spec(width as nat, height as nat, n as nat, start as nat).take(
                j as int,
            ),
            forall|q: int| 0 <= q < j ==> #[trigger] ps@[q].x < width && ps@[q].y < height,
        decreases n - j,
    {
        let i: u128 = start as u128 + j as u128;
        let x = halton_coord_exec(i, 2, width);
        let y = halton_coord_exec(i, 3, height);
        ps.push(Point { x, y });
        j = j + 1;
        assert(ps@ =~= halton_points_spec(width as nat, height as nat, n as nat, start as nat).take(
            j as int,
        ));
    }
    assert(ps@ =~= halton_points_spec(width as nat, height as nat, n as nat, start as nat));
    ps
}

/// `n` Halton points in a `width` by `height` rectangle, starting at an index
/// drawn from a generator seeded with `seed`.
pub(crate) fn halton_from_seed(width: u32, height: u32, n: u64, seed: u64) -> (ps: Vec<Point>)
    requires
        width > 0,
        height > 0,
    ensures
        exists|start: u32|
            ps@ == halton_points_spec(width as nat, height as nat, n as nat, start as nat),
        ps@.len() == n,
        forall|j: int| 0 <= j < n ==> #[trigger] ps@[j].x < width && ps@[j].y < height,
{
    let mut rng = rng_from_seed(seed);
    let start = next_u32(&mut rng);
    halton_points(width, height, n, start)
}

/// `n` Halton points in a `width` by `height` rectangle, starting at an index
/// drawn from a generator seeded with `seed`.
pub fn halton_seq(width: u32, height: u32, n: u32, seed: u64) -> (ps: Vec<Point>)
    requires
        width > 0,
        height > 0,
    ensures
        exists|start: u32|
            ps@ == halton_points_spec(width as nat, height as nat, n as nat, start as nat),
        ps@.len() == n,
        forall|j: int| 0 <= j < n ==> #[trigger] ps@[j].x < width && ps@[j].y < height,
{
    halton_from_seed(width, height, n as u64, seed)
}

proof fn lemma_inverse_proper(i: nat, b: nat)
    requires
        b >= 2,
    ensures
        radical_inverse(i, b).0 < radical_inverse(i, b).1,
    decreases i,
{
    if i > 0 {
        lemma_div_decreases(i as int, b as int);
        lemma_inverse_proper(i / b, b);
        let (n, d) = radical_inverse(i / b, b);
        assert((i % b) * d + n < d * b) by (nonlinear_arith)
            requires i % b < b, n < d, 0 <= i % b;
    }
}

/// A Halton coordinate lies in `[0, dim)`.
pub proof fn lemma_coord_below(i: nat, b: nat, dim: nat)
    requires
        b >= 2,
        dim > 0,
    ensures
        halton_coord(i, b, dim) < dim,
{
    lemma_inverse_proper(i, b);
    lemma_scaled_below(radical_inverse(i, b).0, radical_inverse(i, b).1, dim);
}

} // verus!
