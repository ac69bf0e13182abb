use halftone::compose::{generate, GenError, SourceImage};
use halftone::halton::{halton_points, halton_seq, Point};
use halftone::mask::bool_vec;
use halftone::pattern::{
    cross, dots, grid, hline, proportion_mask, render_cell, scaled_count_exec, stipple,
    style_for_hue, vline, Mark, Style, DOT_RATIO, RADIUS_SCALE,
};
use halftone::pixel::{pixel_coverage, pixel_to_hue, Pixel, INK_SCALE};
use rand::rngs::SmallRng;
use rand::SeedableRng;

fn px(r: u8, g: u8, b: u8) -> Pixel {
    Pixel { r, g, b, a: 255 }
}

fn rng() -> SmallRng {
    SmallRng::seed_from_u64(42)
}

fn radius(m: &Mark) -> f64 {
    match m {
        Mark::Disc { radius_num, .. } => *radius_num as f64 / RADIUS_SCALE as f64,
        _ => panic!("not a disc"),
    }
}

#[test]
fn hue_of_primary_and_grey_pixels() {
    assert_eq!(pixel_to_hue(px(255, 0, 0)), 0);
    assert_eq!(pixel_to_hue(px(0, 255, 0)), 120);
    assert_eq!(pixel_to_hue(px(0, 0, 255)), 240);
    assert_eq!(pixel_to_hue(px(128, 128, 128)), 0);
}

#[test]
fn hue_rounds_and_wraps() {
    assert_eq!(pixel_to_hue(px(255, 128, 0)), 30);
    assert_eq!(pixel_to_hue(px(255, 0, 128)), 330);
    assert_eq!(pixel_to_hue(px(0, 170, 255)), 200);
    assert_eq!(pixel_to_hue(px(255, 255, 0)), 60);
}

#[test]
fn coverage_of_black_and_white() {
    assert_eq!(pixel_coverage(px(0, 0, 0)), INK_SCALE);
    assert_eq!(pixel_coverage(px(255, 255, 255)), 0);
    assert_eq!(pixel_coverage(px(255, 255, 254)), 1140);
    assert_eq!(pixel_coverage(px(100, 0, 0)), INK_SCALE - 298900);
}

#[test]
fn scaled_count_rounds_to_nearest() {
    assert_eq!(scaled_count_exec(10, INK_SCALE / 2), 5);
    assert_eq!(scaled_count_exec(7, INK_SCALE / 2), 3);
    assert_eq!(scaled_count_exec(7, INK_SCALE / 2 + 1), 4);
    assert_eq!(scaled_count_exec(7, 0), 0);
    assert_eq!(scaled_count_exec(7, INK_SCALE), 7);
}

#[test]
fn bool_vec_has_exact_count() {
    let mut r = rng();
    let m = bool_vec(8, 3, &mut r);
    assert_eq!(m.len(), 8);
    assert_eq!(m.iter().filter(|b| **b).count(), 3);
}

#[test]
fn bool_vec_is_shuffled() {
    let mut r = rng();
    let m = bool_vec(100, 50, &mut r);
    assert_eq!(m.iter().filter(|b| **b).count(), 50);
    assert!(m[..50].iter().any(|b| !*b));
}

#[test]
fn proportion_mask_counts_for_many_sizes() {
    let mut r = rng();
    for n in 1u32..40 {
        for ink in [0, 255, INK_SCALE / 3, INK_SCALE / 2, INK_SCALE] {
            let m = proportion_mask(n, ink, &mut r);
            assert_eq!(m.len(), n as usize);
            let expected = ((n as u64 * ink as u64) as f64 / INK_SCALE as f64).round() as usize;
            assert_eq!(m.iter().filter(|b| **b).count(), expected);
        }
    }
}

#[test]
fn proportion_mask_edges() {
    let mut r = rng();
    assert!(proportion_mask(9, 0, &mut r).iter().all(|b| !*b));
    assert!(proportion_mask(9, INK_SCALE, &mut r).iter().all(|b| *b));
}

#[test]
fn halton_points_exact_values() {
    let ps = halton_points(12, 12, 4, 0);
    assert_eq!(
        ps,
        vec![
            Point { x: 0, y: 0 },
            Point { x: 6, y: 4 },
            Point { x: 3, y: 8 },
            Point { x: 9, y: 1 },
        ]
    );
}

#[test]
fn halton_seq_count_and_bounds() {
    for n in [0u32, 1, 17, 200] {
        let ps = halton_seq(7, 3, n, 99);
        assert_eq!(ps.len(), n as usize);
        assert!(ps.iter().all(|p| p.x < 7 && p.y < 3));
    }
}

#[test]
fn halton_seq_seeds_differ() {
    let a = halton_seq(1000, 1000, 16, 1);
    let b = halton_seq(1000, 1000, 16, 2);
    assert_ne!(a, b);
    assert_eq!(a, halton_seq(1000, 1000, 16, 1));
}

#[test]
fn dots_radius_extremes() {
    let none = dots(10, 0, 0, 0);
    assert_eq!(none, vec![Mark::Disc { cx: 5, cy: 5, radius_num: 0 }]);
    let full = dots(10, 0, 0, INK_SCALE);
    assert!((radius(&full[0]) - 6.036).abs() < 1e-9);
    let black = dots(7, 2, 3, pixel_coverage(px(0, 0, 0)));
    assert_eq!(
        black,
        vec![Mark::Disc { cx: 17, cy: 24, radius_num: INK_SCALE as u128 * 7 * DOT_RATIO }]
    );
}

#[test]
fn vline_full_and_half() {
    let mut r = rng();
    let full = vline(4, 1, 2, INK_SCALE, &mut r);
    let expected: Vec<Mark> = (0..4)
        .map(|l| Mark::Line { x0: 4 + l, y0: 8, x1: 4 + l, y1: 12, alpha: 255 })
        .collect();
    assert_eq!(full, expected);
    let half = vline(10, 0, 0, INK_SCALE / 2, &mut r);
    assert_eq!(half.len(), 5);
    for m in &half {
        match m {
            Mark::Line { x0, y0, x1, y1, alpha } => {
                assert!(x0 == x1 && *x0 < 10 && *y0 == 0 && *y1 == 10 && *alpha == 255)
            }
            _ => panic!("not a line"),
        }
    }
}

#[test]
fn hline_full() {
    let mut r = rng();
    let full = hline(3, 0, 1, INK_SCALE, &mut r);
    let expected: Vec<Mark> = (0..3)
        .map(|l| Mark::Line { x0: 0, y0: 3 + l, x1: 3, y1: 3 + l, alpha: 255 })
        .collect();
    assert_eq!(full, expected);
    assert!(hline(3, 0, 1, 0, &mut r).is_empty());
}

#[test]
fn cross_overlays_two_half_opaque_sets() {
    let mut r = rng();
    let c = cross(10, 0, 0, INK_SCALE * 3 / 10, &mut r);
    assert_eq!(c.len(), 6);
    for (i, m) in c.iter().enumerate() {
        match m {
            Mark::Line { x0, x1, y0, y1, alpha } => {
                assert_eq!(*alpha, 127);
                if i < 3 {
                    assert_eq!(x0, x1);
                } else {
                    assert_eq!(y0, y1);
                }
            }
            _ => panic!("not a line"),
        }
    }
}

#[test]
fn stipple_count_and_bounds() {
    let mut r = rng();
    let s = stipple(4, 2, 1, INK_SCALE, &mut r);
    assert_eq!(s.len(), 16);
    for m in &s {
        match m {
            Mark::Dot { x, y } => assert!((8..12).contains(x) && (4..8).contains(y)),
            _ => panic!("not a dot"),
        }
    }
    assert_eq!(stipple(4, 0, 0, INK_SCALE / 2, &mut r).len(), 8);
    assert!(stipple(4, 0, 0, 0, &mut r).is_empty());
}

#[test]
fn grid_spacing() {
    let full = grid(4, 0, 0, INK_SCALE);
    assert_eq!(full.len(), 16);
    assert_eq!(full[0], Mark::Dot { x: 0, y: 0 });
    assert_eq!(full[1], Mark::Dot { x: 0, y: 1 });
    assert_eq!(full[15], Mark::Dot { x: 3, y: 3 });
    let faint = grid(4, 1, 1, 255);
    assert_eq!(faint, vec![Mark::Dot { x: 4, y: 4 }]);
    let half = grid(10, 0, 0, INK_SCALE / 2);
    assert_eq!(half.len(), 25);
    assert_eq!(half[1], Mark::Dot { x: 0, y: 2 });
    assert_eq!(half[24], Mark::Dot { x: 8, y: 8 });
}

#[test]
fn hue_buckets() {
    let cases = [
        (0, Style::HLines),
        (14, Style::HLines),
        (15, Style::Cross),
        (45, Style::Cross),
        (46, Style::Stipple),
        (75, Style::Stipple),
        (76, Style::VLines),
        (165, Style::VLines),
        (166, Style::Dots),
        (200, Style::Dots),
        (255, Style::Dots),
        (256, Style::Grid),
        (345, Style::Grid),
        (346, Style::HLines),
        (359, Style::HLines),
    ];
    for (h, s) in cases {
        assert_eq!(style_for_hue(h), s);
    }
}

#[test]
fn multi_hue_200_draws_a_disc() {
    let mut r = rng();
    let p = px(0, 170, 255);
    let ink = pixel_coverage(p);
    let marks = render_cell(Style::Multi, 10, 1, 2, p, &mut r);
    assert_eq!(
        marks,
        vec![Mark::Disc { cx: 15, cy: 25, radius_num: ink as u128 * 10 * DOT_RATIO }]
    );
}

#[test]
fn end_to_end_black_and_white_dots() {
    let img = SourceImage::new(2, 1, vec![px(0, 0, 0), px(255, 255, 255)]).unwrap();
    let mut r = rng();
    let plan = generate(&img, 10, Style::Dots, &mut r).unwrap();
    assert_eq!((plan.width, plan.height), (20, 10));
    assert_eq!(plan.cells.len(), 2);
    assert_eq!(plan.cells[0].len(), 1);
    match plan.cells[0][0] {
        Mark::Disc { cx, cy, .. } => assert_eq!((cx, cy), (5, 5)),
        _ => panic!("not a disc"),
    }
    assert!((radius(&plan.cells[0][0]) - 6.036).abs() < 1e-9);
    assert_eq!(plan.cells[1], vec![Mark::Disc { cx: 15, cy: 5, radius_num: 0 }]);
}

#[test]
fn output_dimensions_for_every_style() {
    let pixels: Vec<Pixel> = (0..6u8).map(|i| px(i * 40, 255 - i * 30, i * 10)).collect();
    let img = SourceImage::new(3, 2, pixels).unwrap();
    let styles = [
        Style::Dots,
        Style::VLines,
        Style::HLines,
        Style::Cross,
        Style::Stipple,
        Style::Grid,
        Style::Multi,
    ];
    let mut r = rng();
    for s in styles {
        for c in [1u32, 2, 5] {
            let plan = generate(&img, c, s, &mut r).unwrap();
            assert_eq!((plan.width, plan.height), (3 * c, 2 * c));
            assert_eq!(plan.cells.len(), 6);
        }
    }
}

#[test]
fn generate_errors() {
    let mut r = rng();
    let img = SourceImage::new(2, 2, vec![px(0, 0, 0); 4]).unwrap();
    assert_eq!(generate(&img, 0, Style::Dots, &mut r).unwrap_err(), GenError::ZeroCell);
    let empty = SourceImage::new(0, 5, vec![]).unwrap();
    assert_eq!(generate(&empty, 3, Style::Grid, &mut r).unwrap_err(), GenError::EmptyImage);
    let big = SourceImage::new(70000, 1, vec![px(1, 2, 3); 70000]).unwrap();
    assert_eq!(generate(&big, 70000, Style::Dots, &mut r).unwrap_err(), GenError::TooLarge);
}

#[test]
fn source_image_rejects_wrong_pixel_count() {
    assert!(SourceImage::new(2, 2, vec![px(0, 0, 0); 3]).is_none());
    assert!(SourceImage::new(2, 2, vec![px(0, 0, 0); 4]).is_some());
}

#[test]
fn white_pixel_draws_no_ink() {
    let mut r = rng();
    let img = SourceImage::new(1, 1, vec![px(255, 255, 255)]).unwrap();
    for s in [Style::VLines, Style::HLines, Style::Cross, Style::Stipple] {
        let plan = generate(&img, 71, s, &mut r).unwrap();
        assert!(plan.cells[0].is_empty());
    }
    let plan = generate(&img, 71, Style::Dots, &mut r).unwrap();
    assert_eq!(plan.cells[0], vec![Mark::Disc { cx: 35, cy: 35, radius_num: 0 }]);
}
