use fractal_sketches::geom::Point;
use fractal_sketches::koch::{koch_points, koch_radial};
use fractal_sketches::sierpinski::{sierpinski_triangles, Tri};
use fractal_sketches::cantor::{cantor_segments, CantorSeg};
use fractal_sketches::circles::{pack_circles, Circle};

fn pt(x: i64, y: i64) -> Point {
    Point::new(x, y)
}

#[test]
fn koch_depth_zero_is_the_two_endpoints() {
    let a = pt(-400, 25);
    let b = pt(400, -17);
    let points = koch_points(a, b, 0);
    assert_eq!(points, vec![a, b]);
}

#[test]
fn koch_depth_one_exact_points() {
    // Segment (0,0)-(81,0): thirds at 27 and 54, apex above the middle
    // third, rotated by 60 degrees in fixed point.
    let points = koch_points(pt(0, 0), pt(81, 0), 1);
    let expected = vec![
        pt(0, 0),
        pt(27, 0),
        pt(27, 0),
        pt(40, 23),
        pt(40, 23),
        pt(54, 0),
        pt(54, 0),
        pt(81, 0),
    ];
    assert_eq!(points, expected);
}

#[test]
fn koch_depth_one_reversed_segment_rounds_down() {
    // The same segment walked the other way: divisions round toward
    // negative infinity, so the apex lands at (40, -24).
    let points = koch_points(pt(81, 0), pt(0, 0), 1);
    let expected = vec![
        pt(81, 0),
        pt(54, 0),
        pt(54, 0),
        pt(40, -24),
        pt(40, -24),
        pt(27, 0),
        pt(27, 0),
        pt(0, 0),
    ];
    assert_eq!(points, expected);
}

#[test]
fn koch_point_count_grows_four_fold() {
    let a = pt(-300, 0);
    let b = pt(300, 0);
    let mut expected: usize = 2;
    for depth in 0..5u32 {
        let points = koch_points(a, b, depth);
        assert_eq!(points.len(), expected);
        expected *= 4;
    }
}

#[test]
fn koch_first_and_last_points_are_the_seed_endpoints() {
    let a = pt(-123, 456);
    let b = pt(789, -12);
    for depth in 0..4u32 {
        let points = koch_points(a, b, depth);
        assert_eq!(points[0], a);
        assert_eq!(points[points.len() - 1], b);
    }
}

#[test]
fn radial_koch_is_one_linear_curve_per_side() {
    let seeds = vec![pt(300, 0), pt(0, 300), pt(-300, 0), pt(0, -300)];
    let depth = 1;
    let all = koch_radial(&seeds, depth);
    let block = 2 * 4usize.pow(depth);
    assert_eq!(all.len(), seeds.len() * block);
    for i in 0..seeds.len() {
        let side = koch_points(seeds[i], seeds[(i + 1) % seeds.len()], depth);
        assert_eq!(&all[i * block..(i + 1) * block], &side[..]);
    }
}

#[test]
fn radial_koch_closes_at_the_first_seed() {
    let seeds = vec![pt(300, 0), pt(-150, 260), pt(-150, -260)];
    let all = koch_radial(&seeds, 2);
    assert_eq!(all[0], seeds[0]);
    assert_eq!(all[all.len() - 1], seeds[0]);
}

#[test]
fn radial_hexagon_depth_two_has_96_leaf_segments() {
    // Six seeds around a circle of radius 300, as the radial sketch uses.
    let mut seeds = Vec::new();
    for i in 0..6u32 {
        let angle = (i as f64) * std::f64::consts::TAU / 6.0;
        seeds.push(pt((angle.cos() * 300.0) as i64, (angle.sin() * 300.0) as i64));
    }
    let points = koch_radial(&seeds, 2);
    // 6 sides, 4^2 leaf segments each, 2 endpoints per leaf segment.
    assert_eq!(points.len(), 6 * 16 * 2);
    assert_eq!(points.len(), 192);
}

#[test]
fn sierpinski_depth_zero_is_one_leaf() {
    let start = pt(0, 0);
    let top = pt(50, 100);
    let end = pt(100, 0);
    let tris = sierpinski_triangles(start, top, end, 0);
    assert_eq!(tris, vec![Tri { a: start, b: end, c: top }]);
}

#[test]
fn sierpinski_depth_one_exact_corners() {
    let tris = sierpinski_triangles(pt(0, 0), pt(50, 100), pt(100, 0), 1);
    let expected = vec![
        Tri { a: pt(0, 0), b: pt(50, 0), c: pt(25, 50) },
        Tri { a: pt(25, 50), b: pt(75, 50), c: pt(50, 100) },
        Tri { a: pt(50, 0), b: pt(100, 0), c: pt(75, 50) },
    ];
    assert_eq!(tris, expected);
}

#[test]
fn sierpinski_leaf_count_is_a_power_of_three() {
    let start = pt(-400, -300);
    let top = pt(0, 300);
    let end = pt(400, -300);
    let mut expected: usize = 1;
    for depth in 0..5u32 {
        let tris = sierpinski_triangles(start, top, end, depth);
        assert_eq!(tris.len(), expected);
        expected *= 3;
    }
}

#[test]
fn cantor_below_threshold_draws_nothing() {
    let segs = cantor_segments(-400, -290, 2, 3, 30);
    assert!(segs.is_empty());
}

#[test]
fn cantor_two_rows_exact() {
    let segs = cantor_segments(0, 0, 9, 3, 30);
    let expected = vec![
        CantorSeg { x: 0, y: 0, len: 9 },
        CantorSeg { x: 0, y: 30, len: 3 },
        CantorSeg { x: 6, y: 30, len: 3 },
    ];
    assert_eq!(segs, expected);
}

#[test]
fn cantor_segment_count_for_four_rows() {
    // Lengths 27, 9, 3, 1 are drawn; 1/3 falls below the threshold.
    let segs = cantor_segments(0, 0, 27, 1, 10);
    assert_eq!(segs.len(), 1 + 2 + 4 + 8);
}

#[test]
fn circle_at_threshold_draws_nothing() {
    // A circle is drawn only if its radius is above the threshold.
    let circles = pack_circles(40, 30, 8, 8);
    assert!(circles.is_empty());
    let circles = pack_circles(40, 30, 5, 8);
    assert!(circles.is_empty());
}

#[test]
fn circle_above_threshold_draws_itself() {
    // The children have radius 8, not above the threshold, so only the
    // root is drawn.
    let circles = pack_circles(0, 0, 16, 8);
    assert_eq!(circles, vec![Circle { x: 0, y: 0, radius: 16 }]);
}

#[test]
fn circle_children_sit_in_the_four_cardinal_directions() {
    let circles = pack_circles(0, 0, 32, 8);
    let expected = vec![
        Circle { x: 0, y: 0, radius: 32 },
        Circle { x: 16, y: 0, radius: 16 },
        Circle { x: -16, y: 0, radius: 16 },
        Circle { x: 0, y: 16, radius: 16 },
        Circle { x: 0, y: -16, radius: 16 },
    ];
    assert_eq!(circles, expected);
}

#[test]
fn circle_packing_count_three_generations() {
    // Radii 64, 32 and 16 are drawn; the generation of radius 8 is not.
    let circles = pack_circles(0, 0, 64, 8);
    assert_eq!(circles.len(), 1 + 4 + 16);
}
