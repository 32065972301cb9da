use fractal_sketches::config::{build_model, parse_u32_or, str_eq, AnimationState, KochType, Model};
use fractal_sketches::geom::Point;
use fractal_sketches::koch::{koch_points, koch_radial};

#[test]
fn parse_accepts_plain_decimals() {
    assert_eq!(parse_u32_or("0", 9), 0);
    assert_eq!(parse_u32_or("4", 9), 4);
    assert_eq!(parse_u32_or("123456", 9), 123456);
    assert_eq!(parse_u32_or("4294967295", 9), u32::MAX);
}

#[test]
fn parse_accepts_a_leading_plus_sign() {
    // `str::parse::<u32>` takes an optional leading plus, and so does
    // the sketch.
    assert_eq!(parse_u32_or("+3", 9), 3);
    assert_eq!(parse_u32_or("+0", 9), 0);
    assert_eq!(parse_u32_or("+4294967295", 9), u32::MAX);
}

#[test]
fn parse_falls_back_on_malformed_input() {
    assert_eq!(parse_u32_or("", 9), 9);
    assert_eq!(parse_u32_or("abc", 9), 9);
    assert_eq!(parse_u32_or("12a", 9), 9);
    assert_eq!(parse_u32_or("-3", 9), 9);
    assert_eq!(parse_u32_or("+", 9), 9);
    assert_eq!(parse_u32_or("++3", 9), 9);
    assert_eq!(parse_u32_or("3+", 9), 9);
    assert_eq!(parse_u32_or(" 3", 9), 9);
}

#[test]
fn parse_falls_back_on_overflow() {
    assert_eq!(parse_u32_or("4294967296", 7), 7);
    assert_eq!(parse_u32_or("99999999999999999999", 7), 7);
}

#[test]
fn str_eq_compares_by_characters() {
    assert!(str_eq("radial", "radial"));
    assert!(!str_eq("radial", "linear"));
    assert!(!str_eq("radial", "radia"));
    assert!(!str_eq("", "radial"));
    assert!(str_eq("", ""));
}

#[test]
fn model_radial_with_sides_and_depth() {
    let m = build_model("radial", Some("6"), Some("2"));
    assert_eq!(m, Model { koch_type: KochType::Radial(6), depth: 2 });
}

#[test]
fn model_defaults_for_missing_values() {
    let m = build_model("radial", None, None);
    assert_eq!(m, Model { koch_type: KochType::Radial(5), depth: 4 });
}

#[test]
fn model_defaults_for_malformed_values() {
    let m = build_model("radial", Some("abc"), Some("99999999999999999999"));
    assert_eq!(m, Model { koch_type: KochType::Radial(5), depth: 4 });
}

#[test]
fn model_unrecognized_family_is_linear() {
    let m = build_model("circular", Some("6"), Some("2"));
    assert_eq!(m.koch_type, KochType::Linear);
    assert_eq!(m.depth, 2);
    let m = build_model("linear", None, Some("3"));
    assert_eq!(m.koch_type, KochType::Linear);
    assert_eq!(m.depth, 3);
}

#[test]
fn animation_advances_once_per_step_then_stops() {
    let mut state = AnimationState::new(2);
    assert_eq!(state.current_depth, 0);
    assert!(state.advance());
    assert_eq!(state.current_depth, 1);
    assert!(state.advance());
    assert_eq!(state.current_depth, 2);
    assert!(!state.advance());
    assert_eq!(state.current_depth, 2);
    assert_eq!(state.target_depth, 2);
}

#[test]
fn cli_radial_hexagon_end_to_end() {
    // side=6, depth=2, type=radial: exactly 6 independent depth-2 Koch
    // curves, 96 leaf segments, 192 endpoints before dedup.
    let m = build_model("radial", Some("6"), Some("2"));
    let sides = match m.koch_type {
        KochType::Radial(s) => s,
        KochType::Linear => panic!("expected the radial family"),
    };
    let mut seeds = Vec::new();
    for i in 0..sides {
        let angle = (i as f64) * std::f64::consts::TAU / (sides as f64);
        seeds.push(Point::new(
            (angle.cos() * 300.0) as i64,
            (angle.sin() * 300.0) as i64,
        ));
    }
    let points = koch_radial(&seeds, m.depth);
    assert_eq!(points.len(), 192);
    // Each of the 6 curves is the linear rule at the same depth.
    for i in 0..6usize {
        let side = koch_points(seeds[i], seeds[(i + 1) % 6], m.depth);
        assert_eq!(side.len(), 32);
        assert_eq!(&points[i * 32..(i + 1) * 32], &side[..]);
    }
}
