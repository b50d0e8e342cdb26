use ant_behaviour::utils::cos_milli;
use ant_behaviour::utils::dir_milli;
use ant_behaviour::utils::direction_angle;
use ant_behaviour::utils::distance_squared;
use ant_behaviour::utils::div_toward_zero;
use ant_behaviour::utils::floor_div;
use ant_behaviour::utils::isqrt;
use ant_behaviour::utils::normalize_or_zero;
use ant_behaviour::utils::sin_milli;
use ant_behaviour::utils::square;
use ant_behaviour::utils::Vec2i;
use ant_behaviour::utils::ViewCone;

#[test]
fn square_of_values() {
    assert_eq!(square(7), 49);
    assert_eq!(square(-5), 25);
    assert_eq!(square(0), 0);
    assert_eq!(square(3_000_000), 9_000_000_000_000);
}

#[test]
fn floor_division_rounds_down() {
    assert_eq!(floor_div(7, 2), 3);
    assert_eq!(floor_div(-7, 2), -4);
    assert_eq!(floor_div(-8, 2), -4);
    assert_eq!(floor_div(0, 5), 0);
    assert_eq!(floor_div(-1, 100), -1);
}

#[test]
fn truncating_division_rounds_toward_zero() {
    assert_eq!(div_toward_zero(7, 2), 3);
    assert_eq!(div_toward_zero(-7, 2), -3);
    assert_eq!(div_toward_zero(-199, 100), -1);
}

#[test]
fn integer_square_roots() {
    assert_eq!(isqrt(0), 0);
    assert_eq!(isqrt(1), 1);
    assert_eq!(isqrt(2), 1);
    assert_eq!(isqrt(15), 3);
    assert_eq!(isqrt(16), 4);
    assert_eq!(isqrt(10_000), 100);
    assert_eq!(isqrt(u64::MAX), 0xFFFF_FFFF);
}

#[test]
fn distance_squared_examples() {
    let a = Vec2i::new(3, 4);
    let o = Vec2i::zero();
    assert_eq!(distance_squared(a, o), 25);
    assert_eq!(distance_squared(o, a), 25);
    assert_eq!(distance_squared(Vec2i::new(-3, -4), Vec2i::new(3, 4)), 100);
}

#[test]
fn sine_exact_at_axes() {
    assert_eq!(sin_milli(0), 0);
    assert_eq!(sin_milli(900), 1000);
    assert_eq!(sin_milli(1800), 0);
    assert_eq!(sin_milli(2700), -1000);
}

#[test]
fn cosine_exact_at_axes() {
    assert_eq!(cos_milli(0), 1000);
    assert_eq!(cos_milli(900), 0);
    assert_eq!(cos_milli(1800), -1000);
    assert_eq!(cos_milli(2700), 0);
}

#[test]
fn sine_at_diagonal() {
    // 4000 * 450 * 1350 / (4050000 - 450 * 1350) truncates to 705.
    assert_eq!(sin_milli(450), 705);
    assert_eq!(cos_milli(450), 705);
}

#[test]
fn sine_stays_in_scaled_unit_range() {
    for a in 0..3600u32 {
        let s = sin_milli(a);
        let c = cos_milli(a);
        assert!(-1000 <= s && s <= 1000);
        assert!(-1000 <= c && c <= 1000);
    }
}

#[test]
fn heading_vectors_at_axes() {
    assert_eq!(dir_milli(0), Vec2i::new(0, 1000));
    assert_eq!(dir_milli(900), Vec2i::new(-1000, 0));
    assert_eq!(dir_milli(1800), Vec2i::new(0, -1000));
    assert_eq!(dir_milli(2700), Vec2i::new(1000, 0));
}

#[test]
fn direction_angle_at_axes() {
    assert_eq!(direction_angle(Vec2i::new(0, 5)), 0);
    assert_eq!(direction_angle(Vec2i::new(-3, 0)), 900);
    assert_eq!(direction_angle(Vec2i::new(0, -2)), 1800);
    assert_eq!(direction_angle(Vec2i::new(7, 0)), 2700);
    assert_eq!(direction_angle(Vec2i::new(0, 0)), 0);
}

#[test]
fn direction_angle_at_diagonals() {
    assert_eq!(direction_angle(Vec2i::new(-5, 5)), 450);
    assert_eq!(direction_angle(Vec2i::new(5, 5)), 3150);
    // The heading vector of 450 maps back onto its own angle.
    assert_eq!(direction_angle(dir_milli(450)), 450);
}

#[test]
fn normalize_rescales_to_unit_length() {
    assert_eq!(normalize_or_zero(Vec2i::new(3, 4)), Vec2i::new(600, 800));
    assert_eq!(normalize_or_zero(Vec2i::new(-3, 4)), Vec2i::new(-600, 800));
    assert_eq!(normalize_or_zero(Vec2i::new(0, 77)), Vec2i::new(0, 1000));
    assert_eq!(normalize_or_zero(Vec2i::new(300_000, 400_000)), Vec2i::new(600, 800));
}

#[test]
fn normalize_keeps_zero_at_zero() {
    assert_eq!(normalize_or_zero(Vec2i::zero()), Vec2i::zero());
    assert_ne!(normalize_or_zero(Vec2i::new(1, 0)), Vec2i::zero());
}

#[test]
fn cone_contains_point_on_heading_at_radius() {
    let cone = ViewCone::new(Vec2i::zero(), 100, 900, 0);
    // Exactly at the radius along the heading: contained.
    assert!(cone.contains(Vec2i::new(0, 100), 0));
    // One unit beyond the radius: outside.
    assert!(!cone.contains(Vec2i::new(0, 101), 0));
    // The apex itself is contained.
    assert!(cone.contains(Vec2i::zero(), 0));
}

#[test]
fn cone_contains_straight_ahead() {
    // Agent at the origin heading along positive y, half angle 45
    // degrees, view distance 100: a candidate dead ahead at
    // distance 50 is seen.
    let cone = ViewCone::new(Vec2i::zero(), 100, 900, 0);
    assert!(cone.contains(Vec2i::new(0, 50), 0));
}

#[test]
fn cone_borderline_diagonal_candidate() {
    // Candidate at (70, 70): distance about 99, angle exactly 45
    // degrees off the heading. The formula compares the exact angle
    // cosine against the fixed-point cosine of the half angle (705
    // thousandths), and 70/99 is above it, so the cone contains the
    // point.
    let cone = ViewCone::new(Vec2i::zero(), 100, 900, 0);
    assert!(cone.contains(Vec2i::new(70, 70), 0));
}

#[test]
fn cone_rejects_point_past_half_angle() {
    // (72, 69) lies about 46 degrees off the heading, beyond the
    // 45-degree half angle, at distance under the radius.
    let cone = ViewCone::new(Vec2i::zero(), 100, 900, 0);
    assert!(!cone.contains(Vec2i::new(72, 69), 0));
}

#[test]
fn cone_allows_for_candidate_radius() {
    let cone = ViewCone::new(Vec2i::zero(), 100, 900, 0);
    // Distance 104 with candidate radius 5: within 105.
    assert!(cone.contains(Vec2i::new(0, 104), 5));
    assert!(!cone.contains(Vec2i::new(0, 104), 3));
}

#[test]
fn cone_rotation_turns_the_heading() {
    // Rotated 270 degrees counterclockwise, the cone faces positive x.
    let cone = ViewCone::new(Vec2i::zero(), 100, 900, 2700);
    assert!(cone.contains(Vec2i::new(50, 0), 0));
    assert!(!cone.contains(Vec2i::new(-50, 0), 0));
}

#[test]
fn arc_sample_points_for_rendering() {
    let mut cone = ViewCone::new(Vec2i::zero(), 100, 900, 0);
    cone.segments(2);
    // Three samples sweep from the right edge of the cone over the
    // heading to the left edge.
    let points = cone.arc_points();
    assert_eq!(points, vec![Vec2i::new(70, 70), Vec2i::new(0, 100), Vec2i::new(-70, 70)]);
}

#[test]
fn full_circle_cone_sees_backwards() {
    // A full 360-degree opening angle sees straight behind.
    let cone = ViewCone::new(Vec2i::zero(), 100, 3600, 0);
    assert!(cone.contains(Vec2i::new(0, -50), 0));
}
