use ant_behaviour::ant::angle_diff;
use ant_behaviour::ant::clamp_i64;
use ant_behaviour::ant::displacement;
use ant_behaviour::ant::move_ant;
use ant_behaviour::ant::rotate_toward;
use ant_behaviour::ant::rotation_speed;
use ant_behaviour::ant::spawn_pose;
use ant_behaviour::ant::wander_direction;
use ant_behaviour::ant::Ant;
use ant_behaviour::ant::AntSettings;
use ant_behaviour::ant::DesiredTarget;
use ant_behaviour::ant::Pheromones;
use ant_behaviour::ant::Pose;
use ant_behaviour::utils::Vec2i;

fn settings() -> AntSettings {
    AntSettings::default()
}

#[test]
fn angle_difference_is_signed_and_normalized() {
    assert_eq!(angle_diff(0, 900), 900);
    assert_eq!(angle_diff(900, 0), -900);
    assert_eq!(angle_diff(0, 1800), 1800);
    assert_eq!(angle_diff(1800, 0), 1800);
    assert_eq!(angle_diff(100, 3500), -200);
    assert_eq!(angle_diff(1234, 1234), 0);
}

#[test]
fn rotation_steps_and_snaps() {
    assert_eq!(rotate_toward(0, 900, 100), 100);
    assert_eq!(rotate_toward(0, 900, 1000), 900);
    assert_eq!(rotate_toward(0, 900, 900), 900);
    // Turning the short way round through zero.
    assert_eq!(rotate_toward(0, 2700, 100), 3500);
    // 3500 to 100 is only 200 apart around the circle: snap.
    assert_eq!(rotate_toward(3500, 100, 300), 100);
    assert_eq!(rotate_toward(3500, 100, 150), 50);
}

#[test]
fn rotation_converges_within_the_expected_ticks() {
    // Steering convergence: from heading 0 toward 1777 at 100 per
    // tick, the heading must arrive within ceil(1777 / 100) = 18
    // ticks and then stay.
    let desired = 1777u32;
    let step = 100u32;
    let mut heading = 0u32;
    for _ in 0..18 {
        heading = rotate_toward(heading, desired, step);
    }
    assert_eq!(heading, desired);
    assert_eq!(rotate_toward(heading, desired, step), desired);
}

#[test]
fn rotation_distance_shrinks_monotonically() {
    let desired = 200u32;
    let step = 75u32;
    let mut heading = 2000u32;
    let mut last_dist = 1800i64;
    while heading != desired {
        heading = rotate_toward(heading, desired, step);
        let diff = angle_diff(heading, desired).abs();
        assert!(diff < last_dist);
        last_dist = diff;
    }
}

#[test]
fn turning_speed_table() {
    let min = Vec2i::new(-2500, -2500);
    let max = Vec2i::new(2500, 2500);
    let centre = Vec2i::new(0, 0);
    let near_edge = Vec2i::new(2400, 0);
    // Seeking food triples the base speed and wins over the border.
    assert_eq!(rotation_speed(DesiredTarget::FOOD, near_edge, min, max, 150), 1719);
    // Near a border a wanderer turns five times as fast.
    assert_eq!(rotation_speed(DesiredTarget::NOTHING, near_edge, min, max, 150), 2865);
    assert_eq!(rotation_speed(DesiredTarget::NOTHING, centre, min, max, 150), 573);
}

#[test]
fn forward_displacement_truncates() {
    assert_eq!(displacement(100, 1000, 1000), 100);
    assert_eq!(displacement(100, 1000, -1000), -100);
    assert_eq!(displacement(100, 16, 1000), 1);
    assert_eq!(displacement(100, 16, -1000), -1);
    assert_eq!(displacement(0, 1000, 1000), 0);
}

#[test]
fn clamping_examples() {
    assert_eq!(clamp_i64(150, -100, 100), 100);
    assert_eq!(clamp_i64(-150, -100, 100), -100);
    assert_eq!(clamp_i64(42, -100, 100), 42);
}

#[test]
fn wandering_keeps_zero_direction_without_nudges() {
    let min = Vec2i::new(-2500, -2500);
    let max = Vec2i::new(2500, 2500);
    let r = wander_direction(Vec2i::zero(), Vec2i::zero(), min, max, 225, 0, 0);
    assert_eq!(r, Vec2i::zero());
}

#[test]
fn wandering_is_pushed_away_from_the_border() {
    let min = Vec2i::new(-2500, -2500);
    let max = Vec2i::new(2500, 2500);
    // Close to the left wall the bias points along positive x.
    let r = wander_direction(Vec2i::zero(), Vec2i::new(-2400, 0), min, max, 225, 0, 0);
    assert_eq!(r, Vec2i::new(1000, 0));
    // Close to the top wall the bias points along negative y.
    let r = wander_direction(Vec2i::zero(), Vec2i::new(0, 2400), min, max, 225, 0, 0);
    assert_eq!(r, Vec2i::new(0, -1000));
}

#[test]
fn moving_forward_along_the_heading() {
    let s = settings();
    let min = Vec2i::new(-2500, -2500);
    let max = Vec2i::new(2500, 2500);
    let mut pose = Pose { position: Vec2i::zero(), heading: 0 };
    let mut ant = Ant::new();
    ant.desired_target = DesiredTarget::FOOD;
    ant.desired_direction = Vec2i::new(0, 1000);
    // Heading already matches the desired direction: one second of
    // movement at speed 100 travels 100 units up.
    move_ant(&mut pose, &mut ant, &s, min, max, 1000, 0, 0);
    assert_eq!(pose.heading, 0);
    assert_eq!(pose.position, Vec2i::new(0, 100));
}

#[test]
fn border_clamp_pins_position_to_the_boundary() {
    // An agent right at the upper wall, heading straight out: the
    // integrated position is clamped exactly onto the boundary
    // coordinate, never beyond.
    let s = settings();
    let min = Vec2i::new(-2500, -2500);
    let max = Vec2i::new(2500, 2500);
    let mut pose = Pose { position: Vec2i::new(0, 2450), heading: 0 };
    let mut ant = Ant::new();
    ant.desired_target = DesiredTarget::FOOD;
    ant.desired_direction = Vec2i::new(0, 1000);
    move_ant(&mut pose, &mut ant, &s, min, max, 1000, 0, 0);
    assert_eq!(pose.position.y, 2500);
    for _ in 0..5 {
        move_ant(&mut pose, &mut ant, &s, min, max, 1000, 0, 0);
        assert_eq!(pose.position.y, 2500);
        assert!(pose.position.x.abs() <= 2500);
    }
}

#[test]
fn spawn_placement_around_the_nest() {
    let s = settings();
    // Placement angle 0 points along (cos, sin) = (1, 0).
    let pose = spawn_pose(0, 100, 450, &s);
    assert_eq!(pose.position, Vec2i::new(100, 0));
    assert_eq!(pose.heading, 450);
    // A quarter turn points along (0, 1).
    let pose = spawn_pose(900, 80, 0, &s);
    assert_eq!(pose.position, Vec2i::new(0, 80));
}

#[test]
fn pointer_target_inside_the_cone_is_taken() {
    let s = settings();
    let pose = Pose { position: Vec2i::zero(), heading: 0 };
    let mut ant = Ant::new();
    // A point dead ahead within view: the agent starts seeking food
    // straight toward it.
    assert!(ant.set_target_if_visible(&pose, &s, Vec2i::new(0, 50)));
    assert_eq!(ant.desired_target, DesiredTarget::FOOD);
    assert_eq!(ant.desired_direction, Vec2i::new(0, 1000));
}

#[test]
fn pointer_target_behind_is_ignored() {
    let s = settings();
    let pose = Pose { position: Vec2i::zero(), heading: 0 };
    let mut ant = Ant::new();
    assert!(!ant.set_target_if_visible(&pose, &s, Vec2i::new(0, -50)));
    assert_eq!(ant.desired_target, DesiredTarget::NOTHING);
    assert_eq!(ant.desired_direction, Vec2i::zero());
}

#[test]
fn releasing_the_pointer_resets_to_wandering() {
    let s = settings();
    let pose = Pose { position: Vec2i::zero(), heading: 0 };
    let mut ant = Ant::new();
    assert!(ant.set_target_if_visible(&pose, &s, Vec2i::new(0, 50)));
    ant.clear_target();
    assert_eq!(ant.desired_target, DesiredTarget::NOTHING);
    assert_eq!(ant.desired_direction, Vec2i::new(0, 1000));
}

#[test]
fn pheromone_decay_retains_ninety_nine_percent() {
    let p = Pheromones::LookingForFood;
    assert_eq!(p.decay(1000), 990);
    assert_eq!(p.decay(0), 0);
    assert_eq!(p.decay(999), 989);
    let q = Pheromones::LookingForHome;
    assert_eq!(q.decay(500), 495);
}
