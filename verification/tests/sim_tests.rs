use ant_behaviour::ant::AntSettings;
use ant_behaviour::ant::DesiredTarget;
use ant_behaviour::ant::Pose;
use ant_behaviour::grid::CellPos;
use ant_behaviour::grid::GridEntity;
use ant_behaviour::grid::GridEntityType;
use ant_behaviour::sim::Simulation;
use ant_behaviour::utils::Vec2i;

fn small_settings() -> AntSettings {
    AntSettings { n_ants: 8, ..AntSettings::default() }
}

fn small_sim() -> Simulation {
    Simulation::new(small_settings(), 1000, 100)
}

#[test]
fn configure_builds_an_empty_world() {
    let sim = small_sim();
    assert_eq!(sim.agent_count(), 0);
    let (min, max) = sim.grid.get_boundaries();
    assert_eq!(min, Vec2i::new(-500, -500));
    assert_eq!(max, Vec2i::new(500, 500));
}

#[test]
fn spawning_populates_the_grid() {
    let mut sim = small_sim();
    sim.spawn_ants(8);
    assert_eq!(sim.agent_count(), 8);
    // Every agent is filed under the cell of its spawn position.
    for i in 0..8usize {
        let cell = sim.grid.get_grid_pos(sim.poses[i].position);
        let probe = GridEntity::new(cell);
        assert_eq!(
            sim.grid.has_entity(cell, GridEntityType::Ant, (&probe, i as u64)),
            Ok(true)
        );
    }
}

#[test]
fn ticks_keep_agents_inside_the_world() {
    let mut sim = small_sim();
    sim.spawn_ants(8);
    let (min, max) = sim.grid.get_boundaries();
    for _ in 0..50 {
        sim.tick(100);
        for pose in &sim.poses {
            assert!(min.x <= pose.position.x && pose.position.x <= max.x);
            assert!(min.y <= pose.position.y && pose.position.y <= max.y);
        }
    }
    assert_eq!(sim.agent_count(), 8);
}

#[test]
fn tick_refiles_agents_under_their_current_cells() {
    let mut sim = small_sim();
    sim.spawn_ants(2);
    // Teleport both agents, then advance one tick with no time
    // elapsed: the tracker and reconciliation pass run before any
    // movement, so the grid reflects the new cells.
    sim.poses[0] = Pose { position: Vec2i::new(-450, -450), heading: 0 };
    sim.poses[1] = Pose { position: Vec2i::new(449, 449), heading: 0 };
    sim.tick(0);
    let probe = GridEntity::new(CellPos::new(0, 0));
    assert_eq!(
        sim.grid.has_entity(CellPos::new(0, 0), GridEntityType::Ant, (&probe, 0)),
        Ok(true)
    );
    assert_eq!(
        sim.grid.has_entity(CellPos::new(9, 9), GridEntityType::Ant, (&probe, 1)),
        Ok(true)
    );
    // A zero-length tick moves nobody.
    assert_eq!(sim.poses[0].position, Vec2i::new(-450, -450));
    assert_eq!(sim.poses[1].position, Vec2i::new(449, 449));
}

#[test]
fn perception_sees_an_agent_dead_ahead() {
    // Agent 0 at the origin heading along positive y with the default
    // 45-degree half angle and 150-unit view distance; agent 1 sits
    // 50 units dead ahead and is seen; agent 0 is behind agent 1 and
    // is not seen by it.
    let mut sim = small_sim();
    sim.spawn_ants(2);
    sim.poses[0] = Pose { position: Vec2i::new(0, 0), heading: 0 };
    sim.poses[1] = Pose { position: Vec2i::new(0, 50), heading: 0 };
    sim.tick(0);
    assert_eq!(sim.query_visible(0), vec![1]);
    assert_eq!(sim.query_visible(1), Vec::<u64>::new());
}

#[test]
fn perception_applies_the_exact_cone_test() {
    let mut sim = small_sim();
    sim.spawn_ants(3);
    sim.poses[0] = Pose { position: Vec2i::new(0, 0), heading: 0 };
    // About 45 degrees off the heading at distance 99: inside by the
    // fixed-point cone formula.
    sim.poses[1] = Pose { position: Vec2i::new(70, 70), heading: 0 };
    // Well past the half angle: filtered out even though its cell is
    // near the query circle.
    sim.poses[2] = Pose { position: Vec2i::new(100, -10), heading: 0 };
    sim.tick(0);
    let seen = sim.query_visible(0);
    assert!(seen.contains(&1));
    assert!(!seen.contains(&2));
}

#[test]
fn pointer_interaction_targets_and_releases() {
    let mut sim = small_sim();
    sim.spawn_ants(1);
    sim.poses[0] = Pose { position: Vec2i::new(0, 0), heading: 0 };
    sim.tick(0);
    // A click inside the view cone sets the agent seeking food.
    assert!(sim.set_agent_target(0, Vec2i::new(0, 100)));
    assert_eq!(sim.ants[0].desired_target, DesiredTarget::FOOD);
    assert_eq!(sim.ants[0].desired_direction, Vec2i::new(0, 1000));
    // A click behind changes nothing.
    sim.clear_agent_target(0);
    assert!(!sim.set_agent_target(0, Vec2i::new(0, -100)));
    assert_eq!(sim.ants[0].desired_target, DesiredTarget::NOTHING);
}

#[test]
fn a_seeking_agent_closes_in_on_its_target() {
    let mut sim = small_sim();
    sim.spawn_ants(1);
    sim.poses[0] = Pose { position: Vec2i::new(0, 0), heading: 0 };
    sim.tick(0);
    assert!(sim.set_agent_target(0, Vec2i::new(0, 120)));
    let mut dist = 120i64;
    for _ in 0..3 {
        sim.tick(250);
        let p = sim.poses[0].position;
        let now = (120 - p.y).abs() + p.x.abs();
        assert!(now < dist);
        dist = now;
    }
}
