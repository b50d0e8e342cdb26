//! Agent ("ant") state and the steering/movement model: a per-agent
//! desired-direction state machine (wandering with random jitter and
//! border avoidance, or seeking a fixed target), bounded rotation
//! toward the desired direction, forward integration, and a hard
//! clamp to the world bounds.

use vstd::prelude::*;

use crate::constants::ANT_COUNT;
use crate::constants::ANT_ROTATION_SPEED;
use crate::constants::ANT_SPEED;
use crate::constants::ANT_VIEW_ANGLE;
use crate::constants::ANT_VIEW_DISTANCE;
use crate::constants::COORD_LIMIT;
use crate::constants::DEGREES_360;
use crate::constants::DIR_SCALE;
use crate::constants::JITTER_LIMIT;
use crate::constants::NEST_POSITION;
use crate::constants::NEST_SIZE;
use crate::constants::PHEROMONE_DECAY_MILLI;
use crate::utils::div_toward_zero;
use crate::utils::normalize_or_zero;
use crate::utils::spec_norm_component;
use crate::utils::trunc_div;
use crate::utils::Vec2i;
use crate::utils::ViewCone;

verus! {

/// Relies on rand::random: a value drawn from the thread-local
/// generator. Nothing can be promised of a random value, so the
/// callers state what holds for every outcome.
pub assume_specification<T>[ rand::random::<T> ]() -> (r: T)
    where
        rand::distributions::Standard: rand::distributions::Distribution<T>,
;

/// What an agent is currently steering toward.
#[derive(Debug, Clone, Copy, PartialEq, Eq, Structural)]
#[allow(non_camel_case_types)]
pub enum DesiredTarget {
    PHEROMONE,
    FOOD,
    NOTHING,
}

/// The two scent-marker categories agents can lay down.
#[derive(Debug, Clone, Copy, PartialEq, Eq, Structural)]
pub enum Pheromones {
    LookingForFood,
    LookingForHome,
}

impl Pheromones {
    /// One tick of exponential decay of a pheromone intensity (in
    /// thousandths), the same retention factor for either category.
    pub fn decay(&self, pheromone: i64) -> (r: i64)
        requires
            0 <= pheromone <= 1_000_000,
        ensures
            r == pheromone * PHEROMONE_DECAY_MILLI / 1000,
            0 <= r <= pheromone,
    {
        proof {
            assert(0 <= pheromone * 990 <= 990_000_000) by (nonlinear_arith)
                requires
                    0 <= pheromone <= 1_000_000,
            ;
            vstd::arithmetic::div_mod::lemma_div_pos_is_pos(pheromone * 990, 1000);
            vstd::arithmetic::div_mod::lemma_div_is_ordered(
                pheromone * 990,
                pheromone * 1000,
                1000,
            );
            vstd::arithmetic::div_mod::lemma_div_by_multiple(pheromone as int, 1000);
        }
        pheromone * PHEROMONE_DECAY_MILLI / 1000
    }
}

/// The tunable parameters of the agent population, fixed at startup.
#[derive(Debug, Clone, Copy)]
pub struct AntSettings {
    /// How far an agent can see, in world units.
    pub view_distance: i64,
    /// Full opening angle of the view cone, in tenths of a degree.
    pub view_angle: u32,
    /// Forward speed, in world units per second.
    pub speed: i64,
    /// How many agents to spawn.
    pub n_ants: usize,
    /// Radius of the nest, in world units.
    pub nest_size: i64,
    /// Centre of the nest.
    pub nest_position: Vec2i,
}

impl AntSettings {
    /// Parameter sanity: everything positive and small enough that
    /// the steering arithmetic stays within `i64`.
    pub open spec fn wf(self) -> bool {
        &&& 1 <= self.view_distance <= 100_000
        &&& self.view_angle <= DEGREES_360
        &&& 0 <= self.speed <= 100_000
        &&& 0 <= self.nest_size <= 100_000
        &&& self.nest_position.bounded(100_000int)
    }
}

impl Default for AntSettings {
    fn default() -> (s: AntSettings)
        ensures
            s.view_distance == ANT_VIEW_DISTANCE,
            s.view_angle == ANT_VIEW_ANGLE,
            s.speed == ANT_SPEED,
            s.n_ants == ANT_COUNT,
            s.nest_size == NEST_SIZE,
            s.nest_position == (Vec2i { x: NEST_POSITION.0, y: NEST_POSITION.1 }),
            s.wf(),
    {
        AntSettings {
            view_distance: ANT_VIEW_DISTANCE,
            view_angle: ANT_VIEW_ANGLE,
            speed: ANT_SPEED,
            n_ants: ANT_COUNT,
            nest_size: NEST_SIZE,
            nest_position: Vec2i { x: NEST_POSITION.0, y: NEST_POSITION.1 },
        }
    }
}

/// The live transform of an agent: its world position and its heading
/// angle in tenths of a degree, counterclockwise from positive y.
#[derive(Debug, Clone, Copy, PartialEq, Eq, Structural)]
pub struct Pose {
    pub position: Vec2i,
    pub heading: u32,
}

impl Pose {
    /// The position lies in a bounded world and the heading is a
    /// reduced angle.
    pub open spec fn wf(self) -> bool {
        self.position.bounded(COORD_LIMIT as int) && self.heading < DEGREES_360
    }
}

/// An agent: its current steering goal. The authoritative position
/// and heading live in the agent's `Pose`.
#[derive(Debug, Clone, Copy, PartialEq, Eq, Structural)]
pub struct Ant {
    /// A direction vector scaled by `DIR_SCALE`, or zero.
    pub desired_direction: Vec2i,
    pub desired_target: DesiredTarget,
}

impl Ant {
    /// The desired direction is a scaled unit vector or zero.
    pub open spec fn wf(self) -> bool {
        self.desired_direction.bounded(DIR_SCALE as int)
    }

    /// A fresh agent: no steering goal yet.
    pub fn new() -> (ant: Ant)
        ensures
            ant.desired_direction == Vec2i::spec_zero(),
            ant.desired_target == DesiredTarget::NOTHING,
            ant.wf(),
    {
        Ant { desired_direction: Vec2i { x: 0, y: 0 }, desired_target: DesiredTarget::NOTHING }
    }

    /// The agent's field of perception this tick: a cone at its
    /// position, aimed along its heading, with the configured view
    /// distance and opening angle.
    pub fn get_view_cone(&self, transform: &Pose, settings: &AntSettings) -> (cone: ViewCone)
        requires
            transform.wf(),
            settings.wf(),
        ensures
            cone.center == transform.position,
            cone.radius == settings.view_distance,
            cone.view_angle == settings.view_angle,
            cone.rotation == transform.heading,
            cone.direction == (Vec2i { x: 0, y: DIR_SCALE }),
            cone.wf(),
    {
        ViewCone::new(
            transform.position,
            settings.view_distance,
            settings.view_angle,
            transform.heading,
        )
    }
}

/// A value clamped into `[lo, hi]`.
pub open spec fn spec_clamp(v: int, lo: int, hi: int) -> int {
    if v < lo {
        lo
    } else if v > hi {
        hi
    } else {
        v
    }
}

/// Clamps a coordinate into `[lo, hi]`.
pub fn clamp_i64(v: i64, lo: i64, hi: i64) -> (r: i64)
    requires
        lo <= hi,
    ensures
        r == spec_clamp(v as int, lo as int, hi as int),
        lo <= r <= hi,
{
    if v < lo {
        lo
    } else if v > hi {
        hi
    } else {
        v
    }
}

/// The unnormalized wandering direction after one tick's nudges,
/// applied in a fixed order: horizontal border bias, vertical
/// jitter, vertical border bias, horizontal jitter.
pub open spec fn spec_wander_nudged(
    dd: Vec2i,
    pos: Vec2i,
    min: Vec2i,
    max: Vec2i,
    threshold: int,
    jx: int,
    jy: int,
) -> (int, int) {
    let x1 = if pos.x < min.x + threshold {
        dd.x + 1000
    } else if pos.x > max.x - threshold {
        dd.x - 1000
    } else {
        dd.x as int
    };
    let y1 = dd.y + jy;
    let y2 = if pos.y < min.y + threshold {
        y1 + 1000
    } else if pos.y > max.y - threshold {
        y1 - 1000
    } else {
        y1
    };
    let x2 = x1 + jx;
    (x2, y2)
}

/// The wandering direction after one tick: the nudged vector,
/// re-normalized ("normalize or zero": the zero vector stays zero).
pub open spec fn spec_wander_direction(
    dd: Vec2i,
    pos: Vec2i,
    min: Vec2i,
    max: Vec2i,
    threshold: int,
    jx: int,
    jy: int,
) -> (int, int) {
    let nudged = spec_wander_nudged(dd, pos, min, max, threshold, jx, jy);
    (spec_norm_component(nudged.0, nudged.1), spec_norm_component(nudged.1, nudged.0))
}

/// One tick's update of a wandering agent's desired direction:
/// bounded random jitter on both axes plus an inward bias near the
/// world border, then re-normalized.
pub fn wander_direction(
    dd: Vec2i,
    pos: Vec2i,
    min: Vec2i,
    max: Vec2i,
    threshold: i64,
    jx: i64,
    jy: i64,
) -> (r: Vec2i)
    requires
        dd.bounded(DIR_SCALE as int),
        pos.bounded(2 * COORD_LIMIT as int),
        min.bounded(COORD_LIMIT as int),
        max.bounded(COORD_LIMIT as int),
        0 <= threshold <= 1_000_000,
        -JITTER_LIMIT <= jx <= JITTER_LIMIT,
        -JITTER_LIMIT <= jy <= JITTER_LIMIT,
    ensures
        ({
            let w = spec_wander_direction(dd, pos, min, max, threshold as int, jx as int, jy as int);
            r.x == w.0 && r.y == w.1
        }),
        r.bounded(DIR_SCALE as int),
{
    let mut x: i64 = dd.x;
    let mut y: i64 = dd.y;
    if pos.x < min.x + threshold {
        x = x + 1000;
    } else if pos.x > max.x - threshold {
        x = x - 1000;
    }
    y = y + jy;
    if pos.y < min.y + threshold {
        y = y + 1000;
    } else if pos.y > max.y - threshold {
        y = y - 1000;
    }
    x = x + jx;
    normalize_or_zero(Vec2i { x, y })
}

/// One axis of the forward displacement: `speed * dt` (milliseconds)
/// scaled by a direction component (thousandths), truncated toward
/// zero.
pub open spec fn spec_displacement(speed: int, dt: int, dir: int) -> int {
    trunc_div(speed * dt * dir, 1_000_000)
}

/// Computes one axis of the forward displacement.
pub fn displacement(speed: i64, dt: u32, dir: i64) -> (r: i64)
    requires
        0 <= speed <= 100_000,
        dt <= 60_000,
        -1000 <= dir <= 1000,
    ensures
        r == spec_displacement(speed as int, dt as int, dir as int),
        -6_000_000_000 <= r <= 6_000_000_000,
{
    proof {
        assert(0 <= speed * dt <= 6_000_000_000) by (nonlinear_arith)
            requires
                0 <= speed <= 100_000,
                0 <= dt <= 60_000,
        ;
        assert(-6_000_000_000_000 <= speed * dt * dir <= 6_000_000_000_000) by (nonlinear_arith)
            requires
                0 <= speed * dt <= 6_000_000_000,
                -1000 <= dir <= 1000,
        ;
    }
    let scaled: i64 = speed * (dt as i64) * dir;
    let r = div_toward_zero(scaled, 1_000_000);
    proof {
        assert(-6_000_000_000 <= r <= 6_000_000_000) by {
            if scaled >= 0 {
                vstd::arithmetic::div_mod::lemma_div_is_ordered(
                    scaled as int,
                    6_000_000_000_000,
                    1_000_000,
                );
            } else {
                vstd::arithmetic::div_mod::lemma_div_is_ordered(
                    -scaled as int,
                    6_000_000_000_000,
                    1_000_000,
                );
            }
        }
    }
    r
}

/// Reduction of a value below 7200 modulo a full turn.
proof fn lemma_mod3600(x: int)
    requires
        0 <= x < 7200,
    ensures
        x % 3600 == if x < 3600 {
            x
        } else {
            x - 3600
        },
{
    if x < 3600 {
        vstd::arithmetic::div_mod::lemma_small_mod(x as nat, 3600nat);
    } else {
        vstd::arithmetic::div_mod::lemma_fundamental_div_mod_converse_mod(x, 3600, 1, x - 3600);
    }
}

/// The signed angular difference `d - h`, normalized into
/// `(-1800, 1800]`: how far and which way to turn from heading `h`
/// to heading `d`.
pub open spec fn spec_angle_diff(h: int, d: int) -> int {
    let raw = (d - h + 3600) % 3600;
    if raw > 1800 {
        raw - 3600
    } else {
        raw
    }
}

/// The unsigned angular distance between two headings, at most 1800.
pub open spec fn circ_dist(h: int, d: int) -> int {
    if spec_angle_diff(h, d) >= 0 {
        spec_angle_diff(h, d)
    } else {
        -spec_angle_diff(h, d)
    }
}

/// The normalized difference is the plain difference shifted by at
/// most one turn, and vanishes exactly on equal headings.
pub proof fn lemma_angle_diff(h: int, d: int)
    requires
        0 <= h < 3600,
        0 <= d < 3600,
    ensures
        -1800 < spec_angle_diff(h, d) <= 1800,
        spec_angle_diff(h, d) == d - h || spec_angle_diff(h, d) == d - h + 3600 || spec_angle_diff(
            h,
            d,
        ) == d - h - 3600,
        spec_angle_diff(h, d) == 0 <==> h == d,
        0 <= circ_dist(h, d) <= 1800,
{
    lemma_mod3600(d - h + 3600);
}

/// One tick of rotation: turn from `h` toward `d` by at most `step`,
/// snapping exactly onto `d` when it is within reach.
pub open spec fn spec_rotate_toward(h: int, d: int, step: int) -> int {
    let diff = spec_angle_diff(h, d);
    if -step <= diff <= step {
        d
    } else if diff > 0 {
        (h + step) % 3600
    } else {
        (h - step + 3600) % 3600
    }
}

/// Computes the signed angular difference.
pub fn angle_diff(h: u32, d: u32) -> (r: i64)
    requires
        h < DEGREES_360,
        d < DEGREES_360,
    ensures
        r == spec_angle_diff(h as int, d as int),
{
    proof {
        lemma_mod3600(d as int - h as int + 3600);
    }
    let raw: u32 = (d + 3600 - h) % 3600;
    if raw > 1800 {
        raw as i64 - 3600
    } else {
        raw as i64
    }
}

/// Turns a heading toward a desired heading by at most `step`.
pub fn rotate_toward(h: u32, d: u32, step: u32) -> (r: u32)
    requires
        h < DEGREES_360,
        d < DEGREES_360,
    ensures
        r == spec_rotate_toward(h as int, d as int, step as int),
        r < DEGREES_360,
{
    let diff: i64 = angle_diff(h, d);
    proof {
        lemma_angle_diff(h as int, d as int);
    }
    if -(step as i64) <= diff && diff <= step as i64 {
        d
    } else if diff > 0 {
        proof {
            lemma_mod3600(h as int + step as int);
        }
        (h + step) % 3600
    } else {
        proof {
            lemma_mod3600(h as int - step as int + 3600);
        }
        (h + 3600 - step) % 3600
    }
}

/// Each rotation tick closes the angular distance to the desired
/// heading by exactly `step`, or snaps onto it when it is within
/// reach; rotation never overshoots and the distance shrinks
/// monotonically.
pub proof fn lemma_rotate_toward_progress(h: int, d: int, step: int)
    requires
        0 <= h < 3600,
        0 <= d < 3600,
        1 <= step,
    ensures
        0 <= spec_rotate_toward(h, d, step) < 3600,
        circ_dist(spec_rotate_toward(h, d, step), d) == if circ_dist(h, d) <= step {
            0
        } else {
            circ_dist(h, d) - step
        },
{
    lemma_angle_diff(h, d);
    let diff = spec_angle_diff(h, d);
    if -step <= diff <= step {
        lemma_angle_diff(d, d);
    } else if diff > 0 {
        // step < diff <= 1800, so the new heading is h + step, one
        // turn reduced.
        lemma_mod3600(h + step);
        let h1 = spec_rotate_toward(h, d, step);
        lemma_mod3600(d - h1 + 3600);
        lemma_mod3600(d - h + 3600);
        lemma_angle_diff(h1, d);
    } else {
        lemma_mod3600(h - step + 3600);
        let h1 = spec_rotate_toward(h, d, step);
        lemma_mod3600(d - h1 + 3600);
        lemma_mod3600(d - h + 3600);
        lemma_angle_diff(h1, d);
    }
}

/// The heading after `n` rotation ticks toward a fixed desired
/// heading.
pub open spec fn spec_iterate_rotation(h: int, d: int, step: int, n: nat) -> int
    decreases n,
{
    if n == 0 {
        h
    } else {
        spec_iterate_rotation(spec_rotate_toward(h, d, step), d, step, (n - 1) as nat)
    }
}

/// Steering convergence: from any heading, with a fixed desired
/// heading and no further perturbation, repeated rotation ticks reach
/// the desired heading exactly, within any number of ticks whose
/// combined rotation covers the initial angular distance (at most
/// `1800 / step + 1` ticks).
pub proof fn lemma_steering_convergence(h: int, d: int, step: int, n: nat)
    requires
        0 <= h < 3600,
        0 <= d < 3600,
        1 <= step,
        circ_dist(h, d) <= n * step,
    ensures
        spec_iterate_rotation(h, d, step, n) == d,
    decreases n,
{
    lemma_angle_diff(h, d);
    if n == 0 {
        assert(n * step == 0) by (nonlinear_arith)
            requires
                n == 0,
        ;
        assert(circ_dist(h, d) == 0);
        assert(h == d);
    } else {
        lemma_rotate_toward_progress(h, d, step);
        let h1 = spec_rotate_toward(h, d, step);
        assert(circ_dist(h1, d) <= (n - 1) * step) by (nonlinear_arith)
            requires
                circ_dist(h1, d) == if circ_dist(h, d) <= step {
                    0
                } else {
                    circ_dist(h, d) - step
                },
                circ_dist(h, d) <= n * step,
                1 <= step,
                1 <= n,
        ;
        lemma_steering_convergence(h1, d, step, (n - 1) as nat);
    }
}

/// The turning speed of an agent this tick, in tenths of a degree per
/// second: tripled while seeking food (food takes precedence in the
/// speed table), quintupled while within one view distance of any
/// world border, and the base speed otherwise.
pub open spec fn spec_rotation_speed(
    target: DesiredTarget,
    pos: Vec2i,
    min: Vec2i,
    max: Vec2i,
    view_distance: int,
) -> int {
    if target == DesiredTarget::FOOD {
        3 * ANT_ROTATION_SPEED
    } else if pos.x < min.x + view_distance || pos.x > max.x - view_distance || pos.y < min.y
        + view_distance || pos.y > max.y - view_distance {
        5 * ANT_ROTATION_SPEED
    } else {
        ANT_ROTATION_SPEED as int
    }
}

/// Computes this tick's turning speed.
pub fn rotation_speed(target: DesiredTarget, pos: Vec2i, min: Vec2i, max: Vec2i, view_distance: i64) -> (r:
    u32)
    requires
        pos.bounded(2 * COORD_LIMIT as int),
        min.bounded(COORD_LIMIT as int),
        max.bounded(COORD_LIMIT as int),
        0 <= view_distance <= 100_000,
    ensures
        r == spec_rotation_speed(target, pos, min, max, view_distance as int),
        ANT_ROTATION_SPEED <= r <= 5 * ANT_ROTATION_SPEED,
{
    if matches!(target, DesiredTarget::FOOD) {
        3 * ANT_ROTATION_SPEED
    } else if pos.x < min.x + view_distance || pos.x > max.x - view_distance || pos.y < min.y
        + view_distance || pos.y > max.y - view_distance {
        5 * ANT_ROTATION_SPEED
    } else {
        ANT_ROTATION_SPEED
    }
}

/// The agent's steering state after the desired-direction update of
/// one tick: a wandering agent gets the jittered, border-biased,
/// re-normalized direction; a targeting agent keeps its direction.
pub open spec fn spec_steered_ant(
    a0: Ant,
    pos: Vec2i,
    min: Vec2i,
    max: Vec2i,
    threshold: int,
    jx: int,
    jy: int,
) -> Ant {
    if a0.desired_target == DesiredTarget::NOTHING {
        let w = spec_wander_direction(a0.desired_direction, pos, min, max, threshold, jx, jy);
        Ant { desired_direction: Vec2i { x: w.0 as i64, y: w.1 as i64 }, ..a0 }
    } else {
        a0
    }
}

/// The full functional relation of one movement tick, from the state
/// `(t0, a0)` before to `(t1, a1)` after, given the random nudges
/// `(jx, jy)`: desired-direction update, bounded rotation toward it,
/// forward motion along the new heading, and the hard clamp to the
/// world bounds.
pub open spec fn spec_move_outcome(
    t0: Pose,
    a0: Ant,
    t1: Pose,
    a1: Ant,
    s: AntSettings,
    min: Vec2i,
    max: Vec2i,
    dt: int,
    jx: int,
    jy: int,
) -> bool {
    let threshold = s.view_distance * 3 / 2;
    let a_new = spec_steered_ant(a0, t0.position, min, max, threshold, jx, jy);
    let desired = a_new.desired_direction;
    let step = spec_rotation_speed(a0.desired_target, t0.position, min, max, s.view_distance as int)
        * dt / 1000;
    let new_heading = if desired.x == 0 && desired.y == 0 {
        t0.heading as int
    } else {
        spec_rotate_toward(
            t0.heading as int,
            crate::utils::spec_direction_angle(desired.x as int, desired.y as int),
            step,
        )
    };
    let dx = spec_displacement(s.speed as int, dt, -crate::utils::spec_sin_milli(new_heading));
    let dy = spec_displacement(s.speed as int, dt, crate::utils::spec_cos_milli(new_heading));
    &&& a1 == a_new
    &&& t1.heading == new_heading
    &&& t1.position.x == spec_clamp(t0.position.x + dx, min.x as int, max.x as int)
    &&& t1.position.y == spec_clamp(t0.position.y + dy, min.y as int, max.y as int)
}

/// The movement relation of one tick for some pair of bounded random
/// nudges: what a caller that did not see the drawn nudges knows.
pub open spec fn spec_moved(
    t0: Pose,
    a0: Ant,
    t1: Pose,
    a1: Ant,
    s: AntSettings,
    min: Vec2i,
    max: Vec2i,
    dt: int,
) -> bool {
    exists|jx: int, jy: int|
        -JITTER_LIMIT <= jx <= JITTER_LIMIT && -JITTER_LIMIT <= jy <= JITTER_LIMIT
            && #[trigger] spec_move_outcome(t0, a0, t1, a1, s, min, max, dt, jx, jy)
}

/// One movement tick of one agent, with the random nudges passed in:
/// a wandering agent jitters its desired direction (with an inward
/// bias near the border), the heading turns toward the desired
/// direction at the tick's turning speed (never overshooting), the
/// agent moves forward along its new heading by `speed * dt`, and
/// the position is clamped hard to the world bounds, never beyond
/// them.
#[verifier::rlimit(60)]
pub fn move_ant(
    transform: &mut Pose,
    ant: &mut Ant,
    settings: &AntSettings,
    min: Vec2i,
    max: Vec2i,
    delta_ms: u32,
    jx: i64,
    jy: i64,
)
    requires
        old(transform).wf(),
        old(ant).wf(),
        settings.wf(),
        min.bounded(COORD_LIMIT as int),
        max.bounded(COORD_LIMIT as int),
        min.x <= max.x,
        min.y <= max.y,
        delta_ms <= 60_000,
        -JITTER_LIMIT <= jx <= JITTER_LIMIT,
        -JITTER_LIMIT <= jy <= JITTER_LIMIT,
    ensures
        spec_move_outcome(
            *old(transform),
            *old(ant),
            *final(transform),
            *final(ant),
            *settings,
            min,
            max,
            delta_ms as int,
            jx as int,
            jy as int,
        ),
        final(ant).desired_target == old(ant).desired_target,
        min.x <= final(transform).position.x <= max.x,
        min.y <= final(transform).position.y <= max.y,
        final(transform).wf(),
        final(ant).wf(),
{
    let threshold: i64 = settings.view_distance * 3 / 2;
    proof {
        vstd::arithmetic::div_mod::lemma_div_pos_is_pos(settings.view_distance * 3, 2);
        vstd::arithmetic::div_mod::lemma_div_is_ordered(
            settings.view_distance * 3,
            600_000,
            2,
        );
    }
    if matches!(ant.desired_target, DesiredTarget::NOTHING) {
        let w = wander_direction(
            ant.desired_direction,
            transform.position,
            min,
            max,
            threshold,
            jx,
            jy,
        );
        ant.desired_direction = w;
    }
    let speed_deg: u32 = rotation_speed(
        ant.desired_target,
        transform.position,
        min,
        max,
        settings.view_distance,
    );
    proof {
        assert(speed_deg as int * delta_ms as int <= 2865 * 60_000) by (nonlinear_arith)
            requires
                0 <= speed_deg as int <= 2865,
                0 <= delta_ms as int <= 60_000,
        ;
        vstd::arithmetic::div_mod::lemma_div_pos_is_pos(
            speed_deg as int * delta_ms as int,
            1000,
        );
        vstd::arithmetic::div_mod::lemma_div_is_ordered(
            speed_deg as int * delta_ms as int,
            171_900_000,
            1000,
        );
    }
    let step64: u64 = (speed_deg as u64) * (delta_ms as u64) / 1000;
    let step: u32 = step64 as u32;
    let desired = ant.desired_direction;
    if !(desired.x == 0 && desired.y == 0) {
        let desired_angle: u32 = crate::utils::direction_angle(desired);
        transform.heading = rotate_toward(transform.heading, desired_angle, step);
    }
    let dir = crate::utils::dir_milli(transform.heading);
    let dx: i64 = displacement(settings.speed, delta_ms, dir.x);
    let dy: i64 = displacement(settings.speed, delta_ms, dir.y);
    transform.position = Vec2i {
        x: clamp_i64(transform.position.x + dx, min.x, max.x),
        y: clamp_i64(transform.position.y + dy, min.y, max.y),
    };
}

/// A random nudge within `[-JITTER_LIMIT, JITTER_LIMIT]`, from the
/// thread-local generator.
fn random_jitter() -> (r: i64)
    ensures
        -JITTER_LIMIT <= r <= JITTER_LIMIT,
{
    let raw: u32 = rand::random::<u32>();
    let bounded: u32 = raw % 401;
    (bounded as i64) - 200
}

/// A random value below `bound`, from the thread-local generator.
fn random_below(bound: u32) -> (r: u32)
    requires
        1 <= bound,
    ensures
        r < bound,
{
    let raw: u32 = rand::random::<u32>();
    raw % bound
}

/// One movement tick of one agent, drawing this tick's two random
/// nudges itself: whatever the generator returns, the outcome is the
/// movement relation for some pair of bounded nudges, and the clamp
/// to the world bounds holds in every case.
pub fn move_ant_random(
    transform: &mut Pose,
    ant: &mut Ant,
    settings: &AntSettings,
    min: Vec2i,
    max: Vec2i,
    delta_ms: u32,
)
    requires
        old(transform).wf(),
        old(ant).wf(),
        settings.wf(),
        min.bounded(COORD_LIMIT as int),
        max.bounded(COORD_LIMIT as int),
        min.x <= max.x,
        min.y <= max.y,
        delta_ms <= 60_000,
    ensures
        spec_moved(
            *old(transform),
            *old(ant),
            *final(transform),
            *final(ant),
            *settings,
            min,
            max,
            delta_ms as int,
        ),
        final(ant).desired_target == old(ant).desired_target,
        min.x <= final(transform).position.x <= max.x,
        min.y <= final(transform).position.y <= max.y,
        final(transform).wf(),
        final(ant).wf(),
{
    let jx = random_jitter();
    let jy = random_jitter();
    move_ant(transform, ant, settings, min, max, delta_ms, jx, jy);
    proof {
        assert(spec_move_outcome(
            *old(transform),
            *old(ant),
            *transform,
            *ant,
            *settings,
            min,
            max,
            delta_ms as int,
            jx as int,
            jy as int,
        ));
    }
}

/// The spawn placement: the nest centre displaced by `distance`
/// along the plane direction `(cos, sin)` of a placement angle, with
/// an independent initial heading.
pub open spec fn spec_spawn_pose(nest: Vec2i, angle: int, distance: int, heading: int) -> Pose {
    Pose {
        position: Vec2i {
            x: (nest.x + trunc_div(distance * crate::utils::spec_cos_milli(angle), 1000)) as i64,
            y: (nest.y + trunc_div(distance * crate::utils::spec_sin_milli(angle), 1000)) as i64,
        },
        heading: heading as u32,
    }
}

/// Places one agent at spawn: at `distance` from the nest centre
/// along the direction of `angle`, facing `heading`.
pub fn spawn_pose(angle: u32, distance: i64, heading: u32, settings: &AntSettings) -> (pose: Pose)
    requires
        angle < DEGREES_360,
        heading < DEGREES_360,
        0 <= distance <= 160_000,
        settings.wf(),
    ensures
        pose == spec_spawn_pose(settings.nest_position, angle as int, distance as int, heading as int),
        pose.wf(),
{
    let c: i64 = crate::utils::cos_milli(angle);
    let s: i64 = crate::utils::sin_milli(angle);
    proof {
        assert(-160_000_000 <= distance * c <= 160_000_000 && -160_000_000 <= distance * s
            <= 160_000_000) by (nonlinear_arith)
            requires
                0 <= distance <= 160_000,
                -1000 <= c <= 1000,
                -1000 <= s <= 1000,
        ;
    }
    let off_x: i64 = div_toward_zero(distance * c, 1000);
    let off_y: i64 = div_toward_zero(distance * s, 1000);
    Pose {
        position: Vec2i { x: settings.nest_position.x + off_x, y: settings.nest_position.y + off_y },
        heading,
    }
}

/// Spawns one agent at a random spot around the nest (within 1.6
/// nest radii of its centre) with a random initial heading: whatever
/// the generator returns, the pose is a spawn placement for some
/// in-range angle, distance and heading.
pub fn random_spawn_pose(settings: &AntSettings) -> (pose: Pose)
    requires
        settings.wf(),
    ensures
        exists|a: int, d: int, h: int|
            0 <= a < 3600 && 0 <= d <= settings.nest_size * 16 / 10 && 0 <= h < 3600 && pose
                == #[trigger] spec_spawn_pose(settings.nest_position, a, d, h),
        pose.wf(),
{
    let angle: u32 = random_below(DEGREES_360);
    let span: i64 = settings.nest_size * 16 / 10;
    proof {
        vstd::arithmetic::div_mod::lemma_div_pos_is_pos(settings.nest_size * 16, 10);
        vstd::arithmetic::div_mod::lemma_div_is_ordered(settings.nest_size * 16, 1_600_000, 10);
    }
    let distance: i64 = random_below(span as u32 + 1) as i64;
    let heading: u32 = random_below(DEGREES_360);
    let pose = spawn_pose(angle, distance, heading, settings);
    proof {
        assert(pose == spec_spawn_pose(
            settings.nest_position,
            angle as int,
            distance as int,
            heading as int,
        ));
    }
    pose
}

impl Ant {
    /// The pointer-targeting entry point: if the given world point
    /// lies inside the agent's view cone, the agent starts seeking
    /// food there, aiming straight at the point; otherwise nothing
    /// changes. Returns whether the point was visible.
    pub fn set_target_if_visible(
        &mut self,
        transform: &Pose,
        settings: &AntSettings,
        point: Vec2i,
    ) -> (visible: bool)
        requires
            old(self).wf(),
            transform.wf(),
            settings.wf(),
            point.bounded(COORD_LIMIT as int),
        ensures
            ({
                let cone = ViewCone {
                    center: transform.position,
                    radius: settings.view_distance,
                    view_angle: settings.view_angle,
                    rotation: transform.heading,
                    direction: Vec2i { x: 0, y: DIR_SCALE },
                    segments: 50,
                };
                visible == cone.spec_contains(point, 0)
            }),
            visible ==> final(self).desired_target == DesiredTarget::FOOD
                && final(self).desired_direction.x == spec_norm_component(
                point.x - transform.position.x,
                point.y - transform.position.y,
            ) && final(self).desired_direction.y == spec_norm_component(
                point.y - transform.position.y,
                point.x - transform.position.x,
            ),
            !visible ==> *final(self) == *old(self),
            final(self).wf(),
    {
        let cone = self.get_view_cone(transform, settings);
        if cone.contains(point, 0) {
            self.desired_target = DesiredTarget::FOOD;
            self.desired_direction = normalize_or_zero(
                Vec2i {
                    x: point.x - transform.position.x,
                    y: point.y - transform.position.y,
                },
            );
            true
        } else {
            false
        }
    }

    /// The pointer-release entry point: back to wandering.
    pub fn clear_target(&mut self)
        ensures
            final(self).desired_target == DesiredTarget::NOTHING,
            final(self).desired_direction == old(self).desired_direction,
    {
        self.desired_target = DesiredTarget::NOTHING;
    }
}

} // verus!
