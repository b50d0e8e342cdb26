//! The top-level simulation: an explicit store of agents (poses,
//! steering state, location records) around the grid, advanced one
//! tick at a time in the fixed order location update, grid
//! reconciliation, perception, movement.

use vstd::prelude::*;

use crate::ant::Ant;
use crate::ant::AntSettings;
use crate::ant::Pose;
use crate::constants::ANT_SIZE;
use crate::constants::COORD_LIMIT;
use crate::grid::Grid;
use crate::grid::GridEntity;
use crate::grid::GridEntityType;
use crate::utils::Vec2i;

verus! {

/// The whole simulation state: the grid plus one record of each kind
/// per agent, indexed by the agent's handle.
pub struct Simulation {
    pub grid: Grid,
    pub settings: AntSettings,
    pub poses: Vec<Pose>,
    pub ants: Vec<Ant>,
    pub locations: Vec<GridEntity>,
}

impl Simulation {
    /// Number of live agents; handles are `0 .. agent_count`.
    pub open spec fn spec_agent_count(self) -> int {
        self.poses@.len() as int
    }

    /// The agent's handle is filed in the agent bucket of exactly the
    /// cell its location record calls current.
    pub open spec fn agent_filed(self, i: int) -> bool {
        let c = self.locations@[i].current_position;
        &&& self.grid.cell_in_bounds(c)
        &&& self.grid.slot_has(GridEntityType::Ant, self.grid.idx(c), i as u64)
        &&& self.grid.confined_to(GridEntityType::Ant, i as u64, self.grid.idx(c), self.grid.idx(c))
    }

    /// The agent's position lies inside the world: between the
    /// grid's lower and upper boundary on both axes.
    pub open spec fn within_world(self, i: int) -> bool {
        &&& self.grid.offset.x <= self.poses@[i].position.x <= self.grid.offset.x
            + self.grid.size.x * self.grid.cell_size
        &&& self.grid.offset.y <= self.poses@[i].position.y <= self.grid.offset.y
            + self.grid.size.y * self.grid.cell_size
    }

    /// The upper world corner: the far boundary the movement clamp
    /// pins agents to.
    pub open spec fn spec_world_max(g: Grid) -> Vec2i {
        Vec2i {
            x: (g.offset.x + g.size.x * g.cell_size) as i64,
            y: (g.offset.y + g.size.y * g.cell_size) as i64,
        }
    }

    /// The world's corners stay within the coordinate limit, so
    /// clamped positions remain bounded.
    pub open spec fn world_bounded(self) -> bool {
        &&& self.grid.offset.x + self.grid.size.x * self.grid.cell_size <= COORD_LIMIT
        &&& self.grid.offset.y + self.grid.size.y * self.grid.cell_size <= COORD_LIMIT
    }

    /// The simulation invariant: a well-formed grid over a bounded
    /// world, three parallel stores of equal length, sane per-agent
    /// state, every live agent filed exactly under its current cell,
    /// and no stray handle in the agent buckets.
    pub open spec fn wf(self) -> bool {
        &&& self.grid.wf()
        &&& self.settings.wf()
        &&& self.world_bounded()
        &&& self.ants@.len() == self.spec_agent_count()
        &&& self.locations@.len() == self.spec_agent_count()
        &&& forall|i: int|
            0 <= i < self.spec_agent_count() ==> (#[trigger] self.poses@[i]).wf()
        &&& forall|i: int| 0 <= i < self.spec_agent_count() ==> (#[trigger] self.ants@[i]).wf()
        &&& forall|i: int| 0 <= i < self.spec_agent_count() ==> self.agent_filed(i)
        &&& forall|id: u64|
            id >= self.spec_agent_count() ==> !(#[trigger] self.grid.has_anywhere(
                GridEntityType::Ant,
                id,
            ))
    }

    /// Configures a fresh simulation: a grid of
    /// `area_size / resolution` cells per axis and no agents yet.
    pub fn new(settings: AntSettings, area_size: i64, resolution: i64) -> (sim: Simulation)
        requires
            settings.wf(),
            1 <= resolution <= COORD_LIMIT,
            resolution <= area_size <= COORD_LIMIT,
            area_size <= 1000 * resolution,
        ensures
            sim.wf(),
            sim.spec_agent_count() == 0,
            sim.settings == settings,
            sim.grid.cell_size == resolution,
            sim.grid.size.x == area_size as int / resolution as int,
            sim.grid.size.y == sim.grid.size.x,
    {
        let grid = Grid::new(area_size, resolution);
        proof {
            assert(grid.size.x * grid.cell_size >= 0) by (nonlinear_arith)
                requires
                    grid.size.x >= 0,
                    grid.cell_size >= 0,
            ;
            vstd::arithmetic::div_mod::lemma_div_nonincreasing(
                (grid.size.x * grid.cell_size) as int,
                2,
            );
            vstd::arithmetic::div_mod::lemma_div_pos_is_pos(
                (grid.size.x * grid.cell_size) as int,
                2,
            );
            assert forall|id: u64| true implies !(#[trigger] grid.has_anywhere(
                GridEntityType::Ant,
                id,
            )) by {
                if grid.has_anywhere(GridEntityType::Ant, id) {
                    let i = choose|i: int|
                        0 <= i < grid.cell_count() && #[trigger] grid.slot_has(
                            GridEntityType::Ant,
                            i,
                            id,
                        );
                    let k = choose|k: int|
                        0 <= k < grid.bucket(GridEntityType::Ant, i).len() && (
                        #[trigger] grid.bucket(GridEntityType::Ant, i)[k]).1 == id;
                }
            }
        }
        Simulation {
            grid,
            settings,
            poses: Vec::new(),
            ants: Vec::new(),
            locations: Vec::new(),
        }
    }

    /// Spawns one agent at a random spot around the nest: its handle
    /// is the next free index, it starts wandering, and it is filed
    /// under the grid cell of its spawn position.
    pub fn spawn_ant(&mut self) -> (id: u64)
        requires
            old(self).wf(),
        ensures
            final(self).wf(),
            final(self).spec_agent_count() == old(self).spec_agent_count() + 1,
            id == old(self).spec_agent_count(),
            final(self).settings == old(self).settings,
            Grid::same_shape(final(self).grid, old(self).grid),
            final(self).ants@[id as int].desired_target == crate::ant::DesiredTarget::NOTHING,
            final(self).locations@[id as int].current_position == old(
                self,
            ).grid.spec_world_to_cell(final(self).poses@[id as int].position),
            final(self).ants@[id as int].desired_direction == Vec2i::spec_zero(),
            forall|i: int|
                0 <= i < old(self).spec_agent_count() ==> (#[trigger] final(self).poses@[i])
                    == old(self).poses@[i] && final(self).ants@[i] == old(self).ants@[i]
                    && final(self).locations@[i] == old(self).locations@[i],
    {
        let ghost s0 = *self;
        let id: u64 = self.poses.len() as u64;
        let pose = crate::ant::random_spawn_pose(&self.settings);
        let ant = Ant::new();
        let cell = self.grid.get_grid_pos(pose.position);
        let location = GridEntity::new(cell);
        let added = self.grid.add_entity(GridEntityType::Ant, (&location, id));
        proof {
            assert(added is Ok);
            self.grid.lemma_idx_bounds(cell);
        }
        self.poses.push(pose);
        self.ants.push(ant);
        self.locations.push(location);
        proof {
            let s1 = *self;
            let n0 = s0.spec_agent_count();
            assert forall|i: int| 0 <= i < s1.spec_agent_count() implies s1.agent_filed(i) by {
                if i < n0 {
                    assert(s0.agent_filed(i));
                    let c = s0.locations@[i].current_position;
                    assert(s1.locations@[i] == s0.locations@[i]);
                    s0.grid.lemma_idx_bounds(c);
                    assert(i as u64 != id);
                    assert(s1.grid.slot_has(GridEntityType::Ant, s1.grid.idx(c), i as u64));
                    assert forall|j: int|
                        0 <= j < s1.grid.cell_count() && #[trigger] s1.grid.slot_has(
                            GridEntityType::Ant,
                            j,
                            i as u64,
                        ) implies j == s1.grid.idx(c) by {
                        assert(s0.grid.slot_has(GridEntityType::Ant, j, i as u64));
                    }
                } else {
                    assert(s1.locations@[i] == location);
                }
            }
            assert forall|id2: u64| id2 >= s1.spec_agent_count() implies !(
            #[trigger] s1.grid.has_anywhere(GridEntityType::Ant, id2)) by {
                if s1.grid.has_anywhere(GridEntityType::Ant, id2) {
                    let j = choose|j: int|
                        0 <= j < s1.grid.cell_count() && #[trigger] s1.grid.slot_has(
                            GridEntityType::Ant,
                            j,
                            id2,
                        );
                    assert(s0.grid.slot_has(GridEntityType::Ant, j, id2));
                    assert(s0.grid.has_anywhere(GridEntityType::Ant, id2));
                }
            }
        }
        id
    }

    /// Spawns `n` agents around the nest.
    pub fn spawn_ants(&mut self, n: usize)
        requires
            old(self).wf(),
            old(self).spec_agent_count() + n <= usize::MAX,
        ensures
            final(self).wf(),
            final(self).spec_agent_count() == old(self).spec_agent_count() + n,
            final(self).settings == old(self).settings,
            Grid::same_shape(final(self).grid, old(self).grid),
    {
        let mut spawned: usize = 0;
        while spawned < n
            invariant
                self.wf(),
                spawned <= n,
                self.spec_agent_count() == old(self).spec_agent_count() + spawned,
                self.settings == old(self).settings,
                Grid::same_shape(self.grid, old(self).grid),
            decreases n - spawned,
        {
            let _ = self.spawn_ant();
            spawned = spawned + 1;
        }
    }
}

/// The handle is filed in the agent bucket of exactly this cell.
pub open spec fn filed_at(grid: Grid, cell: crate::grid::CellPos, id: u64) -> bool {
    &&& grid.cell_in_bounds(cell)
    &&& grid.slot_has(GridEntityType::Ant, grid.idx(cell), id)
    &&& grid.confined_to(GridEntityType::Ant, id, grid.idx(cell), grid.idx(cell))
}

/// Bucket changes that leave every handle but `moved` alone keep any
/// other handle filed where it was.
proof fn lemma_filed_at_preserved(
    g0: Grid,
    g1: Grid,
    cell: crate::grid::CellPos,
    id: u64,
    moved: u64,
)
    requires
        id != moved,
        Grid::same_shape(g1, g0),
        1 <= g0.size.x,
        1 <= g0.size.y,
        forall|i: int, id2: u64|
            0 <= i < g0.cell_count() && id2 != moved ==> (#[trigger] g1.slot_has(
                GridEntityType::Ant,
                i,
                id2,
            ) == g0.slot_has(GridEntityType::Ant, i, id2)),
        filed_at(g0, cell, id),
    ensures
        filed_at(g1, cell, id),
{
    g0.lemma_idx_bounds(cell);
    assert(g1.slot_has(GridEntityType::Ant, g1.idx(cell), id));
    assert forall|j: int|
        0 <= j < g1.cell_count() && #[trigger] g1.slot_has(GridEntityType::Ant, j, id) implies j
        == g1.idx(cell) by {
        assert(g0.slot_has(GridEntityType::Ant, j, id));
    }
}

impl Simulation {
    /// Advances the simulation one tick, in the strict order the
    /// grid's consistency needs: every location record is refreshed
    /// from its agent's live position, then the grid re-files every
    /// agent under its current cell, and only then does every agent
    /// steer and move, its new position clamped to the world bounds.
    #[verifier::rlimit(60)]
    pub fn tick(&mut self, delta_ms: u32)
        requires
            old(self).wf(),
            delta_ms <= 60_000,
        ensures
            final(self).wf(),
            final(self).spec_agent_count() == old(self).spec_agent_count(),
            final(self).settings == old(self).settings,
            Grid::same_shape(final(self).grid, old(self).grid),
            forall|i: int|
                0 <= i < final(self).spec_agent_count() ==> #[trigger] final(self).within_world(i),
            forall|i: int|
                0 <= i < old(self).spec_agent_count()
                    ==> (#[trigger] final(self).locations@[i]).last_position
                    == old(self).locations@[i].current_position,
            forall|i: int|
                0 <= i < old(self).spec_agent_count()
                    ==> (#[trigger] final(self).locations@[i]).current_position
                    == old(self).grid.spec_world_to_cell(old(self).poses@[i].position),
            forall|i: int|
                0 <= i < old(self).spec_agent_count() ==> #[trigger] crate::ant::spec_moved(
                    old(self).poses@[i],
                    old(self).ants@[i],
                    final(self).poses@[i],
                    final(self).ants@[i],
                    old(self).settings,
                    old(self).grid.offset,
                    Self::spec_world_max(old(self).grid),
                    delta_ms as int,
                ),
    {
        let ghost s0 = *self;
        let n: usize = self.poses.len();
        // Phase 1: refresh every location record from the live
        // transform; the grid itself is untouched.
        let mut i: usize = 0;
        while i < n
            invariant
                i <= n,
                self.grid == s0.grid,
                self.settings == s0.settings,
                self.poses == s0.poses,
                self.ants == s0.ants,
                self.locations@.len() == n,
                n == s0.spec_agent_count(),
                s0.wf(),
                forall|j: int|
                    i <= j < n ==> #[trigger] self.locations@[j] == s0.locations@[j],
                forall|j: int|
                    0 <= j < i ==> (#[trigger] self.locations@[j]).last_position
                        == s0.locations@[j].current_position,
                forall|j: int|
                    0 <= j < i ==> (#[trigger] self.locations@[j]).current_position
                        == s0.grid.spec_world_to_cell(s0.poses@[j].position),
                forall|j: int|
                    0 <= j < i ==> s0.grid.cell_in_bounds(
                        (#[trigger] self.locations@[j]).current_position,
                    ),
            decreases n - i,
        {
            let mut record = self.locations[i];
            let position = self.poses[i].position;
            self.grid.update_location(&mut record, position);
            self.locations.set(i, record);
            i = i + 1;
        }
        // Phase 2: the grid re-files every agent under its current
        // cell, based on the freshly updated records.
        let ghost s1 = *self;
        proof {
            assert forall|j: int| 0 <= j < n implies filed_at(
                self.grid,
                (#[trigger] self.locations@[j]).last_position,
                j as u64,
            ) by {
                assert(s0.agent_filed(j));
            }
        }
        let mut i: usize = 0;
        while i < n
            invariant
                i <= n,
                self.grid.wf(),
                Grid::same_shape(self.grid, s0.grid),
                self.grid.size == s0.grid.size,
                self.settings == s0.settings,
                self.poses == s0.poses,
                self.ants == s0.ants,
                self.locations == s1.locations,
                self.locations@.len() == n,
                n == s0.spec_agent_count(),
                s0.wf(),
                forall|j: int|
                    0 <= j < n ==> s0.grid.cell_in_bounds(
                        (#[trigger] self.locations@[j]).current_position,
                    ) && s0.grid.cell_in_bounds(self.locations@[j].last_position),
                forall|j: int|
                    0 <= j < i ==> filed_at(
                        self.grid,
                        (#[trigger] self.locations@[j]).current_position,
                        j as u64,
                    ),
                forall|j: int|
                    i <= j < n ==> filed_at(
                        self.grid,
                        (#[trigger] self.locations@[j]).last_position,
                        j as u64,
                    ),
                forall|id: u64|
                    id >= n ==> !(#[trigger] self.grid.has_anywhere(GridEntityType::Ant, id)),
            decreases n - i,
        {
            let ghost g_pre = self.grid;
            let record = self.locations[i];
            let id: u64 = i as u64;
            proof {
                assert(filed_at(g_pre, record.last_position, id));
                g_pre.lemma_idx_bounds(record.last_position);
                assert forall|k: int|
                    0 <= k < g_pre.cell_count() && #[trigger] g_pre.slot_has(
                        GridEntityType::Ant,
                        k,
                        id,
                    ) implies (g_pre.cell_in_bounds(record.last_position) && k == g_pre.idx(
                    record.last_position,
                )) || (g_pre.cell_in_bounds(record.current_position) && k == g_pre.idx(
                    record.current_position,
                )) by {}
            }
            let _outcome = self.grid.reconcile(GridEntityType::Ant, (&record, id));
            proof {
                let g_post = self.grid;
                assert(filed_at(g_post, record.current_position, id)) by {
                    g_pre.lemma_idx_bounds(record.current_position);
                }
                assert forall|j: int| 0 <= j < i + 1 implies filed_at(
                    g_post,
                    (#[trigger] self.locations@[j]).current_position,
                    j as u64,
                ) by {
                    if j < i {
                        lemma_filed_at_preserved(
                            g_pre,
                            g_post,
                            self.locations@[j].current_position,
                            j as u64,
                            id,
                        );
                    }
                }
                assert forall|j: int| i + 1 <= j < n implies filed_at(
                    g_post,
                    (#[trigger] self.locations@[j]).last_position,
                    j as u64,
                ) by {
                    lemma_filed_at_preserved(
                        g_pre,
                        g_post,
                        self.locations@[j].last_position,
                        j as u64,
                        id,
                    );
                }
                assert forall|id2: u64| id2 >= n implies !(#[trigger] g_post.has_anywhere(
                    GridEntityType::Ant,
                    id2,
                )) by {
                    if g_post.has_anywhere(GridEntityType::Ant, id2) {
                        let j = choose|j: int|
                            0 <= j < g_post.cell_count() && #[trigger] g_post.slot_has(
                                GridEntityType::Ant,
                                j,
                                id2,
                            );
                        assert(g_pre.slot_has(GridEntityType::Ant, j, id2));
                        assert(g_pre.has_anywhere(GridEntityType::Ant, id2));
                    }
                }
            }
            i = i + 1;
        }
        // Phases 3 and 4: perception runs read-only (on demand via
        // `query_visible`), then every agent steers and moves.
        let (min, max) = self.grid.get_boundaries();
        let ghost s2 = *self;
        let mut i: usize = 0;
        while i < n
            invariant
                i <= n,
                self.grid == s2.grid,
                self.settings == s0.settings,
                self.locations == s2.locations,
                self.ants@.len() == n,
                self.poses@.len() == n,
                n == s0.spec_agent_count(),
                s2.wf(),
                s0.settings.wf(),
                min == s2.grid.offset,
                max.x == s2.grid.offset.x + s2.grid.size.x * s2.grid.cell_size,
                max.y == s2.grid.offset.y + s2.grid.size.y * s2.grid.cell_size,
                min.bounded(COORD_LIMIT as int),
                max.bounded(COORD_LIMIT as int),
                min.x < max.x && min.y < max.y,
                delta_ms <= 60_000,
                forall|j: int| 0 <= j < n ==> (#[trigger] self.poses@[j]).wf(),
                forall|j: int| 0 <= j < n ==> (#[trigger] self.ants@[j]).wf(),
                forall|j: int|
                    0 <= j < i ==> min.x <= (#[trigger] self.poses@[j]).position.x <= max.x
                        && min.y <= self.poses@[j].position.y <= max.y,
                forall|j: int|
                    i <= j < n ==> (#[trigger] self.poses@[j]) == s2.poses@[j]
                        && self.ants@[j] == s2.ants@[j],
                forall|j: int|
                    0 <= j < i ==> #[trigger] crate::ant::spec_moved(
                        s2.poses@[j],
                        s2.ants@[j],
                        self.poses@[j],
                        self.ants@[j],
                        s0.settings,
                        min,
                        max,
                        delta_ms as int,
                    ),
            decreases n - i,
        {
            let ghost pre = *self;
            let mut pose = self.poses[i];
            let mut ant = self.ants[i];
            crate::ant::move_ant_random(&mut pose, &mut ant, &self.settings, min, max, delta_ms);
            self.poses.set(i, pose);
            self.ants.set(i, ant);
            proof {
                assert forall|j: int|
                    i + 1 <= j < n implies (#[trigger] self.poses@[j]) == s2.poses@[j]
                    && self.ants@[j] == s2.ants@[j] by {
                    assert(self.poses@[j] == pre.poses@[j] && self.ants@[j] == pre.ants@[j]);
                }
                assert forall|j: int| 0 <= j < i + 1 implies #[trigger] crate::ant::spec_moved(
                    s2.poses@[j],
                    s2.ants@[j],
                    self.poses@[j],
                    self.ants@[j],
                    s0.settings,
                    min,
                    max,
                    delta_ms as int,
                ) by {
                    if j < i {
                        assert(self.poses@[j] == pre.poses@[j] && self.ants@[j] == pre.ants@[j]);
                        assert(crate::ant::spec_moved(
                            s2.poses@[j],
                            s2.ants@[j],
                            pre.poses@[j],
                            pre.ants@[j],
                            s0.settings,
                            min,
                            max,
                            delta_ms as int,
                        ));
                    } else {
                        assert(pre.poses@[j] == s2.poses@[j] && pre.ants@[j] == s2.ants@[j]);
                        assert(self.poses@[j] == pose && self.ants@[j] == ant);
                        assert(crate::ant::spec_moved(
                            pre.poses@[j],
                            pre.ants@[j],
                            pose,
                            ant,
                            pre.settings,
                            min,
                            max,
                            delta_ms as int,
                        ));
                    }
                }
            }
            i = i + 1;
        }
        proof {
            assert forall|j: int| 0 <= j < n implies self.agent_filed(j) by {
                assert(s2.agent_filed(j));
            }
            assert(max == Self::spec_world_max(s0.grid));
            assert forall|j: int| 0 <= j < n implies #[trigger] crate::ant::spec_moved(
                s0.poses@[j],
                s0.ants@[j],
                self.poses@[j],
                self.ants@[j],
                s0.settings,
                s0.grid.offset,
                Self::spec_world_max(s0.grid),
                delta_ms as int,
            ) by {
                assert(crate::ant::spec_moved(
                    s2.poses@[j],
                    s2.ants@[j],
                    self.poses@[j],
                    self.ants@[j],
                    s0.settings,
                    min,
                    max,
                    delta_ms as int,
                ));
                assert(s2.poses@[j] == s0.poses@[j] && s2.ants@[j] == s0.ants@[j]);
            }
        }
    }
}

impl Simulation {
    /// The view cone an agent perceives through this tick.
    pub open spec fn spec_view_cone(self, i: int) -> crate::utils::ViewCone {
        crate::utils::ViewCone {
            center: self.poses@[i].position,
            radius: self.settings.view_distance,
            view_angle: self.settings.view_angle,
            rotation: self.poses@[i].heading,
            direction: Vec2i { x: 0, y: crate::constants::DIR_SCALE },
            segments: 50,
        }
    }

    /// The row-major index of the cell an agent is filed under.
    pub open spec fn loc_cell(self, id: int) -> crate::grid::CellPos {
        self.locations@[id].current_position
    }

    /// Whether a candidate agent is visible to the observer: inside
    /// the observer's view cone, allowing for the candidate's own
    /// radius.
    pub open spec fn sees(self, observer: int, candidate: int) -> bool {
        self.spec_view_cone(observer).spec_contains(
            self.poses@[candidate].position,
            ANT_SIZE as int / 2,
        )
    }

    /// The read-only perception query: which other agents the given
    /// agent sees this tick. Exact on membership: a handle is
    /// returned when and only when it denotes another live agent
    /// whose filed cell passes the range query's corner test for the
    /// observer's view circle and whose position passes the exact
    /// cone test; no handle is returned twice.
    #[verifier::rlimit(60)]
    pub fn query_visible(&self, agent: usize) -> (out: Vec<u64>)
        requires
            self.wf(),
            agent < self.spec_agent_count(),
        ensures
            forall|q: int|
                0 <= q < out@.len() ==> 0 <= (#[trigger] out@[q]) < self.spec_agent_count()
                    && out@[q] != agent && self.sees(agent as int, out@[q] as int)
                    && self.grid.cell_selected(
                    self.loc_cell(out@[q] as int),
                    self.poses@[agent as int].position,
                    self.settings.view_distance as int,
                ),
            forall|id: int|
                0 <= id < self.spec_agent_count() && id != agent && self.grid.cell_selected(
                    self.loc_cell(id),
                    self.poses@[agent as int].position,
                    self.settings.view_distance as int,
                ) && self.sees(agent as int, id) ==> out@.contains(id as u64),
            forall|q1: int, q2: int| 0 <= q1 < q2 < out@.len() ==> out@[q1] != out@[q2],
    {
        let observer_pose = self.poses[agent];
        let observer_ant = self.ants[agent];
        let cone = observer_ant.get_view_cone(&observer_pose, &self.settings);
        let cells = self.grid.get_cells_in_area_from_world(
            observer_pose.position,
            self.settings.view_distance,
        );
        let ghost center = observer_pose.position;
        let ghost radius = self.settings.view_distance as int;
        let mut out: Vec<u64> = Vec::new();
        let n: usize = self.poses.len();
        let mut ci: usize = 0;
        #[verifier::loop_isolation(false)]
        while ci < cells.len()
            invariant
                ci <= cells@.len(),
                forall|q: int|
                    0 <= q < out@.len() ==> 0 <= (#[trigger] out@[q]) < n && out@[q] != agent
                        && self.sees(agent as int, out@[q] as int),
                forall|q: int|
                    #![trigger out@[q]]
                    0 <= q < out@.len() ==> exists|j: int|
                        0 <= j < ci && (#[trigger] cells@[j]).0 == self.loc_cell(out@[q] as int),
                forall|id: int|
                    0 <= id < n && id != agent && self.sees(agent as int, id) && (exists|j: int|
                        0 <= j < ci && (#[trigger] cells@[j]).0 == self.loc_cell(id))
                        ==> out@.contains(id as u64),
                forall|q1: int, q2: int| 0 <= q1 < q2 < out@.len() ==> out@[q1] != out@[q2],
            decreases cells@.len() - ci,
        {
            let entry = &cells[ci];
            let ghost cell = entry.0;
            let ghost bidx = self.grid.idx(cell);
            proof {
                self.grid.lemma_idx_bounds(cell);
            }
            let bucket = &entry.1.0;
            let mut k: usize = 0;
            #[verifier::loop_isolation(false)]
            while k < bucket.len()
                invariant
                    k <= bucket@.len(),
                    forall|q: int|
                        0 <= q < out@.len() ==> 0 <= (#[trigger] out@[q]) < n && out@[q] != agent
                            && self.sees(agent as int, out@[q] as int),
                    forall|q: int|
                        #![trigger out@[q]]
                        0 <= q < out@.len() ==> exists|j: int|
                            0 <= j <= ci && (#[trigger] cells@[j]).0 == self.loc_cell(
                                out@[q] as int,
                            ),
                    forall|q: int|
                        0 <= q < out@.len() && cells@[ci as int].0 == self.loc_cell(out@[q] as int)
                            ==> exists|k2: int|
                            0 <= k2 < k && (#[trigger] bucket@[k2]).1 == out@[q],
                    forall|id: int|
                        0 <= id < n && id != agent && self.sees(agent as int, id) && ((exists|
                            j: int,
                        |
                            0 <= j < ci && (#[trigger] cells@[j]).0 == self.loc_cell(id)) || (
                        cells@[ci as int].0 == self.loc_cell(id) && exists|k2: int|
                            0 <= k2 < k && (#[trigger] bucket@[k2]).1 == id)) ==> out@.contains(
                            id as u64,
                        ),
                    forall|q1: int, q2: int| 0 <= q1 < q2 < out@.len() ==> out@[q1] != out@[q2],
                decreases bucket@.len() - k,
            {
                let id: u64 = bucket[k].1;
                proof {
                    // The bucket is the agent bucket of `cell`, so
                    // its entries are live handles filed there.
                    assert(bucket@ == self.grid.bucket(GridEntityType::Ant, bidx));
                    assert(self.grid.slot_has(GridEntityType::Ant, bidx, id)) by {
                        assert((self.grid.bucket(GridEntityType::Ant, bidx)[k as int]).1 == id);
                    }
                    assert(id < n) by {
                        if id >= n {
                            assert(self.grid.has_anywhere(GridEntityType::Ant, id));
                        }
                    }
                    assert(self.agent_filed(id as int));
                    assert(self.loc_cell(id as int) == cell) by {
                        assert(bidx == self.grid.idx(self.loc_cell(id as int)));
                        if cell != self.loc_cell(id as int) {
                            self.grid.lemma_idx_injective(cell, self.loc_cell(id as int));
                        }
                    }
                }
                if id != agent as u64 {
                    let other = self.poses[id as usize].position;
                    if cone.contains(other, crate::constants::ANT_SIZE / 2) {
                        let ghost pre = out@;
                        out.push(id);
                        proof {
                            assert(out@ == pre.push(id));
                            assert(self.sees(agent as int, id as int));
                            // A handle never repeats: an earlier copy
                            // would have come from this same bucket
                            // (then two bucket entries share the
                            // handle) or from an earlier, distinct
                            // cell (then the handle is filed twice).
                            assert forall|q: int| 0 <= q < pre.len() implies pre[q] != id by {
                                if pre[q] == id {
                                    if cells@[ci as int].0 == self.loc_cell(id as int) {
                                        let k2 = choose|k2: int|
                                            0 <= k2 < k && (#[trigger] bucket@[k2]).1 == id;
                                        assert(self.grid.entry_id(GridEntityType::Ant, bidx, k2)
                                            == self.grid.entry_id(
                                            GridEntityType::Ant,
                                            bidx,
                                            k as int,
                                        ));
                                        assert(false);
                                    } else {
                                        assert(false);
                                    }
                                }
                            }
                            assert forall|q: int|
                                0 <= q < out@.len() && cells@[ci as int].0 == self.loc_cell(
                                    out@[q] as int,
                                ) implies exists|k2: int|
                                0 <= k2 < k + 1 && (#[trigger] bucket@[k2]).1 == out@[q] by {
                                if q < pre.len() {
                                    let k2 = choose|k2: int|
                                        0 <= k2 < k && (#[trigger] bucket@[k2]).1 == pre[q];
                                    assert(bucket@[k2].1 == out@[q]);
                                } else {
                                    assert(bucket@[k as int].1 == out@[q]);
                                }
                            }
                            assert forall|q: int| #![trigger out@[q]] 0 <= q
                                < out@.len() implies exists|j: int|
                                0 <= j <= ci && (#[trigger] cells@[j]).0 == self.loc_cell(
                                    out@[q] as int,
                                ) by {
                                if q < pre.len() {
                                } else {
                                    assert(cells@[ci as int].0 == self.loc_cell(out@[q] as int));
                                }
                            }
                            assert forall|id2: int|
                                0 <= id2 < n && id2 != agent && self.sees(agent as int, id2) && ((
                                exists|j: int|
                                    0 <= j < ci && (#[trigger] cells@[j]).0 == self.loc_cell(id2))
                                    || (cells@[ci as int].0 == self.loc_cell(id2) && exists|
                                    k2: int,
                                |
                                    0 <= k2 < k + 1 && (#[trigger] bucket@[k2]).1
                                        == id2)) implies out@.contains(id2 as u64) by {
                                if id2 == id {
                                    assert(out@[pre.len() as int] == id2 as u64);
                                } else {
                                    assert(pre.contains(id2 as u64));
                                    let q = choose|q: int|
                                        0 <= q < pre.len() && pre[q] == id2 as u64;
                                    assert(out@[q] == id2 as u64);
                                }
                            }
                        }
                    } else {
                        proof {
                            assert(!self.sees(agent as int, id as int));
                        }
                    }
                } else {
                    proof {
                        assert(id == agent);
                    }
                }
                k = k + 1;
            }
            proof {
                assert forall|q: int| #![trigger out@[q]] 0 <= q < out@.len() implies exists|
                    j: int,
                |
                    0 <= j < ci + 1 && (#[trigger] cells@[j]).0 == self.loc_cell(out@[q] as int) by {
                }
                assert forall|id: int|
                    0 <= id < n && id != agent && self.sees(agent as int, id) && (exists|j: int|
                        0 <= j < ci + 1 && (#[trigger] cells@[j]).0 == self.loc_cell(
                            id,
                        )) implies out@.contains(id as u64) by {
                    let j = choose|j: int|
                        0 <= j < ci + 1 && (#[trigger] cells@[j]).0 == self.loc_cell(id);
                    if j == ci {
                        assert(self.agent_filed(id));
                        let c2 = self.loc_cell(id);
                        assert(self.grid.slot_has(GridEntityType::Ant, self.grid.idx(c2), id as u64));
                        let k2 = choose|k2: int|
                            0 <= k2 < self.grid.bucket(GridEntityType::Ant, self.grid.idx(c2)).len()
                                && (#[trigger] self.grid.bucket(
                                GridEntityType::Ant,
                                self.grid.idx(c2),
                            )[k2]).1 == id as u64;
                        assert(bucket@[k2].1 == id as u64);
                    }
                }
            }
            ci = ci + 1;
        }
        proof {
            assert forall|id: int|
                0 <= id < n && id != agent && self.grid.cell_selected(
                    self.loc_cell(id),
                    center,
                    radius,
                ) && self.sees(agent as int, id) implies out@.contains(id as u64) by {
                let j = choose|j: int|
                    0 <= j < cells@.len() && (#[trigger] cells@[j]).0 == self.loc_cell(id);
            }
            assert forall|q: int| 0 <= q < out@.len() implies self.grid.cell_selected(
                self.loc_cell(out@[q] as int),
                center,
                radius,
            ) by {
                let j = choose|j: int|
                    0 <= j < cells@.len() && (#[trigger] cells@[j]).0 == self.loc_cell(
                        out@[q] as int,
                    );
            }
        }
        out
    }

    /// The pointer-interaction entry point: if the world point lies
    /// in the agent's view cone, that agent starts seeking food
    /// there; otherwise nothing changes.
    pub fn set_agent_target(&mut self, agent: usize, point: Vec2i) -> (visible: bool)
        requires
            old(self).wf(),
            agent < old(self).spec_agent_count(),
            point.bounded(COORD_LIMIT as int),
        ensures
            final(self).wf(),
            final(self).spec_agent_count() == old(self).spec_agent_count(),
            final(self).grid == old(self).grid,
            final(self).poses == old(self).poses,
            final(self).locations == old(self).locations,
            visible == old(self).spec_view_cone(agent as int).spec_contains(point, 0),
            !visible ==> final(self).ants@ == old(self).ants@,
            visible ==> final(self).ants@[agent as int].desired_target
                == crate::ant::DesiredTarget::FOOD,
            forall|i: int|
                0 <= i < old(self).spec_agent_count() && i != agent
                    ==> #[trigger] final(self).ants@[i] == old(self).ants@[i],
    {
        let pose = self.poses[agent];
        let mut ant = self.ants[agent];
        let visible = ant.set_target_if_visible(&pose, &self.settings, point);
        self.ants.set(agent, ant);
        proof {
            if !visible {
                assert(self.ants@ =~= old(self).ants@);
            }
            assert forall|i: int| 0 <= i < self.spec_agent_count() implies (
            #[trigger] self.ants@[i]).wf() by {
                if i != agent {
                    assert(self.ants@[i] == old(self).ants@[i]);
                }
            }
            assert forall|i: int| 0 <= i < self.spec_agent_count() implies self.agent_filed(
                i,
            ) by {
                assert(old(self).agent_filed(i));
            }
        }
        visible
    }

    /// The pointer-release entry point: the agent goes back to
    /// wandering.
    pub fn clear_agent_target(&mut self, agent: usize)
        requires
            old(self).wf(),
            agent < old(self).spec_agent_count(),
        ensures
            final(self).wf(),
            final(self).spec_agent_count() == old(self).spec_agent_count(),
            final(self).grid == old(self).grid,
            final(self).poses == old(self).poses,
            final(self).locations == old(self).locations,
            final(self).ants@[agent as int].desired_target == crate::ant::DesiredTarget::NOTHING,
            final(self).ants@[agent as int].desired_direction == old(
                self,
            ).ants@[agent as int].desired_direction,
            forall|i: int|
                0 <= i < old(self).spec_agent_count() && i != agent
                    ==> #[trigger] final(self).ants@[i] == old(self).ants@[i],
    {
        let mut ant = self.ants[agent];
        ant.clear_target();
        self.ants.set(agent, ant);
        proof {
            assert forall|i: int| 0 <= i < self.spec_agent_count() implies (
            #[trigger] self.ants@[i]).wf() by {
                if i != agent {
                    assert(self.ants@[i] == old(self).ants@[i]);
                }
            }
            assert forall|i: int| 0 <= i < self.spec_agent_count() implies self.agent_filed(
                i,
            ) by {
                assert(old(self).agent_filed(i));
            }
        }
    }

    /// Number of live agents.
    pub fn agent_count(&self) -> (n: usize)
        ensures
            n == self.spec_agent_count(),
    {
        self.poses.len()
    }
}

} // verus!
