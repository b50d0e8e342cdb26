use ant_behaviour::grid::CellPos;
use ant_behaviour::grid::Grid;
use ant_behaviour::grid::GridEntity;
use ant_behaviour::grid::GridEntityType;
use ant_behaviour::grid::ReconcileOutcome;
use ant_behaviour::utils::Vec2i;

fn small_grid() -> Grid {
    // A 10 x 10 grid of 100-unit cells covering 1000 x 1000 world
    // units centred on the origin.
    Grid::new(1000, 100)
}

#[test]
fn default_grid_dimensions() {
    let grid = Grid::default();
    let (min, max) = grid.get_boundaries();
    assert_eq!(min, Vec2i::new(-2500, -2500));
    assert_eq!(max, Vec2i::new(2500, 2500));
}

#[test]
fn world_to_cell_is_deterministic_and_in_range() {
    let grid = small_grid();
    let a = grid.get_grid_pos(Vec2i::new(0, 0));
    let b = grid.get_grid_pos(Vec2i::new(0, 0));
    assert_eq!(a, b);
    assert_eq!(a, CellPos::new(5, 5));
    for &(x, y) in &[(-500i64, -500i64), (-1, -1), (499, 499), (250, -250)] {
        let c = grid.get_grid_pos(Vec2i::new(x, y));
        assert!(c.x < 10 && c.y < 10);
    }
    assert_eq!(grid.get_grid_pos(Vec2i::new(-500, -500)), CellPos::new(0, 0));
    assert_eq!(grid.get_grid_pos(Vec2i::new(499, 499)), CellPos::new(9, 9));
    assert_eq!(grid.get_grid_pos(Vec2i::new(-1, -1)), CellPos::new(4, 4));
}

#[test]
fn world_to_cell_clamps_out_of_range_positions() {
    let grid = small_grid();
    assert_eq!(grid.get_grid_pos(Vec2i::new(10_000, -10_000)), CellPos::new(9, 0));
    assert_eq!(grid.get_grid_pos(Vec2i::new(-700, 2_000)), CellPos::new(0, 9));
    // Exactly on the upper world edge clamps to the last cell.
    assert_eq!(grid.get_grid_pos(Vec2i::new(500, 500)), CellPos::new(9, 9));
}

#[test]
fn insert_then_lookup() {
    let mut grid = small_grid();
    let loc = GridEntity::new(CellPos::new(5, 5));
    assert!(grid.add_entity(GridEntityType::Ant, (&loc, 7)).is_ok());
    assert_eq!(grid.has_entity(CellPos::new(5, 5), GridEntityType::Ant, (&loc, 7)), Ok(true));
    assert_eq!(grid.has_entity(CellPos::new(4, 4), GridEntityType::Ant, (&loc, 7)), Ok(false));
    // Categories are kept apart.
    assert_eq!(grid.has_entity(CellPos::new(5, 5), GridEntityType::Food, (&loc, 7)), Ok(false));
}

#[test]
fn insert_out_of_bounds_fails() {
    let mut grid = small_grid();
    let loc = GridEntity::new(CellPos::new(10, 3));
    assert!(grid.add_entity(GridEntityType::Ant, (&loc, 1)).is_err());
    // Lookups at out-of-range cells simply find nothing.
    assert_eq!(grid.has_entity(CellPos::new(10, 3), GridEntityType::Ant, (&loc, 1)), Ok(false));
}

#[test]
fn remove_is_a_no_op_when_absent() {
    let mut grid = small_grid();
    let loc = GridEntity::new(CellPos::new(5, 5));
    assert!(grid.add_entity(GridEntityType::Ant, (&loc, 7)).is_ok());
    // Removing from a cell that does not hold the handle changes
    // nothing and is not an error.
    assert!(grid.remove_from(GridEntityType::Ant, CellPos::new(4, 4), (&loc, 7)).is_ok());
    assert_eq!(grid.has_entity(CellPos::new(5, 5), GridEntityType::Ant, (&loc, 7)), Ok(true));
    // Removing from the right cell takes it out.
    assert!(grid.remove_from(GridEntityType::Ant, CellPos::new(5, 5), (&loc, 7)).is_ok());
    assert_eq!(grid.has_entity(CellPos::new(5, 5), GridEntityType::Ant, (&loc, 7)), Ok(false));
    // Out-of-bounds cells are the error case.
    assert!(grid.remove_from(GridEntityType::Ant, CellPos::new(99, 0), (&loc, 7)).is_err());
}

#[test]
fn lazy_remove_sweeps_the_category() {
    let mut grid = small_grid();
    let loc = GridEntity::new(CellPos::new(2, 3));
    assert!(grid.add_entity(GridEntityType::Ant, (&loc, 42)).is_ok());
    assert!(grid.lazy_remove(GridEntityType::Ant, (&loc, 42)).is_ok());
    assert_eq!(grid.has_entity(CellPos::new(2, 3), GridEntityType::Ant, (&loc, 42)), Ok(false));
}

fn count_cells_holding(grid: &Grid, id: u64) -> usize {
    let probe = GridEntity::new(CellPos::new(0, 0));
    let mut count: usize = 0;
    for y in 0..10u32 {
        for x in 0..10u32 {
            if grid.has_entity(CellPos::new(x, y), GridEntityType::Ant, (&probe, id))
                == Ok(true)
            {
                count += 1;
            }
        }
    }
    count
}

#[test]
fn reconcile_moves_between_buckets() {
    let mut grid = small_grid();
    let loc = GridEntity::new(CellPos::new(5, 5));
    // Never filed before: a first insertion.
    assert_eq!(grid.reconcile(GridEntityType::Ant, (&loc, 3)), ReconcileOutcome::FirstInsert);
    assert_eq!(count_cells_holding(&grid, 3), 1);
    // Already where it should be: nothing to do.
    assert_eq!(grid.reconcile(GridEntityType::Ant, (&loc, 3)), ReconcileOutcome::AlreadyCurrent);
    // The entity moved one cell: it leaves the old bucket and enters
    // the new one.
    let moved = GridEntity {
        last_position: CellPos::new(5, 5),
        current_position: CellPos::new(6, 5),
    };
    assert_eq!(grid.reconcile(GridEntityType::Ant, (&moved, 3)), ReconcileOutcome::Moved);
    assert_eq!(
        grid.has_entity(CellPos::new(5, 5), GridEntityType::Ant, (&moved, 3)),
        Ok(false)
    );
    assert_eq!(grid.has_entity(CellPos::new(6, 5), GridEntityType::Ant, (&moved, 3)), Ok(true));
    assert_eq!(count_cells_holding(&grid, 3), 1);
}

#[test]
fn reconcile_out_of_bounds_unfiles_the_entity() {
    let mut grid = small_grid();
    let loc = GridEntity::new(CellPos::new(6, 5));
    assert_eq!(grid.reconcile(GridEntityType::Ant, (&loc, 9)), ReconcileOutcome::FirstInsert);
    let stray = GridEntity {
        last_position: CellPos::new(6, 5),
        current_position: CellPos::new(10, 10),
    };
    assert_eq!(grid.reconcile(GridEntityType::Ant, (&stray, 9)), ReconcileOutcome::OutOfBounds);
    assert_eq!(count_cells_holding(&grid, 9), 0);
}

#[test]
fn handles_stay_unique_across_operation_sequences() {
    // The grid invariant: after any sequence of insert, remove and
    // reconcile calls, a handle sits in at most one bucket per
    // category.
    let mut grid = small_grid();
    let a = GridEntity::new(CellPos::new(1, 1));
    assert!(grid.add_entity(GridEntityType::Ant, (&a, 5)).is_ok());
    let moved = GridEntity {
        last_position: CellPos::new(1, 1),
        current_position: CellPos::new(2, 1),
    };
    assert_eq!(grid.reconcile(GridEntityType::Ant, (&moved, 5)), ReconcileOutcome::Moved);
    let moved_again = GridEntity {
        last_position: CellPos::new(2, 1),
        current_position: CellPos::new(2, 2),
    };
    assert_eq!(
        grid.reconcile(GridEntityType::Ant, (&moved_again, 5)),
        ReconcileOutcome::Moved
    );
    assert_eq!(count_cells_holding(&grid, 5), 1);
    assert!(grid.remove_from(GridEntityType::Ant, CellPos::new(2, 2), (&moved_again, 5)).is_ok());
    assert_eq!(count_cells_holding(&grid, 5), 0);
}

#[test]
fn range_query_around_a_shared_corner() {
    // World 1000 x 1000, cells of 100 (a 10 x 10 grid), one agent at
    // world (0, 0), which falls in cell (5, 5). The origin is a
    // corner shared by four cells, so the corner test admits all
    // four; the agent is listed only under (5, 5).
    let mut grid = small_grid();
    let cell = grid.get_grid_pos(Vec2i::new(0, 0));
    assert_eq!(cell, CellPos::new(5, 5));
    let loc = GridEntity::new(cell);
    assert!(grid.add_entity(GridEntityType::Ant, (&loc, 1)).is_ok());
    let out = grid.get_cells_in_area_from_world(Vec2i::new(0, 0), 40);
    let cells: Vec<CellPos> = out.iter().map(|entry| entry.0).collect();
    assert_eq!(
        cells,
        vec![CellPos::new(4, 4), CellPos::new(5, 4), CellPos::new(4, 5), CellPos::new(5, 5)]
    );
    for (pos, (ants, food, pheromones)) in &out {
        assert!(food.is_empty() && pheromones.is_empty());
        if *pos == CellPos::new(5, 5) {
            assert_eq!(ants.len(), 1);
            assert_eq!(ants[0].1, 1);
        } else {
            assert!(ants.is_empty());
        }
    }
}

#[test]
fn range_query_misses_a_cell_whose_corners_are_all_far() {
    // The documented approximation: a query centred in the middle of
    // a cell with a radius smaller than half the cell diagonal
    // reaches none of the cell's corners, so even the centre cell is
    // not returned and a consumer would have to widen the radius.
    let grid = small_grid();
    let out = grid.get_cells_in_area_from_world(Vec2i::new(-450, -450), 40);
    assert!(out.is_empty());
}

#[test]
fn range_query_with_covering_radius_returns_neighbourhood() {
    let grid = small_grid();
    let out = grid.get_cells_in_area_from_world(Vec2i::new(-450, -450), 100);
    let cells: Vec<CellPos> = out.iter().map(|entry| entry.0).collect();
    // All four corners of cell (0, 0) lie within 100 of its centre,
    // as does the nearest corner of each neighbour; two cells away
    // every corner is too far.
    assert!(cells.contains(&CellPos::new(0, 0)));
    assert!(cells.contains(&CellPos::new(1, 0)));
    assert!(cells.contains(&CellPos::new(0, 1)));
    assert!(cells.contains(&CellPos::new(1, 1)));
    assert!(!cells.contains(&CellPos::new(2, 1)));
}

#[test]
fn cell_block_query_clips_to_the_grid() {
    let grid = small_grid();
    // Radius 100 is one cell in every direction: a full 3 x 3 block
    // in the middle.
    assert_eq!(grid.get_cells_in_area_from_grid(CellPos::new(5, 5), 100).len(), 9);
    // Radius 40 still rounds up to one cell.
    assert_eq!(grid.get_cells_in_area_from_grid(CellPos::new(5, 5), 40).len(), 9);
    // Radius 0 is just the cell itself.
    assert_eq!(grid.get_cells_in_area_from_grid(CellPos::new(5, 5), 0).len(), 1);
    // At the corner the block is clipped.
    assert_eq!(grid.get_cells_in_area_from_grid(CellPos::new(0, 0), 100).len(), 4);
}

#[test]
fn cell_centres_for_rendering() {
    let grid = small_grid();
    assert_eq!(grid.cell_center(CellPos::new(5, 5)), Vec2i::new(50, 50));
    assert_eq!(grid.cell_center(CellPos::new(0, 0)), Vec2i::new(-450, -450));
    assert_eq!(grid.cell_center(CellPos::new(9, 9)), Vec2i::new(450, 450));
}

#[test]
fn location_update_shifts_current_to_last() {
    let grid = small_grid();
    let mut loc = GridEntity::new(CellPos::new(5, 5));
    grid.update_location(&mut loc, Vec2i::new(-500, -500));
    assert_eq!(loc.last_position, CellPos::new(5, 5));
    assert_eq!(loc.current_position, CellPos::new(0, 0));
}
