use game_of_life_core::game::{
    count_active_cellules, serialize_cellules, wrap, Cellule, GameState, GridError, LifeState,
};

fn alive_cell() -> Cellule {
    Cellule { life_state: LifeState::Alive }
}

fn dead_cell() -> Cellule {
    Cellule { life_state: LifeState::Dead }
}

fn grid_from(width: usize, height: usize, alive_positions: &[(usize, usize)]) -> GameState {
    let mut cellules = vec![dead_cell(); width * height];
    for &(row, col) in alive_positions {
        cellules[row * width + col] = alive_cell();
    }
    GameState { active: false, cellules, cellules_width: width, cellules_height: height }
}

fn alive_positions_of(grid: &GameState) -> Vec<(usize, usize)> {
    let mut positions = Vec::new();
    for row in 0..grid.cellules_height {
        for col in 0..grid.cellules_width {
            if grid.cellules[row * grid.cellules_width + col].alive() {
                positions.push((row, col));
            }
        }
    }
    positions
}

#[test]
fn wrap_brings_coordinates_back_into_range() {
    assert_eq!(wrap(3, 10), 3);
    assert_eq!(wrap(0, 10), 0);
    assert_eq!(wrap(9, 10), 9);
    assert_eq!(wrap(-1, 10), 9);
    assert_eq!(wrap(-10, 10), 0);
    assert_eq!(wrap(10, 10), 0);
    assert_eq!(wrap(19, 10), 9);
}

#[test]
fn row_col_as_idx_wraps_both_coordinates() {
    let grid = grid_from(5, 4, &[]);
    assert_eq!(grid.row_col_as_idx(0, 0), 0);
    assert_eq!(grid.row_col_as_idx(2, 3), 13);
    assert_eq!(grid.row_col_as_idx(-1, -1), 3 * 5 + 4);
    assert_eq!(grid.row_col_as_idx(4, 5), 0);
}

#[test]
fn count_alive_neighbors_counts_exactly() {
    let cells = [alive_cell(), dead_cell(), alive_cell(), alive_cell()];
    assert_eq!(Cellule::count_alive_neighbors(&cells), 3);
    assert!(!Cellule::alone(&cells));
    assert!(!Cellule::overpopulated(&cells));
    assert!(Cellule::can_be_revived(&cells));
    let none: [Cellule; 0] = [];
    assert_eq!(Cellule::count_alive_neighbors(&none), 0);
    assert!(Cellule::alone(&none));
}

#[test]
fn cellule_setters_flip_state() {
    let mut cell = dead_cell();
    assert!(!cell.alive());
    cell.set_alive();
    assert!(cell.alive());
    cell.set_dead();
    assert!(!cell.alive());
}

#[test]
fn blinker_oscillates_in_the_middle() {
    let mut grid = grid_from(5, 5, &[(1, 2), (2, 2), (3, 2)]);
    grid.step();
    assert_eq!(alive_positions_of(&grid), vec![(2, 1), (2, 2), (2, 3)]);
    grid.step();
    assert_eq!(alive_positions_of(&grid), vec![(1, 2), (2, 2), (3, 2)]);
}

#[test]
fn blinker_crosses_the_toroidal_edge() {
    let mut grid = grid_from(5, 5, &[(4, 2), (0, 2), (1, 2)]);
    grid.step();
    assert_eq!(alive_positions_of(&grid), vec![(0, 1), (0, 2), (0, 3)]);
    grid.step();
    assert_eq!(alive_positions_of(&grid), vec![(0, 2), (1, 2), (4, 2)]);
}

#[test]
fn all_dead_grid_stays_all_dead() {
    let mut grid = grid_from(4, 4, &[]);
    for _ in 0..10 {
        grid.step();
        assert!(alive_positions_of(&grid).is_empty());
    }
}

#[test]
fn step_is_deterministic() {
    let mut first = grid_from(6, 6, &[(0, 0), (0, 1), (1, 0), (3, 4), (4, 4), (5, 4), (2, 2)]);
    let mut second = first.clone();
    first.step();
    second.step();
    assert_eq!(first.cellules, second.cellules);
    first.step();
    second.step();
    assert_eq!(first.cellules, second.cellules);
}

#[test]
fn toggle_cellule_flips_one_cell_and_rejects_bad_index() {
    let mut grid = grid_from(3, 2, &[]);
    let original = grid.cellules.clone();
    assert_eq!(grid.toggle_cellule(4), Ok(()));
    assert!(grid.cellules[4].alive());
    assert_eq!(grid.toggle_cellule(4), Ok(()));
    assert_eq!(grid.cellules, original);
    assert_eq!(grid.toggle_cellule(6), Err(GridError::InvalidIndex));
    assert_eq!(grid.cellules, original);
}

#[test]
fn set_cellules_replaces_or_rejects() {
    let mut grid = grid_from(2, 2, &[(0, 0)]);
    let replacement = vec![alive_cell(); 4];
    assert_eq!(grid.set_cellules(replacement.clone()), Ok(()));
    assert_eq!(grid.cellules, replacement);
    let bad = vec![dead_cell(); 3];
    assert_eq!(grid.set_cellules(bad), Err(GridError::SizeMismatch));
    assert_eq!(grid.cellules, replacement);
}

#[test]
fn reset_kills_every_cell() {
    let mut grid = grid_from(3, 3, &[(0, 0), (1, 1), (2, 2)]);
    grid.reset();
    assert_eq!(grid.cellules_width, 3);
    assert_eq!(grid.cellules_height, 3);
    assert!(alive_positions_of(&grid).is_empty());
}

#[test]
fn neighbors_are_read_in_fixed_order() {
    let grid = grid_from(3, 3, &[(0, 1), (2, 2)]);
    let neighbors = grid.neighbors(1, 1);
    assert_eq!(Cellule::count_alive_neighbors(&neighbors), 2);
    let corner_neighbors = grid.neighbors(0, 0);
    assert_eq!(Cellule::count_alive_neighbors(&corner_neighbors), 2);
}

#[test]
fn serialize_cellules_writes_one_char_per_cell() {
    let cells = vec![dead_cell(), alive_cell(), alive_cell(), dead_cell()];
    assert_eq!(serialize_cellules(&cells), "0110");
    let empty: Vec<Cellule> = Vec::new();
    assert_eq!(serialize_cellules(&empty), "");
}

#[test]
fn count_active_cellules_counts_the_whole_grid() {
    let cells = vec![alive_cell(), dead_cell(), alive_cell()];
    assert_eq!(count_active_cellules(&cells), 2);
    let grid = grid_from(4, 3, &[(0, 0), (2, 3)]);
    assert_eq!(count_active_cellules(&grid.cellules), 2);
}
