use game_of_life_core::game::{Cellule, GameState, LifeState};
use game_of_life_core::score::{
    check_death_score, check_life_score, toggle_modification, GridModification, RunMetrics,
};

fn run(seed_label: &str, step_count: i32, active_count: i32, modification_count: usize) -> RunMetrics {
    RunMetrics {
        seed_label: seed_label.to_string(),
        step_count,
        active_count,
        modification_count,
    }
}

fn steps_pool(steps: &[i32]) -> Vec<RunMetrics> {
    steps.iter().map(|&s| run("pentadecathlon", s, 0, 0)).collect()
}

fn actives_pool(actives: &[i32]) -> Vec<RunMetrics> {
    actives.iter().map(|&a| run("pentadecathlon", 0, a, 0)).collect()
}

#[test]
fn empty_pool_qualifies_for_both_scores() {
    let pool: Vec<RunMetrics> = Vec::new();
    let current = run("pentadecathlon", 1, 100, 0);
    assert!(check_life_score(&pool, &current));
    assert!(check_death_score(&pool, &current));
}

#[test]
fn single_entry_pool_qualifies_outright() {
    let pool = vec![run("pentadecathlon", 1000, 1, 0)];
    let current = run("pentadecathlon", 5, 100, 0);
    assert!(check_life_score(&pool, &current));
    assert!(check_death_score(&pool, &current));
}

#[test]
fn life_score_beats_the_floor_of_three() {
    let pool = steps_pool(&[10, 20, 30]);
    // the floor set is the two lowest entries, so the boundary is 20
    assert!(check_life_score(&pool, &run("pentadecathlon", 25, 0, 0)));
    assert!(check_life_score(&pool, &run("pentadecathlon", 21, 0, 0)));
    assert!(!check_life_score(&pool, &run("pentadecathlon", 20, 0, 0)));
    assert!(!check_life_score(&pool, &run("pentadecathlon", 15, 0, 0)));
}

#[test]
fn life_score_pool_order_does_not_matter() {
    let pool = steps_pool(&[30, 10, 20]);
    assert!(check_life_score(&pool, &run("pentadecathlon", 25, 0, 0)));
    assert!(!check_life_score(&pool, &run("pentadecathlon", 20, 0, 0)));
}

#[test]
fn life_score_cuts_off_at_twenty() {
    let steps: Vec<i32> = (1..=22).collect();
    let pool = steps_pool(&steps);
    // the floor set is the twenty lowest entries, so the boundary is 20
    assert!(check_life_score(&pool, &run("pentadecathlon", 21, 0, 0)));
    assert!(!check_life_score(&pool, &run("pentadecathlon", 20, 0, 0)));
}

#[test]
fn life_score_only_compares_matching_runs() {
    let mut pool = steps_pool(&[10, 20, 30]);
    // a huge run under another seed, and one with a different edit count,
    // must not raise the boundary
    pool.push(run("middle line starter", 9999, 0, 0));
    pool.push(run("pentadecathlon", 9999, 0, 3));
    assert!(check_life_score(&pool, &run("pentadecathlon", 25, 0, 0)));
    // with only the two matching edited runs, the current edited run faces
    // a single-entry floor
    assert!(check_life_score(&pool, &run("pentadecathlon", 5, 0, 3)));
}

#[test]
fn death_score_undercuts_the_ceiling_of_three() {
    let pool = actives_pool(&[5, 8, 2]);
    // descending, the floor set is [8, 5], so the boundary is 5
    assert!(check_death_score(&pool, &run("pentadecathlon", 0, 3, 0)));
    assert!(check_death_score(&pool, &run("pentadecathlon", 0, 4, 0)));
    assert!(!check_death_score(&pool, &run("pentadecathlon", 0, 5, 0)));
    assert!(!check_death_score(&pool, &run("pentadecathlon", 0, 9, 0)));
}

#[test]
fn death_score_cuts_off_at_twenty() {
    let actives: Vec<i32> = (1..=22).collect();
    let pool = actives_pool(&actives);
    // descending, the floor set is 22 down to 3, so the boundary is 3
    assert!(check_death_score(&pool, &run("pentadecathlon", 0, 2, 0)));
    assert!(!check_death_score(&pool, &run("pentadecathlon", 0, 3, 0)));
}

#[test]
fn toggle_modification_adds_then_cancels() {
    let mut modifications: Vec<GridModification> = Vec::new();
    toggle_modification(&mut modifications, 0, 7);
    assert_eq!(modifications.len(), 1);
    assert_eq!(modifications[0].grid_index, 7);
    assert_eq!(modifications[0].step_index, 0);
    toggle_modification(&mut modifications, 0, 7);
    assert!(modifications.is_empty());
}

#[test]
fn toggle_modification_keeps_other_records() {
    let mut modifications = vec![
        GridModification { step_index: 0, grid_index: 3 },
        GridModification { step_index: 1, grid_index: 9 },
        GridModification { step_index: 2, grid_index: 3 },
    ];
    toggle_modification(&mut modifications, 5, 3);
    assert_eq!(modifications, vec![GridModification { step_index: 1, grid_index: 9 }]);
    toggle_modification(&mut modifications, 6, 4);
    assert_eq!(
        modifications,
        vec![
            GridModification { step_index: 1, grid_index: 9 },
            GridModification { step_index: 6, grid_index: 4 },
        ]
    );
}

#[test]
fn toggling_one_cell_twice_restores_grid_and_records() {
    let mut grid = GameState {
        active: false,
        cellules: vec![Cellule { life_state: LifeState::Dead }; 6],
        cellules_width: 3,
        cellules_height: 2,
    };
    let original = grid.cellules.clone();
    let mut modifications: Vec<GridModification> = Vec::new();
    assert_eq!(grid.toggle_cellule(2), Ok(()));
    toggle_modification(&mut modifications, 0, 2);
    assert_ne!(grid.cellules, original);
    assert_eq!(modifications.len(), 1);
    assert_eq!(grid.toggle_cellule(2), Ok(()));
    toggle_modification(&mut modifications, 0, 2);
    assert_eq!(grid.cellules, original);
    assert!(modifications.is_empty());
}
