use boxgrid::engine::{Discipline, Status};
use boxgrid::grid::Seed;
use boxgrid::maze::{fits_cost, maze_seeds, solve_maze, MazeError};

fn grid(rows: &[&str]) -> Vec<Vec<char>> {
    rows.iter().map(|r| r.chars().collect()).collect()
}

#[test]
fn gates_sit_on_first_and_last_rows() {
    let g = grid(&["#─####", "#┌│─┘#", "####─#", "#┘││┌#", "#─####", "#┐─│└#", "####─#"]);
    let seeds = maze_seeds(&g).unwrap();
    assert_eq!(
        seeds,
        vec![Seed { row: 0, col: 1, symbol: '│' }, Seed { row: 6, col: 4, symbol: '│' }]
    );
}

#[test]
fn no_gates_on_too_small_grids() {
    assert!(maze_seeds(&grid(&[])).is_none());
    assert!(maze_seeds(&grid(&["#"])).is_none());
    assert!(maze_seeds(&grid(&["####", "#"])).is_none());
    assert!(matches!(solve_maze(grid(&["#"]), Discipline::Stack), Err(MazeError::NoGates)));
}

#[test]
fn small_grids_fit_the_cost() {
    assert!(fits_cost(&grid(&["#─#", "#─#"])));
    assert!(fits_cost(&grid(&[])));
}

#[test]
fn maze_is_solved_from_its_gates() {
    let g = grid(&["#─####", "#┌│─┘#", "####─#", "#┘││┌#", "#─####", "#┐─│└#", "####─#"]);
    let r = solve_maze(g, Discipline::Queue).ok().unwrap();
    assert_eq!(r.status(), Status::Converged);
    assert_eq!(r.cost, 20);
    assert_eq!(r.cells[6][4], Some('│'));
}
