use boxgrid::engine::{propagate, Discipline, Engine, Status};
use boxgrid::grid::{find_stable_neighbours, find_unstable_neighbours, get_cell, glyph_at, Seed};

fn grid(rows: &[&str]) -> Vec<Vec<char>> {
    rows.iter().map(|r| r.chars().collect()).collect()
}

fn seed(row: usize, col: usize, symbol: char) -> Seed {
    Seed { row, col, symbol }
}

#[test]
fn single_connector_between_vertical_lines_from_horizontal() {
    let g = grid(&["#─#", "#─#", "#─#"]);
    let seeds = vec![seed(0, 1, '│'), seed(2, 1, '│')];
    let r = propagate(g, &seeds, Discipline::Stack);
    assert_eq!(r.cells[1][1], Some('│'));
    assert_eq!(r.cost, 1);
    assert_eq!(r.status(), Status::Converged);
    assert!(r.unresolved.is_empty());
}

#[test]
fn single_connector_between_vertical_lines_already_vertical() {
    let g = grid(&["#│#", "#│#", "#│#"]);
    let seeds = vec![seed(0, 1, '│'), seed(2, 1, '│')];
    let r = propagate(g, &seeds, Discipline::Queue);
    assert_eq!(r.cells[1][1], Some('│'));
    assert_eq!(r.cost, 0);
    assert_eq!(r.status(), Status::Converged);
}

#[test]
fn closed_loop_without_evidence_gets_stuck() {
    let g = grid(&["─#┐┌", "─#┘└"]);
    let seeds = vec![seed(0, 0, '│')];
    let r = propagate(g, &seeds, Discipline::Stack);
    assert_eq!(r.status(), Status::Stuck);
    assert_eq!(r.cells[1][0], Some('│'));
    assert_eq!(r.cost, 1);
    let mut u = r.unresolved.clone();
    u.sort();
    assert_eq!(u, vec![(0, 2), (0, 3), (1, 2), (1, 3)]);
    for (i, j) in u {
        assert_eq!(r.cells[i][j], None);
    }
}

#[test]
fn anchors_keep_their_glyphs() {
    let g = grid(&["#│░", "x─y", "#│#"]);
    let seeds = vec![seed(0, 1, '│')];
    let r = propagate(g.clone(), &seeds, Discipline::Stack);
    for (i, row) in g.iter().enumerate() {
        for (j, c) in row.iter().enumerate() {
            if matches!(*c, '#' | '░' | 'x' | 'y') {
                assert_eq!(r.cells[i][j], Some(*c));
            }
        }
    }
    assert_eq!(r.cells[1][1], Some('│'));
    assert_eq!(r.cells[2][1], Some('│'));
    assert_eq!(r.cost, 1);
}

fn maze() -> Vec<Vec<char>> {
    grid(&["#─####", "#┌│─┘#", "####─#", "#┘││┌#", "#─####", "#┐─│└#", "####─#"])
}

fn maze_seeds() -> Vec<Seed> {
    vec![seed(0, 1, '│'), seed(6, 4, '│')]
}

#[test]
fn stack_and_queue_orders_agree() {
    let a = propagate(maze(), &maze_seeds(), Discipline::Stack);
    let b = propagate(maze(), &maze_seeds(), Discipline::Queue);
    assert_eq!(a.cells, b.cells);
    assert_eq!(a.cost, b.cost);
    assert_eq!(a.unresolved, b.unresolved);
}

#[test]
fn maze_resolves_completely() {
    let r = propagate(maze(), &maze_seeds(), Discipline::Stack);
    assert_eq!(r.status(), Status::Converged);
    let rows: Vec<String> = r.cells.iter().map(|row| row.iter().map(|c| c.unwrap()).collect()).collect();
    assert_eq!(rows, vec!["#│####", "#└──┐#", "####│#", "#┌──┘#", "#│####", "#└──┐#", "####│#"]);
    assert_eq!(r.cost, 20);
}

#[test]
fn store_only_grows_step_by_step() {
    let mut e = Engine::new(maze(), &maze_seeds(), Discipline::Queue);
    let mut before = e.stable.clone();
    let mut cost = e.cost;
    while e.step() {
        for (i, row) in before.iter().enumerate() {
            for (j, c) in row.iter().enumerate() {
                if c.is_some() {
                    assert_eq!(e.stable[i][j], *c);
                }
            }
        }
        assert!(e.cost >= cost);
        before = e.stable.clone();
        cost = e.cost;
    }
}

#[test]
fn cell_lookup_and_neighbours() {
    let cells = vec![vec![Some('#'), None], vec![Some('│'), Some('─')], vec![None]];
    assert_eq!(get_cell((0, 0), &cells), Some('#'));
    assert_eq!(get_cell((0, 1), &cells), None);
    assert_eq!(get_cell((2, 1), &cells), None);
    assert_eq!(get_cell((7, 7), &cells), None);
    let n = find_stable_neighbours((1, 0), &cells);
    assert_eq!(n.up, Some('#'));
    assert_eq!(n.down, None);
    assert_eq!(n.left, None);
    assert_eq!(n.right, Some('─'));
    let mut u = find_unstable_neighbours((1, 1), &cells);
    u.sort();
    assert_eq!(u, vec![(0, 1)]);
    let mut u = find_unstable_neighbours((1, 0), &cells);
    u.sort();
    assert_eq!(u, vec![(2, 0)]);
}

#[test]
fn glyph_lookup_on_ragged_rows() {
    let g = grid(&["#─#", "│"]);
    assert_eq!(glyph_at((0, 1), &g), Some('─'));
    assert_eq!(glyph_at((1, 0), &g), Some('│'));
    assert_eq!(glyph_at((1, 1), &g), None);
    assert_eq!(glyph_at((2, 0), &g), None);
}
