//! A maze run: the entry and exit seeds at their fixed places, a size check,
//! and propagation.
use vstd::prelude::*;

use crate::engine::{Discipline, Resolution, propagate, run_result};
use crate::grid::{Board, Seed, rows_of, rows_size, seeds_in_grid, size};

verus! {

#[derive(Clone, Copy, Debug, PartialEq, Eq, Structural)]
pub enum MazeError {
    /// The grid has no room for the entry on its first row or for the exit on
    /// its last.
    NoGates,
    /// The grid has so many cells that the total cost might not fit a `u64`.
    TooLarge,
}

/// The grid has an entry cell, second on the first row, and an exit cell on
/// the last row, second from the end of the first row's width.
pub open spec fn has_gates(g: Board) -> bool {
    &&& g.len() >= 1
    &&& g[0].len() >= 2
    &&& g[0].len() - 2 < g[g.len() - 1].len()
}

/// The entry and exit seeds, each a vertical single line.
pub open spec fn gate_seeds(g: Board) -> Seq<Seed> {
    seq![
        Seed { row: 0, col: 1, symbol: '│' },
        Seed { row: (g.len() - 1) as usize, col: (g[0].len() - 2) as usize, symbol: '│' },
    ]
}

pub proof fn lemma_rows_size_monotone<T>(g: Seq<Seq<T>>, k: int, n: int)
    requires
        0 <= k <= n <= g.len(),
    ensures
        rows_size(g, k) <= rows_size(g, n),
    decreases n - k,
{
    if k < n {
        lemma_rows_size_monotone(g, k, n - 1);
    }
}

/// The entry and exit seeds of `grid`, or `None` when it has no room for them.
pub fn maze_seeds(grid: &Vec<Vec<char>>) -> (r: Option<Vec<Seed>>)
    ensures
        r is Some <==> has_gates(rows_of(grid)),
        r is Some ==> r.unwrap()@ == gate_seeds(rows_of(grid)),
        r is Some ==> seeds_in_grid(rows_of(grid), r.unwrap()@),
{
    let n = grid.len();
    if n == 0 || grid[0].len() < 2 || grid[0].len() - 2 >= grid[n - 1].len() {
        return None;
    }
    let seeds = vec![
        Seed { row: 0, col: 1, symbol: '│' },
        Seed { row: n - 1, col: grid[0].len() - 2, symbol: '│' },
    ];
    assert(seeds@ =~= gate_seeds(rows_of(grid)));
    Some(seeds)
}

/// Whether a third of `u64::MAX` bounds the number of cells of `grid`.
pub fn fits_cost(grid: &Vec<Vec<char>>) -> (r: bool)
    ensures
        r == (3 * size(rows_of(grid)) <= u64::MAX),
{
    let ghost g = rows_of(grid);
    let limit: u64 = u64::MAX / 3;
    let mut total: u64 = 0;
    let mut i: usize = 0;
    while i < grid.len()
        invariant
            i <= grid.len(),
            g == rows_of(grid),
            total == rows_size(g, i as int),
            total <= limit,
            limit == u64::MAX / 3,
        decreases grid.len() - i,
    {
        let w = grid[i].len() as u64;
        if w > limit - total {
            proof {
                lemma_rows_size_monotone(g, i + 1, g.len() as int);
                assert(rows_size(g, i + 1) == total + w);
                let t = size(g);
                assert(t > limit);
                assert(3 * t > u64::MAX) by (nonlinear_arith)
                    requires
                        t > limit,
                        limit == u64::MAX / 3,
                ;
            }
            return false;
        }
        total = total + w;
        i += 1;
    }
    assert(3 * size(g) <= u64::MAX) by (nonlinear_arith)
        requires
            size(g) <= limit,
            limit == u64::MAX / 3,
    ;
    true
}

/// Resolves a maze: seeds its entry and exit, checks its size, and runs
/// propagation in the order `discipline` gives.
pub fn solve_maze(grid: Vec<Vec<char>>, discipline: Discipline) -> (r: Result<Resolution, MazeError>)
    ensures
        r == Err::<Resolution, MazeError>(MazeError::NoGates) <==> !has_gates(rows_of(&grid)),
        r == Err::<Resolution, MazeError>(MazeError::TooLarge) <==> has_gates(rows_of(&grid)) && 3 * size(
            rows_of(&grid),
        ) > u64::MAX,
        r is Ok ==> run_result(rows_of(&grid), gate_seeds(rows_of(&grid)), r->Ok_0),
{
    let seeds = match maze_seeds(&grid) {
        Some(s) => s,
        None => return Err(MazeError::NoGates),
    };
    if !fits_cost(&grid) {
        return Err(MazeError::TooLarge);
    }
    Ok(propagate(grid, &seeds, discipline))
}

} // verus!
