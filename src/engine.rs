//! The propagation engine: a worklist of cells, each resolved at most once
//! from what the store knows of its neighbours, until nothing more can be
//! decided.
use vstd::prelude::*;

use crate::grid::{
    Board, Marks, Seed, adjacent, cell_cost, mark_at, around, closed, extends, find_stable_neighbours,
    find_unstable_neighbours, get_cell, holes, in_grid, initial, initial_cells, lemma_extends_around,
    lemma_extends_antisym, lemma_extends_refl, lemma_extends_trans, lemma_holes_bounds,
    lemma_resolve_one, lemma_set_extends, rows_of, seed_at, seeds_in_grid, set_mark, shaped, size,
    total_cost, row_cost, rows_cost,
};
use crate::resolver::{
    Neighbours, find_stable, knows_less, lemma_resolve_idempotent, lemma_resolved_monotone, resolved,
};
use crate::symbols::{count_rotations, family_of, lemma_rotation_cost_bounds, rotation_cost};

verus! {

/// The order in which the worklist hands out its cells.
#[derive(Clone, Copy, Debug, PartialEq, Eq, Structural)]
pub enum Discipline {
    /// Last in, first out.
    Stack,
    /// First in, first out.
    Queue,
}

/// How a finished run ended.
#[derive(Clone, Copy, Debug, PartialEq, Eq, Structural)]
pub enum Status {
    /// Every cell is resolved.
    Converged,
    /// Some cells could not be resolved.
    Stuck,
}

/// `sol` resolves every cell of `g`, and the resolver agrees with it: from any
/// part of what `sol` knows of a cell's neighbours, the resolver either leaves
/// the cell undecided or decides it as `sol` has it.
pub open spec fn solution(g: Board, sol: Marks) -> bool {
    &&& shaped(sol, g)
    &&& forall|i: int, j: int| in_grid(g, i, j) ==> (#[trigger] sol[i][j]) is Some
    &&& forall|i: int, j: int, n: Neighbours|
        in_grid(g, i, j) && #[trigger] knows_less(n, around(sol, i, j)) ==> (resolved(g[i][j], n) is None
            || resolved(g[i][j], n) == sol[i][j])
}

/// `m` lies below every closed store between `s` and any solution: whatever
/// `m` has resolved, each of them has resolved the same way.
#[verifier::opaque]
pub open spec fn least(g: Board, s: Marks, m: Marks) -> bool {
    forall|sol: Marks, c: Marks|
        solution(g, sol) && extends(s, sol) && closed(g, c) && extends(s, c) && #[trigger] extends(
            c,
            sol,
        ) ==> extends(m, c)
}

/// Each cell resolved in `m` but not in `s` is one the resolver decides from
/// what `m` knows of its neighbours.
#[verifier::opaque]
pub open spec fn justified(g: Board, s: Marks, m: Marks) -> bool {
    forall|i: int, j: int|
        in_grid(g, i, j) && s[i][j] is None && (#[trigger] m[i][j]) is Some ==> resolved(
            g[i][j],
            around(m, i, j),
        ) is Some
}

/// What a finished run from the store `s` leaves: a store that keeps `s`,
/// whose every new mark the resolver justifies, in which nothing more can be
/// decided, and which lies below every other such closed store.
pub open spec fn outcome(g: Board, s: Marks, m: Marks) -> bool {
    &&& shaped(m, g)
    &&& extends(s, m)
    &&& justified(g, s, m)
    &&& closed(g, m)
    &&& least(g, s, m)
}

/// Each unresolved cell is either waiting in `q` or cannot be decided yet.
pub open spec fn waiting(g: Board, m: Marks, q: Seq<(usize, usize)>) -> bool {
    forall|i: int, j: int|
        in_grid(g, i, j) && (#[trigger] m[i][j]) is None ==> q.contains((i as usize, j as usize))
            || resolved(g[i][j], around(m, i, j)) is None
}

/// Every row index and column index of `g` fits in a `usize`.
pub open spec fn fits(g: Board) -> bool {
    &&& g.len() <= usize::MAX
    &&& forall|i: int| 0 <= i < g.len() ==> #[trigger] g[i].len() <= usize::MAX
}

pub open spec fn all_in_grid(g: Board, q: Seq<(usize, usize)>) -> bool {
    forall|k: int| 0 <= k < q.len() ==> in_grid(g, (#[trigger] q[k]).0 as int, q[k].1 as int)
}

/// A run in progress: the grid, the store of resolved cells, the worklist
/// and the cost so far.
pub struct Engine {
    pub grid: Vec<Vec<char>>,
    pub stable: Vec<Vec<Option<char>>>,
    pub pending: Vec<(usize, usize)>,
    pub head: usize,
    pub discipline: Discipline,
    pub cost: u64,
    /// The store the run started from.
    pub start: Ghost<Marks>,
}

impl Engine {
    pub open spec fn board(&self) -> Board {
        rows_of(&self.grid)
    }

    pub open spec fn marks(&self) -> Marks {
        rows_of(&self.stable)
    }

    /// The cells still on the worklist.
    pub open spec fn queued(&self) -> Seq<(usize, usize)> {
        self.pending@.subrange(self.head as int, self.pending@.len() as int)
    }

    /// Falls with every step that does work.
    pub open spec fn measure(&self) -> int {
        5 * holes(self.marks()) + self.queued().len()
    }

    pub open spec fn wf(&self) -> bool {
        &&& self.head <= self.pending.len()
        &&& running(self.board(), self.start@, self.marks(), self.queued(), self.cost as int)
    }

    /// A run on `grid` from its anchors and `seeds`, with every cell of the
    /// grid on the worklist.
    pub fn new(grid: Vec<Vec<char>>, seeds: &Vec<Seed>, discipline: Discipline) -> (r: Engine)
        requires
            seeds_in_grid(rows_of(&grid), seeds@),
            3 * size(rows_of(&grid)) <= u64::MAX,
        ensures
            r.wf(),
            r.board() == rows_of(&grid),
            r.start@ == initial(rows_of(&grid), seeds@),
            r.marks() == r.start@,
            r.cost == 0,
            r.discipline == discipline,
    {
        let ghost g = rows_of(&grid);
        let stable = initial_cells(&grid, seeds);
        let ghost s = rows_of(&stable);
        let mut pending: Vec<(usize, usize)> = Vec::new();
        let mut i: usize = 0;
        assert(g.len() == grid.len());
        while i < grid.len()
            invariant
                i <= grid.len(),
                g == rows_of(&grid),
                g.len() <= usize::MAX,
                forall|a: int| 0 <= a < i ==> #[trigger] g[a].len() <= usize::MAX,
                all_in_grid(g, pending@),
                forall|a: int, b: int|
                    0 <= a < i && in_grid(g, a, b) ==> #[trigger] pending@.contains(
                        (a as usize, b as usize),
                    ),
            decreases grid.len() - i,
        {
            let width = grid[i].len();
            let mut j: usize = 0;
            while j < width
                invariant
                    width == grid[i as int]@.len(),
                    i < grid.len(),
                    j <= grid[i as int]@.len(),
                    g == rows_of(&grid),
                    grid[i as int]@.len() <= usize::MAX,
                    all_in_grid(g, pending@),
                    forall|a: int, b: int|
                        (0 <= a < i || (a == i && 0 <= b < j)) && in_grid(g, a, b)
                            ==> #[trigger] pending@.contains((a as usize, b as usize)),
                decreases grid[i as int]@.len() - j,
            {
                let ghost before = pending@;
                pending.push((i, j));
                proof {
                    assert(pending@[before.len() as int] == (i, j));
                    assert forall|a: int, b: int|
                        (0 <= a < i || (a == i && 0 <= b < j + 1)) && in_grid(g, a, b)
                            implies #[trigger] pending@.contains((a as usize, b as usize)) by {
                        if a == i && b == j {
                            assert(pending@[before.len() as int] == (a as usize, b as usize));
                        } else {
                            assert(before.contains((a as usize, b as usize)));
                            let k = choose|k: int| 0 <= k < before.len() && before[k] == (a as usize, b as usize);
                            assert(pending@[k] == (a as usize, b as usize));
                        }
                    }
                }
                j += 1;
            }
            i += 1;
        }
        proof {
            assert(pending@.subrange(0, pending@.len() as int) =~= pending@);
            lemma_running_start(g, s, pending@);
        }
        Engine { grid, stable, pending, head: 0, discipline, cost: 0, start: Ghost(s) }
    }

    /// Takes one cell off the worklist and, if it is unresolved and the
    /// resolver decides it, records it, adds its rotation cost and puts its
    /// unresolved neighbours back on the worklist. Returns whether there was a
    /// cell to take. The store only grows: a resolved cell keeps its mark.
    pub fn step(&mut self) -> (r: bool)
        requires
            old(self).wf(),
        ensures
            final(self).wf(),
            final(self).board() == old(self).board(),
            final(self).start == old(self).start,
            final(self).discipline == old(self).discipline,
            r == (old(self).queued().len() > 0),
            extends(old(self).marks(), final(self).marks()),
            old(self).cost <= final(self).cost,
            r ==> 0 <= final(self).measure() < old(self).measure(),
            !r ==> final(self).marks() == old(self).marks() && final(self).queued().len() == 0,
    {
        if self.head >= self.pending.len() {
            proof {
                lemma_extends_refl(self.marks());
            }
            return false;
        }
        let ghost g = self.board();
        let ghost s = self.start@;
        let ghost m = self.marks();
        let ghost q = self.queued();
        let (x, y) = match self.discipline {
            Discipline::Stack => {
                let e = self.pending.pop().unwrap();
                assert(self.queued() =~= q.drop_last());
                e
            },
            Discipline::Queue => {
                let e = self.pending[self.head];
                self.head = self.head + 1;
                assert(self.queued() =~= q.subrange(1, q.len() as int));
                e
            },
        };
        let ghost k: int = if self.discipline == Discipline::Stack {
            q.len() - 1
        } else {
            0
        };
        proof {
            assert(self.queued() =~= q.remove(k));
            lemma_running_pop(g, s, m, q, self.cost as int, k);
        }
        if get_cell((x, y), &self.stable).is_some() {
            proof {
                lemma_extends_refl(m);
                lemma_running_skip(g, s, m, q, self.cost as int, k);
                lemma_running_holes(g, s, m, self.queued(), self.cost as int);
            }
            return true;
        }
        let neighbours = find_stable_neighbours((x, y), &self.stable);
        let drawn = self.grid[x][y];
        match find_stable(drawn, &neighbours) {
            None => {
                proof {
                    lemma_extends_refl(m);
                    lemma_running_skip(g, s, m, q, self.cost as int, k);
                    lemma_running_holes(g, s, m, self.queued(), self.cost as int);
                }
                true
            },
            Some(solution) => {
                let ghost mm = set_mark(m, x as int, y as int, Some(solution));
                let mut row = self.stable[x].clone();
                assert(row@ =~= m[x as int]);
                row.set(y, Some(solution));
                self.stable.set(x, row);
                assert(self.marks() =~= mm);
                let turn = count_rotations(drawn, solution);
                proof {
                    lemma_running_resolve_cost(g, s, m, q, self.cost as int, k, solution);
                }
                self.cost = self.cost + turn as u64;
                let mut fresh = find_unstable_neighbours((x, y), &self.stable);
                let ghost added = fresh@;
                self.pending.append(&mut fresh);
                proof {
                    assert(self.queued() =~= q.remove(k) + added);
                    lemma_running_resolve(g, s, m, q, self.cost as int - turn, k, solution, added);
                    lemma_running_holes(g, s, self.marks(), self.queued(), self.cost as int);
                }
                true
            },
        }
    }
}

/// The invariant of a run: `s` is the store it started from, `m` the store
/// now, `q` the worklist and `cost` the cost so far.
#[verifier::opaque]
pub open spec fn running(g: Board, s: Marks, m: Marks, q: Seq<(usize, usize)>, cost: int) -> bool {
    &&& shaped(s, g)
    &&& shaped(m, g)
    &&& fits(g)
    &&& 3 * size(g) <= u64::MAX
    &&& holes(s) <= size(g)
    &&& extends(s, m)
    &&& cost == total_cost(g, s, m)
    &&& cost + 3 * holes(m) <= 3 * holes(s)
    &&& justified(g, s, m)
    &&& least(g, s, m)
    &&& all_in_grid(g, q)
    &&& waiting(g, m, q)
}

proof fn lemma_running_start(g: Board, s: Marks, q: Seq<(usize, usize)>)
    requires
        shaped(s, g),
        fits(g),
        3 * size(g) <= u64::MAX,
        all_in_grid(g, q),
        forall|a: int, b: int| in_grid(g, a, b) ==> #[trigger] q.contains((a as usize, b as usize)),
    ensures
        running(g, s, s, q, 0),
{
    reveal(running);
    reveal(least);
    reveal(justified);
    lemma_extends_refl(s);
    lemma_cost_of_nothing(g, s);
    lemma_holes_bounds(s, g);
    assert(waiting(g, s, q));
}

/// The cell taken off the worklist lies on the grid, and every other
/// unresolved cell is still waiting or undecidable.
proof fn lemma_running_pop(g: Board, s: Marks, m: Marks, q: Seq<(usize, usize)>, cost: int, k: int)
    requires
        running(g, s, m, q, cost),
        0 <= k < q.len(),
    ensures
        in_grid(g, q[k].0 as int, q[k].1 as int),
        in_grid(m, q[k].0 as int, q[k].1 as int),
        waiting_but(g, m, q.remove(k), q[k].0 as int, q[k].1 as int),
        shaped(m, g),
{
    reveal(running);
    let (x, y) = q[k];
    let popped = q.remove(k);
    assert(g[x as int].len() <= usize::MAX);
    assert forall|e: (usize, usize)| q.contains(e) && e != (x, y) implies popped.contains(e) by {
        let i = choose|i: int| 0 <= i < q.len() && q[i] == e;
        if i < k {
            assert(popped[i] == e);
        } else {
            assert(popped[i - 1] == e);
        }
    }
    assert forall|i: int, j: int|
        in_grid(g, i, j) && (#[trigger] m[i][j]) is None && !(i == x && j == y) implies popped.contains(
        (i as usize, j as usize),
    ) || resolved(g[i][j], around(m, i, j)) is None by {
        if q.contains((i as usize, j as usize)) {
            assert((i as usize, j as usize) != (x, y));
        }
    }
}

/// Dropping a cell that is resolved or undecidable keeps the invariant.
proof fn lemma_running_skip(g: Board, s: Marks, m: Marks, q: Seq<(usize, usize)>, cost: int, k: int)
    requires
        running(g, s, m, q, cost),
        0 <= k < q.len(),
        m[q[k].0 as int][q[k].1 as int] is Some || resolved(
            g[q[k].0 as int][q[k].1 as int],
            around(m, q[k].0 as int, q[k].1 as int),
        ) is None,
    ensures
        running(g, s, m, q.remove(k), cost),
{
    lemma_running_pop(g, s, m, q, cost, k);
    reveal(running);
    let popped = q.remove(k);
    assert forall|i: int| 0 <= i < popped.len() implies in_grid(
        g,
        (#[trigger] popped[i]).0 as int,
        popped[i].1 as int,
    ) by {
        if i < k {
            assert(popped[i] == q[i]);
        } else {
            assert(popped[i] == q[i + 1]);
        }
    }
}

/// Resolving the cell taken off the worklist adds its rotation cost, which
/// stays within the bound of the invariant.
proof fn lemma_running_resolve_cost(
    g: Board,
    s: Marks,
    m: Marks,
    q: Seq<(usize, usize)>,
    cost: int,
    k: int,
    r: char,
)
    requires
        running(g, s, m, q, cost),
        0 <= cost,
        0 <= k < q.len(),
        m[q[k].0 as int][q[k].1 as int] is None,
    ensures
        0 <= cost + rotation_cost(g[q[k].0 as int][q[k].1 as int], r) <= u64::MAX,
        holes(set_mark(m, q[k].0 as int, q[k].1 as int, Some(r))) == holes(m) - 1,
        extends(m, set_mark(m, q[k].0 as int, q[k].1 as int, Some(r))),
{
    lemma_running_pop(g, s, m, q, cost, k);
    reveal(running);
    let (x, y) = q[k];
    let mm = set_mark(m, x as int, y as int, Some(r));
    lemma_rotation_cost_bounds(g[x as int][y as int], r);
    assert(s[x as int][y as int] is None);
    lemma_resolve_one(g, s, m, x as int, y as int, r);
    lemma_holes_bounds(mm, g);
    lemma_holes_bounds(m, g);
    lemma_set_extends(m, x as int, y as int, r);
    let rc = rotation_cost(g[x as int][y as int], r);
    assert(rc <= 3);
    assert(cost + 3 * holes(m) <= 3 * holes(s));
    assert(holes(m) >= 1);
    assert(3 * holes(s) <= 3 * size(g));
}

/// Recording the cell taken off the worklist as the resolver decided it, and
/// putting its unresolved neighbours back, keeps the invariant.
proof fn lemma_running_resolve(
    g: Board,
    s: Marks,
    m: Marks,
    q: Seq<(usize, usize)>,
    cost: int,
    k: int,
    r: char,
    added: Seq<(usize, usize)>,
)
    requires
        running(g, s, m, q, cost),
        0 <= cost,
        0 <= k < q.len(),
        m[q[k].0 as int][q[k].1 as int] is None,
        resolved(g[q[k].0 as int][q[k].1 as int], around(m, q[k].0 as int, q[k].1 as int)) == Some(r),
        forall|a: int, b: int|
            adjacent(set_mark(m, q[k].0 as int, q[k].1 as int, Some(r)), q[k].0 as int, q[k].1 as int, a, b)
                && (#[trigger] set_mark(m, q[k].0 as int, q[k].1 as int, Some(r))[a][b]) is None
                ==> added.contains((a as usize, b as usize)),
        forall|i: int|
            0 <= i < added.len() ==> {
                let (a, b) = #[trigger] added[i];
                adjacent(set_mark(m, q[k].0 as int, q[k].1 as int, Some(r)), q[k].0 as int, q[k].1 as int, a as int, b as int)
            },
    ensures
        running(
            g,
            s,
            set_mark(m, q[k].0 as int, q[k].1 as int, Some(r)),
            q.remove(k) + added,
            cost + rotation_cost(g[q[k].0 as int][q[k].1 as int], r),
        ),
{
    lemma_running_pop(g, s, m, q, cost, k);
    lemma_running_resolve_cost(g, s, m, q, cost, k, r);
    reveal(running);
    let (x, y) = q[k];
    let popped = q.remove(k);
    let mm = set_mark(m, x as int, y as int, Some(r));
    assert forall|i: int| 0 <= i < popped.len() implies in_grid(
        g,
        (#[trigger] popped[i]).0 as int,
        popped[i].1 as int,
    ) by {
        if i < k {
            assert(popped[i] == q[i]);
        } else {
            assert(popped[i] == q[i + 1]);
        }
    }
    assert(s[x as int][y as int] is None);
    lemma_resolve_one(g, s, m, x as int, y as int, r);
    lemma_extends_trans(s, m, mm);
    lemma_resolve_keeps(g, s, m, x as int, y as int, r);
    lemma_requeued(g, m, x as int, y as int, r, popped, added);
}

/// The result of a run: the final store, the total rotation cost, and the
/// cells left unresolved.
pub struct Resolution {
    pub cells: Vec<Vec<Option<char>>>,
    pub cost: u64,
    pub unresolved: Vec<(usize, usize)>,
}

impl Resolution {
    /// `Converged` when every cell was resolved, `Stuck` otherwise.
    pub fn status(&self) -> (r: Status)
        ensures
            r == Status::Converged <==> self.unresolved@.len() == 0,
    {
        if self.unresolved.len() == 0 {
            Status::Converged
        } else {
            Status::Stuck
        }
    }
}

/// `u` lists exactly the unresolved cells of `m`.
pub open spec fn lists_unresolved(m: Marks, u: Seq<(usize, usize)>) -> bool {
    &&& forall|k: int|
        0 <= k < u.len() ==> in_grid(m, (#[trigger] u[k]).0 as int, u[k].1 as int) && m[u[k].0 as int][u[k].1 as int]
            is None
    &&& forall|i: int, j: int| in_grid(m, i, j) && (#[trigger] m[i][j]) is None ==> u.contains((i as usize, j as usize))
}

/// What a run on grid `g` from its anchors and `seeds` returns: a final
/// store that is the outcome of propagation from the initial store, the
/// rotation cost of the cells it resolved, and the list of those it could not.
pub open spec fn run_result(g: Board, seeds: Seq<Seed>, r: Resolution) -> bool {
    let s = initial(g, seeds);
    let m = rows_of(&r.cells);
    &&& outcome(g, s, m)
    &&& r.cost == total_cost(g, s, m)
    &&& lists_unresolved(m, r.unresolved@)
}

/// Runs propagation on `grid` from its anchors and `seeds` until the worklist
/// is empty, taking cells in the order `discipline` gives. Every anchor that
/// is not a seed keeps its glyph.
pub fn propagate(grid: Vec<Vec<char>>, seeds: &Vec<Seed>, discipline: Discipline) -> (r: Resolution)
    requires
        seeds_in_grid(rows_of(&grid), seeds@),
        3 * size(rows_of(&grid)) <= u64::MAX,
    ensures
        run_result(rows_of(&grid), seeds@, r),
        forall|i: int, j: int|
            in_grid(rows_of(&grid), i, j) && family_of(rows_of(&grid)[i][j]) is None && seed_at(seeds@, i, j)
                is None ==> #[trigger] rows_of(&r.cells)[i][j] == Some(rows_of(&grid)[i][j]),
{
    let ghost g = rows_of(&grid);
    let ghost s = initial(g, seeds@);
    let mut engine = Engine::new(grid, seeds, discipline);
    loop
        invariant
            engine.wf(),
            engine.board() == g,
            engine.start@ == s,
        ensures
            engine.wf(),
            engine.board() == g,
            engine.start@ == s,
            engine.queued().len() == 0,
        decreases engine.measure(),
    {
        if !engine.step() {
            break;
        }
    }
    proof {
        lemma_running_done(g, s, engine.marks(), engine.queued(), engine.cost as int);
    }
    let unresolved = unresolved_cells(&engine.stable);
    proof {
        assert forall|i: int, j: int|
            in_grid(g, i, j) && family_of(g[i][j]) is None && seed_at(seeds@, i, j) is None implies #[trigger] engine.marks()[i][j]
                == Some(g[i][j]) by {
            assert(s[i][j] == Some(g[i][j]));
        }
    }
    Resolution { cells: engine.stable, cost: engine.cost, unresolved }
}

proof fn lemma_running_holes(g: Board, s: Marks, m: Marks, q: Seq<(usize, usize)>, cost: int)
    requires
        running(g, s, m, q, cost),
    ensures
        0 <= holes(m),
{
    reveal(running);
    lemma_holes_bounds(m, g);
}

/// An empty worklist leaves the outcome of propagation.
proof fn lemma_running_done(g: Board, s: Marks, m: Marks, q: Seq<(usize, usize)>, cost: int)
    requires
        running(g, s, m, q, cost),
        q.len() == 0,
    ensures
        outcome(g, s, m),
        cost == total_cost(g, s, m),
{
    reveal(running);
    assert forall|i: int, j: int| in_grid(g, i, j) && (#[trigger] m[i][j]) is None implies resolved(
        g[i][j],
        around(m, i, j),
    ) is None by {
        assert(!q.contains((i as usize, j as usize)));
    }
}

/// The cells of `cells` that are not resolved, row by row.
pub fn unresolved_cells(cells: &Vec<Vec<Option<char>>>) -> (r: Vec<(usize, usize)>)
    ensures
        lists_unresolved(rows_of(cells), r@),
{
    let ghost m = rows_of(cells);
    let mut r: Vec<(usize, usize)> = Vec::new();
    let mut i: usize = 0;
    while i < cells.len()
        invariant
            i <= cells.len(),
            m == rows_of(cells),
            forall|k: int|
                0 <= k < r@.len() ==> in_grid(m, (#[trigger] r@[k]).0 as int, r@[k].1 as int)
                    && m[r@[k].0 as int][r@[k].1 as int] is None,
            forall|a: int, b: int|
                0 <= a < i && in_grid(m, a, b) && (#[trigger] m[a][b]) is None ==> r@.contains(
                    (a as usize, b as usize),
                ),
        decreases cells.len() - i,
    {
        let mut j: usize = 0;
        while j < cells[i].len()
            invariant
                i < cells.len(),
                j <= m[i as int].len(),
                m == rows_of(cells),
                forall|k: int|
                    0 <= k < r@.len() ==> in_grid(m, (#[trigger] r@[k]).0 as int, r@[k].1 as int)
                        && m[r@[k].0 as int][r@[k].1 as int] is None,
                forall|a: int, b: int|
                    (0 <= a < i || (a == i && 0 <= b < j)) && in_grid(m, a, b) && (#[trigger] m[a][b])
                        is None ==> r@.contains((a as usize, b as usize)),
            decreases m[i as int].len() - j,
        {
            if cells[i][j].is_none() {
                let ghost before = r@;
                r.push((i, j));
                proof {
                    assert forall|a: int, b: int|
                        (0 <= a < i || (a == i && 0 <= b < j)) && in_grid(m, a, b) && (
                        #[trigger] m[a][b]) is None implies r@.contains((a as usize, b as usize)) by {
                        let k = choose|k: int| 0 <= k < before.len() && before[k] == (a as usize, b as usize);
                        assert(r@[k] == (a as usize, b as usize));
                    }
                    assert(r@[before.len() as int] == (i, j));
                }
            }
            j += 1;
        }
        i += 1;
    }
    r
}

/// Whatever order the worklist is worked in, two runs on the same grid and
/// seeds end with the same store and the same total cost, provided the grid
/// has a solution the resolver agrees with that keeps the seeds.
pub proof fn lemma_order_independent(g: Board, seeds: Seq<Seed>, sol: Marks, a: Resolution, b: Resolution)
    requires
        solution(g, sol),
        extends(initial(g, seeds), sol),
        run_result(g, seeds, a),
        run_result(g, seeds, b),
    ensures
        rows_of(&a.cells) == rows_of(&b.cells),
        a.cost == b.cost,
{
    let s = initial(g, seeds);
    let ma = rows_of(&a.cells);
    let mb = rows_of(&b.cells);
    lemma_below_solution(g, s, sol, ma);
    lemma_below_solution(g, s, sol, mb);
    reveal(least);
    assert(extends(mb, sol));
    assert(extends(ma, mb));
    assert(extends(ma, sol));
    assert(extends(mb, ma));
    lemma_extends_antisym(ma, mb);
}

/// The outcome of a run lies below every solution that keeps the start.
pub proof fn lemma_below_solution(g: Board, s: Marks, sol: Marks, m: Marks)
    requires
        solution(g, sol),
        extends(s, sol),
        outcome(g, s, m),
    ensures
        extends(m, sol),
{
    reveal(least);
    lemma_extends_refl(sol);
    assert(closed(g, sol));
    assert(extends(sol, sol));
}

/// An anchor that is not a seed ends a run holding its own glyph, and adds
/// nothing to the total cost.
pub proof fn lemma_anchor_unaffected(g: Board, seeds: Seq<Seed>, r: Resolution, i: int, j: int)
    requires
        run_result(g, seeds, r),
        in_grid(g, i, j),
        family_of(g[i][j]) is None,
        seed_at(seeds, i, j) is None,
    ensures
        rows_of(&r.cells)[i][j] == Some(g[i][j]),
        cell_cost(g[i][j], initial(g, seeds)[i][j], rows_of(&r.cells)[i][j]) == 0,
{
    let s = initial(g, seeds);
    assert(s[i][j] == Some(g[i][j]));
}

/// Running the resolver again on a cell the engine resolved, with the
/// neighbours of the final store, gives back the glyph the cell holds, both
/// from its drawn glyph and from the resolved one, provided the grid has a
/// solution the resolver agrees with that keeps the seeds.
pub proof fn lemma_resolution_idempotent(g: Board, seeds: Seq<Seed>, sol: Marks, r: Resolution, i: int, j: int)
    requires
        solution(g, sol),
        extends(initial(g, seeds), sol),
        run_result(g, seeds, r),
        in_grid(g, i, j),
        initial(g, seeds)[i][j] is None,
        rows_of(&r.cells)[i][j] is Some,
    ensures
        resolved(g[i][j], around(rows_of(&r.cells), i, j)) == rows_of(&r.cells)[i][j],
        resolved(rows_of(&r.cells)[i][j].unwrap(), around(rows_of(&r.cells), i, j)) == rows_of(
            &r.cells,
        )[i][j],
{
    let s = initial(g, seeds);
    let m = rows_of(&r.cells);
    lemma_below_solution(g, s, sol, m);
    reveal(justified);
    assert(resolved(g[i][j], around(m, i, j)) is Some);
    lemma_extends_around(m, sol, i, j);
    assert(resolved(g[i][j], around(m, i, j)) == sol[i][j]);
    assert(sol[i][j] == m[i][j]);
    lemma_resolve_idempotent(g[i][j], around(m, i, j));
}

/// Each unresolved cell other than `(x, y)` is either waiting in `q` or
/// cannot be decided yet.
pub open spec fn waiting_but(g: Board, m: Marks, q: Seq<(usize, usize)>, x: int, y: int) -> bool {
    forall|i: int, j: int|
        in_grid(g, i, j) && (#[trigger] m[i][j]) is None && !(i == x && j == y) ==> q.contains(
            (i as usize, j as usize),
        ) || resolved(g[i][j], around(m, i, j)) is None
}

/// Recording a cell the resolver decides keeps the store justified and below
/// every closed store between the start and a solution.
proof fn lemma_resolve_keeps(g: Board, s: Marks, m: Marks, x: int, y: int, r: char)
    requires
        shaped(s, g),
        shaped(m, g),
        extends(s, m),
        in_grid(g, x, y),
        m[x][y] is None,
        s[x][y] is None,
        resolved(g[x][y], around(m, x, y)) == Some(r),
        justified(g, s, m),
        least(g, s, m),
    ensures
        justified(g, s, set_mark(m, x, y, Some(r))),
        least(g, s, set_mark(m, x, y, Some(r))),
{
    reveal(least);
    reveal(justified);
    let mm = set_mark(m, x, y, Some(r));
    lemma_set_extends(m, x, y, r);
    reveal(mark_at);
    assert(around(mm, x, y) == around(m, x, y));
    assert forall|i: int, j: int|
        in_grid(g, i, j) && s[i][j] is None && (#[trigger] mm[i][j]) is Some implies resolved(
        g[i][j],
        around(mm, i, j),
    ) is Some by {
        if !(i == x && j == y) {
            assert(m[i][j] == mm[i][j]);
            lemma_extends_around(m, mm, i, j);
            lemma_resolved_monotone(g[i][j], around(m, i, j), around(mm, i, j));
        }
    }
    assert forall|sol: Marks, c: Marks|
        solution(g, sol) && extends(s, sol) && closed(g, c) && extends(s, c) && #[trigger] extends(
            c,
            sol,
        ) implies extends(mm, c) by {
        assert(extends(m, c));
        lemma_extends_around(m, c, x, y);
        lemma_resolved_monotone(g[x][y], around(m, x, y), around(c, x, y));
        assert(c[x][y] is Some);
        assert(c[x][y] == sol[x][y]);
        lemma_extends_trans(m, c, sol);
        lemma_extends_around(m, sol, x, y);
        assert(knows_less(around(m, x, y), around(sol, x, y)));
        assert(Some(r) == sol[x][y]);
        assert forall|i: int, j: int| in_grid(mm, i, j) && (#[trigger] mm[i][j]) is Some implies c[i][j]
            == mm[i][j] by {
            if !(i == x && j == y) {
                assert(m[i][j] == mm[i][j]);
            }
        }
    }
}

/// After a cell is resolved and its unresolved neighbours are put back on the
/// worklist, every unresolved cell is again waiting or undecidable.
proof fn lemma_requeued(
    g: Board,
    m: Marks,
    x: int,
    y: int,
    r: char,
    popped: Seq<(usize, usize)>,
    added: Seq<(usize, usize)>,
)
    requires
        shaped(m, g),
        in_grid(g, x, y),
        all_in_grid(g, popped),
        waiting_but(g, m, popped, x, y),
        forall|a: int, b: int|
            adjacent(set_mark(m, x, y, Some(r)), x, y, a, b) && (#[trigger] set_mark(
                m,
                x,
                y,
                Some(r),
            )[a][b]) is None ==> added.contains((a as usize, b as usize)),
        forall|k: int|
            0 <= k < added.len() ==> {
                let (a, b) = #[trigger] added[k];
                adjacent(set_mark(m, x, y, Some(r)), x, y, a as int, b as int)
            },
    ensures
        waiting(g, set_mark(m, x, y, Some(r)), popped + added),
        all_in_grid(g, popped + added),
{
    let mm = set_mark(m, x, y, Some(r));
    let q = popped + added;
    assert forall|k: int| 0 <= k < q.len() implies in_grid(g, (#[trigger] q[k]).0 as int, q[k].1 as int) by {
        if k >= popped.len() {
            assert(added[k - popped.len()] == q[k]);
        }
    }
    assert forall|i: int, j: int|
        in_grid(g, i, j) && (#[trigger] mm[i][j]) is None implies q.contains((i as usize, j as usize))
            || resolved(g[i][j], around(mm, i, j)) is None by {
        assert(!(i == x && j == y));
        assert(m[i][j] == mm[i][j]);
        if adjacent(mm, x, y, i, j) {
            let k = choose|k: int| 0 <= k < added.len() && added[k] == (i as usize, j as usize);
            assert(q[popped.len() + k] == (i as usize, j as usize));
        } else {
            reveal(mark_at);
            assert(around(mm, i, j) == around(m, i, j));
            if popped.contains((i as usize, j as usize)) {
                let k = choose|k: int| 0 <= k < popped.len() && popped[k] == (i as usize, j as usize);
                assert(q[k] == (i as usize, j as usize));
            }
        }
    }
}

/// A store costs nothing against itself.
pub proof fn lemma_cost_of_nothing(g: Board, s: Marks)
    requires
        shaped(s, g),
    ensures
        total_cost(g, s, s) == 0,
{
    lemma_rows_cost_nothing(g, s, g.len() as int);
}

proof fn lemma_row_cost_nothing(g: Seq<char>, s: Seq<Option<char>>, k: int)
    requires
        0 <= k <= g.len(),
        s.len() == g.len(),
    ensures
        row_cost(g, s, s, k) == 0,
    decreases k,
{
    if k > 0 {
        lemma_row_cost_nothing(g, s, k - 1);
    }
}

proof fn lemma_rows_cost_nothing(g: Board, s: Marks, k: int)
    requires
        shaped(s, g),
        0 <= k <= g.len(),
    ensures
        rows_cost(g, s, s, k) == 0,
    decreases k,
{
    if k > 0 {
        lemma_rows_cost_nothing(g, s, k - 1);
        lemma_row_cost_nothing(g[k - 1], s[k - 1], g[k - 1].len() as int);
    }
}

} // verus!
