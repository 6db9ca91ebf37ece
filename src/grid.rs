//! The grid of drawn glyphs and the store of resolved ones, with the
//! mathematical model the engine's contracts are stated over.
use vstd::prelude::*;

use crate::resolver::{Neighbours, knows_less, resolved};
use crate::symbols::{family, family_of, rotation_cost};

verus! {

/// The drawn glyphs, row by row; rows may differ in length.
pub type Board = Seq<Seq<char>>;

/// What is known of each cell of a board: `Some` once it is resolved.
pub type Marks = Seq<Seq<Option<char>>>;

/// A cell fixed before propagation starts, with the glyph given to it.
#[derive(Clone, Copy, Debug, PartialEq, Eq, Structural)]
pub struct Seed {
    pub row: usize,
    pub col: usize,
    pub symbol: char,
}

/// The rows of a nested vector, each as a sequence.
pub open spec fn rows_of<T>(v: &Vec<Vec<T>>) -> Seq<Seq<T>> {
    v@.map_values(|r: Vec<T>| r@)
}

pub open spec fn in_grid<T>(g: Seq<Seq<T>>, i: int, j: int) -> bool {
    0 <= i < g.len() && 0 <= j < g[i].len()
}

/// The mark of cell `(i, j)`, and `None` off the board.
#[verifier::opaque]
pub open spec fn mark_at(m: Marks, i: int, j: int) -> Option<char> {
    if in_grid(m, i, j) {
        m[i][j]
    } else {
        None
    }
}

/// `m` has a cell for each cell of `g` and no other.
pub open spec fn shaped(m: Marks, g: Board) -> bool {
    &&& m.len() == g.len()
    &&& forall|i: int| 0 <= i < g.len() ==> #[trigger] m[i].len() == g[i].len()
}

/// What `m` knows of the four neighbours of `(i, j)`.
pub open spec fn around(m: Marks, i: int, j: int) -> Neighbours {
    Neighbours {
        up: mark_at(m, i - 1, j),
        down: mark_at(m, i + 1, j),
        left: mark_at(m, i, j - 1),
        right: mark_at(m, i, j + 1),
    }
}

/// `b` keeps every mark of `a`: it has the same shape, and agrees with `a`
/// wherever `a` has resolved a cell.
pub open spec fn extends(a: Marks, b: Marks) -> bool {
    &&& a.len() == b.len()
    &&& forall|i: int| 0 <= i < a.len() ==> #[trigger] a[i].len() == b[i].len()
    &&& forall|i: int, j: int| in_grid(a, i, j) && (#[trigger] a[i][j]) is Some ==> b[i][j] == a[i][j]
}

/// No unresolved cell of `m` can be resolved from what `m` knows.
pub open spec fn closed(g: Board, m: Marks) -> bool {
    forall|i: int, j: int|
        in_grid(g, i, j) && (#[trigger] m[i][j]) is None ==> resolved(g[i][j], around(m, i, j)) is None
}

/// The seed given to `(i, j)`, the last one where several name it.
pub open spec fn seed_at(seeds: Seq<Seed>, i: int, j: int) -> Option<char>
    decreases seeds.len(),
{
    if seeds.len() == 0 {
        None
    } else if seeds.last().row == i && seeds.last().col == j {
        Some(seeds.last().symbol)
    } else {
        seed_at(seeds.drop_last(), i, j)
    }
}

/// The mark a cell starts with: its seed if it has one, itself if it is an
/// anchor, and unresolved otherwise.
pub open spec fn start_mark(g: Board, seeds: Seq<Seed>, i: int, j: int) -> Option<char> {
    match seed_at(seeds, i, j) {
        Some(c) => Some(c),
        None => if family_of(g[i][j]) is None {
            Some(g[i][j])
        } else {
            None
        },
    }
}

/// The store before propagation: every anchor, and the seeds.
pub open spec fn initial(g: Board, seeds: Seq<Seed>) -> Marks {
    Seq::new(g.len(), |i: int| Seq::new(g[i].len(), |j: int| start_mark(g, seeds, i, j)))
}

pub open spec fn seeds_in_grid(g: Board, seeds: Seq<Seed>) -> bool {
    forall|k: int| 0 <= k < seeds.len() ==> in_grid(g, seeds[k].row as int, #[trigger] seeds[k].col as int)
}

/// What one cell adds to the total: the rotation from its drawn glyph to
/// the one the engine resolved it to; nothing for a cell that was resolved
/// from the start or is still unresolved.
pub open spec fn cell_cost(orig: char, start: Option<char>, now: Option<char>) -> int {
    match (start, now) {
        (None, Some(r)) => rotation_cost(orig, r),
        _ => 0,
    }
}

pub open spec fn row_cost(g: Seq<char>, s: Seq<Option<char>>, m: Seq<Option<char>>, k: int) -> int
    decreases k,
{
    if k <= 0 {
        0
    } else {
        row_cost(g, s, m, k - 1) + cell_cost(g[k - 1], s[k - 1], m[k - 1])
    }
}

pub open spec fn rows_cost(g: Board, s: Marks, m: Marks, k: int) -> int
    decreases k,
{
    if k <= 0 {
        0
    } else {
        rows_cost(g, s, m, k - 1) + row_cost(g[k - 1], s[k - 1], m[k - 1], g[k - 1].len() as int)
    }
}

/// The total rotation cost of the cells resolved in `m` that were not
/// resolved in `s`.
pub open spec fn total_cost(g: Board, s: Marks, m: Marks) -> int {
    rows_cost(g, s, m, g.len() as int)
}

pub open spec fn row_holes(m: Seq<Option<char>>, k: int) -> int
    decreases k,
{
    if k <= 0 {
        0
    } else {
        row_holes(m, k - 1) + if m[k - 1] is None {
            1int
        } else {
            0
        }
    }
}

pub open spec fn rows_holes(m: Marks, k: int) -> int
    decreases k,
{
    if k <= 0 {
        0
    } else {
        rows_holes(m, k - 1) + row_holes(m[k - 1], m[k - 1].len() as int)
    }
}

/// The number of unresolved cells.
pub open spec fn holes(m: Marks) -> int {
    rows_holes(m, m.len() as int)
}

pub open spec fn rows_size<T>(g: Seq<Seq<T>>, k: int) -> int
    decreases k,
{
    if k <= 0 {
        0
    } else {
        rows_size(g, k - 1) + g[k - 1].len()
    }
}

/// The number of cells.
pub open spec fn size<T>(g: Seq<Seq<T>>) -> int {
    rows_size(g, g.len() as int)
}

/// `m` with cell `(i, j)` set to `x`.
pub open spec fn set_mark(m: Marks, i: int, j: int, x: Option<char>) -> Marks {
    m.update(i, m[i].update(j, x))
}

pub proof fn lemma_extends_refl(a: Marks)
    ensures
        extends(a, a),
{
}

pub proof fn lemma_extends_trans(a: Marks, b: Marks, c: Marks)
    requires
        extends(a, b),
        extends(b, c),
    ensures
        extends(a, c),
{
    assert forall|i: int, j: int| in_grid(a, i, j) && (#[trigger] a[i][j]) is Some implies c[i][j]
        == a[i][j] by {
        assert(b[i][j] == a[i][j]);
    }
}

/// Cells that agree everywhere both are resolved, in both directions, are
/// equal.
pub proof fn lemma_extends_antisym(a: Marks, b: Marks)
    requires
        extends(a, b),
        extends(b, a),
    ensures
        a == b,
{
    assert forall|i: int| 0 <= i < a.len() implies a[i] == b[i] by {
        assert forall|j: int| 0 <= j < a[i].len() implies a[i][j] == b[i][j] by {
            if a[i][j] is None && b[i][j] is Some {
                assert(in_grid(b, i, j));
            }
        }
        assert(a[i] =~= b[i]);
    }
    assert(a =~= b);
}

/// A store that extends another knows at least as much of every cell's
/// neighbours.
pub proof fn lemma_extends_around(a: Marks, b: Marks, i: int, j: int)
    requires
        extends(a, b),
    ensures
        knows_less(around(a, i, j), around(b, i, j)),
{
    reveal(mark_at);
    assert(in_grid(a, i - 1, j) ==> in_grid(b, i - 1, j));
    assert(in_grid(a, i + 1, j) ==> in_grid(b, i + 1, j));
    assert(in_grid(a, i, j - 1) ==> in_grid(b, i, j - 1));
    assert(in_grid(a, i, j + 1) ==> in_grid(b, i, j + 1));
}

/// Resolving one more cell extends the store.
pub proof fn lemma_set_extends(m: Marks, i: int, j: int, x: char)
    requires
        in_grid(m, i, j),
        m[i][j] is None,
    ensures
        extends(m, set_mark(m, i, j, Some(x))),
{
}

pub proof fn lemma_row_cost_set(
    g: Seq<char>,
    s: Seq<Option<char>>,
    m: Seq<Option<char>>,
    j: int,
    x: Option<char>,
    k: int,
)
    requires
        0 <= j < g.len(),
        s.len() == g.len(),
        m.len() == g.len(),
        0 <= k <= g.len(),
    ensures
        row_cost(g, s, m.update(j, x), k) == row_cost(g, s, m, k) + if j < k {
            cell_cost(g[j], s[j], x) - cell_cost(g[j], s[j], m[j])
        } else {
            0
        },
    decreases k,
{
    if k > 0 {
        lemma_row_cost_set(g, s, m, j, x, k - 1);
    }
}

pub proof fn lemma_rows_cost_set(g: Board, s: Marks, m: Marks, i: int, j: int, x: Option<char>, k: int)
    requires
        shaped(s, g),
        shaped(m, g),
        in_grid(g, i, j),
        0 <= k <= g.len(),
    ensures
        rows_cost(g, s, set_mark(m, i, j, x), k) == rows_cost(g, s, m, k) + if i < k {
            cell_cost(g[i][j], s[i][j], x) - cell_cost(g[i][j], s[i][j], m[i][j])
        } else {
            0
        },
    decreases k,
{
    if k > 0 {
        lemma_rows_cost_set(g, s, m, i, j, x, k - 1);
        if k - 1 == i {
            lemma_row_cost_set(g[i], s[i], m[i], j, x, g[i].len() as int);
        } else {
            assert(set_mark(m, i, j, x)[k - 1] == m[k - 1]);
        }
    }
}

pub proof fn lemma_row_holes_set(m: Seq<Option<char>>, j: int, x: Option<char>, k: int)
    requires
        0 <= j < m.len(),
        0 <= k <= m.len(),
    ensures
        row_holes(m.update(j, x), k) == row_holes(m, k) + if j < k {
            (if x is None {
                1int
            } else {
                0
            }) - (if m[j] is None {
                1int
            } else {
                0
            })
        } else {
            0
        },
    decreases k,
{
    if k > 0 {
        lemma_row_holes_set(m, j, x, k - 1);
    }
}

pub proof fn lemma_rows_holes_set(m: Marks, i: int, j: int, x: Option<char>, k: int)
    requires
        in_grid(m, i, j),
        0 <= k <= m.len(),
    ensures
        rows_holes(set_mark(m, i, j, x), k) == rows_holes(m, k) + if i < k {
            (if x is None {
                1int
            } else {
                0
            }) - (if m[i][j] is None {
                1int
            } else {
                0
            })
        } else {
            0
        },
    decreases k,
{
    if k > 0 {
        lemma_rows_holes_set(m, i, j, x, k - 1);
        if k - 1 == i {
            lemma_row_holes_set(m[i], j, x, m[i].len() as int);
        } else {
            assert(set_mark(m, i, j, x)[k - 1] == m[k - 1]);
        }
    }
}

/// Resolving an unresolved cell removes one hole and adds that cell's cost.
pub proof fn lemma_resolve_one(g: Board, s: Marks, m: Marks, i: int, j: int, x: char)
    requires
        shaped(s, g),
        shaped(m, g),
        in_grid(g, i, j),
        m[i][j] is None,
        s[i][j] is None,
    ensures
        holes(set_mark(m, i, j, Some(x))) == holes(m) - 1,
        total_cost(g, s, set_mark(m, i, j, Some(x))) == total_cost(g, s, m) + rotation_cost(
            g[i][j],
            x,
        ),
{
    lemma_rows_holes_set(m, i, j, Some(x), m.len() as int);
    lemma_rows_cost_set(g, s, m, i, j, Some(x), g.len() as int);
}

pub proof fn lemma_row_holes_bounds(m: Seq<Option<char>>, k: int)
    requires
        0 <= k <= m.len(),
    ensures
        0 <= row_holes(m, k) <= k,
    decreases k,
{
    if k > 0 {
        lemma_row_holes_bounds(m, k - 1);
    }
}

pub proof fn lemma_rows_holes_bounds(m: Marks, k: int)
    requires
        0 <= k <= m.len(),
    ensures
        0 <= rows_holes(m, k) <= rows_size(m, k),
    decreases k,
{
    if k > 0 {
        lemma_rows_holes_bounds(m, k - 1);
        lemma_row_holes_bounds(m[k - 1], m[k - 1].len() as int);
    }
}

pub proof fn lemma_rows_size_shaped(m: Marks, g: Board, k: int)
    requires
        shaped(m, g),
        0 <= k <= g.len(),
    ensures
        rows_size(m, k) == rows_size(g, k),
    decreases k,
{
    if k > 0 {
        lemma_rows_size_shaped(m, g, k - 1);
    }
}

/// A store shaped like `g` has between none and all of `g`'s cells
/// unresolved.
pub proof fn lemma_holes_bounds(m: Marks, g: Board)
    requires
        shaped(m, g),
    ensures
        0 <= holes(m) <= size(g),
{
    lemma_rows_holes_bounds(m, m.len() as int);
    lemma_rows_size_shaped(m, g, g.len() as int);
}

/// The mark of a cell of the store; `None` when the cell is unresolved or lies
/// off the grid.
pub fn get_cell(position: (usize, usize), cells: &Vec<Vec<Option<char>>>) -> (r: Option<char>)
    ensures
        r == mark_at(rows_of(cells), position.0 as int, position.1 as int),
        in_grid(rows_of(cells), position.0 as int, position.1 as int) ==> r == rows_of(
            cells,
        )[position.0 as int][position.1 as int],
{
    proof {
        reveal(mark_at);
    }
    if position.0 < cells.len() && position.1 < cells[position.0].len() {
        cells[position.0][position.1]
    } else {
        None
    }
}

/// The glyph drawn in a cell of the grid; `None` off the grid.
pub fn glyph_at(position: (usize, usize), grid: &Vec<Vec<char>>) -> (r: Option<char>)
    ensures
        r is Some <==> in_grid(rows_of(grid), position.0 as int, position.1 as int),
        r is Some ==> r.unwrap() == rows_of(grid)[position.0 as int][position.1 as int],
{
    if position.0 < grid.len() && position.1 < grid[position.0].len() {
        Some(grid[position.0][position.1])
    } else {
        None
    }
}

/// What the store knows of the four neighbours of `position`.
pub fn find_stable_neighbours(position: (usize, usize), stable_cells: &Vec<Vec<Option<char>>>) -> (r:
    Neighbours)
    ensures
        r == around(rows_of(stable_cells), position.0 as int, position.1 as int),
{
    let (i, j) = position;
    let up = if i > 0 {
        get_cell((i - 1, j), stable_cells)
    } else {
        None
    };
    let down = if i < stable_cells.len() {
        get_cell((i + 1, j), stable_cells)
    } else {
        None
    };
    let left = if j > 0 {
        get_cell((i, j - 1), stable_cells)
    } else {
        None
    };
    let right = if i < stable_cells.len() && j < stable_cells[i].len() {
        get_cell((i, j + 1), stable_cells)
    } else {
        None
    };
    proof {
        reveal(mark_at);
        let m = rows_of(stable_cells);
        assert(i as int >= m.len() ==> !in_grid(m, i + 1, j as int));
        assert(!in_grid(m, i as int, j as int) ==> !in_grid(m, i as int, j + 1));
    }
    Neighbours { up, down, left, right }
}

/// The four cells beside `(i, j)`, whichever lie on the board.
pub open spec fn adjacent(m: Marks, i: int, j: int, a: int, b: int) -> bool {
    &&& in_grid(m, a, b)
    &&& ((a == i - 1 && b == j) || (a == i + 1 && b == j) || (a == i && b == j - 1) || (a == i && b
        == j + 1))
}

/// The cells beside `position` that lie on the grid and are not resolved yet.
pub fn find_unstable_neighbours(position: (usize, usize), stable_cells: &Vec<Vec<Option<char>>>) -> (r:
    Vec<(usize, usize)>)
    ensures
        r.len() <= 4,
        forall|k: int|
            0 <= k < r.len() ==> {
                let (a, b) = #[trigger] r@[k];
                adjacent(rows_of(stable_cells), position.0 as int, position.1 as int, a as int, b as int)
                    && rows_of(stable_cells)[a as int][b as int] is None
            },
        forall|a: int, b: int|
            adjacent(rows_of(stable_cells), position.0 as int, position.1 as int, a, b) && (
            #[trigger] rows_of(stable_cells)[a][b]) is None ==> r@.contains((a as usize, b as usize)),
{
    let ghost m = rows_of(stable_cells);
    let (i, j) = position;
    let mut r: Vec<(usize, usize)> = Vec::new();
    let ghost mut at: Seq<int> = seq![-1int, -1int, -1int, -1int];
    if i > 0 && i - 1 < stable_cells.len() && j < stable_cells[i - 1].len() && stable_cells[i
        - 1][j].is_none() {
        proof { at = at.update(0, r.len() as int); }
        r.push((i - 1, j));
    }
    if i < usize::MAX && i + 1 < stable_cells.len() && j < stable_cells[i + 1].len()
        && stable_cells[i + 1][j].is_none() {
        proof { at = at.update(1, r.len() as int); }
        r.push((i + 1, j));
    }
    if j > 0 && i < stable_cells.len() && j - 1 < stable_cells[i].len() && stable_cells[i][j
        - 1].is_none() {
        proof { at = at.update(2, r.len() as int); }
        r.push((i, j - 1));
    }
    if j < usize::MAX && i < stable_cells.len() && j + 1 < stable_cells[i].len()
        && stable_cells[i][j + 1].is_none() {
        proof { at = at.update(3, r.len() as int); }
        r.push((i, j + 1));
    }
    proof {
        assert forall|a: int, b: int|
            adjacent(m, i as int, j as int, a, b) && (#[trigger] m[a][b]) is None implies r@.contains(
            (a as usize, b as usize),
        ) by {
            if a == i - 1 && b == j {
                assert(r@[at[0]] == (a as usize, b as usize));
            } else if a == i + 1 && b == j {
                assert(r@[at[1]] == (a as usize, b as usize));
            } else if a == i && b == j - 1 {
                assert(r@[at[2]] == (a as usize, b as usize));
            } else {
                assert(r@[at[3]] == (a as usize, b as usize));
            }
        }
    }
    r
}

/// The store before propagation: each anchor of `grid` resolved to itself,
/// then each seed, in order, set on its cell.
pub fn initial_cells(grid: &Vec<Vec<char>>, seeds: &Vec<Seed>) -> (r: Vec<Vec<Option<char>>>)
    requires
        seeds_in_grid(rows_of(grid), seeds@),
    ensures
        rows_of(&r) == initial(rows_of(grid), seeds@),
{
    let ghost g = rows_of(grid);
    let mut cells: Vec<Vec<Option<char>>> = Vec::new();
    let mut i: usize = 0;
    while i < grid.len()
        invariant
            i <= grid.len(),
            g == rows_of(grid),
            cells.len() == i,
            forall|a: int| 0 <= a < i ==> #[trigger] rows_of(&cells)[a] == initial(g, seq![])[a],
        decreases grid.len() - i,
    {
        let row = &grid[i];
        let mut marks: Vec<Option<char>> = Vec::new();
        let mut j: usize = 0;
        while j < row.len()
            invariant
                j <= row.len(),
                row@ == g[i as int],
                i < g.len(),
                marks.len() == j,
                forall|b: int| 0 <= b < j ==> #[trigger] marks@[b] == initial(g, seq![])[i as int][b],
            decreases row.len() - j,
        {
            let c = row[j];
            if family(c).is_none() {
                marks.push(Some(c));
            } else {
                marks.push(None);
            }
            j += 1;
        }
        assert(marks@ =~= initial(g, seq![])[i as int]);
        let ghost before = rows_of(&cells);
        cells.push(marks);
        assert(rows_of(&cells) =~= before.push(marks@));
        i += 1;
    }
    assert(rows_of(&cells) =~= initial(g, seq![]));
    assert(seeds@.take(0) =~= seq![]);
    let mut k: usize = 0;
    while k < seeds.len()
        invariant
            k <= seeds.len(),
            g == rows_of(grid),
            seeds_in_grid(g, seeds@),
            cells.len() == g.len(),
            rows_of(&cells) == initial(g, seeds@.take(k as int)),
        decreases seeds.len() - k,
    {
        let s = seeds[k];
        let ghost before = rows_of(&cells);
        assert(in_grid(g, s.row as int, s.col as int));
        let mut row = cells[s.row].clone();
        assert(row@ =~= before[s.row as int]);
        row.set(s.col, Some(s.symbol));
        cells.set(s.row, row);
        proof {
            let after = initial(g, seeds@.take(k + 1));
            assert(seeds@.take(k + 1).drop_last() =~= seeds@.take(k as int));
            assert(seeds@.take(k + 1).last() == s);
            assert forall|a: int| 0 <= a < g.len() implies #[trigger] rows_of(&cells)[a] == after[a] by {
                assert forall|b: int| 0 <= b < g[a].len() implies rows_of(&cells)[a][b] == after[a][b] by {
                    assert(after[a][b] == start_mark(g, seeds@.take(k + 1), a, b));
                    assert(before[a][b] == start_mark(g, seeds@.take(k as int), a, b));
                }
                assert(before[a].len() == g[a].len());
                assert(rows_of(&cells)[a].len() == after[a].len());
                assert(rows_of(&cells)[a] =~= after[a]);
            }
            assert(rows_of(&cells) =~= after);
        }
        k += 1;
    }
    assert(seeds@.take(seeds.len() as int) =~= seeds@);
    cells
}

} // verus!
