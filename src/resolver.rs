//! The resolver: from a cell's drawn glyph and what is known of its four
//! neighbours, the one variant of its rotation group that the evidence
//! forces, if any.
use vstd::prelude::*;

use crate::symbols::{
    Dir, Family, Shape, Weight, family, family_of, has_stub, is_connector_glyph, other, stub,
};

verus! {

/// What is known of the four neighbours of a cell; `None` where nothing is
/// known, or where the cell lies on the edge of the grid.
#[derive(Clone, Copy, Debug, PartialEq, Eq, Structural)]
pub struct Neighbours {
    pub up: Option<char>,
    pub down: Option<char>,
    pub left: Option<char>,
    pub right: Option<char>,
}

/// The neighbour is known and shows a stroke of weight `w` on its side `d`.
pub open spec fn shows(n: Option<char>, w: Weight, d: Dir) -> bool {
    match n {
        Some(c) => has_stub(c, w, d),
        None => false,
    }
}

/// The neighbour is known and shows no stroke of weight `w` on its side `d`.
pub open spec fn lacks(n: Option<char>, w: Weight, d: Dir) -> bool {
    match n {
        Some(c) => !has_stub(c, w, d),
        None => false,
    }
}

/// The straight line of weight `w`, upright or lying.
pub open spec fn straight(w: Weight, upright: bool) -> char {
    match (w, upright) {
        (Weight::Single, true) => '│',
        (Weight::Single, false) => '─',
        (Weight::Double, true) => '║',
        (Weight::Double, false) => '═',
    }
}

/// The corner of weight `w` with stubs up (or down) and left (or right).
pub open spec fn corner(w: Weight, up: bool, left: bool) -> char {
    match (w, up, left) {
        (Weight::Single, true, true) => '┘',
        (Weight::Single, true, false) => '└',
        (Weight::Single, false, true) => '┐',
        (Weight::Single, false, false) => '┌',
        (Weight::Double, true, true) => '╝',
        (Weight::Double, true, false) => '╚',
        (Weight::Double, false, true) => '╗',
        (Weight::Double, false, false) => '╔',
    }
}

/// The T-junction of weight `w` with no stub on side `open`.
pub open spec fn tee(w: Weight, open: Dir) -> char {
    match (w, open) {
        (Weight::Single, Dir::Up) => '┬',
        (Weight::Single, Dir::Down) => '┴',
        (Weight::Single, Dir::Left) => '├',
        (Weight::Single, Dir::Right) => '┤',
        (Weight::Double, Dir::Up) => '╦',
        (Weight::Double, Dir::Down) => '╩',
        (Weight::Double, Dir::Left) => '╠',
        (Weight::Double, Dir::Right) => '╣',
    }
}

/// The mixed T-junction whose branch of weight `w` points to side `d`.
pub open spec fn bridge(w: Weight, d: Dir) -> char {
    match (w, d) {
        (Weight::Double, Dir::Up) => '╨',
        (Weight::Double, Dir::Down) => '╥',
        (Weight::Double, Dir::Left) => '╡',
        (Weight::Double, Dir::Right) => '╞',
        (Weight::Single, Dir::Up) => '╧',
        (Weight::Single, Dir::Down) => '╤',
        (Weight::Single, Dir::Left) => '╢',
        (Weight::Single, Dir::Right) => '╟',
    }
}

/// A straight line: a stroke met above or below makes it upright, one met on
/// the left or right makes it lie; failing that, a neighbour above or below
/// that shows no stroke makes it lie, and one on the left or right upright.
pub open spec fn straight_choice(w: Weight, n: Neighbours) -> Option<char> {
    if shows(n.up, w, Dir::Down) || shows(n.down, w, Dir::Up) {
        Some(straight(w, true))
    } else if shows(n.left, w, Dir::Right) || shows(n.right, w, Dir::Left) {
        Some(straight(w, false))
    } else if lacks(n.up, w, Dir::Down) || lacks(n.down, w, Dir::Up) {
        Some(straight(w, false))
    } else if lacks(n.left, w, Dir::Right) || lacks(n.right, w, Dir::Left) {
        Some(straight(w, true))
    } else {
        None
    }
}

/// A mixed T-junction whose branch has weight `w`: a stroke of weight `w` met
/// on a side points the branch there; failing that, a through stroke met above
/// or below, together with a left (right) neighbour showing no stroke of
/// weight `w`, points the branch right (left).
pub open spec fn bridge_choice(w: Weight, n: Neighbours) -> Option<char> {
    let m = other(w);
    if shows(n.up, w, Dir::Down) {
        Some(bridge(w, Dir::Up))
    } else if shows(n.down, w, Dir::Up) {
        Some(bridge(w, Dir::Down))
    } else if shows(n.left, w, Dir::Right) {
        Some(bridge(w, Dir::Left))
    } else if shows(n.right, w, Dir::Left) {
        Some(bridge(w, Dir::Right))
    } else if (shows(n.up, m, Dir::Down) || shows(n.down, m, Dir::Up)) && lacks(
        n.left,
        w,
        Dir::Right,
    ) {
        Some(bridge(w, Dir::Right))
    } else if (shows(n.up, m, Dir::Down) || shows(n.down, m, Dir::Up)) && lacks(
        n.right,
        w,
        Dir::Left,
    ) {
        Some(bridge(w, Dir::Left))
    } else {
        None
    }
}

/// A corner of weight `w`: a stroke met above (below) settles the vertical
/// stub, and then a stroke met on one side, or a neighbour showing none on the
/// other, settles the horizontal one; a stroke met on the right (left) with a
/// neighbour showing none above or below settles both.
pub open spec fn corner_choice(w: Weight, n: Neighbours) -> Option<char> {
    if shows(n.up, w, Dir::Down) && shows(n.left, w, Dir::Right) {
        Some(corner(w, true, true))
    } else if shows(n.up, w, Dir::Down) && lacks(n.right, w, Dir::Left) {
        Some(corner(w, true, true))
    } else if shows(n.up, w, Dir::Down) && shows(n.right, w, Dir::Left) {
        Some(corner(w, true, false))
    } else if shows(n.up, w, Dir::Down) && lacks(n.left, w, Dir::Right) {
        Some(corner(w, true, false))
    } else if shows(n.right, w, Dir::Left) && lacks(n.up, w, Dir::Down) {
        Some(corner(w, false, false))
    } else if shows(n.right, w, Dir::Left) && lacks(n.down, w, Dir::Up) {
        Some(corner(w, true, false))
    } else if shows(n.down, w, Dir::Up) && shows(n.left, w, Dir::Right) {
        Some(corner(w, false, true))
    } else if shows(n.down, w, Dir::Up) && lacks(n.right, w, Dir::Left) {
        Some(corner(w, false, true))
    } else if shows(n.down, w, Dir::Up) && shows(n.right, w, Dir::Left) {
        Some(corner(w, false, false))
    } else if shows(n.down, w, Dir::Up) && lacks(n.left, w, Dir::Right) {
        Some(corner(w, false, false))
    } else if shows(n.left, w, Dir::Right) && lacks(n.up, w, Dir::Down) {
        Some(corner(w, false, true))
    } else if shows(n.left, w, Dir::Right) && lacks(n.down, w, Dir::Up) {
        Some(corner(w, true, true))
    } else {
        None
    }
}

/// A T-junction of weight `w`: the first side (up, down, left, right) whose
/// neighbour shows no stroke toward it is the open side.
pub open spec fn tee_choice(w: Weight, n: Neighbours) -> Option<char> {
    if lacks(n.up, w, Dir::Down) {
        Some(tee(w, Dir::Up))
    } else if lacks(n.down, w, Dir::Up) {
        Some(tee(w, Dir::Down))
    } else if lacks(n.left, w, Dir::Right) {
        Some(tee(w, Dir::Left))
    } else if lacks(n.right, w, Dir::Left) {
        Some(tee(w, Dir::Right))
    } else {
        None
    }
}

pub open spec fn family_choice(f: Family, n: Neighbours) -> Option<char> {
    match f.shape {
        Shape::Straight => straight_choice(f.weight, n),
        Shape::Bridge => bridge_choice(f.weight, n),
        Shape::Corner => corner_choice(f.weight, n),
        Shape::Tee => tee_choice(f.weight, n),
    }
}

/// What the resolver makes of glyph `c` given neighbours `n`: an anchor is
/// itself; a connector is the variant its group's rules force, or `None` while
/// the evidence does not settle it.
#[verifier::opaque]
pub open spec fn resolved(c: char, n: Neighbours) -> Option<char> {
    match family_of(c) {
        None => Some(c),
        Some(f) => family_choice(f, n),
    }
}

/// `n` knows no more than `m`: each side is either unknown in `n` or the same
/// in both.
pub open spec fn knows_less(n: Neighbours, m: Neighbours) -> bool {
    &&& (n.up is None || n.up == m.up)
    &&& (n.down is None || n.down == m.down)
    &&& (n.left is None || n.left == m.left)
    &&& (n.right is None || n.right == m.right)
}

/// The resolver keeps a connector in its rotation group.
pub proof fn lemma_resolved_same_family(c: char, n: Neighbours)
    requires
        resolved(c, n) is Some,
    ensures
        family_of(resolved(c, n).unwrap()) == family_of(c),
{
    reveal(resolved);
}

/// The resolver reads only the rotation group of a connector, not which
/// variant it is.
pub proof fn lemma_resolved_by_family(a: char, b: char, n: Neighbours)
    requires
        is_connector_glyph(a),
        family_of(a) == family_of(b),
    ensures
        resolved(a, n) == resolved(b, n),
{
    reveal(resolved);
}

/// Resolving again the symbol the resolver chose, with the same neighbours,
/// gives that symbol back.
pub proof fn lemma_resolve_idempotent(c: char, n: Neighbours)
    requires
        resolved(c, n) is Some,
    ensures
        resolved(resolved(c, n).unwrap(), n) == resolved(c, n),
{
    reveal(resolved);
    lemma_resolved_same_family(c, n);
    if is_connector_glyph(c) {
        lemma_resolved_by_family(c, resolved(c, n).unwrap(), n);
    }
}

/// Learning more about the neighbours never takes a decision back: once the
/// evidence settles a cell, more evidence still settles it.
pub proof fn lemma_resolved_monotone(c: char, n: Neighbours, m: Neighbours)
    requires
        resolved(c, n) is Some,
        knows_less(n, m),
    ensures
        resolved(c, m) is Some,
{
    reveal(resolved);
}

fn shows_exec(n: Option<char>, w: Weight, d: Dir) -> (r: bool)
    ensures
        r == shows(n, w, d),
{
    match n {
        Some(c) => stub(c, w, d),
        None => false,
    }
}

fn lacks_exec(n: Option<char>, w: Weight, d: Dir) -> (r: bool)
    ensures
        r == lacks(n, w, d),
{
    match n {
        Some(c) => !stub(c, w, d),
        None => false,
    }
}

fn other_weight(w: Weight) -> (r: Weight)
    ensures
        r == other(w),
{
    match w {
        Weight::Single => Weight::Double,
        Weight::Double => Weight::Single,
    }
}

fn straight_glyph(w: Weight, upright: bool) -> (r: char)
    ensures
        r == straight(w, upright),
{
    match (w, upright) {
        (Weight::Single, true) => '│',
        (Weight::Single, false) => '─',
        (Weight::Double, true) => '║',
        (Weight::Double, false) => '═',
    }
}

fn corner_glyph(w: Weight, up: bool, left: bool) -> (r: char)
    ensures
        r == corner(w, up, left),
{
    match (w, up, left) {
        (Weight::Single, true, true) => '┘',
        (Weight::Single, true, false) => '└',
        (Weight::Single, false, true) => '┐',
        (Weight::Single, false, false) => '┌',
        (Weight::Double, true, true) => '╝',
        (Weight::Double, true, false) => '╚',
        (Weight::Double, false, true) => '╗',
        (Weight::Double, false, false) => '╔',
    }
}

fn tee_glyph(w: Weight, open: Dir) -> (r: char)
    ensures
        r == tee(w, open),
{
    match (w, open) {
        (Weight::Single, Dir::Up) => '┬',
        (Weight::Single, Dir::Down) => '┴',
        (Weight::Single, Dir::Left) => '├',
        (Weight::Single, Dir::Right) => '┤',
        (Weight::Double, Dir::Up) => '╦',
        (Weight::Double, Dir::Down) => '╩',
        (Weight::Double, Dir::Left) => '╠',
        (Weight::Double, Dir::Right) => '╣',
    }
}

fn bridge_glyph(w: Weight, d: Dir) -> (r: char)
    ensures
        r == bridge(w, d),
{
    match (w, d) {
        (Weight::Double, Dir::Up) => '╨',
        (Weight::Double, Dir::Down) => '╥',
        (Weight::Double, Dir::Left) => '╡',
        (Weight::Double, Dir::Right) => '╞',
        (Weight::Single, Dir::Up) => '╧',
        (Weight::Single, Dir::Down) => '╤',
        (Weight::Single, Dir::Left) => '╢',
        (Weight::Single, Dir::Right) => '╟',
    }
}

fn resolve_straight(w: Weight, n: &Neighbours) -> (r: Option<char>)
    ensures
        r == straight_choice(w, *n),
{
    if shows_exec(n.up, w, Dir::Down) || shows_exec(n.down, w, Dir::Up) {
        Some(straight_glyph(w, true))
    } else if shows_exec(n.left, w, Dir::Right) || shows_exec(n.right, w, Dir::Left) {
        Some(straight_glyph(w, false))
    } else if lacks_exec(n.up, w, Dir::Down) || lacks_exec(n.down, w, Dir::Up) {
        Some(straight_glyph(w, false))
    } else if lacks_exec(n.left, w, Dir::Right) || lacks_exec(n.right, w, Dir::Left) {
        Some(straight_glyph(w, true))
    } else {
        None
    }
}

fn resolve_bridge(w: Weight, n: &Neighbours) -> (r: Option<char>)
    ensures
        r == bridge_choice(w, *n),
{
    let m = other_weight(w);
    let through = shows_exec(n.up, m, Dir::Down) || shows_exec(n.down, m, Dir::Up);
    if shows_exec(n.up, w, Dir::Down) {
        Some(bridge_glyph(w, Dir::Up))
    } else if shows_exec(n.down, w, Dir::Up) {
        Some(bridge_glyph(w, Dir::Down))
    } else if shows_exec(n.left, w, Dir::Right) {
        Some(bridge_glyph(w, Dir::Left))
    } else if shows_exec(n.right, w, Dir::Left) {
        Some(bridge_glyph(w, Dir::Right))
    } else if through && lacks_exec(n.left, w, Dir::Right) {
        Some(bridge_glyph(w, Dir::Right))
    } else if through && lacks_exec(n.right, w, Dir::Left) {
        Some(bridge_glyph(w, Dir::Left))
    } else {
        None
    }
}

fn resolve_corner(w: Weight, n: &Neighbours) -> (r: Option<char>)
    ensures
        r == corner_choice(w, *n),
{
    let up = shows_exec(n.up, w, Dir::Down);
    let down = shows_exec(n.down, w, Dir::Up);
    let left = shows_exec(n.left, w, Dir::Right);
    let right = shows_exec(n.right, w, Dir::Left);
    let no_up = lacks_exec(n.up, w, Dir::Down);
    let no_down = lacks_exec(n.down, w, Dir::Up);
    let no_left = lacks_exec(n.left, w, Dir::Right);
    let no_right = lacks_exec(n.right, w, Dir::Left);
    if up && (left || no_right) {
        Some(corner_glyph(w, true, true))
    } else if up && (right || no_left) {
        Some(corner_glyph(w, true, false))
    } else if right && no_up {
        Some(corner_glyph(w, false, false))
    } else if right && no_down {
        Some(corner_glyph(w, true, false))
    } else if down && (left || no_right) {
        Some(corner_glyph(w, false, true))
    } else if down && (right || no_left) {
        Some(corner_glyph(w, false, false))
    } else if left && no_up {
        Some(corner_glyph(w, false, true))
    } else if left && no_down {
        Some(corner_glyph(w, true, true))
    } else {
        None
    }
}

fn resolve_tee(w: Weight, n: &Neighbours) -> (r: Option<char>)
    ensures
        r == tee_choice(w, *n),
{
    if lacks_exec(n.up, w, Dir::Down) {
        Some(tee_glyph(w, Dir::Up))
    } else if lacks_exec(n.down, w, Dir::Up) {
        Some(tee_glyph(w, Dir::Down))
    } else if lacks_exec(n.left, w, Dir::Right) {
        Some(tee_glyph(w, Dir::Left))
    } else if lacks_exec(n.right, w, Dir::Left) {
        Some(tee_glyph(w, Dir::Right))
    } else {
        None
    }
}

/// Resolves glyph `c` from what is known of its neighbours: an anchor comes
/// back unchanged; a connector comes back as the variant of its rotation group
/// that the evidence forces, or `None` while it is not yet decidable.
pub fn find_stable(c: char, neighbours: &Neighbours) -> (r: Option<char>)
    ensures
        r == resolved(c, *neighbours),
        r is Some ==> family_of(r.unwrap()) == family_of(c),
{
    proof {
        reveal(resolved);
        if resolved(c, *neighbours) is Some {
            lemma_resolved_same_family(c, *neighbours);
        }
    }
    match family(c) {
        None => Some(c),
        Some(f) => match f.shape {
            Shape::Straight => resolve_straight(f.weight, neighbours),
            Shape::Bridge => resolve_bridge(f.weight, neighbours),
            Shape::Corner => resolve_corner(f.weight, neighbours),
            Shape::Tee => resolve_tee(f.weight, neighbours),
        },
    }
}

} // verus!
