//! The box-drawing alphabet: which glyphs are connectors, the rotation group
//! of each connector, and the stubs every glyph shows on its four sides.
use vstd::prelude::*;

verus! {

/// Line weight of a box-drawing stroke.
#[derive(Clone, Copy, Debug, PartialEq, Eq, Structural)]
pub enum Weight {
    Single,
    Double,
}

/// One of the four sides of a cell.
#[derive(Clone, Copy, Debug, PartialEq, Eq, Structural)]
pub enum Dir {
    Up,
    Down,
    Left,
    Right,
}

/// The shape of a connector, independent of how it is turned.
#[derive(Clone, Copy, Debug, PartialEq, Eq, Structural)]
pub enum Shape {
    /// A straight line (two variants).
    Straight,
    /// A corner joining two perpendicular sides.
    Corner,
    /// A T-junction whose three stubs all have the same weight.
    Tee,
    /// A T-junction whose through line has one weight and whose branch has the
    /// other; `weight` of its family is the weight of the branch.
    Bridge,
}

/// A rotation group: one shape drawn in one weight.
#[derive(Clone, Copy, Debug, PartialEq, Eq, Structural)]
pub struct Family {
    pub shape: Shape,
    pub weight: Weight,
}

#[derive(Clone, Copy, Debug, PartialEq, Eq, Structural)]
pub enum SymbolError {
    /// The glyph belongs to no rotation group.
    UnknownSymbol,
}

/// A rotation group as data: its variants in cyclic order, and its modulus.
pub struct RotationGroup {
    pub variants: Vec<char>,
    pub modulus: u32,
}

pub open spec fn other(w: Weight) -> Weight {
    match w {
        Weight::Single => Weight::Double,
        Weight::Double => Weight::Single,
    }
}

pub open spec fn opposite(d: Dir) -> Dir {
    match d {
        Dir::Up => Dir::Down,
        Dir::Down => Dir::Up,
        Dir::Left => Dir::Right,
        Dir::Right => Dir::Left,
    }
}

/// Whether glyph `c` shows a stroke of weight `w` on its side `d`.
pub open spec fn has_stub(c: char, w: Weight, d: Dir) -> bool {
    match (w, d) {
        (Weight::Single, Dir::Down) => c == '│' || c == '┌' || c == '┐' || c == '╤' || c == '┬'
            || c == '┤' || c == '├' || c == '╞' || c == '╡' || c == '┼',
        (Weight::Single, Dir::Up) => c == '│' || c == '┘' || c == '└' || c == '╧' || c == '┴'
            || c == '┤' || c == '├' || c == '╞' || c == '╡' || c == '┼',
        (Weight::Single, Dir::Left) => c == '─' || c == '┘' || c == '┐' || c == '┴' || c == '┬'
            || c == '╨' || c == '╥' || c == '┤' || c == '╢' || c == '┼',
        (Weight::Single, Dir::Right) => c == '─' || c == '└' || c == '┌' || c == '┴' || c == '┬'
            || c == '╨' || c == '╥' || c == '├' || c == '╟' || c == '┼',
        (Weight::Double, Dir::Down) => c == '║' || c == '╔' || c == '╗' || c == '╥' || c == '╦'
            || c == '╣' || c == '╠' || c == '╟' || c == '╢' || c == '╬',
        (Weight::Double, Dir::Up) => c == '║' || c == '╝' || c == '╚' || c == '╨' || c == '╩'
            || c == '╣' || c == '╠' || c == '╟' || c == '╢' || c == '╬',
        (Weight::Double, Dir::Left) => c == '═' || c == '╝' || c == '╗' || c == '╩' || c == '╦'
            || c == '╧' || c == '╤' || c == '╡' || c == '╣' || c == '╬',
        (Weight::Double, Dir::Right) => c == '═' || c == '╚' || c == '╔' || c == '╩' || c == '╦'
            || c == '╧' || c == '╤' || c == '╞' || c == '╠' || c == '╬',
    }
}

/// The rotation group of a connector; `None` for every other glyph.
pub open spec fn family_of(c: char) -> Option<Family> {
    if c == '│' || c == '─' {
        Some(Family { shape: Shape::Straight, weight: Weight::Single })
    } else if c == '║' || c == '═' {
        Some(Family { shape: Shape::Straight, weight: Weight::Double })
    } else if c == '╨' || c == '╞' || c == '╥' || c == '╡' {
        Some(Family { shape: Shape::Bridge, weight: Weight::Double })
    } else if c == '╧' || c == '╟' || c == '╤' || c == '╢' {
        Some(Family { shape: Shape::Bridge, weight: Weight::Single })
    } else if c == '╔' || c == '╗' || c == '╝' || c == '╚' {
        Some(Family { shape: Shape::Corner, weight: Weight::Double })
    } else if c == '┌' || c == '┐' || c == '┘' || c == '└' {
        Some(Family { shape: Shape::Corner, weight: Weight::Single })
    } else if c == '┤' || c == '┴' || c == '├' || c == '┬' {
        Some(Family { shape: Shape::Tee, weight: Weight::Single })
    } else if c == '╣' || c == '╩' || c == '╠' || c == '╦' {
        Some(Family { shape: Shape::Tee, weight: Weight::Double })
    } else {
        None
    }
}

pub open spec fn is_connector_glyph(c: char) -> bool {
    family_of(c) is Some
}

/// The variants of a rotation group, in their cyclic order.
pub open spec fn variants(f: Family) -> Seq<char> {
    match (f.shape, f.weight) {
        (Shape::Straight, Weight::Single) => seq!['│', '─'],
        (Shape::Straight, Weight::Double) => seq!['║', '═'],
        (Shape::Bridge, Weight::Double) => seq!['╨', '╞', '╥', '╡'],
        (Shape::Bridge, Weight::Single) => seq!['╧', '╟', '╤', '╢'],
        (Shape::Corner, Weight::Double) => seq!['╔', '╗', '╝', '╚'],
        (Shape::Corner, Weight::Single) => seq!['┌', '┐', '┘', '└'],
        (Shape::Tee, Weight::Single) => seq!['┤', '┴', '├', '┬'],
        (Shape::Tee, Weight::Double) => seq!['╣', '╩', '╠', '╦'],
    }
}

pub open spec fn modulus(f: Family) -> int {
    match f.shape {
        Shape::Straight => 2,
        _ => 4,
    }
}

/// The position of a connector in its rotation group.
pub open spec fn turn(c: char) -> int {
    if c == '│' || c == '║' || c == '╨' || c == '╧' || c == '╔' || c == '┌' || c == '┤' || c
        == '╣' {
        0
    } else if c == '─' || c == '═' || c == '╞' || c == '╟' || c == '╗' || c == '┐' || c == '┴'
        || c == '╩' {
        1
    } else if c == '╥' || c == '╤' || c == '╝' || c == '┘' || c == '├' || c == '╠' {
        2
    } else {
        3
    }
}

/// The forward rotation distance from `start` to `end`: the number of steps
/// forward through the cyclic order of their common rotation group, and 0 for
/// glyphs that share no group.
pub open spec fn rotation_cost(start: char, end: char) -> int {
    match (family_of(start), family_of(end)) {
        (Some(f), Some(g)) => if f == g {
            (turn(end) - turn(start) + modulus(f)) % modulus(f)
        } else {
            0
        },
        _ => 0,
    }
}

/// Whether a stroke runs on without a break across the edge shared by `a`
/// and the glyph `b` placed on side `d` of it: on that edge, for each weight,
/// both show a stub or neither does.
pub open spec fn side_compatible(a: char, d: Dir, b: char) -> bool {
    &&& has_stub(a, Weight::Single, d) == has_stub(b, Weight::Single, opposite(d))
    &&& has_stub(a, Weight::Double, d) == has_stub(b, Weight::Double, opposite(d))
}

/// Each connector stands in its own group at the position `turn` gives, and
/// the group has as many variants as its modulus.
pub proof fn lemma_turn_indexes_group(c: char)
    requires
        is_connector_glyph(c),
    ensures
        variants(family_of(c).unwrap()).len() == modulus(family_of(c).unwrap()),
        0 <= turn(c) < modulus(family_of(c).unwrap()),
        variants(family_of(c).unwrap())[turn(c)] == c,
{
}

/// Every variant of a group belongs to that group.
pub proof fn lemma_variants_in_family(f: Family, i: int)
    requires
        0 <= i < variants(f).len(),
    ensures
        family_of(variants(f)[i]) == Some(f),
        turn(variants(f)[i]) == i,
{
}

/// Compatibility is the same relation seen from either cell.
pub proof fn lemma_side_compatible_symmetric(a: char, d: Dir, b: char)
    ensures
        side_compatible(a, d, b) == side_compatible(b, opposite(d), a),
{
    assert(opposite(opposite(d)) == d);
}

/// The rotation cost lies in `[0, modulus)` for glyphs of one group, and is 0
/// otherwise.
pub proof fn lemma_rotation_cost_bounds(start: char, end: char)
    ensures
        0 <= rotation_cost(start, end),
        family_of(start) is Some ==> rotation_cost(start, end) < modulus(family_of(start).unwrap()),
        family_of(start) != family_of(end) || family_of(start) is None ==> rotation_cost(start, end)
            == 0,
        start == end ==> rotation_cost(start, end) == 0,
{
    if let Some(f) = family_of(start) {
        lemma_turn_indexes_group(start);
        if family_of(end) == Some(f) {
            lemma_turn_indexes_group(end);
        }
    }
}

/// Going from `a` to `b` and on back to `a` turns a whole number of times
/// round the group.
pub proof fn lemma_rotation_cost_round_trip(a: char, b: char)
    requires
        is_connector_glyph(a),
        family_of(a) == family_of(b),
    ensures
        (rotation_cost(a, b) + rotation_cost(b, a)) % modulus(family_of(a).unwrap()) == 0,
        rotation_cost(a, b) == 0 <==> a == b,
{
    let f = family_of(a).unwrap();
    lemma_turn_indexes_group(a);
    lemma_turn_indexes_group(b);
    let m = modulus(f);
    let x = turn(b) - turn(a);
    assert((x + m) % m + (-x + m) % m == 0 || (x + m) % m + (-x + m) % m == m) by (nonlinear_arith)
        requires
            -m < x < m,
            m == 2 || m == 4,
    ;
}

/// Whether `c` is an anchor: a glyph that is never resolved.
pub fn is_anchor(c: char) -> (r: bool)
    ensures
        r == !is_connector_glyph(c),
{
    family(c).is_none()
}

/// The rotation group of `c`, or `None` for an anchor.
pub fn family(c: char) -> (r: Option<Family>)
    ensures
        r == family_of(c),
{
    if c == '│' || c == '─' {
        Some(Family { shape: Shape::Straight, weight: Weight::Single })
    } else if c == '║' || c == '═' {
        Some(Family { shape: Shape::Straight, weight: Weight::Double })
    } else if c == '╨' || c == '╞' || c == '╥' || c == '╡' {
        Some(Family { shape: Shape::Bridge, weight: Weight::Double })
    } else if c == '╧' || c == '╟' || c == '╤' || c == '╢' {
        Some(Family { shape: Shape::Bridge, weight: Weight::Single })
    } else if c == '╔' || c == '╗' || c == '╝' || c == '╚' {
        Some(Family { shape: Shape::Corner, weight: Weight::Double })
    } else if c == '┌' || c == '┐' || c == '┘' || c == '└' {
        Some(Family { shape: Shape::Corner, weight: Weight::Single })
    } else if c == '┤' || c == '┴' || c == '├' || c == '┬' {
        Some(Family { shape: Shape::Tee, weight: Weight::Single })
    } else if c == '╣' || c == '╩' || c == '╠' || c == '╦' {
        Some(Family { shape: Shape::Tee, weight: Weight::Double })
    } else {
        None
    }
}

/// The rotation group of `c` as its ordered variants and modulus; fails for
/// a glyph outside every group.
pub fn rotation_group(c: char) -> (r: Result<RotationGroup, SymbolError>)
    ensures
        r is Err <==> !is_connector_glyph(c),
        r is Err ==> r == Err::<RotationGroup, SymbolError>(SymbolError::UnknownSymbol),
        r is Ok ==> r->Ok_0.variants@ == variants(family_of(c).unwrap()) && r->Ok_0.modulus
            == modulus(family_of(c).unwrap()),
{
    match family(c) {
        None => Err(SymbolError::UnknownSymbol),
        Some(f) => {
            let v = match (f.shape, f.weight) {
                (Shape::Straight, Weight::Single) => vec!['│', '─'],
                (Shape::Straight, Weight::Double) => vec!['║', '═'],
                (Shape::Bridge, Weight::Double) => vec!['╨', '╞', '╥', '╡'],
                (Shape::Bridge, Weight::Single) => vec!['╧', '╟', '╤', '╢'],
                (Shape::Corner, Weight::Double) => vec!['╔', '╗', '╝', '╚'],
                (Shape::Corner, Weight::Single) => vec!['┌', '┐', '┘', '└'],
                (Shape::Tee, Weight::Single) => vec!['┤', '┴', '├', '┬'],
                (Shape::Tee, Weight::Double) => vec!['╣', '╩', '╠', '╦'],
            };
            let m: u32 = match f.shape {
                Shape::Straight => 2,
                _ => 4,
            };
            assert(v@ =~= variants(f));
            Ok(RotationGroup { variants: v, modulus: m })
        },
    }
}

/// Whether glyph `c` shows a stroke of weight `w` on its side `d`.
pub fn stub(c: char, w: Weight, d: Dir) -> (r: bool)
    ensures
        r == has_stub(c, w, d),
{
    match (w, d) {
        (Weight::Single, Dir::Down) => c == '│' || c == '┌' || c == '┐' || c == '╤' || c == '┬'
            || c == '┤' || c == '├' || c == '╞' || c == '╡' || c == '┼',
        (Weight::Single, Dir::Up) => c == '│' || c == '┘' || c == '└' || c == '╧' || c == '┴'
            || c == '┤' || c == '├' || c == '╞' || c == '╡' || c == '┼',
        (Weight::Single, Dir::Left) => c == '─' || c == '┘' || c == '┐' || c == '┴' || c == '┬'
            || c == '╨' || c == '╥' || c == '┤' || c == '╢' || c == '┼',
        (Weight::Single, Dir::Right) => c == '─' || c == '└' || c == '┌' || c == '┴' || c == '┬'
            || c == '╨' || c == '╥' || c == '├' || c == '╟' || c == '┼',
        (Weight::Double, Dir::Down) => c == '║' || c == '╔' || c == '╗' || c == '╥' || c == '╦'
            || c == '╣' || c == '╠' || c == '╟' || c == '╢' || c == '╬',
        (Weight::Double, Dir::Up) => c == '║' || c == '╝' || c == '╚' || c == '╨' || c == '╩'
            || c == '╣' || c == '╠' || c == '╟' || c == '╢' || c == '╬',
        (Weight::Double, Dir::Left) => c == '═' || c == '╝' || c == '╗' || c == '╩' || c == '╦'
            || c == '╧' || c == '╤' || c == '╡' || c == '╣' || c == '╬',
        (Weight::Double, Dir::Right) => c == '═' || c == '╚' || c == '╔' || c == '╩' || c == '╦'
            || c == '╧' || c == '╤' || c == '╞' || c == '╠' || c == '╬',
    }
}

/// Whether placing `b` on side `d` of `a` continues every stroke across the
/// shared edge.
pub fn is_side_compatible(a: char, d: Dir, b: char) -> (r: bool)
    ensures
        r == side_compatible(a, d, b),
{
    let back = match d {
        Dir::Up => Dir::Down,
        Dir::Down => Dir::Up,
        Dir::Left => Dir::Right,
        Dir::Right => Dir::Left,
    };
    stub(a, Weight::Single, d) == stub(b, Weight::Single, back) && stub(a, Weight::Double, d)
        == stub(b, Weight::Double, back)
}

/// The position of a connector in its rotation group.
fn turn_of(c: char) -> (r: u32)
    ensures
        r == turn(c),
{
    if c == '│' || c == '║' || c == '╨' || c == '╧' || c == '╔' || c == '┌' || c == '┤' || c
        == '╣' {
        0
    } else if c == '─' || c == '═' || c == '╞' || c == '╟' || c == '╗' || c == '┐' || c == '┴'
        || c == '╩' {
        1
    } else if c == '╥' || c == '╤' || c == '╝' || c == '┘' || c == '├' || c == '╠' {
        2
    } else {
        3
    }
}

/// The forward rotation distance from `start` to `end` within their common
/// rotation group; 0 where they share none.
pub fn count_rotations(start: char, end: char) -> (r: u32)
    ensures
        r == rotation_cost(start, end),
        family_of(start) is Some ==> r < modulus(family_of(start).unwrap()),
{
    proof {
        lemma_rotation_cost_bounds(start, end);
    }
    match (family(start), family(end)) {
        (Some(f), Some(g)) => {
            if f == g {
                let m: u32 = match f.shape {
                    Shape::Straight => 2,
                    _ => 4,
                };
                proof {
                    lemma_turn_indexes_group(start);
                    lemma_turn_indexes_group(end);
                }
                (turn_of(end) + m - turn_of(start)) % m
            } else {
                0
            }
        },
        _ => 0,
    }
}

} // verus!
