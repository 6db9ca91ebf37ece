use boxgrid::symbols::{
    count_rotations, is_anchor, is_side_compatible, rotation_group, Dir, SymbolError,
};

#[test]
fn anchors_are_the_glyphs_outside_every_group() {
    assert!(is_anchor('#'));
    assert!(is_anchor('░'));
    assert!(is_anchor('┼'));
    assert!(is_anchor('╬'));
    assert!(!is_anchor('│'));
    assert!(!is_anchor('╞'));
    assert!(!is_anchor('╔'));
}

#[test]
fn rotation_group_lists_variants_in_order() {
    let g = rotation_group('┬').ok().unwrap();
    assert_eq!(g.variants, vec!['┤', '┴', '├', '┬']);
    assert_eq!(g.modulus, 4);
    let g = rotation_group('═').ok().unwrap();
    assert_eq!(g.variants, vec!['║', '═']);
    assert_eq!(g.modulus, 2);
    let g = rotation_group('╢').ok().unwrap();
    assert_eq!(g.variants, vec!['╧', '╟', '╤', '╢']);
}

#[test]
fn rotation_group_of_anchor_is_unknown_symbol() {
    assert!(matches!(rotation_group('#'), Err(SymbolError::UnknownSymbol)));
    assert!(matches!(rotation_group('┼'), Err(SymbolError::UnknownSymbol)));
}

#[test]
fn rotation_cost_exact_values() {
    assert_eq!(count_rotations('┌', '┘'), 2);
    assert_eq!(count_rotations('┘', '┌'), 2);
    assert_eq!(count_rotations('┌', '└'), 3);
    assert_eq!(count_rotations('└', '┌'), 1);
    assert_eq!(count_rotations('│', '─'), 1);
    assert_eq!(count_rotations('─', '│'), 1);
    assert_eq!(count_rotations('╨', '╡'), 3);
    assert_eq!(count_rotations('╣', '╦'), 3);
    assert_eq!(count_rotations('╔', '╔'), 0);
}

#[test]
fn rotation_cost_outside_one_group_is_zero() {
    assert_eq!(count_rotations('#', '#'), 0);
    assert_eq!(count_rotations('│', '║'), 0);
    assert_eq!(count_rotations('┌', '╔'), 0);
}

#[test]
fn rotation_cost_stays_below_modulus() {
    let all = ['│', '─', '║', '═', '╨', '╥', '╞', '╡', '╧', '╤', '╟', '╢', '╔', '╗', '╝', '╚', '┌', '┐',
        '┘', '└', '┤', '┴', '├', '┬', '╣', '╩', '╠', '╦'];
    for a in all {
        let g = rotation_group(a).ok().unwrap();
        for b in g.variants.iter() {
            let c = count_rotations(a, *b);
            assert!(c < g.modulus);
            let back = count_rotations(*b, a);
            assert_eq!((c + back) % g.modulus, 0);
            assert_eq!(c == 0, a == *b);
        }
    }
}

#[test]
fn side_compatibility_examples() {
    assert!(is_side_compatible('─', Dir::Right, '─'));
    assert!(!is_side_compatible('─', Dir::Right, '│'));
    assert!(is_side_compatible('│', Dir::Down, '┴'));
    assert!(!is_side_compatible('═', Dir::Right, '─'));
    assert!(is_side_compatible('╞', Dir::Right, '═'));
    assert!(!is_side_compatible('╞', Dir::Right, '─'));
    assert!(is_side_compatible('#', Dir::Left, '│'));
}

#[test]
fn side_compatibility_is_symmetric() {
    let all = ['│', '─', '║', '═', '╨', '╥', '╞', '╡', '╔', '┘', '┤', '╦', '#', '┼', '╬'];
    let dirs = [(Dir::Up, Dir::Down), (Dir::Down, Dir::Up), (Dir::Left, Dir::Right), (Dir::Right, Dir::Left)];
    for a in all {
        for b in all {
            for (d, back) in dirs {
                assert_eq!(is_side_compatible(a, d, b), is_side_compatible(b, back, a));
            }
        }
    }
}
