use boxgrid::resolver::{find_stable, Neighbours};

fn nb(up: Option<char>, down: Option<char>, left: Option<char>, right: Option<char>) -> Neighbours {
    Neighbours { up, down, left, right }
}

#[test]
fn anchor_resolves_to_itself() {
    assert_eq!(find_stable('#', &nb(None, None, None, None)), Some('#'));
}

#[test]
fn straight_line_from_vertical_evidence() {
    assert_eq!(find_stable('─', &nb(Some('│'), None, None, None)), Some('│'));
    assert_eq!(find_stable('─', &nb(None, Some('┴'), None, None)), Some('│'));
}

#[test]
fn straight_line_from_horizontal_evidence() {
    assert_eq!(find_stable('│', &nb(None, None, Some('─'), None)), Some('─'));
    assert_eq!(find_stable('│', &nb(None, None, None, Some('┤'))), Some('─'));
}

#[test]
fn straight_line_from_missing_stub() {
    assert_eq!(find_stable('│', &nb(Some('#'), None, None, None)), Some('─'));
    assert_eq!(find_stable('─', &nb(None, None, Some('#'), None)), Some('│'));
}

#[test]
fn straight_line_without_evidence_is_undecided() {
    assert_eq!(find_stable('│', &nb(None, None, None, None)), None);
    assert_eq!(find_stable('═', &nb(None, None, None, None)), None);
}

#[test]
fn positive_evidence_outranks_negative() {
    assert_eq!(find_stable('─', &nb(Some('#'), Some('│'), None, None)), Some('│'));
}

#[test]
fn double_line_ignores_single_strokes() {
    assert_eq!(find_stable('═', &nb(Some('│'), None, None, None)), Some('═'));
    assert_eq!(find_stable('═', &nb(Some('║'), None, None, None)), Some('║'));
}

#[test]
fn corner_examples() {
    assert_eq!(find_stable('┌', &nb(Some('│'), None, Some('─'), None)), Some('┘'));
    assert_eq!(find_stable('┌', &nb(Some('│'), None, None, Some('#'))), Some('┘'));
    assert_eq!(find_stable('┌', &nb(Some('│'), None, None, Some('─'))), Some('└'));
    assert_eq!(find_stable('┘', &nb(Some('#'), None, None, Some('─'))), Some('┌'));
    assert_eq!(find_stable('┘', &nb(None, Some('│'), Some('─'), None)), Some('┐'));
    assert_eq!(find_stable('╔', &nb(Some('║'), None, Some('═'), None)), Some('╝'));
    assert_eq!(find_stable('┌', &nb(Some('#'), Some('#'), Some('#'), Some('#'))), None);
}

#[test]
fn tee_examples() {
    assert_eq!(find_stable('┤', &nb(Some('#'), None, None, None)), Some('┬'));
    assert_eq!(find_stable('┤', &nb(Some('│'), Some('#'), None, None)), Some('┴'));
    assert_eq!(find_stable('╦', &nb(Some('║'), Some('║'), Some('#'), None)), Some('╠'));
    assert_eq!(find_stable('┬', &nb(Some('│'), Some('│'), Some('─'), Some('─'))), None);
}

#[test]
fn bridge_examples() {
    assert_eq!(find_stable('╨', &nb(Some('║'), None, None, None)), Some('╨'));
    assert_eq!(find_stable('╨', &nb(None, None, Some('═'), None)), Some('╡'));
    assert_eq!(find_stable('╞', &nb(Some('│'), None, Some('#'), None)), Some('╞'));
    assert_eq!(find_stable('╧', &nb(None, Some('│'), None, None)), Some('╤'));
    assert_eq!(find_stable('╧', &nb(Some('║'), None, None, Some('#'))), Some('╢'));
}

#[test]
fn resolving_the_resolved_symbol_gives_it_back() {
    let cases = [
        ('─', nb(Some('│'), None, None, None)),
        ('┌', nb(Some('│'), None, Some('─'), None)),
        ('┤', nb(Some('#'), None, None, None)),
        ('╨', nb(None, None, Some('═'), None)),
        ('╔', nb(None, Some('║'), None, Some('═'))),
    ];
    for (c, n) in cases {
        let r = find_stable(c, &n).unwrap();
        assert_eq!(find_stable(r, &n), Some(r));
    }
}
