use boxgrid::greek::rotate_greek_left;

#[test]
fn greek_letters_step_back() {
    assert_eq!(rotate_greek_left("Οδυσσευς"), "Ξγτρρδτρ");
}

#[test]
fn alpha_wraps_to_omega() {
    assert_eq!(rotate_greek_left("Αα"), "Ωω");
}

#[test]
fn latin_text_is_kept() {
    assert_eq!(rotate_greek_left("abc, XYZ 123"), "abc, XYZ 123");
    assert_eq!(rotate_greek_left(""), "");
}
