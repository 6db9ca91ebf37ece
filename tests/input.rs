use boxgrid::input::{maze_from_bytes, maze_rows, remove_pattern, split_lines};

fn chars(s: &str) -> Vec<char> {
    s.chars().collect()
}

#[test]
fn remove_pattern_takes_out_every_occurrence() {
    assert_eq!(remove_pattern(&chars("abXYcdXYXY"), &chars("XY")), chars("abcd"));
    assert_eq!(remove_pattern(&chars("aaa"), &chars("aa")), chars("a"));
    assert_eq!(remove_pattern(&chars(""), &chars("x")), chars(""));
    assert_eq!(remove_pattern(&chars("abc"), &chars("abcd")), chars("abc"));
}

#[test]
fn split_lines_drops_line_ends() {
    let ls = split_lines(&chars("ab\r\ncd\n\nef"));
    assert_eq!(ls, vec![chars("ab"), chars("cd"), chars(""), chars("ef")]);
    let ls = split_lines(&chars("ab\n"));
    assert_eq!(ls, vec![chars("ab")]);
    assert!(split_lines(&chars("")).is_empty());
}

#[test]
fn maze_rows_keeps_framed_lines_without_frame() {
    let text = chars("title\n │ ║  #─#  ║ │░\n │ ║  #┐#  ║ │░\nfooter\n");
    let rows = maze_rows(&text);
    assert_eq!(rows, vec![chars("#─#"), chars("#┐#")]);
}

#[test]
fn maze_from_code_page_bytes() {
    // " │ ║  #─#  ║ │░" in code page 866, then a line that is no maze row.
    let mut bytes = vec![0x20, 0xB3, 0x20, 0xBA, 0x20, 0x20, b'#', 0xC4, b'#', 0x20, 0x20, 0xBA, 0x20, 0xB3, 0xB0];
    bytes.push(b'\n');
    bytes.extend_from_slice(b"end\n");
    let rows = maze_from_bytes(&bytes);
    assert_eq!(rows, vec![chars("#─#")]);
}
