use asciiquarium::text::{lines, perl_split_nl, split_newlines};

#[test]
fn perl_split_drops_trailing_empties() {
    assert_eq!(perl_split_nl("\n\n   :\n"), vec!["", "", "   :"]);
    assert_eq!(perl_split_nl("a\nb"), vec!["a", "b"]);
}

#[test]
fn perl_split_of_only_newlines_is_empty() {
    assert!(perl_split_nl("\n\n\n").is_empty());
    assert!(perl_split_nl("").is_empty());
}

#[test]
fn split_newlines_keeps_every_piece() {
    assert_eq!(split_newlines("a\n\nb\n"), vec!["a", "", "b", ""]);
    assert_eq!(split_newlines(""), vec![""]);
}

#[test]
fn lines_match_std() {
    for s in ["", "a", "a\n", "a\n\n", "a\r\nb", "a\rb\r", "\r\n", "x\ny\r\n\r\nz\r"] {
        let std_lines: Vec<String> = s.lines().map(|l| l.to_string()).collect();
        assert_eq!(lines(s), std_lines, "input {:?}", s);
    }
}
