use spof::{construct_range, n_to_padding, padding, underline, ErrorKind, Line, ParseFileError, Wrong};

#[test]
fn test_n_to_padding() {
    assert_eq!(n_to_padding(None), " ");
    assert_eq!(n_to_padding(Some(0)), "  ");
    assert_eq!(n_to_padding(Some(1)), "  ");
    assert_eq!(n_to_padding(Some(21)), "   ");
    assert_eq!(n_to_padding(Some(9)), "  ");
    assert_eq!(n_to_padding(Some(100)), "    ");
}

#[test]
fn test_parse_file_error() {
    let e = ParseFileError::new("error")
        .line("line")
        .index(1)
        .wrong_bit(vec![(1, 2)])
        .help("help")
        .source_file("tests/diag.rs");
    assert_eq!(e.error, "error");
    assert_eq!(e.help.as_deref(), Some("help"));
    assert_eq!(e.source_file.as_deref(), Some("tests/diag.rs"));
    let l = e.line.as_ref().unwrap();
    assert_eq!(l.line, "line");
    assert_eq!(l.index, Some(1));
    assert!(matches!(l.wrong[..], [Wrong::Bit((1, 2))]));

    let e = ParseFileError::new("error")
        .help("help")
        .line("line")
        .index(1)
        .wrong_bit(vec![(1, 2)]);
    assert_eq!(e.help.as_deref(), Some("help"));
    assert_eq!(e.line.as_ref().unwrap().index, Some(1));

    let e = ParseFileError::new("error")
        .help("help")
        .line("line")
        .wrong_bit(vec![(1, 2)])
        .index(1);
    assert_eq!(e.line.as_ref().unwrap().index, Some(1));
    assert_eq!(e.line.as_ref().unwrap().wrong.len(), 1);
}

#[test]
fn test_hmerr_macro() {
    let r: Result<(), ParseFileError> = Err(ParseFileError::new("some error"));
    let e = r.unwrap_err();
    assert_eq!(e.error, "some error");
    assert_eq!(e.kind, ErrorKind::General);
    assert!(e.help.is_none() && e.file.is_none() && e.line.is_none() && e.source.is_none());
}

#[test]
fn touching_ranges_merge() {
    let wrong = vec![Wrong::Bit((0, 2)), Wrong::Bit((2, 3))];
    let r = construct_range(&wrong, "abcdefgh");
    assert_eq!(r, vec![(0, 5)]);
    assert_eq!(underline(&r), "^^^^^");
}

#[test]
fn ranges_are_sorted_and_merged() {
    let wrong = vec![Wrong::Bit((6, 1)), Wrong::Bit((0, 2)), Wrong::Bit((1, 2)), Wrong::Bit((4, 0))];
    let r = construct_range(&wrong, "abcdefgh");
    assert_eq!(r, vec![(0, 3), (6, 7)]);
    assert_eq!(underline(&r), "^^^   ^");
}

#[test]
fn text_regions_find_every_occurrence() {
    let wrong = vec![Wrong::Str("42".to_string())];
    let r = construct_range(&wrong, "John 42, Will 42");
    assert_eq!(r, vec![(5, 7), (14, 16)]);
    let wrong = vec![Wrong::Str("aa".to_string())];
    assert_eq!(construct_range(&wrong, "aaaaa"), vec![(0, 4)]);
    let wrong = vec![Wrong::Str(String::new())];
    assert!(construct_range(&wrong, "abc").is_empty());
}

#[test]
fn ranges_past_the_end_of_the_line_are_kept() {
    let wrong = vec![Wrong::Bit((2, usize::MAX))];
    assert_eq!(construct_range(&wrong, "abcd"), vec![(2, usize::MAX)]);
    let wrong = vec![Wrong::Bit((2, 5)), Wrong::Bit((9, 1)), Wrong::Bit((7, 2))];
    let r = construct_range(&wrong, "abcd");
    assert_eq!(r, vec![(2, 10)]);
    assert_eq!(underline(&r), "  ^^^^^^^^");
    let l = Line::new("abcd".to_string(), Some(3), vec![Wrong::Bit((1, 2))]);
    assert_eq!(l.underline(), " ^^");
}

#[test]
fn gutter_padding() {
    assert_eq!(padding::<()>(&None, Some(42)), "   ");
    assert_eq!(padding(&Some(()), None), "│  ");
}

#[test]
fn replacing_the_excerpt_keeps_index_and_highlights() {
    let e = ParseFileError::new("e").line("a").index(1).wrong_bit(vec![(0, 1)]).line("b");
    let l = e.line.as_ref().unwrap();
    assert_eq!(l.line, "b");
    assert_eq!(l.index, Some(1));
    assert!(matches!(l.wrong[..], [Wrong::Bit((0, 1))]));
}
