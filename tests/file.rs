use spof::{
    get_line, ErrorKind, ExpectedLine, ExpectedSize, FileData, FileDataKey, Format, FoundLine, KeyData, Keyword,
    Occurence, Occurrence, ParsedLine, Rule, SpofedFile, Wrong,
};

fn lines(v: &[&str]) -> Vec<String> {
    v.iter().map(|s| s.to_string()).collect()
}

fn color_name_schema() -> FileData {
    let mut r = Rule::new();
    r.add(ExpectedLine::new(
        Keyword::new("color", "the color of the object"),
        Format::new("R G B", ExpectedSize::Fixed),
        Occurrence::Once,
    ));
    r.add(ExpectedLine::new(
        Keyword::new("name", "the name of the object"),
        Format::new("string", ExpectedSize::Undefined),
        Occurrence::Optional,
    ));
    FileData::from_rule(r)
}

#[test]
fn expected_line_test_expected_line() {
    let el = ExpectedLine::new(
        Keyword::new("keyword", "desc"),
        Format::new("format", ExpectedSize::Fixed),
        Occurrence::OneOrMore,
    );
    let content = vec![
        "keyword format".to_string(),
        "keyword format wrong".to_string(),
    ];

    let mut split: Vec<String> = content[0]
        .split_whitespace()
        .map(|s| s.to_string())
        .collect();
    let _keyword = split.remove(0);
    assert!(el.check("file_name", content[0].clone(), &split, 0).is_ok());

    let mut split: Vec<String> = content[1]
        .split_whitespace()
        .map(|s| s.to_string())
        .collect();
    let _keyword = split.remove(0);
    assert!(el.check("file_name", content[1].clone(), &split, 1).is_err());
}

#[derive(Clone, Copy)]
enum RuleTest {
    Zero,
    One,
}

impl FileDataKey for RuleTest {
    fn build() -> FileData {
        FileData::new(vec![
            KeyData::new(
                FoundLine::new(),
                ExpectedLine::new(
                    Keyword::new("Zero", "the zero"),
                    Format::new("0", ExpectedSize::Fixed),
                    Occurrence::Once,
                ),
            ),
            KeyData::new(
                FoundLine::new(),
                ExpectedLine::new(
                    Keyword::new("One", "the one"),
                    Format::new("1", ExpectedSize::Fixed),
                    Occurrence::Once,
                ),
            ),
        ])
    }

    fn key_index(&self) -> usize {
        *self as usize
    }

    fn index(&self) -> usize {
        *self as usize
    }
}

#[test]
fn typed_keys_index_the_table() {
    let input = vec!["Zero 0".to_string(), "One 1".to_string()];
    let f = SpofedFile::new("typed", &input, None, RuleTest::build()).unwrap();
    assert_eq!(f.entry(&RuleTest::Zero).unwrap().data.0[0].1, 0);
    assert_eq!(f.entry(&RuleTest::One).unwrap().data.get_first_token(), "1");
}

#[test]
fn test() {
    let data = FileData::new(vec![
        KeyData::new(
            FoundLine::new(),
            ExpectedLine::new(
                Keyword::new("Zero", "the zero"),
                Format::new("0", ExpectedSize::Fixed),
                Occurrence::Once,
            ),
        ),
        KeyData::new(
            FoundLine::new(),
            ExpectedLine::new(
                Keyword::new("One", "the one"),
                Format::new("1", ExpectedSize::Fixed),
                Occurrence::Once,
            ),
        ),
    ]);
    let mut f = SpofedFile { path: String::from("test"), data };

    f.data.0[0].data = FoundLine::new();
    f.data.0[0]
        .data
        .push(ParsedLine::new(vec![String::from("keyword"), String::from("format")], 0));
    f.data.0[1].data = FoundLine::new();
    f.data.0[1]
        .data
        .push(ParsedLine::new(vec![String::from("other"), String::from("yes")], 0));
    assert_eq!(f.data.0[0].data.0[0].0[0], "keyword");
    assert_eq!(f.data.0[1].data.0[0].0[0], "other");
    assert_eq!(f.get("Zero").unwrap().data.0[0].0[0], "keyword");
    assert_eq!(f.get("One").unwrap().data.0[0].0[0], "other");
    assert!(f.get("Two").is_none());
    assert_eq!(f.name(), "test");
}

#[test]
fn test_get_line() {
    let el = ExpectedLine::new(
        Keyword::new("keyword", "desc"),
        Format::new("format", ExpectedSize::Fixed),
        Occurence::Once,
    );
    let content = vec![
        "keyword format".to_string(),
        "keyword format wrong".to_string(),
    ];
    assert!(get_line("file name", &content, &el).is_err());

    let el = ExpectedLine::new(
        Keyword::new("keyword", "desc"),
        Format::new("format", ExpectedSize::Fixed),
        Occurence::Once,
    );
    let content = vec!["keyword format".to_string(), "keyword format".to_string()];
    assert!(get_line("file name", &content, &el).is_err());

    let el = ExpectedLine::new(
        Keyword::new("keyword", "desc"),
        Format::new("format", ExpectedSize::Fixed),
        Occurence::OneOrMore,
    );
    let content = vec!["keyword format".to_string(), "keyword format".to_string()];
    let ret = get_line("file name", &content, &el);
    assert!(ret.is_ok());
    assert_eq!(ret.unwrap().len(), 2);
}

#[test]
fn valid_file_fills_table_in_order() {
    let input = lines(&["color 255 0 42", "name my object"]);
    let f = SpofedFile::new("obj.txt", &input, Some("#"), color_name_schema()).unwrap();
    let color = &f.get("color").unwrap().data;
    assert_eq!(color.len(), 1);
    assert_eq!(color.0[0], ParsedLine::new(lines(&["255", "0", "42"]), 0));
    let name = &f.get("name").unwrap().data;
    assert_eq!(name.0, vec![ParsedLine::new(lines(&["my", "object"]), 1)]);
    assert_eq!(f.path, "obj.txt");
}

#[test]
fn many_lines_per_keyword_keep_file_order() {
    let mut r = Rule::new();
    r.add(ExpectedLine::new(
        Keyword::new("v", "a vertex"),
        Format::new("X Y Z", ExpectedSize::Fixed),
        Occurrence::ZeroOrMore,
    ));
    r.add(ExpectedLine::new(
        Keyword::new("o", "the object"),
        Format::new("name", ExpectedSize::Range(1, 2)),
        Occurrence::Once,
    ));
    let input = lines(&["v 1 2 3", "# comment", "o cube", "", "v 4 5 6 # x", "v 7 8 9"]);
    let f = SpofedFile::new("cube", &input, Some("#"), FileData::from_rule(r));
    let f = match f {
        Ok(f) => f,
        Err(e) => panic!("{}", e.error),
    };
    let v = &f.get("v").unwrap().data;
    let idx: Vec<usize> = v.0.iter().map(|p| p.1).collect();
    assert_eq!(idx, vec![0, 4, 5]);
    assert_eq!(v.0[1].0, lines(&["4", "5", "6"]));
    assert_eq!(f.get("o").unwrap().data.clone().take_first_token(), "cube");
}

#[test]
fn blank_and_comment_lines_give_nothing() {
    let input = lines(&["", "   ", "# color 1 2 3", "\t# name x", "color 1 2 3"]);
    let f = SpofedFile::new("f", &input, Some("#"), color_name_schema()).unwrap();
    assert_eq!(f.get("color").unwrap().data.0, vec![ParsedLine::new(lines(&["1", "2", "3"]), 4)]);
    assert!(f.get("name").unwrap().data.is_empty());
}

#[test]
fn format_mismatch_comes_before_occurrence() {
    let input = lines(&["color 255 0", "color 1 2 3"]);
    let e = SpofedFile::new("obj.txt", &input, None, color_name_schema()).unwrap_err();
    assert_eq!(e.kind, ErrorKind::FormatMismatch);
    assert_eq!(e.error, "expected 3 token after color, got 2");
    assert_eq!(e.file.as_deref(), Some("obj.txt"));
    let l = e.line.as_ref().unwrap();
    assert_eq!(l.index, Some(0));
    assert_eq!(l.line, "color 255 0");
    assert!(matches!(l.wrong[..], [Wrong::Bit((5, 6))]));
    assert_eq!(l.underline(), "     ^^^^^^");
    assert_eq!(
        e.help.as_deref(),
        Some("color define the color of the object\nthe line must follow the format: `color R G B`")
    );
}

#[test]
fn occurrence_violation_after_a_clean_scan() {
    let input = lines(&["color 255 0 42", "color 1 2 3"]);
    let e = SpofedFile::new("obj.txt", &input, None, color_name_schema()).unwrap_err();
    assert_eq!(e.kind, ErrorKind::OccurrenceViolation);
    assert_eq!(e.error, "color expected to be once (n == 1), but it occurred 2 times");
    assert!(e.line.is_none());

    let e = SpofedFile::new("obj.txt", &lines(&["name x"]), None, color_name_schema()).unwrap_err();
    assert_eq!(e.kind, ErrorKind::OccurrenceViolation);
    assert_eq!(e.error, "color expected to be once (n == 1), but it occurred 0 times");
}

#[test]
fn unknown_keyword_lists_the_schema() {
    let mut r = Rule::new();
    r.add(ExpectedLine::new(
        Keyword::new("color", "the color of the object"),
        Format::new("R G B", ExpectedSize::Fixed),
        Occurrence::Once,
    ));
    let input = lines(&["position 1 2 3"]);
    let e = SpofedFile::new("obj.txt", &input, None, FileData::from_rule(r)).unwrap_err();
    assert_eq!(e.kind, ErrorKind::UnknownKeyword);
    assert_eq!(e.suggestions, vec!["color".to_string()]);
    assert_eq!(e.error, "unsupported keyword position");
    assert_eq!(
        e.help.as_deref(),
        Some("no rule for keyword position\nhere is a list of valid keyword:\n\t- color: the color of the object")
    );
    let l = e.line.as_ref().unwrap();
    assert_eq!(l.index, Some(0));
    assert_eq!(l.underline(), "^^^^^^^^");
}

#[test]
fn unknown_keyword_highlights_only_its_token() {
    let input = lines(&["color 1 2 3", "  size 1 size"]);
    let e = SpofedFile::new("obj.txt", &input, Some("#"), color_name_schema()).unwrap_err();
    assert_eq!(e.kind, ErrorKind::UnknownKeyword);
    assert_eq!(e.suggestions, vec!["color".to_string(), "name".to_string()]);
    let l = e.line.as_ref().unwrap();
    assert_eq!(l.index, Some(1));
    assert!(matches!(l.wrong[..], [Wrong::Bit((2, 4))]));
    assert_eq!(l.underline(), "  ^^^^");
}

#[test]
fn rule_replaces_a_keyword_added_twice() {
    let mut r = Rule::default();
    r.add(ExpectedLine::new(
        Keyword::new("a", "first"),
        Format::new("x", ExpectedSize::Fixed),
        Occurrence::Once,
    ));
    r.add(ExpectedLine::new(
        Keyword::new("b", "second"),
        Format::new("x", ExpectedSize::Fixed),
        Occurrence::Once,
    ));
    r.add(ExpectedLine::new(
        Keyword::new("a", "again"),
        Format::new("x y", ExpectedSize::Fixed),
        Occurrence::Optional,
    ));
    let kws: Vec<&str> = r.keywords().iter().map(|k| k.keyword.as_str()).collect();
    assert_eq!(kws, vec!["a", "b"]);
    assert_eq!(r.get("a").unwrap().k.desc, "again");
    assert!(r.get("c").is_none());
    let data = FileData::from_rule(r);
    let kws: Vec<&str> = data.keywords().iter().map(|k| k.keyword.as_str()).collect();
    assert_eq!(kws, vec!["a", "b"]);
}

#[test]
fn found_line_accessors() {
    let mut f = FoundLine::default();
    assert!(f.is_empty());
    f.push(ParsedLine::new(lines(&["x", "y"]), 3));
    f.push(ParsedLine::new(lines(&["z"]), 5));
    assert_eq!(f.len(), 2);
    assert_eq!(f.get_once().1, 3);
    assert_eq!(f.get_first_token(), "x");
    assert_eq!(f.get_once().get(1), Some(&"y".to_string()));
    assert_eq!(f.get_once().get(2), None);
    assert_eq!(f.clone().take_once().take(1), "y");
    assert_eq!(f.take_first_token(), "x");
}
