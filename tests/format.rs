use spof::{ExpectedSize, Format, Size};

#[test]
fn format_test_size_fixed() {
    let size = Size::Fixed(1);
    assert!(!size.in_range(0));
    assert!(size.in_range(1));
    assert!(!size.in_range(2));
    assert!(!size.in_range(42));
}

#[test]
fn format_test_size_undefined() {
    let size = Size::Undefined;
    assert!(size.in_range(0));
    assert!(size.in_range(1));
    assert!(size.in_range(2));
    assert!(size.in_range(42));
}

#[test]
fn format_test_size_range() {
    let size = Size::Range(1, 3);
    assert!(!size.in_range(0));
    assert!(size.in_range(1));
    assert!(size.in_range(2));
    assert!(size.in_range(3));
    assert!(!size.in_range(4));
    assert!(!size.in_range(42));
}

#[test]
fn format_test_format_fixed() {
    let token = String::from("test");
    let format = Format::new("test", ExpectedSize::Fixed);
    assert_eq!(format.token, "test");
    assert_eq!(format.size, Size::Fixed(1));
    assert!(format.check(&vec![]).is_err());
    assert!(format.check(&vec![token.clone()]).is_ok());
    assert!(format.check(&vec![token.clone(); 2]).is_err());
    assert!(format.check(&vec![token.clone(); 3]).is_err());

    let format = Format::new("test test", ExpectedSize::Fixed);
    assert_eq!(format.token, "test test");
    assert_eq!(format.size, Size::Fixed(2));
    assert!(format.check(&vec![]).is_err());
    assert!(format.check(&vec![token.clone()]).is_err());
    assert!(format.check(&vec![token.clone(); 2]).is_ok());
    assert!(format.check(&vec![token; 3]).is_err());
}

#[test]
fn format_test_format_undefined() {
    let token = String::from("test");
    let format = Format::new("test", ExpectedSize::Undefined);
    assert_eq!(format.token, "test");
    assert_eq!(format.size, Size::Undefined);
    assert!(format.check(&vec![]).is_ok());
    assert!(format.check(&vec![token.clone()]).is_ok());
    assert!(format.check(&vec![token.clone(); 2]).is_ok());
    assert!(format.check(&vec![token; 3]).is_ok());
}

#[test]
fn format_test_format_range() {
    let token = String::from("test");
    let format = Format::new("test", ExpectedSize::Range(1, 3));
    assert_eq!(format.token, "test");
    assert_eq!(format.size, Size::Range(1, 3));
    assert!(format.check(&vec![]).is_err());
    assert!(format.check(&vec![token.clone()]).is_ok());
    assert!(format.check(&vec![token.clone(); 2]).is_ok());
    assert!(format.check(&vec![token.clone(); 3]).is_ok());
    assert!(format.check(&vec![token; 4]).is_err());
}

#[test]
fn test_empty_format() {
    let token = String::from("test");
    let format = Format::new("", ExpectedSize::Fixed);
    assert_eq!(format.token, "");
    assert_eq!(format.size, Size::Fixed(0));
    assert!(format.check(&vec![]).is_ok());
    assert!(format.check(&vec![token.clone()]).is_err());
    assert!(format.check(&vec![token.clone(); 2]).is_err());
    assert!(format.check(&vec![token; 3]).is_err());
}

#[test]
fn range_size_accepts_one_to_three_only() {
    let size = Size::Range(1, 3);
    for n in 1..=3 {
        assert!(size.check(n).is_ok());
    }
    assert_eq!(size.check(0), Err((String::from("1-3"), 0)));
    assert_eq!(size.check(4), Err((String::from("1-3"), 4)));
}

#[test]
fn size_descriptions() {
    assert_eq!(Size::Fixed(3).to_string(), "3");
    assert_eq!(Size::Undefined.to_string(), "undefined");
    assert_eq!(Size::Range(10, 205).to_string(), "10-205");
}

#[test]
fn fixed_size_counts_template_tokens() {
    let format = Format::new("  R\tG   B ", ExpectedSize::Fixed);
    assert_eq!(format.size, Size::Fixed(3));
    assert_eq!(ExpectedSize::default(), ExpectedSize::Fixed);
}
