use spof::{Occurence, Occurrence};

#[test]
fn occurence_test_occurence_once() {
    let occ = Occurence::Once;
    assert!(!occ.in_range(0));
    assert!(occ.in_range(1));
    assert!(!occ.in_range(2));
    assert!(!occ.in_range(42));
}

#[test]
fn occurence_test_occurence_optional() {
    let occ = Occurence::Optional;
    assert!(occ.in_range(0));
    assert!(occ.in_range(1));
    assert!(!occ.in_range(2));
    assert!(!occ.in_range(42));
}

#[test]
fn occurence_test_occurence_zero_or_more() {
    let occ = Occurence::ZeroOrMore;
    assert!(occ.in_range(0));
    assert!(occ.in_range(1));
    assert!(occ.in_range(2));
    assert!(occ.in_range(42));
}

#[test]
fn occurence_test_occurence_one_or_more() {
    let occ = Occurence::OneOrMore;
    assert!(!occ.in_range(0));
    assert!(occ.in_range(1));
    assert!(occ.in_range(2));
    assert!(occ.in_range(42));
}

#[test]
fn occurence_test_occurence_exactly() {
    let occ = Occurence::Exactly(42);
    assert!(!occ.in_range(0));
    assert!(!occ.in_range(1));
    assert!(!occ.in_range(2));
    assert!(occ.in_range(42));
    assert!(!occ.in_range(84));
}

#[test]
fn occurence_test_occurence_range() {
    let occ = Occurence::Range(1, 42);
    assert!(!occ.in_range(0));
    assert!(occ.in_range(1));
    assert!(occ.in_range(2));
    assert!(occ.in_range(42));
    assert!(!occ.in_range(84));
}

#[test]
fn test_occurrence_once() {
    let occ = Occurrence::Once;
    assert!(!occ.in_range(0));
    assert!(occ.in_range(1));
    assert!(!occ.in_range(2));
    assert!(!occ.in_range(42));
}

#[test]
fn test_occurrence_optional() {
    let occ = Occurrence::Optional;
    assert!(occ.in_range(0));
    assert!(occ.in_range(1));
    assert!(!occ.in_range(2));
    assert!(!occ.in_range(42));
}

#[test]
fn test_occurrence_zero_or_more() {
    let occ = Occurrence::ZeroOrMore;
    assert!(occ.in_range(0));
    assert!(occ.in_range(1));
    assert!(occ.in_range(2));
    assert!(occ.in_range(42));
}

#[test]
fn test_occurrence_one_or_more() {
    let occ = Occurrence::OneOrMore;
    assert!(!occ.in_range(0));
    assert!(occ.in_range(1));
    assert!(occ.in_range(2));
    assert!(occ.in_range(42));
}

#[test]
fn test_occurrence_exactly() {
    let occ = Occurrence::Exactly(42);
    assert!(!occ.in_range(0));
    assert!(!occ.in_range(1));
    assert!(!occ.in_range(2));
    assert!(occ.in_range(42));
    assert!(!occ.in_range(84));
}

#[test]
fn test_occurrence_range() {
    let occ = Occurrence::Range(1, 42);
    assert!(!occ.in_range(0));
    assert!(occ.in_range(1));
    assert!(occ.in_range(2));
    assert!(occ.in_range(42));
    assert!(!occ.in_range(84));
}

#[test]
fn once_accepts_exactly_one() {
    let occ = Occurrence::Once;
    assert!(occ.check(1).is_ok());
    assert_eq!(
        occ.check(0),
        Err(String::from("expected to be once (n == 1), but it occurred 0 times"))
    );
    assert_eq!(
        occ.check(2),
        Err(String::from("expected to be once (n == 1), but it occurred 2 times"))
    );
}

#[test]
fn occurrence_descriptions() {
    assert_eq!(Occurrence::Range(2, 17).prose(), "between 2 and 17");
    assert_eq!(Occurrence::Range(2, 17).condition(), "n >= 2 && n <= 17");
    assert_eq!(Occurrence::Exactly(42).prose(), "exactly 42");
    assert_eq!(Occurrence::Exactly(42).condition(), "n == 42");
    assert_eq!(Occurrence::OneOrMore.prose(), "one or more");
    assert_eq!(Occurrence::Optional.condition(), "n <= 1");
    assert_eq!(Occurrence::ZeroOrMore.prose(), "zero or more");
    assert_eq!(Occurrence::default(), Occurrence::Once);
}
