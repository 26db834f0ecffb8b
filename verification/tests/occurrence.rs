use rgb25::occurrence::Occurrence;

#[test]
fn occurrence_law_once() {
    assert!(!Occurrence::Once.check(0));
    assert!(Occurrence::Once.check(1));
    assert!(!Occurrence::Once.check(2));
}

#[test]
fn occurrence_law_zero_or_one() {
    assert!(Occurrence::ZeroOrOne.check(0));
    assert!(Occurrence::ZeroOrOne.check(1));
    assert!(!Occurrence::ZeroOrOne.check(2));
}

#[test]
fn occurrence_law_once_or_more() {
    assert!(!Occurrence::OnceOrMore.check(0));
    assert!(Occurrence::OnceOrMore.check(1));
    assert!(Occurrence::OnceOrMore.check(2));
}

#[test]
fn occurrence_law_zero_or_more() {
    assert!(Occurrence::ZeroOrMore.check(0));
    assert!(Occurrence::ZeroOrMore.check(1));
    assert!(Occurrence::ZeroOrMore.check(2));
}

#[test]
fn occurrence_large_counts() {
    assert!(Occurrence::ZeroOrMore.check(u64::MAX));
    assert!(Occurrence::OnceOrMore.check(u64::MAX));
    assert!(!Occurrence::Once.check(u64::MAX));
    assert!(!Occurrence::ZeroOrOne.check(u64::MAX));
}
