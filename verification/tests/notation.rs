use demosim::model::{Multiplicity, MultiplicityBound};
use demosim::notation::decimal_text;

fn bounded(min: usize, max: usize) -> Multiplicity {
    Multiplicity { min, max: MultiplicityBound::Bounded(max) }
}

fn unbounded(min: usize) -> Multiplicity {
    Multiplicity { min, max: MultiplicityBound::Unbounded }
}

#[test]
fn a_multiplicity_is_written_with_two_dots() {
    assert_eq!(bounded(0, 3).to_string(), "0..3");
    assert_eq!(unbounded(0).to_string(), "0..*");
    assert_eq!(bounded(1, 1).to_string(), "1..1");
    assert_eq!(bounded(10, 250).to_string(), "10..250");
    assert_eq!(unbounded(1907).to_string(), "1907..*");
    assert_eq!(Multiplicity::default().to_string(), "0..*");
    assert_eq!(MultiplicityBound::Unbounded.to_string(), "*");
    assert_eq!(MultiplicityBound::Bounded(42).to_string(), "42");
    assert_eq!(
        bounded(usize::MAX, 0).to_string(),
        format!("{}..0", usize::MAX)
    );
}

#[test]
fn a_number_is_written_in_decimal() {
    for n in [0usize, 1, 9, 10, 11, 99, 100, 101, 1234567890, usize::MAX - 1, usize::MAX] {
        assert_eq!(decimal_text(n), format!("{}", n));
    }
}

#[test]
fn a_multiplicity_is_read_from_its_written_form() {
    assert_eq!(Multiplicity::from_str("0..3"), Some(bounded(0, 3)));
    assert_eq!(Multiplicity::from_str("0..*"), Some(unbounded(0)));
    assert_eq!(Multiplicity::from_str("1..1"), Some(bounded(1, 1)));
    assert_eq!(Multiplicity::from_str("12..340"), Some(bounded(12, 340)));
    assert_eq!(Multiplicity::from_str("5..2"), Some(bounded(5, 2)));
    let widest = format!("{}..{}", usize::MAX, usize::MAX);
    assert_eq!(Multiplicity::from_str(&widest), Some(bounded(usize::MAX, usize::MAX)));
}

#[test]
fn what_is_no_written_multiplicity_is_not_read() {
    for text in [
        "", ".", "..", "0", "0.", "0..", "..3", "0.3", "0...3", "0..3.", "0..3..4", "*..3",
        "0..**", "0..*3", "0..3*", "00..3", "0..03", "01..3", "0..-3", "-1..3", "+1..3", "0 ..3",
        "0.. 3", " 0..3", "0..3 ", "a..3", "0..b", "0..٣", "１..3", "0‥3", "1e2..3", "0..*\n",
    ] {
        assert_eq!(Multiplicity::from_str(text), None, "{:?}", text);
    }
    let too_wide = format!("0..{}0", usize::MAX);
    assert_eq!(Multiplicity::from_str(&too_wide), None);
    let above = format!("{}..1", usize::MAX as u128 + 1);
    assert_eq!(Multiplicity::from_str(&above), None);
}

#[test]
fn what_is_written_is_read_back() {
    for min in [0usize, 1, 7, 10, 99, 1000, usize::MAX] {
        for max in [0usize, 1, 9, 10, 100, 65535, usize::MAX] {
            let m = bounded(min, max);
            assert_eq!(Multiplicity::from_str(&m.to_string()), Some(m));
        }
        let m = unbounded(min);
        assert_eq!(Multiplicity::from_str(&m.to_string()), Some(m));
    }
}
