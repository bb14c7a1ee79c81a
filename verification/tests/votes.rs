use planning_poker::ident::parse_id;
use planning_poker::vote::Vote;

fn text_of(raw: &str) -> Option<String> {
    Vote::parse(raw).map(|vote| vote.to_text())
}

#[test]
fn whole_numbers_are_votes() {
    assert_eq!(text_of("3"), Some("3".to_string()));
    assert_eq!(text_of("8"), Some("8".to_string()));
    assert_eq!(text_of("13"), Some("13".to_string()));
    assert_eq!(text_of("100"), Some("100".to_string()));
}

#[test]
fn fractions_are_votes() {
    assert_eq!(text_of("0.5"), Some("0.5".to_string()));
    assert_eq!(text_of(".5"), Some("0.5".to_string()));
    assert_eq!(text_of("2.25"), Some("2.25".to_string()));
}

#[test]
fn needless_zeros_are_dropped() {
    assert_eq!(text_of("007"), Some("7".to_string()));
    assert_eq!(text_of("1.50"), Some("1.5".to_string()));
    assert_eq!(text_of("5."), Some("5".to_string()));
    assert_eq!(text_of("5.0"), Some("5".to_string()));
    assert_eq!(text_of("0010.0100"), Some("10.01".to_string()));
}

#[test]
fn plus_sign_is_accepted() {
    assert_eq!(text_of("+5"), Some("5".to_string()));
    assert_eq!(text_of("+.5"), Some("0.5".to_string()));
}

#[test]
fn zero_has_many_spellings() {
    for raw in ["0", "00", "0.0", ".0", "0.", "+0", "000.000"] {
        let vote = Vote::parse(raw).expect(raw);
        assert!(vote.is_zero(), "{raw}");
        assert!(!vote.at_least_one(), "{raw}");
        assert_eq!(vote.to_text(), "0", "{raw}");
    }
}

#[test]
fn the_starting_vote_is_zero() {
    let vote = Vote::zero();
    assert!(vote.is_zero());
    assert_eq!(vote.to_text(), "0");
}

#[test]
fn a_vote_below_one_is_not_zero() {
    let vote = Vote::parse("0.5").unwrap();
    assert!(!vote.is_zero());
    assert!(!vote.at_least_one());
}

#[test]
fn a_vote_of_one_or_more_is_told() {
    assert!(Vote::parse("1").unwrap().at_least_one());
    assert!(Vote::parse("5").unwrap().at_least_one());
    assert!(Vote::parse("1.5").unwrap().at_least_one());
    assert!(!Vote::parse("0.99").unwrap().at_least_one());
}

#[test]
fn what_is_no_numeral_is_no_vote() {
    for raw in [
        "", "+", ".", "+.", "-1", "-0", "abc", "5a", "a5", "1.2.3", "1..2", "1e3", "1E3", "inf",
        "infinity", "NaN", "nan", " 5", "5 ", "1,5", "++5", "5+", "0x10", "½", "５",
    ] {
        assert!(Vote::parse(raw).is_none(), "{raw:?}");
    }
}

#[test]
fn long_numerals_are_kept_exactly() {
    let raw = "123456789012345678901234567890.000000000000000000000000000001";
    assert_eq!(text_of(raw), Some(raw.to_string()));
}

#[test]
fn the_text_of_a_vote_reads_back_as_the_same_vote() {
    for raw in ["0", "5", ".5", "0010.0100", "+3.", "000"] {
        let vote = Vote::parse(raw).unwrap();
        let again = Vote::parse(&vote.to_text()).unwrap();
        assert_eq!(again.to_text(), vote.to_text());
        assert_eq!(again.is_zero(), vote.is_zero());
        assert_eq!(again.at_least_one(), vote.at_least_one());
    }
}

#[test]
fn a_copy_of_a_vote_is_the_same_vote() {
    let vote = Vote::parse("2.5").unwrap();
    let copy = vote.clone();
    assert_eq!(copy.to_text(), "2.5");
    assert_eq!(vote.to_text(), "2.5");
}

#[test]
fn ids_are_read_from_digits() {
    assert_eq!(parse_id("1"), Some(1));
    assert_eq!(parse_id("42"), Some(42));
    assert_eq!(parse_id("007"), Some(7));
    assert_eq!(parse_id("+9"), Some(9));
    assert_eq!(parse_id("0"), Some(0));
}

#[test]
fn the_largest_id_is_read_and_the_next_is_not() {
    let largest = usize::MAX.to_string();
    assert_eq!(parse_id(&largest), Some(usize::MAX));
    let mut beyond = largest.clone();
    beyond.push('0');
    assert_eq!(parse_id(&beyond), None);
    // One more than the largest: the same digits but the last.
    let digits: Vec<char> = largest.chars().collect();
    let last = digits[digits.len() - 1].to_digit(10).unwrap();
    if last < 9 {
        let mut next: String = digits[..digits.len() - 1].iter().collect();
        next.push(char::from_digit(last + 1, 10).unwrap());
        assert_eq!(parse_id(&next), None);
    }
}

#[test]
fn what_is_no_number_is_no_id() {
    for raw in ["", "+", "-1", "1.0", "1 ", " 1", "a", "1a", "१"] {
        assert_eq!(parse_id(raw), None, "{raw:?}");
    }
}

#[test]
fn ids_are_read_as_the_standard_library_reads_them() {
    for raw in ["0", "1", "12", "+12", "0012", "", "+", "-3", "3.5", "x", "99999999999999999999999"] {
        assert_eq!(parse_id(raw), raw.parse::<usize>().ok(), "{raw:?}");
    }
}
