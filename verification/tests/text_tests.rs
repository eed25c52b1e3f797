use issue_viewer::model::{state_from_graphql, state_from_text, state_text, IssueState};
use issue_viewer::text::{decimal_string, parse_i64, parse_u64, trim_chars, split_words};

fn cs(s: &str) -> Vec<char> {
    s.chars().collect()
}

#[test]
fn parses_u64_like_std() {
    assert_eq!(parse_u64(&cs("42")), Some(42));
    assert_eq!(parse_u64(&cs("+42")), Some(42));
    assert_eq!(parse_u64(&cs("18446744073709551615")), Some(u64::MAX));
    assert_eq!(parse_u64(&cs("18446744073709551616")), None);
    assert_eq!(parse_u64(&cs("-1")), None);
    assert_eq!(parse_u64(&cs("+")), None);
    assert_eq!(parse_u64(&cs("")), None);
    assert_eq!(parse_u64(&cs("4x")), None);
}

#[test]
fn parses_i64_like_std() {
    assert_eq!(parse_i64(&cs("-9223372036854775808")), Some(i64::MIN));
    assert_eq!(parse_i64(&cs("9223372036854775807")), Some(i64::MAX));
    assert_eq!(parse_i64(&cs("9223372036854775808")), None);
    assert_eq!(parse_i64(&cs("-9223372036854775809")), None);
    assert_eq!(parse_i64(&cs("-0")), Some(0));
    assert_eq!(parse_i64(&cs("-")), None);
    assert_eq!(parse_i64(&cs("+7")), Some(7));
}

#[test]
fn decimal_matches_to_string() {
    for n in [0u64, 9, 10, 99, 100, 1234567890, u64::MAX] {
        assert_eq!(decimal_string(n), n.to_string());
    }
}

#[test]
fn trim_and_words_like_std() {
    let s = " \t a b\u{3000}c  \n";
    let t: String = trim_chars(&cs(s)).into_iter().collect();
    assert_eq!(t, s.trim());
    let w: Vec<String> = split_words(&cs(s)).into_iter().map(|v| v.into_iter().collect()).collect();
    let expected: Vec<String> = s.split_whitespace().map(|x| x.to_string()).collect();
    assert_eq!(w, expected);
}

#[test]
fn state_texts_roundtrip() {
    assert_eq!(state_text(IssueState::Open), "open");
    assert_eq!(state_text(IssueState::Closed), "closed");
    assert_eq!(state_from_text("closed"), IssueState::Closed);
    assert_eq!(state_from_text("open"), IssueState::Open);
    assert_eq!(state_from_text("CLOSED"), IssueState::Open);
    assert_eq!(state_from_graphql("CLOSED"), IssueState::Closed);
    assert_eq!(state_from_graphql("ClOsEd"), IssueState::Closed);
    assert_eq!(state_from_graphql("OPEN"), IssueState::Open);
}
