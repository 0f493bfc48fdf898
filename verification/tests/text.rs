use next_meeting::text::{
    chars_of, contains_pair, fit_text, join, non_empty, push_decimal, push_two_digits,
    wrapped_lines,
};

#[test]
fn a_text_that_fits_is_left_as_it_is() {
    assert_eq!(fit_text("standup", 7, 1), "standup");
    assert_eq!(fit_text("standup", 4, 2), "standup");
    assert_eq!(fit_text("", 0, 0), "");
    assert_eq!(fit_text("é", 0, 5), "é");
}

#[test]
fn a_text_that_does_not_fit_ends_in_an_ellipsis() {
    assert_eq!(fit_text("standup", 6, 1), "stand…");
    assert_eq!(fit_text("häßlich", 2, 2), "häß…");
    assert_eq!(fit_text("standup", 1, 1), "s…");
    assert_eq!(fit_text("standup", 0, 3), "s…");
    assert_eq!(fit_text("standup", 2, 1), "s…");
    assert_eq!(fit_text("standup", usize::MAX, 2), "standup");
}

#[test]
fn lines_of_a_text() {
    assert_eq!(wrapped_lines("", 5), 1);
    assert_eq!(wrapped_lines("12345", 5), 1);
    assert_eq!(wrapped_lines("123456", 5), 2);
    assert_eq!(wrapped_lines("1234567890", 5), 2);
    assert_eq!(wrapped_lines("ééé", 1), 3);
}

#[test]
fn digits_and_lists() {
    let mut s = String::from("x");
    push_two_digits(&mut s, 7);
    push_decimal(&mut s, 7);
    push_decimal(&mut s, 42);
    assert_eq!(s, "x07742");
    let parts = vec!["a".to_string(), "b".to_string(), "c".to_string()];
    assert_eq!(join(&parts, ", "), "a, b, c");
    assert_eq!(join(&Vec::new(), ", "), "");
}

#[test]
fn pairs_of_characters() {
    assert!(contains_pair(&chars_of("a%Ib"), '%', 'I'));
    assert!(!contains_pair(&chars_of("%%"), '%', 'I'));
    assert!(!contains_pair(&chars_of("I%"), '%', 'I'));
    assert!(!contains_pair(&chars_of(""), '%', 'I'));
}

#[test]
fn an_empty_text_is_none() {
    assert_eq!(non_empty(String::new()), None);
    assert_eq!(non_empty("x".to_string()), Some("x".to_string()));
}
