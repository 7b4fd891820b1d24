use turtle_bag::pattern::Pattern;

#[test]
fn names_of_the_patterns() {
    assert_eq!(Pattern::to_str(Pattern::Line), "Line");
    assert_eq!(Pattern::to_str(Pattern::Spirale), "Spirale");
}

#[test]
fn codes_that_name_a_pattern() {
    assert_eq!(Pattern::to_pattern(0), Pattern::Line);
    assert_eq!(Pattern::to_pattern(1), Pattern::Spirale);
    assert_eq!(Pattern::from_code(0), Some(Pattern::Line));
    assert_eq!(Pattern::from_code(1), Some(Pattern::Spirale));
}

#[test]
fn codes_that_name_no_pattern_select_the_line() {
    for code in [2, 3, -1, 17, i32::MAX, i32::MIN] {
        assert_eq!(Pattern::to_pattern(code), Pattern::Line);
        assert_eq!(Pattern::from_code(code), None);
    }
}

#[test]
fn to_pattern_agrees_with_from_code_where_it_answers() {
    for code in -5..=5 {
        match Pattern::from_code(code) {
            Some(pattern) => assert_eq!(Pattern::to_pattern(code), pattern),
            None => assert_eq!(Pattern::to_pattern(code), Pattern::Line),
        }
    }
}
