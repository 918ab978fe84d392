use solarman::mapping::{split_operation, split_words, MappingOperator};

#[test]
fn split_words_separates_operations() {
    assert_eq!(split_words("*0.1 -40"), vec!["*0.1".to_string(), "-40".to_string()]);
}

#[test]
fn split_words_skips_runs_of_whitespace() {
    assert_eq!(
        split_words("  *0.1 \t\r\n -40\x0C+5  "),
        vec!["*0.1".to_string(), "-40".to_string(), "+5".to_string()]
    );
}

#[test]
fn split_words_of_blank_text_is_empty() {
    assert!(split_words("").is_empty());
    assert!(split_words(" \t\n").is_empty());
}

#[test]
fn split_words_agrees_with_std() {
    for s in ["a\x0Bb c", " é  ü\u{a0}x ", "*1\r\n+2", "x"] {
        let expected: Vec<String> = s.split_ascii_whitespace().map(String::from).collect();
        assert_eq!(split_words(s), expected);
    }
}

#[test]
fn split_operation_of_each_operator() {
    assert_eq!(split_operation("+5"), Some(('+', Some(MappingOperator::Add), "5")));
    assert_eq!(split_operation("-40"), Some(('-', Some(MappingOperator::Subtract), "40")));
    assert_eq!(split_operation("*0.1"), Some(('*', Some(MappingOperator::Multiply), "0.1")));
}

#[test]
fn split_operation_of_unknown_operator() {
    assert_eq!(split_operation("/2"), Some(('/', None, "2")));
}

#[test]
fn split_operation_without_operand() {
    assert_eq!(split_operation("*"), Some(('*', Some(MappingOperator::Multiply), "")));
}

#[test]
fn split_operation_of_empty_text() {
    assert_eq!(split_operation(""), None);
}
