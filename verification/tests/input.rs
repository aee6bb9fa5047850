use denote::input::{check, check_title, option_split, InputError};

#[test]
fn keywords_without_separators_are_accepted() {
    assert_eq!(option_split("work project"), Some(()));
    assert_eq!(option_split("work"), Some(()));
    assert_eq!(option_split(""), Some(()));
    assert_eq!(option_split("v1.2 caf\u{e9}"), Some(()));
}

#[test]
fn a_separator_in_any_keyword_is_refused() {
    assert_eq!(option_split("a;b"), None);
    assert_eq!(option_split("a,b"), None);
    assert_eq!(option_split("a-b"), None);
    assert_eq!(option_split("a_b"), None);
    assert_eq!(option_split("a\tb"), None);
    assert_eq!(option_split("fine bad_one"), None);
    assert_eq!(option_split("fine also fine-"), None);
    assert_eq!(option_split("_"), None);
}

#[test]
fn a_title_must_not_be_empty() {
    assert!(check_title("a"));
    assert!(check_title(" "));
    assert!(!check_title(""));
}

#[test]
fn the_title_is_looked_at_first() {
    assert_eq!(check("t", "a b"), Ok(()));
    assert_eq!(check("", "a b"), Err(InputError::EmptyTitle));
    assert_eq!(check("t", "a_b"), Err(InputError::SeparatorInKeywords));
    assert_eq!(check("", "a_b"), Err(InputError::EmptyTitle));
}

#[test]
fn errors_have_their_messages() {
    assert_eq!(InputError::EmptyTitle.message(), "You must provide a title");
    assert_eq!(InputError::SeparatorInKeywords.message(), "Keywords must be space separated");
}
