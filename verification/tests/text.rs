use denote::text::{
    chars_of, contains_str, find, keep_non_empty, rfind, rsplit_once, split, split_once, stands_at,
    str_eq, string_of, trim, Delimiter,
};

fn cs(s: &str) -> Vec<char> {
    s.chars().collect()
}

fn strings(items: &[&str]) -> Vec<String> {
    items.iter().map(|s| s.to_string()).collect()
}

#[test]
fn chars_and_strings_convert_both_ways() {
    assert_eq!(chars_of("a\u{e9}\u{4e16}"), vec!['a', '\u{e9}', '\u{4e16}']);
    assert_eq!(chars_of(""), Vec::<char>::new());
    assert_eq!(string_of(&['a', '\u{e9}', '\u{4e16}']), "a\u{e9}\u{4e16}");
    assert_eq!(string_of(&[]), "");
}

#[test]
fn find_gives_the_first_occurrence() {
    assert_eq!(find(&cs("a--b--c"), &cs("--")), Some(1));
    assert_eq!(find(&cs("a---b"), &cs("--")), Some(1));
    assert_eq!(find(&cs("--"), &cs("--")), Some(0));
    assert_eq!(find(&cs("a-b"), &cs("--")), None);
    assert_eq!(find(&cs("-"), &cs("--")), None);
    assert_eq!(find(&cs("abc"), &cs("")), Some(0));
    assert_eq!(find(&cs(""), &cs("")), Some(0));
}

#[test]
fn rfind_gives_the_last_occurrence() {
    assert_eq!(rfind(&cs("a.b.c"), &cs(".")), Some(3));
    assert_eq!(rfind(&cs("aaa"), &cs("aa")), Some(1));
    assert_eq!(rfind(&cs("abc"), &cs(".")), None);
    assert_eq!(rfind(&cs("abc"), &cs("")), Some(3));
    assert_eq!(rfind(&cs(".a"), &cs(".")), Some(0));
}

#[test]
fn stands_at_compares_in_place() {
    assert!(stands_at(&cs("abcd"), &cs("bc"), 1));
    assert!(!stands_at(&cs("abcd"), &cs("bc"), 2));
    assert!(stands_at(&cs("abcd"), &cs(""), 4));
}

#[test]
fn split_once_cuts_at_the_first_occurrence() {
    let text = cs("a--b--c");
    let (before, after) = split_once(&text, &cs("--")).unwrap();
    assert_eq!(string_of(before), "a");
    assert_eq!(string_of(after), "b--c");
    assert!(split_once(&cs("abc"), &cs("--")).is_none());
}

#[test]
fn rsplit_once_cuts_at_the_last_occurrence() {
    let text = cs("a.b.c");
    let (before, after) = rsplit_once(&text, &cs(".")).unwrap();
    assert_eq!(string_of(before), "a.b");
    assert_eq!(string_of(after), "c");
    assert!(rsplit_once(&cs("abc"), &cs(".")).is_none());
}

#[test]
fn split_gives_every_piece() {
    assert_eq!(split(&cs("a_b_c"), Delimiter::Char('_')), strings(&["a", "b", "c"]));
    assert_eq!(split(&cs("_a__b_"), Delimiter::Char('_')), strings(&["", "a", "", "b", ""]));
    assert_eq!(split(&cs(""), Delimiter::Char('_')), strings(&[""]));
    assert_eq!(split(&cs("abc"), Delimiter::Char('_')), strings(&["abc"]));
    assert_eq!(split(&cs("a \tb"), Delimiter::Whitespace), strings(&["a", "", "b"]));
}

#[test]
fn split_agrees_with_std() {
    for text in ["", "a", "_", "a_b", "__a__", "a b_c", "\u{e9}_\u{4e16}"] {
        let want: Vec<String> = text.split('_').map(|s| s.to_string()).collect();
        assert_eq!(split(&cs(text), Delimiter::Char('_')), want);
    }
    for text in ["", " ", "a b", "  a \t b\n", "a\u{a0}b", "\u{3000}"] {
        let want: Vec<String> = text.split_whitespace().map(|s| s.to_string()).collect();
        assert_eq!(keep_non_empty(&split(&cs(text), Delimiter::Whitespace)), want);
    }
}

#[test]
fn keep_non_empty_drops_the_empty_entries() {
    assert_eq!(keep_non_empty(&strings(&["", "a", "", "b", ""])), strings(&["a", "b"]));
    assert_eq!(keep_non_empty(&strings(&[""])), Vec::<String>::new());
    assert_eq!(keep_non_empty(&Vec::new()), Vec::<String>::new());
}

#[test]
fn trim_agrees_with_std() {
    for text in ["", " ", "a", "  a b \t\n", "\u{a0}x\u{3000}", "no-space", " \u{e9} "] {
        assert_eq!(string_of(trim(&cs(text))), text.trim());
    }
}

#[test]
fn str_eq_compares_characters() {
    assert!(str_eq("", ""));
    assert!(str_eq("pdf", "pdf"));
    assert!(!str_eq("pdf", "pd"));
    assert!(!str_eq("pdf", "pdg"));
    assert!(!str_eq("\u{e9}", "e"));
}

#[test]
fn contains_str_looks_for_an_equal_string() {
    let list = strings(&["a", "bc", ""]);
    assert!(contains_str(&list, "bc"));
    assert!(contains_str(&list, ""));
    assert!(!contains_str(&list, "b"));
    assert!(!contains_str(&Vec::new(), "a"));
}
