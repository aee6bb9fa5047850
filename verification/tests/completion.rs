use denote::completion::{rank, KeywordCompleter};

fn strings(items: &[&str]) -> Vec<String> {
    items.iter().map(|s| s.to_string()).collect()
}

fn entries(items: &[(&str, i64)]) -> Vec<(String, i64)> {
    items.iter().map(|(s, v)| (s.to_string(), *v)).collect()
}

#[test]
fn rank_puts_the_highest_score_first() {
    let ranked = rank(&entries(&[("a", 1), ("b", 30), ("c", -5), ("d", 7)]));
    assert_eq!(ranked, entries(&[("b", 30), ("d", 7), ("a", 1), ("c", -5)]));
}

#[test]
fn rank_keeps_the_order_of_equal_scores() {
    let ranked = rank(&entries(&[("a", 5), ("b", 9), ("c", 5), ("d", 9), ("e", 5)]));
    assert_eq!(ranked, entries(&[("b", 9), ("d", 9), ("a", 5), ("c", 5), ("e", 5)]));
}

#[test]
fn rank_of_nothing_and_of_one() {
    assert_eq!(rank(&Vec::new()), Vec::new());
    assert_eq!(rank(&entries(&[("a", 0)])), entries(&[("a", 0)]));
}

#[test]
fn rank_agrees_with_a_stable_sort() {
    let input = entries(&[("k0", 3), ("k1", 8), ("k2", 3), ("k3", i64::MAX), ("k4", i64::MIN), ("k5", 8), ("k6", 0)]);
    let mut want = input.clone();
    want.sort_by(|a, b| b.1.cmp(&a.1));
    assert_eq!(rank(&input), want);
}

#[test]
fn fuzzy_sort_leaves_out_what_does_not_match() {
    let completer = KeywordCompleter::new(strings(&["work", "project", "rust"]));
    let found = completer.fuzzy_sort("wk");
    assert_eq!(found.len(), 1);
    assert_eq!(found[0].0, "work");
    assert!(completer.fuzzy_sort("zzz").is_empty());
}

#[test]
fn fuzzy_sort_ranks_the_closer_match_first() {
    let completer = KeywordCompleter::new(strings(&["aoo_boo", "ab", "acb"]));
    let found = completer.fuzzy_sort("ab");
    let names: Vec<&str> = found.iter().map(|e| e.0.as_str()).collect();
    assert_eq!(names[0], "ab");
    assert_eq!(found.len(), 3);
    assert!(found[0].1 >= found[1].1 && found[1].1 >= found[2].1);
}

#[test]
fn fuzzy_sort_on_nothing_typed_keeps_every_keyword_in_order() {
    let completer = KeywordCompleter::new(strings(&["work", "project", "rust"]));
    assert_eq!(
        completer.fuzzy_sort(""),
        entries(&[("work", 0), ("project", 0), ("rust", 0)])
    );
}

#[test]
fn score_all_keeps_the_order_of_the_keywords() {
    let completer = KeywordCompleter::new(strings(&["rust", "trust", "verus"]));
    let found = completer.score_all("rus");
    let names: Vec<&str> = found.iter().map(|e| e.0.as_str()).collect();
    assert_eq!(names, vec!["rust", "trust", "verus"]);
}

#[test]
fn suggestions_are_all_the_keywords() {
    let completer = KeywordCompleter::new(strings(&["work", "project"]));
    assert_eq!(completer.get_suggestions("anything"), strings(&["work", "project"]));
}

#[test]
fn completion_replaces_the_last_word_with_the_highlighted_suggestion() {
    let completer = KeywordCompleter::new(strings(&["work", "project"]));
    assert_eq!(
        completer.get_completion("rust pro", Some("project".to_string())),
        Some("rust project".to_string())
    );
}

#[test]
fn completion_without_highlight_takes_the_best_match() {
    let completer = KeywordCompleter::new(strings(&["work", "project", "rust"]));
    assert_eq!(completer.get_completion("rust pro", None), Some("rust project".to_string()));
    assert_eq!(completer.get_completion("wo", None), Some("work".to_string()));
}

#[test]
fn completion_without_any_match_is_nothing() {
    let completer = KeywordCompleter::new(strings(&["work", "project"]));
    assert_eq!(completer.get_completion("zzz", None), None);
    assert_eq!(KeywordCompleter::new(Vec::new()).get_completion("a", None), None);
}

#[test]
fn completion_of_blank_input_appends_the_first_keyword() {
    let completer = KeywordCompleter::new(strings(&["work", "project"]));
    assert_eq!(completer.get_completion("", None), Some("work".to_string()));
    assert_eq!(completer.get_completion("  ", None), Some("  work".to_string()));
}

#[test]
fn completion_cuts_at_the_last_place_of_the_last_word() {
    let completer = KeywordCompleter::new(strings(&["abc"]));
    assert_eq!(
        completer.get_completion("ab ab ", Some("abc".to_string())),
        Some("ab abc".to_string())
    );
}
