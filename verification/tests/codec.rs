use denote::codec::{decode, encode, format_keywords, format_title};
use denote::filetype::FileType;

fn strings(items: &[&str]) -> Vec<String> {
    items.iter().map(|s| s.to_string()).collect()
}

#[test]
fn decode_reads_a_full_name() {
    let id = decode("20240105T093000--Meeting-Notes__work_project.md");
    assert_eq!(id.identifier, Some("20240105T093000".to_string()));
    assert_eq!(id.title_slug, "Meeting-Notes");
    assert_eq!(id.keywords, strings(&["work", "project"]));
    assert_eq!(id.extension, Some("md".to_string()));
}

#[test]
fn encode_without_keywords_has_no_keyword_part() {
    let name = encode("20240310T070000", "Weekly Review", "", FileType::Org);
    assert_eq!(name, "20240310T070000--Weekly-Review.org");
}

#[test]
fn encode_with_keywords() {
    let name = encode("20240105T093000", "Meeting Notes", "work project", FileType::Markdown);
    assert_eq!(name, "20240105T093000--Meeting-Notes__work_project.md");
}

#[test]
fn encode_each_format_has_its_suffix() {
    assert_eq!(encode("1", "t", "k", FileType::Markdown), "1--t__k.md");
    assert_eq!(encode("1", "t", "k", FileType::Text), "1--t__k.txt");
    assert_eq!(encode("1", "t", "k", FileType::Org), "1--t__k.org");
    assert_eq!(encode("1", "t", "k", FileType::Typst), "1--t__k.typ");
}

#[test]
fn suffixes_are_fixed() {
    assert_eq!(FileType::Markdown.as_ref(), ".md");
    assert_eq!(FileType::Text.as_ref(), ".txt");
    assert_eq!(FileType::Org.as_ref(), ".org");
    assert_eq!(FileType::Typst.as_ref(), ".typ");
}

#[test]
fn decode_of_encode_gives_the_parts_back() {
    let name = encode("20240105T093000", "  My   Great\tNote ", "rust verus proofs", FileType::Text);
    let id = decode(&name);
    assert_eq!(id.identifier, Some("20240105T093000".to_string()));
    assert_eq!(id.title_slug, format_title("  My   Great\tNote "));
    assert_eq!(id.title_slug, "My-Great-Note");
    assert_eq!(id.keywords, strings(&["rust", "verus", "proofs"]));
    assert_eq!(id.extension, Some("txt".to_string()));
}

#[test]
fn decode_of_encode_keeps_a_dot_in_a_keyword() {
    let name = encode("20240105T093000", "Release", "v1.2 notes", FileType::Markdown);
    assert_eq!(name, "20240105T093000--Release__v1.2_notes.md");
    let id = decode(&name);
    assert_eq!(id.keywords, strings(&["v1.2", "notes"]));
    assert_eq!(id.extension, Some("md".to_string()));
}

#[test]
fn decode_of_encode_drops_empty_keywords() {
    let name = encode("20240105T093000", "a", "x  y ", FileType::Markdown);
    assert_eq!(name, "20240105T093000--a__x__y_.md");
    let id = decode(&name);
    assert_eq!(id.title_slug, "a");
    assert_eq!(id.keywords, strings(&["x", "y"]));
}

#[test]
fn decode_without_keywords_reads_no_extension() {
    let id = decode("20240310T070000--Weekly-Review.org");
    assert_eq!(id.identifier, Some("20240310T070000".to_string()));
    assert_eq!(id.title_slug, "Weekly-Review.org");
    assert!(id.keywords.is_empty());
    assert_eq!(id.extension, None);
}

#[test]
fn decode_without_dashes_has_no_identifier() {
    let id = decode("random.txt");
    assert_eq!(id.identifier, None);
    assert_eq!(id.title_slug, "random.txt");
    assert!(id.keywords.is_empty());
    assert_eq!(id.extension, None);

    let hidden = decode(".git");
    assert_eq!(hidden.identifier, None);
    assert_eq!(hidden.title_slug, ".git");
    assert!(hidden.keywords.is_empty());
}

#[test]
fn decode_of_the_empty_name() {
    let id = decode("");
    assert_eq!(id.identifier, None);
    assert_eq!(id.title_slug, "");
    assert!(id.keywords.is_empty());
    assert_eq!(id.extension, None);
}

#[test]
fn decode_drops_empty_keyword_segments() {
    let id = decode("1--t__a__b_.md");
    assert_eq!(id.keywords, strings(&["a", "b"]));
    assert_eq!(id.extension, Some("md".to_string()));
}

#[test]
fn decode_cuts_at_the_last_dot() {
    let id = decode("1--t__a.b_c.tar.gz");
    assert_eq!(id.keywords, strings(&["a.b", "c.tar"]));
    assert_eq!(id.extension, Some("gz".to_string()));
}

#[test]
fn decode_keywords_without_extension() {
    let id = decode("1--t__a_b");
    assert_eq!(id.keywords, strings(&["a", "b"]));
    assert_eq!(id.extension, None);
}

#[test]
fn decode_cuts_at_the_first_separators() {
    let id = decode("a--b--c__d__e.md");
    assert_eq!(id.identifier, Some("a".to_string()));
    assert_eq!(id.title_slug, "b--c");
    assert_eq!(id.keywords, strings(&["d", "e"]));
}

#[test]
fn decode_reads_names_beyond_ascii() {
    let id = decode("20240105T093000--Caf\u{e9}-\u{4e16}\u{754c}__r\u{e9}sum\u{e9}.md");
    assert_eq!(id.title_slug, "Caf\u{e9}-\u{4e16}\u{754c}");
    assert_eq!(id.keywords, strings(&["r\u{e9}sum\u{e9}"]));
}

#[test]
fn format_title_joins_words_with_hyphens() {
    assert_eq!(format_title("My Great Note"), "My-Great-Note");
    assert_eq!(format_title("  My \t Great\nNote  "), "My-Great-Note");
    assert_eq!(format_title("one"), "one");
    assert_eq!(format_title(""), "");
    assert_eq!(format_title("   "), "");
    assert_eq!(format_title("a\u{a0}b\u{3000}c"), "a-b-c");
}

#[test]
fn format_keywords_joins_tokens_with_underscores() {
    assert_eq!(format_keywords("work project"), "__work_project");
    assert_eq!(format_keywords(""), "");
    assert_eq!(format_keywords("a"), "__a");
    assert_eq!(format_keywords("a\t b"), "__a_b");
    assert_eq!(format_keywords(" "), "___");
}
