use denote::filetype::FileType;
use denote::frontmatter::{front_matter_block, to_org_front_matter, FrontMatter};

fn sample() -> FrontMatter {
    FrontMatter {
        title: "Weekly Review".to_string(),
        date: "2024-03-10 Sun 07:00".to_string(),
        file_tags: vec!["work".to_string(), "review".to_string()],
        indentifier: "20240310T070000".to_string(),
    }
}

#[test]
fn org_front_matter_has_four_lines() {
    let want = "#+TITLE: Weekly Review\n#+DATE: 2024-03-10 Sun 07:00\n#+FILETAGS: work review\n#+IDENTIFIER: 20240310T070000";
    assert_eq!(sample().to_org_front_matter(), want);
    assert_eq!(to_org_front_matter(sample()), want);
}

#[test]
fn org_front_matter_without_tags() {
    let fm = FrontMatter {
        title: "t".to_string(),
        date: "d".to_string(),
        file_tags: Vec::new(),
        indentifier: "i".to_string(),
    };
    assert_eq!(fm.to_org_front_matter(), "#+TITLE: t\n#+DATE: d\n#+FILETAGS: \n#+IDENTIFIER: i");
}

#[test]
fn front_matter_of_typed_input() {
    let fm = FrontMatter::new("My Note", "2024-01-05 Fri 09:30", "work project", "20240105T093000");
    assert_eq!(fm.title, "My Note");
    assert_eq!(fm.date, "2024-01-05 Fri 09:30");
    assert_eq!(fm.file_tags, vec!["work".to_string(), "project".to_string()]);
    assert_eq!(fm.indentifier, "20240105T093000");
}

#[test]
fn front_matter_tags_are_the_pieces_as_typed() {
    let fm = FrontMatter::new("t", "d", "", "i");
    assert_eq!(fm.file_tags, vec!["".to_string()]);
    let spaced = FrontMatter::new("t", "d", "a  b", "i");
    assert_eq!(spaced.file_tags, vec!["a".to_string(), "".to_string(), "b".to_string()]);
}

#[test]
fn yaml_is_framed_by_hyphens() {
    let yaml = "title: Weekly Review\ndate: d\n";
    let want = "---\ntitle: Weekly Review\ndate: d\n---\n";
    assert_eq!(front_matter_block(FileType::Markdown, &sample(), yaml), want);
    assert_eq!(front_matter_block(FileType::Text, &sample(), yaml), want);
}

#[test]
fn org_files_take_the_org_lines() {
    let block = front_matter_block(FileType::Org, &sample(), "ignored: yes\n");
    assert_eq!(block, sample().to_org_front_matter());
}

#[test]
fn typst_files_take_no_front_matter() {
    assert_eq!(front_matter_block(FileType::Typst, &sample(), "title: t\n"), "");
}
