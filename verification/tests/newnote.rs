use denote::codec::decode;
use denote::ctx::{with_ctx, Ctx};
use denote::filetype::FileType;
use denote::input::InputError;
use denote::newnote::{denote, denote_at, renamed_name};
use denote::note::Note;
use denote::options::Opts;

fn context(filetype: FileType, names: &[&str]) -> Ctx {
    let mut opts = Opts::defaults(Some("/home/ada"), None);
    opts.notes_filetype = filetype;
    Ctx::new(opts, names.iter().map(|s| Note(s.to_string())).collect())
}

#[test]
fn a_context_holds_the_keywords_of_its_notes() {
    let ctx = context(FileType::Markdown, &[".git", "1--a__x.md", "2--b__y_x.md"]);
    assert_eq!(ctx.keywords, vec!["x".to_string(), "y".to_string()]);
    assert_eq!(ctx.notes.len(), 3);
    assert_eq!(ctx.notes[1].0, "1--a__x.md");
    assert_eq!(ctx.opts.note_dir, "/home/ada/notes/");
}

#[test]
fn with_ctx_hands_the_context_to_the_function() {
    let ctx = context(FileType::Markdown, &["1--a__x.md"]);
    assert_eq!(with_ctx(ctx, |c: &Ctx| c.notes.len() + c.keywords.len()), 2);
}

#[test]
fn a_note_made_at_a_given_time() {
    let note = denote_at(
        "20240105T093000",
        "2024-01-05 Fri 09:30",
        "Meeting Notes",
        "work project",
        FileType::Markdown,
    )
    .unwrap();
    assert_eq!(note.file_name, "20240105T093000--Meeting-Notes__work_project.md");
    assert_eq!(note.front_matter.title, "Meeting Notes");
    assert_eq!(note.front_matter.date, "2024-01-05 Fri 09:30");
    assert_eq!(note.front_matter.file_tags, vec!["work".to_string(), "project".to_string()]);
    assert_eq!(note.front_matter.indentifier, "20240105T093000");
}

#[test]
fn input_that_is_not_accepted_makes_no_note() {
    assert_eq!(
        denote_at("i", "d", "", "a", FileType::Org).err(),
        Some(InputError::EmptyTitle)
    );
    assert_eq!(
        denote_at("i", "d", "t", "a_b", FileType::Org).err(),
        Some(InputError::SeparatorInKeywords)
    );
    let ctx = context(FileType::Org, &[]);
    assert_eq!(denote(&ctx, "", "a").err(), Some(InputError::EmptyTitle));
}

#[test]
fn a_note_made_now_has_a_timestamp_for_identifier() {
    let ctx = context(FileType::Typst, &[]);
    let note = denote(&ctx, "Weekly Review", "work").unwrap();
    let id = note.front_matter.indentifier.clone();
    let chars: Vec<char> = id.chars().collect();
    assert_eq!(chars.len(), 15);
    assert_eq!(chars[8], 'T');
    assert!(chars.iter().enumerate().all(|(i, c)| i == 8 || c.is_ascii_digit()));
    assert_eq!(note.file_name, format!("{}--Weekly-Review__work.typ", id));
    assert!(!note.front_matter.date.is_empty());
    assert!(!note.front_matter.date.contains('%'));

    let read = decode(&note.file_name);
    assert_eq!(read.identifier, Some(id));
    assert_eq!(read.title_slug, "Weekly-Review");
    assert_eq!(read.keywords, vec!["work".to_string()]);
    assert_eq!(read.extension, Some("typ".to_string()));
    assert!(Note(note.file_name.clone()).date().is_some());
}

#[test]
fn a_renamed_file_keeps_its_extension() {
    assert_eq!(renamed_name("20240105T093000--a__x", Some("pdf")), "20240105T093000--a__x.pdf");
    assert_eq!(renamed_name("20240105T093000--a__x", None), "20240105T093000--a__x");
    assert_eq!(renamed_name("n", Some("")), "n.");
}

#[test]
fn a_note_made_now_shows_its_date_as_day_weekday_and_time() {
    let ctx = context(FileType::Markdown, &[]);
    let note = denote(&ctx, "t", "k").unwrap();
    let chars: Vec<char> = note.front_matter.date.chars().collect();
    assert_eq!(chars.len(), 20);
    for (i, c) in chars.iter().enumerate() {
        match i {
            4 | 7 => assert_eq!(*c, '-'),
            10 | 14 => assert_eq!(*c, ' '),
            11..=13 => assert!(c.is_ascii_alphabetic()),
            17 => assert_eq!(*c, ':'),
            _ => assert!(c.is_ascii_digit()),
        }
    }
    let weekday: String = chars[11..14].iter().collect();
    assert!(["Mon", "Tue", "Wed", "Thu", "Fri", "Sat", "Sun"].contains(&weekday.as_str()));
}
