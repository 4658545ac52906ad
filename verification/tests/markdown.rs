use kotoma::markdown::{document, escape_cell, temporary_name};
use kotoma::time::Timestamp;
use kotoma::transcribe::TranscriptLine;

/// 2023-11-14, 22:13:20 in UTC.
fn at(secs: i64) -> Timestamp {
    Timestamp::new(1_700_000_000 + secs, 0, 0).unwrap()
}

fn sample_line() -> TranscriptLine {
    TranscriptLine {
        id: 0,
        text: "hello".into(),
        translated: Some("こんにちは".into()),
        src_lang: "en".into(),
        started_at: at(0),
        ended_at: at(2),
    }
}

#[test]
fn escapes_pipes_and_newlines() {
    assert_eq!(escape_cell("a|b\nc"), "a\\|b c");
}

#[test]
fn document_of_a_new_session() {
    let d = document(&vec![sample_line()], None, &at(60)).unwrap();
    assert!(d.contains("2023-11-14"));
    assert!(d.contains("| hello | こんにちは |"));
    assert!(d.contains("22:13"));
}

#[test]
fn document_of_a_resumed_session_keeps_prior_content() {
    let d = document(&vec![sample_line()], Some("# old notes\n"), &at(60)).unwrap();
    assert!(d.starts_with("# old notes\n"));
    assert!(d.contains("| hello | こんにちは |"));
}

#[test]
fn prior_content_gets_its_line_end() {
    let d = document(&vec![], Some("# old notes"), &at(60)).unwrap();
    assert_eq!(d, "# old notes\n\n");
}

#[test]
fn nothing_is_saved_of_an_empty_new_session() {
    assert!(document(&vec![], None, &at(60)).is_none());
}

#[test]
fn japanese_lines_stand_in_the_right_column() {
    let mut line = sample_line();
    line.src_lang = "ja".to_string();
    line.text = "はい".to_string();
    line.translated = Some("yes".to_string());
    let d = document(&vec![line], None, &at(60)).unwrap();
    assert!(d.contains("| yes | はい |"));
}

#[test]
fn a_line_without_translation_leaves_its_cell_empty() {
    let mut line = sample_line();
    line.translated = None;
    let d = document(&vec![line], None, &at(60)).unwrap();
    assert!(d.contains("| hello |  |"));
}

#[test]
fn saving_again_gives_the_same_document() {
    let prior = "# old notes\n";
    let one = document(&vec![sample_line()], Some(prior), &at(60)).unwrap();
    let again = document(&vec![sample_line()], Some(prior), &at(90)).unwrap();
    assert_eq!(one, again);
}

#[test]
fn each_line_is_one_row() {
    let mut line = sample_line();
    line.text = "one\ntwo | three".to_string();
    let d = document(&vec![line, sample_line()], None, &at(60)).unwrap();
    assert!(d.contains("| one two \\| three | こんにちは |\n"));
    assert_eq!(d.lines().filter(|l| l.contains("こんにちは")).count(), 2);
}

#[test]
fn temporary_file_stands_beside_the_document() {
    assert_eq!(temporary_name(Some("t.md")), "t.md.tmp");
    assert_eq!(temporary_name(None), "transcript.md.tmp");
}

#[test]
fn plain_cells_stay_as_they_are() {
    assert_eq!(escape_cell("plain text, 日本語"), "plain text, 日本語");
    assert_eq!(escape_cell("||"), "\\|\\|");
    assert_eq!(escape_cell(""), "");
}

#[test]
fn whole_document_of_a_session() {
    let mut second = sample_line();
    second.src_lang = "ja".to_string();
    second.text = "はい".to_string();
    second.translated = None;
    second.started_at = at(10);
    second.ended_at = at(86_400);
    let d = document(&vec![sample_line(), second], None, &at(60)).unwrap();
    assert_eq!(
        d,
        "---\ntitle: Transcript\ncreated: 2023-11-14 22:14:20\n---\n\n\
         ## 2023-11-14 22:13 – 2023-11-15 22:13\n\n\
         | time | English | 日本語 |\n|------|---------|--------|\n\
         | 22:13:20 | hello | こんにちは |\n| 22:13:30 |  | はい |\n"
    );
}
