use kotoma::msg::{DraftState, TranslatorStatus};
use kotoma::time::Timestamp;
use kotoma::transcribe::TranscriptLine;
use kotoma::ui::{
    draw, help_flags, help_keys, picker_view, render_line, viewport, ColumnCache, Mark, PaneSize,
    Tone, TranscriptLayout, UiState, SOURCE_COL,
};
use kotoma::app::DevicePicker;

fn line(id: u64, text: &str, lang: &str, translated: Option<&str>) -> TranscriptLine {
    let t = Timestamp::new(1_700_000_000, 0, 0).unwrap();
    TranscriptLine {
        id,
        text: text.to_string(),
        translated: translated.map(|s| s.to_string()),
        src_lang: lang.to_string(),
        started_at: t,
        ended_at: t,
    }
}

fn size(width: u16, height: u16) -> PaneSize {
    PaneSize { width, height }
}

#[test]
fn the_source_side_is_marked() {
    let l = line(0, "hello", "en", Some("こんにちは"));
    let en = render_line(&l, "en");
    assert_eq!(en.head, "[22:13:20] ▶ ");
    assert_eq!(en.text, "hello");
    assert_eq!(en.tone, Tone::Source);
    let ja = render_line(&l, "ja");
    assert_eq!(ja.head, "[22:13:20]   ");
    assert_eq!(ja.text, "こんにちは");
    assert_eq!(ja.tone, Tone::Translated);
    let waiting = render_line(&line(1, "hi", "en", None), "ja");
    assert_eq!(waiting.text, "…");
    assert_eq!(waiting.tone, Tone::Waiting);
    let alone = render_line(&line(2, "はい", "ja", None), SOURCE_COL);
    assert_eq!(alone.text, "はい");
    assert_eq!(alone.tone, Tone::Source);
}

#[test]
fn rows_follow_the_width() {
    let lines = vec![line(0, "one two three", "en", None), line(1, "x", "en", None)];
    let mut c = ColumnCache::new();
    c.sync(&lines, "en", 80);
    assert_eq!(c.rows(), &vec![1, 1]);
    // The head alone takes 13 cells, so the words go below it.
    c.sync(&lines, "en", 14);
    assert_eq!(c.rows().len(), 2);
    assert!(c.rows()[0] > 1);
    c.sync(&lines, "en", 0);
    assert!(c.rows().is_empty());
}

#[test]
fn changed_lines_are_wrapped_again() {
    let mut lines = vec![line(0, "a", "en", None), line(1, "b", "en", None)];
    let mut c = ColumnCache::new();
    c.sync(&lines, "ja", 20);
    assert_eq!(c.rows(), &vec![1, 1]);
    lines[1].translated = Some("とても長い文章がここにあります".to_string());
    c.sync(&lines, "ja", 20);
    assert_eq!(c.rows(), &vec![1, 1]);
    c.invalidate_from(1);
    c.sync(&lines, "ja", 20);
    assert_eq!(c.rows()[0], 1);
    assert!(c.rows()[1] > 1);
}

#[test]
fn the_view_follows_the_tail() {
    let rows = vec![2u16, 3, 1, 4];
    let v = viewport(&rows, 4, 5, 0);
    assert_eq!(v.col_max, 5);
    assert_eq!((v.start, v.offset, v.end), (2, 0, 4));
    let v = viewport(&rows, 4, 5, 2);
    assert_eq!((v.start, v.offset, v.end), (1, 1, 4));
    let v = viewport(&rows, 4, 5, 5);
    assert_eq!((v.start, v.offset, v.end), (0, 0, 2));
    assert_eq!(viewport(&rows, 4, 5, 900), viewport(&rows, 4, 5, 5));
}

#[test]
fn a_short_transcript_is_not_scrolled() {
    let v = viewport(&vec![1, 1], 2, 10, 3);
    assert_eq!(v.col_max, 0);
    assert_eq!((v.start, v.offset, v.end), (0, 0, 2));
    let v = viewport(&vec![], 0, 10, 0);
    assert_eq!((v.start, v.offset, v.end), (0, 0, 0));
    let v = viewport(&vec![], 3, 10, 0);
    assert_eq!((v.start, v.offset, v.end), (3, 0, 3));
}

fn state<'a>(lines: &'a Vec<TranscriptLine>) -> UiState<'a> {
    UiState {
        lines,
        level_pct: 40,
        language: "en",
        recording: true,
        input_name: "Mic",
        model_name: "small.bin",
        saved_note: None,
        translator_status: TranslatorStatus::Ready,
        single_column: false,
        picker: None,
        show_help: false,
        draft: DraftState::default(),
        speech_secs: "0.0",
        elapsed_secs: "0.0",
        scroll_up: 0,
    }
}

#[test]
fn a_frame_shows_both_languages() {
    let lines = vec![line(0, "hello", "en", Some("やあ")), line(1, "はい", "ja", None)];
    let mut layout = TranscriptLayout::new();
    let s = draw(&state(&lines), &mut layout, size(40, 10), size(40, 10));
    assert_eq!(
        s.title,
        " kotoma · REC · lang=en · in=Mic · model=small.bin · tr=ready "
    );
    assert_eq!(s.level_pct, 40);
    assert_eq!(s.draft, " (no speech)");
    assert_eq!(s.first.title, " English ");
    assert_eq!(s.first.lines[0].text, "hello");
    assert_eq!(s.first.lines[1].text, "…");
    let ja = s.second.unwrap();
    assert_eq!(ja.title, " 日本語 ");
    assert_eq!(ja.lines[0].text, "やあ");
    assert_eq!(ja.lines[1].text, "はい");
    assert_eq!(s.scroll_max, 0);
    assert_eq!(
        s.help,
        " q quit&save · s save · l lang · d device · m sys-audio · space pause · ? help · ↑/PgUp scroll "
    );
    assert!(s.picker.is_none());
}

#[test]
fn a_frame_without_translation_has_one_column() {
    let lines = vec![line(0, "hello", "en", None), line(1, "はい", "ja", None)];
    let mut layout = TranscriptLayout::new();
    let mut st = state(&lines);
    st.single_column = true;
    st.language = "auto";
    st.recording = false;
    st.translator_status = TranslatorStatus::Failed;
    st.saved_note = Some("saved → x.md");
    st.scroll_up = 7;
    st.draft.active = true;
    st.speech_secs = "1.2";
    st.elapsed_secs = "3.4";
    let s = draw(&st, &mut layout, size(40, 1), size(0, 0));
    assert!(s.second.is_none());
    assert_eq!(s.first.title, " Transcript ");
    assert_eq!(s.first.lines[0].text, "hello");
    assert_eq!(s.scroll_max, 1);
    assert_eq!(
        s.title,
        " kotoma · PAUSED · lang=auto · in=Mic · model=small.bin · tr=off "
    );
    assert_eq!(s.draft, " ● capturing · 1.2s speech · 3.4s elapsed");
    assert_eq!(
        s.help,
        " saved → x.md · q quit&save · s save · ? help · ↑↓/PgUp/PgDn · End follow (−7) "
    );
    st.language = "ja";
    let s = draw(&st, &mut layout, size(40, 1), size(0, 0));
    assert_eq!(s.first.title, " 日本語 ");
}

#[test]
fn the_larger_column_bounds_scrolling() {
    let lines = vec![
        line(0, "short", "en", Some("とても長い文章がここにありますので折り返されます")),
        line(1, "short", "en", Some("とても長い文章がここにありますので折り返されます")),
    ];
    let mut layout = TranscriptLayout::new();
    let s = draw(&state(&lines), &mut layout, size(30, 2), size(30, 2));
    let second = s.second.unwrap();
    assert_eq!(s.first.view.col_max, 0);
    assert!(second.view.col_max > 0);
    assert_eq!(s.scroll_max, second.view.col_max);
    layout.invalidate_line(0);
    let again = draw(&state(&lines), &mut layout, size(30, 2), size(30, 2));
    assert_eq!(again.scroll_max, s.scroll_max);
}

#[test]
fn the_picker_marks_its_choices() {
    let pk = DevicePicker {
        mic: vec!["(none)".to_string(), "Mic".to_string()],
        sys: vec!["(none)".to_string(), "loopback:Out".to_string()],
        mic_sel: 1,
        sys_sel: 1,
        focus: 0,
    };
    let v = picker_view(&pk);
    assert!(v.mic_focused && !v.sys_focused);
    assert_eq!(v.mic[0].label, "  (none)");
    assert_eq!(v.mic[1].label, "▶ Mic");
    assert_eq!(v.mic[1].mark, Mark::Focused);
    assert_eq!(v.sys[1].label, "● [loopback] Out");
    assert_eq!(v.sys[1].mark, Mark::Selected);
    assert_eq!(v.sys[0].mark, Mark::Plain);
}

#[test]
fn the_help_is_aligned() {
    let keys = help_keys();
    assert_eq!(keys.len(), 11);
    assert_eq!(keys[0].key, " q / Ctrl+C      ");
    assert_eq!(keys[1].key, " s               ");
    assert_eq!(keys[6].key, " ↑ / ↓           ");
    assert_eq!(keys[10].description, "Toggle this help");
    let flags = help_flags();
    assert_eq!(flags.len(), 3);
    assert_eq!(flags[1].key, " -l <en|ja|auto> ");
}
