use kotoma::app::{
    check_translator_model, page_rows, system_source, Action, Key, ModelCheck, Session, Setup, Wheel,
};
use kotoma::msg::{DraftState, TranslatorStatus, UiMsg};
use kotoma::time::Timestamp;
use kotoma::transcribe::TranscriptLine;
use kotoma::ui::PaneSize;

fn line(id: u64, text: &str) -> TranscriptLine {
    let t = Timestamp::new(1_700_000_000, 0, 0).unwrap();
    TranscriptLine {
        id,
        text: text.to_string(),
        translated: None,
        src_lang: "en".to_string(),
        started_at: t,
        ended_at: t,
    }
}

fn session() -> Session {
    Session::new(Setup {
        mic_device: "default",
        sys_device: None,
        language: "en",
        model_file: Some("small.bin"),
        input_name: "Mic",
        translating: true,
        single_column: false,
    })
}

fn frame(s: &mut Session, height: u16) -> u16 {
    let pane = PaneSize { width: 40, height };
    s.frame(0, "0.0", "0.0", pane, pane).scroll_max
}

fn names(list: &[&str]) -> Vec<String> {
    list.iter().map(|s| s.to_string()).collect()
}

#[test]
fn a_session_starts_idle() {
    let s = session();
    assert_eq!(s.sys_device, "(none)");
    assert_eq!(s.model_name, "small.bin");
    assert_eq!(s.translator_status, TranslatorStatus::Loading);
    assert!(s.needs_redraw && !s.paused && s.lines.is_empty());
    let t = Session::new(Setup {
        mic_device: "Mic",
        sys_device: Some("auto"),
        language: "ja",
        model_file: None,
        input_name: "Mic",
        translating: false,
        single_column: true,
    });
    assert_eq!(t.sys_device, "auto");
    assert_eq!(t.model_name, "unknown");
    assert_eq!(t.translator_status, TranslatorStatus::Failed);
}

#[test]
fn translator_models_are_checked() {
    assert_eq!(check_translator_model(false, None), ModelCheck::Missing);
    assert_eq!(check_translator_model(true, Some(9_999_999)), ModelCheck::TooSmall);
    assert_eq!(check_translator_model(true, Some(10_000_000)), ModelCheck::Usable);
    assert_eq!(check_translator_model(true, None), ModelCheck::Usable);
}

#[test]
fn a_translation_reaches_its_line() {
    let mut s = session();
    for id in 0..3 {
        s.on_message(UiMsg::NewLine(line(id, "x")));
    }
    s.on_message(UiMsg::NewLine(line(1, "again")));
    s.on_message(UiMsg::TranslationReady { id: 1, translated: "やあ".to_string() });
    s.on_message(UiMsg::TranslationReady { id: 9, translated: "no".to_string() });
    assert_eq!(s.lines[1].translated, Some("やあ".to_string()));
    assert_eq!(s.lines[0].translated, None);
    assert_eq!(s.lines[3].translated, None);
    s.on_message(UiMsg::TranslatorStatus(TranslatorStatus::Ready));
    assert_eq!(s.translator_status, TranslatorStatus::Ready);
}

#[test]
fn a_long_translation_takes_its_rows() {
    let mut s = session();
    s.on_message(UiMsg::NewLine(line(0, "x")));
    s.on_message(UiMsg::NewLine(line(1, "x")));
    assert_eq!(frame(&mut s, 2), 0);
    s.on_message(UiMsg::TranslationReady { id: 0, translated: "長い文".repeat(20) });
    assert!(frame(&mut s, 2) > 0);
}

#[test]
fn frames_come_when_something_changed() {
    let mut s = session();
    assert!(s.frame_due(0, 0));
    assert!(!s.frame_due(0, 5_000));
    assert!(!s.frame_due(3, 5_000));
    assert!(!s.frame_due(4, 99));
    assert!(s.frame_due(4, 100));
    assert!(!s.frame_due(4, 5_000));
    s.on_draft(DraftState { active: true, speech_ms: 30, elapsed_ms: 40 });
    assert!(s.draft.active);
    assert!(s.frame_due(4, 0));
    s.on_other_event();
    assert!(s.frame_due(4, 0));
}

#[test]
fn scrolling_stays_within_the_transcript() {
    let mut s = session();
    for id in 0..10 {
        s.on_message(UiMsg::NewLine(line(id, "x")));
    }
    assert_eq!(frame(&mut s, 4), 6);
    s.on_key(Key::Up, false, 2);
    assert_eq!(s.scroll_up, 1);
    s.on_key(Key::Down, false, 2);
    assert_eq!(s.scroll_up, 0);
    s.on_key(Key::Down, false, 2);
    assert_eq!(s.scroll_up, 0);
    s.on_key(Key::PageUp, false, 2);
    assert_eq!(s.scroll_up, 2);
    s.on_wheel(Wheel::Up);
    assert_eq!(s.scroll_up, 5);
    s.on_wheel(Wheel::Up);
    assert_eq!(s.scroll_up, 6);
    s.on_wheel(Wheel::Down);
    assert_eq!(s.scroll_up, 3);
    s.on_key(Key::PageDown, false, 2);
    assert_eq!(s.scroll_up, 1);
    s.on_key(Key::Home, false, 2);
    assert_eq!(s.scroll_up, 6);
    assert_eq!(frame(&mut s, 8), 2);
    assert_eq!(s.scroll_up, 2);
    s.on_key(Key::End, false, 2);
    assert_eq!(s.scroll_up, 0);
}

#[test]
fn languages_go_round() {
    let mut s = session();
    let mut seen = Vec::new();
    for _ in 0..3 {
        match s.on_key(Key::Char('l'), false, 1) {
            Action::SetLanguage(l) => seen.push(l),
            _ => panic!("no language"),
        }
    }
    assert_eq!(seen, vec!["ja", "auto", "en"]);
    assert_eq!(s.language, "en");
}

#[test]
fn pausing_twice_resumes() {
    let mut s = session();
    assert!(matches!(s.on_key(Key::Char(' '), false, 1), Action::SetPaused(true)));
    assert!(s.paused);
    assert!(matches!(s.on_key(Key::Char(' '), false, 1), Action::SetPaused(false)));
    assert!(!s.paused);
}

#[test]
fn quitting_saves() {
    let mut s = session();
    assert!(matches!(s.on_key(Key::Char('q'), false, 1), Action::SaveAndQuit));
    assert!(matches!(s.on_key(Key::Char('c'), true, 1), Action::SaveAndQuit));
    assert!(matches!(s.on_key(Key::Char('c'), false, 1), Action::Nothing));
    assert!(matches!(s.on_key(Key::Char('s'), false, 1), Action::Save));
    s.on_saved("notes.md");
    assert_eq!(s.saved_note, Some("saved → notes.md".to_string()));
    assert!(matches!(s.on_key(Key::Other, false, 1), Action::Nothing));
}

#[test]
fn an_interrupt_quits_through_overlays() {
    let mut s = session();
    s.on_key(Key::Char('?'), false, 1);
    assert!(matches!(s.on_key(Key::Char('c'), true, 1), Action::SaveAndQuit));
    assert!(matches!(s.on_key(Key::Char('c'), false, 1), Action::Nothing));
    let mut s = session();
    s.on_devices(&names(&["Mic"]), &vec![]);
    assert!(matches!(s.on_key(Key::Char('c'), true, 1), Action::SaveAndQuit));
    assert!(s.picker.is_some());
    assert!(matches!(s.on_key(Key::Char('c'), false, 1), Action::Nothing));
}

#[test]
fn help_takes_the_keys() {
    let mut s = session();
    s.on_key(Key::Char('?'), false, 1);
    assert!(s.show_help);
    assert!(matches!(s.on_key(Key::Char('s'), false, 1), Action::Nothing));
    assert!(s.show_help);
    assert!(matches!(s.on_key(Key::Char('q'), false, 1), Action::Nothing));
    assert!(!s.show_help);
}

#[test]
fn sources_are_picked() {
    let mut s = session();
    assert!(matches!(s.on_key(Key::Char('d'), false, 1), Action::ListDevices));
    s.on_devices(&names(&["Mic"]), &names(&["Out"]));
    let pk = s.picker.as_ref().unwrap();
    assert_eq!(pk.mic, vec!["(none)", "default", "Mic"]);
    assert_eq!(pk.mic_sel, 1);
    assert_eq!(pk.sys_sel, 0);
    s.on_key(Key::Down, false, 1);
    s.on_key(Key::Down, false, 1);
    assert_eq!(s.picker.as_ref().unwrap().mic_sel, 2);
    s.on_key(Key::Tab, false, 1);
    s.on_key(Key::Up, false, 1);
    for _ in 0..9 {
        s.on_key(Key::Down, false, 1);
    }
    assert_eq!(s.picker.as_ref().unwrap().sys_sel, 3);
    match s.on_key(Key::Enter, false, 1) {
        Action::Switch { mic, sys } => {
            assert_eq!(mic, "Mic");
            assert_eq!(sys, "loopback:Out");
            s.on_switched(mic, sys, Some("Mic + Out".to_string()));
        }
        _ => panic!("no switch"),
    }
    assert!(s.picker.is_none());
    assert_eq!(s.input_name, "Mic + Out");
    assert_eq!(s.mic_device, "Mic");
    assert_eq!(s.sys_device, "loopback:Out");
    s.on_devices(&names(&["Mic"]), &vec![]);
    // The device is gone: the choice falls back to detection.
    assert_eq!(s.picker.as_ref().unwrap().sys_sel, 1);
    s.on_key(Key::Esc, false, 1);
    assert!(s.picker.is_none());
    s.on_switched("other".to_string(), "other".to_string(), None);
    assert_eq!(s.mic_device, "Mic");
}

#[test]
fn system_audio_toggles() {
    let mut s = session();
    match s.on_key(Key::Char('m'), false, 1) {
        Action::ToggleSystemAudio { mic, sys } => {
            assert_eq!(mic, "default");
            assert_eq!(sys, "(auto)");
            assert_eq!(system_source(&sys), Some("(auto)"));
            s.on_toggled(sys, Ok("Mic + Out".to_string()));
        }
        _ => panic!("no toggle"),
    }
    assert_eq!(s.saved_note, Some("system audio: Mic + Out".to_string()));
    assert_eq!(s.sys_device, "(auto)");
    match s.on_key(Key::Char('m'), false, 1) {
        Action::ToggleSystemAudio { sys, .. } => {
            assert_eq!(sys, "(none)");
            assert_eq!(system_source(&sys), None);
            s.on_toggled(sys, Err("busy".to_string()));
        }
        _ => panic!("no toggle"),
    }
    assert_eq!(s.saved_note, Some("system audio: busy".to_string()));
    assert_eq!(s.sys_device, "(auto)");
    assert_eq!(s.input_name, "Mic + Out");
}

#[test]
fn pages_are_half_a_screen() {
    assert_eq!(page_rows(Some(24)), 12);
    assert_eq!(page_rows(Some(1)), 1);
    assert_eq!(page_rows(None), 5);
}
