use kotoma::translate::has_hangul;
use kotoma::msg::{detect_lang, spoken_lang, DraftState, TranslatorStatus, UiMsg};

#[test]
fn kana_is_ja() {
    assert_eq!(detect_lang("こんにちは"), "ja");
}

#[test]
fn kanji_is_ja() {
    assert_eq!(detect_lang("会議"), "ja");
}

#[test]
fn ascii_is_en() {
    assert_eq!(detect_lang("Hello, world"), "en");
}

#[test]
fn mixed_with_kana_is_ja() {
    assert_eq!(detect_lang("OKです"), "ja");
}

#[test]
fn hangul_is_ja() {
    assert_eq!(detect_lang("안녕하세요"), "ja");
}

#[test]
fn extended_jamo_is_ja() {
    for c in ["\u{A960}", "\u{A97F}", "\u{D7B0}", "\u{D7FF}", "\u{1100}", "\u{318F}"] {
        assert!(has_hangul(c));
        assert_eq!(detect_lang(&format!("ok {c}")), "ja");
    }
    assert_eq!(detect_lang("\u{A95F}\u{A980}\u{D7A4}"), "en");
}

#[test]
fn empty_text_is_en() {
    assert_eq!(detect_lang(""), "en");
}

#[test]
fn accented_latin_is_en() {
    assert_eq!(detect_lang("café – voilà"), "en");
}

#[test]
fn idle_draft_is_default() {
    let d = DraftState::default();
    assert!(!d.active);
    assert_eq!(d.speech_ms, 0);
    assert_eq!(d.elapsed_ms, 0);
}

#[test]
fn messages_clone_with_their_contents() {
    let m = UiMsg::TranslationReady {
        id: 7,
        translated: "やあ".to_string(),
    };
    match m.clone() {
        UiMsg::TranslationReady { id, translated } => {
            assert_eq!(id, 7);
            assert_eq!(translated, "やあ");
        }
        _ => panic!("another message"),
    }
    match UiMsg::TranslatorStatus(TranslatorStatus::Ready).clone() {
        UiMsg::TranslatorStatus(s) => assert_eq!(s, TranslatorStatus::Ready),
        _ => panic!("another message"),
    }
}

#[test]
fn a_set_language_is_not_detected() {
    assert_eq!(spoken_lang("en", "こんにちは"), "en");
    assert_eq!(spoken_lang("ja", "hello"), "ja");
    assert_eq!(spoken_lang("auto", "hello"), "en");
    assert_eq!(spoken_lang("auto", "はい"), "ja");
}
