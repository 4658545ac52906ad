//! Messages to the user interface, and the language of a text.
use crate::text::same;
use crate::transcribe::TranscriptLine;
use crate::translate;
use vstd::prelude::*;
use vstd::string::*;

verus! {

/// What the workers tell the user interface.
pub enum UiMsg {
    NewLine(TranscriptLine),
    TranslationReady { id: u64, translated: String },
    TranslatorStatus(TranslatorStatus),
}

/// How far the translator is.
#[derive(Clone, Copy, Debug, PartialEq, Eq, Structural)]
pub enum TranslatorStatus {
    Loading,
    Ready,
    Failed,
}

/// Snapshot of the segment in progress, emitted a few times per second.
#[derive(Clone, Copy, Debug, PartialEq, Eq, Structural)]
pub struct DraftState {
    pub active: bool,
    /// Cumulative milliseconds that registered as speech.
    pub speech_ms: u32,
    /// Wall-clock milliseconds since the segment started.
    pub elapsed_ms: u32,
}

/// The draft while nobody speaks.
pub open spec fn idle_draft() -> DraftState {
    DraftState { active: false, speech_ms: 0, elapsed_ms: 0 }
}

impl Default for DraftState {
    fn default() -> (r: Self)
        ensures
            r == idle_draft(),
    {
        DraftState { active: false, speech_ms: 0, elapsed_ms: 0 }
    }
}

impl Clone for UiMsg {
    fn clone(&self) -> (r: Self)
        ensures
            match (*self, r) {
                (UiMsg::NewLine(a), UiMsg::NewLine(b)) => a@ == b@,
                (
                    UiMsg::TranslationReady { id: i, translated: s },
                    UiMsg::TranslationReady { id: j, translated: t },
                ) => i == j && s@ == t@,
                (UiMsg::TranslatorStatus(a), UiMsg::TranslatorStatus(b)) => a == b,
                _ => false,
            },
    {
        match self {
            UiMsg::NewLine(line) => UiMsg::NewLine(line.clone()),
            UiMsg::TranslationReady { id, translated } => UiMsg::TranslationReady {
                id: *id,
                translated: translated.clone(),
            },
            UiMsg::TranslatorStatus(s) => UiMsg::TranslatorStatus(*s),
        }
    }
}

/// The characters of the East Asian scripts that are told apart from Latin ones:
/// Hiragana, Katakana, the unified ideographs, half-width Katakana, Hangul syllables
/// and Jamo.
pub open spec fn is_east_asian(c: char) -> bool {
    let n = c as u32;
    ||| 0x3040 <= n <= 0x30FF
    ||| 0x4E00 <= n <= 0x9FFF
    ||| 0xFF66 <= n <= 0xFF9D
    ||| 0xAC00 <= n <= 0xD7A3
    ||| 0x1100 <= n <= 0x11FF
    ||| 0x3130 <= n <= 0x318F
    ||| 0xA960 <= n <= 0xA97F
    ||| 0xD7B0 <= n <= 0xD7FF
}

/// Whether some character of a text is East Asian.
pub open spec fn has_east_asian(text: Seq<char>) -> bool {
    exists|i: int| 0 <= i < text.len() && is_east_asian(#[trigger] text[i])
}

/// The language of a text: `ja` when it holds an East Asian character, else `en`.
pub open spec fn lang_of(text: Seq<char>) -> Seq<char> {
    if has_east_asian(text) {
        "ja"@
    } else {
        "en"@
    }
}

/// Binary classifier for column and translation-direction routing: "en" or "ja"
/// (there is no third bucket). Hangul deliberately maps to "ja": it only shows up
/// as a recogniser's hallucination, and the ja to en path rejects it.
pub fn detect_lang(text: &str) -> (r: &'static str)
    ensures
        r@ == lang_of(text@),
{
    for c in it: text.chars()
        invariant
            it.seq() == text@,
            forall|i: int| 0 <= i < it.index() ==> !is_east_asian(#[trigger] text@[i]),
    {
        let n: u32 = c as u32;
        if (0x3040 <= n && n <= 0x309F) || (0x30A0 <= n && n <= 0x30FF) || (0x4E00 <= n && n
            <= 0x9FFF) || (0xFF66 <= n && n <= 0xFF9D) || (0xAC00 <= n && n <= 0xD7A3) || (0x1100
            <= n && n <= 0x11FF) || (0x3130 <= n && n <= 0x318F) || (0xA960 <= n && n <= 0xA97F)
            || (0xD7B0 <= n && n <= 0xD7FF) {
            assert(is_east_asian(text@[it.index()]));
            return "ja";
        }
    }
    "en"
}

/// Text with Hangul counts as Japanese, whatever else it holds, so the guard against
/// leaks sees it on the way to English.
pub proof fn hangul_counts_as_japanese(text: Seq<char>)
    requires
        translate::hangul_in(text),
    ensures
        lang_of(text) == "ja"@,
{
    let i = choose|i: int| 0 <= i < text.len() && translate::is_hangul(#[trigger] text[i]);
    assert(is_east_asian(text[i]));
}

/// The language that a line counts as: the one that the recogniser was set to, or
/// what the text shows where it was left to detect it.
pub open spec fn spoken(setting: Seq<char>, text: Seq<char>) -> Seq<char> {
    if setting == "en"@ || setting == "ja"@ {
        setting
    } else {
        lang_of(text)
    }
}

/// The language that a line counts as.
pub fn spoken_lang(setting: &str, text: &str) -> (r: &'static str)
    ensures
        r@ == spoken(setting@, text@),
{
    if same(setting, "en") {
        "en"
    } else if same(setting, "ja") {
        "ja"
    } else {
        detect_lang(text)
    }
}

/// The language of a text, in terms of characters: Japanese where any of them is kana,
/// an ideograph or Korean, and English where none is. A setting for either language
/// comes before what the text shows.
pub proof fn language_in_characters(setting: Seq<char>, text: Seq<char>)
    ensures
        ({
            let east = exists|i: int|
                0 <= i < text.len() && {
                    let n = #[trigger] text[i] as u32;
                    ||| 0x3040 <= n <= 0x30FF
                    ||| 0x4E00 <= n <= 0x9FFF
                    ||| 0xFF66 <= n <= 0xFF9D
                    ||| 0xAC00 <= n <= 0xD7A3
                    ||| 0x1100 <= n <= 0x11FF
                    ||| 0x3130 <= n <= 0x318F
                    ||| 0xA960 <= n <= 0xA97F
                    ||| 0xD7B0 <= n <= 0xD7FF
                };
            &&& east ==> lang_of(text) == "ja"@
            &&& !east ==> lang_of(text) == "en"@
            &&& setting == "en"@ ==> spoken(setting, text) == "en"@
            &&& setting == "ja"@ ==> spoken(setting, text) == "ja"@
            &&& setting != "en"@ && setting != "ja"@ ==> spoken(setting, text) == lang_of(text)
        }),
{
    if has_east_asian(text) {
        let i = choose|i: int| 0 <= i < text.len() && is_east_asian(#[trigger] text[i]);
        let n = text[i] as u32;
    } else {
        assert forall|i: int| 0 <= i < text.len() implies !is_east_asian(#[trigger] text[i]) by {}
    }
}

/// While nobody speaks, the draft is not active and counts nothing.
pub proof fn idle_draft_counts_nothing()
    ensures
        !idle_draft().active,
        idle_draft().speech_ms == 0,
        idle_draft().elapsed_ms == 0,
{
}

} // verus!
