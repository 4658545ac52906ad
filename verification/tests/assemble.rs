use kotoma::assemble::{Assembled, SentenceAssembler, MERGE_CHAR_CAP};
use kotoma::time::Timestamp;
use kotoma::transcribe::TranscriptLine;

/// A time on the same day, in milliseconds after noon.
fn at(ms: i64) -> Timestamp {
    let secs = 1_700_000_000 + ms / 1000;
    let nanos = (ms % 1000) as u32 * 1_000_000;
    Timestamp::new(secs, nanos, 0).unwrap()
}

fn line(id: u64, text: &str, lang: &str, start_ms: i64, end_ms: i64) -> TranscriptLine {
    TranscriptLine {
        id,
        text: text.to_string(),
        translated: None,
        src_lang: lang.to_string(),
        started_at: at(start_ms),
        ended_at: at(end_ms),
    }
}

fn as_merged(a: Assembled) -> TranscriptLine {
    match a {
        Assembled::Merged(l) => l,
        Assembled::New(l) => panic!("expected Merged, got New({})", l.text),
    }
}

fn as_new(a: Assembled) -> TranscriptLine {
    match a {
        Assembled::New(l) => l,
        Assembled::Merged(l) => panic!("expected New, got Merged({})", l.text),
    }
}

#[test]
fn fragment_then_continuation_merges() {
    let mut assembler = SentenceAssembler::new(2000);
    as_new(assembler.push(line(0, "I went to", "en", 0, 1000)));
    let m = as_merged(assembler.push(line(1, "the store.", "en", 1500, 2500)));
    assert_eq!(m.id, 0);
    assert_eq!(m.text, "I went to the store.");
    assert!(m.translated.is_none());
}

#[test]
fn japanese_merges_without_space() {
    let mut assembler = SentenceAssembler::new(2000);
    as_new(assembler.push(line(0, "昨日の会議で決まったことを", "ja", 0, 1000)));
    let m = as_merged(assembler.push(line(1, "共有します。", "ja", 1500, 2500)));
    assert_eq!(m.text, "昨日の会議で決まったことを共有します。");
}

#[test]
fn completed_sentence_does_not_merge() {
    let mut assembler = SentenceAssembler::new(2000);
    as_new(assembler.push(line(0, "That's done.", "en", 0, 1000)));
    let n = as_new(assembler.push(line(1, "Next topic", "en", 1500, 2500)));
    assert_eq!(n.id, 1);
}

#[test]
fn language_switch_does_not_merge() {
    let mut assembler = SentenceAssembler::new(2000);
    as_new(assembler.push(line(0, "I went to", "en", 0, 1000)));
    as_new(assembler.push(line(1, "お店です。", "ja", 1500, 2500)));
}

#[test]
fn long_pause_does_not_merge() {
    let mut assembler = SentenceAssembler::new(2000);
    as_new(assembler.push(line(0, "I went to", "en", 0, 1000)));
    as_new(assembler.push(line(1, "the store.", "en", 4000, 5000)));
}

#[test]
fn merge_chain_extends_the_same_line() {
    let mut assembler = SentenceAssembler::new(2000);
    as_new(assembler.push(line(0, "one", "en", 0, 1000)));
    as_merged(assembler.push(line(1, "two", "en", 1500, 2500)));
    let m = as_merged(assembler.push(line(2, "three.", "en", 3000, 4000)));
    assert_eq!(m.id, 0);
    assert_eq!(m.text, "one two three.");
}

#[test]
fn zero_gap_disables_merging() {
    let mut assembler = SentenceAssembler::new(0);
    as_new(assembler.push(line(0, "I went to", "en", 0, 1000)));
    as_new(assembler.push(line(1, "the store.", "en", 1200, 2000)));
}

#[test]
fn char_cap_blocks_runaway_merge() {
    let mut assembler = SentenceAssembler::new(2000);
    as_new(assembler.push(line(0, &"a".repeat(295), "en", 0, 1000)));
    as_new(assembler.push(line(1, &"b".repeat(10), "en", 1500, 2500)));
}

#[test]
fn the_gap_itself_still_merges() {
    let mut assembler = SentenceAssembler::new(500);
    as_new(assembler.push(line(0, "one", "en", 0, 1000)));
    as_merged(assembler.push(line(1, "two", "en", 1500, 2500)));
    as_new(assembler.push(line(2, "three", "en", 3001, 4000)));
}

#[test]
fn merged_line_spans_both_times() {
    let mut assembler = SentenceAssembler::new(2000);
    as_new(assembler.push(line(4, "one", "en", 0, 1000)));
    let m = as_merged(assembler.push(line(5, "two.", "en", 1500, 2500)));
    assert_eq!(m.started_at.millis_until(&at(0)), 0);
    assert_eq!(m.ended_at.millis_until(&at(2500)), 0);
    assert_eq!(m.src_lang, "en");
}

#[test]
fn the_separator_counts_toward_the_cap() {
    let mut assembler = SentenceAssembler::new(2000);
    as_new(assembler.push(line(0, &"a".repeat(150), "en", 0, 1000)));
    as_new(assembler.push(line(1, &"b".repeat(150), "en", 1500, 2500)));
    let mut assembler = SentenceAssembler::new(2000);
    as_new(assembler.push(line(0, &"a".repeat(150), "en", 0, 1000)));
    let m = as_merged(assembler.push(line(1, &"b".repeat(149), "en", 1500, 2500)));
    assert_eq!(m.text.chars().count(), MERGE_CHAR_CAP);
    let mut assembler = SentenceAssembler::new(2000);
    as_new(assembler.push(line(0, &"あ".repeat(150), "ja", 0, 1000)));
    let m = as_merged(assembler.push(line(1, &"い".repeat(150), "ja", 1500, 2500)));
    assert_eq!(m.text.chars().count(), MERGE_CHAR_CAP);
}

#[test]
fn a_transcript_is_runs_of_what_came_in() {
    let mut assembler = SentenceAssembler::new(2000);
    let mut transcript: Vec<TranscriptLine> = Vec::new();
    let input = [
        line(0, "one", "en", 0, 1000),
        line(1, "two.", "en", 1500, 2500),
        line(2, "そして", "ja", 3000, 4000),
        line(3, "次です。", "ja", 4500, 5000),
        line(4, "alone", "en", 5500, 6000),
        line(5, "late", "en", 9000, 9500),
    ];
    for l in input {
        match assembler.push(l) {
            Assembled::New(l) => transcript.push(l),
            Assembled::Merged(l) => {
                let last = transcript.len() - 1;
                assert_eq!(transcript[last].id, l.id);
                transcript[last] = l;
            }
        }
    }
    let texts: Vec<&str> = transcript.iter().map(|l| l.text.as_str()).collect();
    assert_eq!(texts, vec!["one two.", "そして次です。", "alone", "late"]);
    let ids: Vec<u64> = transcript.iter().map(|l| l.id).collect();
    assert_eq!(ids, vec![0, 2, 4, 5]);
}

#[test]
fn merged_text_stays_within_the_cap() {
    let mut assembler = SentenceAssembler::new(2000);
    let mut start = 0;
    let mut longest = 0;
    for id in 0..40 {
        let text = match assembler.push(line(id, &"word".repeat(10), "en", start, start + 900)) {
            Assembled::New(l) | Assembled::Merged(l) => l.text,
        };
        longest = longest.max(text.chars().count());
        start += 1000;
    }
    assert!(longest <= MERGE_CHAR_CAP);
    assert!(longest > 40);
}
