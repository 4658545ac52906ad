//! What flows from the speech detector to the transcript: segments and lines.
use crate::text;
use crate::time::{TimeModel, Timestamp};
use vstd::prelude::*;

verus! {

/// A stretch of speech, cut out of the audio stream.
pub struct Segment<T> {
    pub id: u64,
    pub samples: Vec<T>,
    pub started_at: Timestamp,
    pub ended_at: Timestamp,
    /// Milliseconds of the segment that registered as speech.
    pub speech_ms: u32,
}

/// One line of the transcript.
pub struct TranscriptLine {
    pub id: u64,
    pub text: String,
    /// The text in the other language, once it is there.
    pub translated: Option<String>,
    pub src_lang: String,
    pub started_at: Timestamp,
    pub ended_at: Timestamp,
}

/// The contents of a [`TranscriptLine`].
pub struct LineModel {
    pub id: u64,
    pub text: Seq<char>,
    pub translated: Option<Seq<char>>,
    pub src_lang: Seq<char>,
    pub started_at: TimeModel,
    pub ended_at: TimeModel,
}

impl View for TranscriptLine {
    type V = LineModel;

    open spec fn view(&self) -> LineModel {
        LineModel {
            id: self.id,
            text: self.text@,
            translated: text::opt_str(self.translated),
            src_lang: self.src_lang@,
            started_at: self.started_at@,
            ended_at: self.ended_at@,
        }
    }
}

/// The contents of each line of a list.
pub open spec fn line_models(lines: Seq<TranscriptLine>) -> Seq<LineModel> {
    Seq::new(lines.len(), |i: int| lines[i]@)
}

impl Clone for TranscriptLine {
    fn clone(&self) -> (r: Self)
        ensures
            r@ == self@,
    {
        TranscriptLine {
            id: self.id,
            text: self.text.clone(),
            translated: self.translated.clone(),
            src_lang: self.src_lang.clone(),
            started_at: self.started_at,
            ended_at: self.ended_at,
        }
    }
}

/// What stands for a transcript: each line in order, with all that is known of it.
pub proof fn transcripts_keep_their_lines(lines: Seq<TranscriptLine>)
    ensures
        line_models(lines).len() == lines.len(),
        forall|i: int|
            0 <= i < lines.len() ==> {
                let l = #[trigger] line_models(lines)[i];
                &&& l.id == lines[i].id
                &&& l.text == lines[i].text@
                &&& l.translated == text::opt_str(lines[i].translated)
                &&& l.src_lang == lines[i].src_lang@
                &&& l.started_at == lines[i].started_at@
                &&& l.ended_at == lines[i].ended_at@
            },
{
}

} // verus!
