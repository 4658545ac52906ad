//! Judgements on the text of a transcript.
use vstd::prelude::*;
use vstd::string::*;

verus! {

/// The marks that close a sentence in English or Japanese.
pub open spec fn is_sentence_mark(c: char) -> bool {
    c == '.' || c == '!' || c == '?' || c == '。' || c == '！' || c == '？'
}

/// Whether a text closes a sentence: its last character is such a mark.
pub open spec fn sentence_ends(text: Seq<char>) -> bool {
    text.len() > 0 && is_sentence_mark(text.last())
}

/// Whether a text closes a sentence.
pub fn is_sentence_end(text: &str) -> (r: bool)
    ensures
        r == sentence_ends(text@),
{
    let n: usize = text.unicode_len();
    if n == 0 {
        return false;
    }
    let c = text.get_char(n - 1);
    c == '.' || c == '!' || c == '?' || c == '。' || c == '！' || c == '？'
}

/// What closes a sentence: a full stop, an exclamation mark or a question mark at the
/// very end, in the form of either script.
pub proof fn what_closes_a_sentence(text: Seq<char>)
    ensures
        sentence_ends(text) <==> text.len() > 0 && ".!?。！？"@.contains(text[text.len() - 1]),
{
    if text.len() > 0 {
        let c = text[text.len() - 1];
        reveal_strlit(".!?。！？");
        let marks = ".!?。！？"@;
        assert(marks.len() == 6);
        assert(marks[0] == '.' && marks[1] == '!' && marks[2] == '?');
        assert(marks[3] == '。' && marks[4] == '！' && marks[5] == '？');
        if marks.contains(c) {
            let i = choose|i: int| 0 <= i < marks.len() && marks[i] == c;
            assert(i == 0 || i == 1 || i == 2 || i == 3 || i == 4 || i == 5);
        }
    }
}

} // verus!
