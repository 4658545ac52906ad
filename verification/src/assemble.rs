//! Merges consecutive transcript fragments into sentence-shaped lines.
//!
//! Segments end at pauses, not at sentence boundaries, and Japanese puts the verb
//! last, so translating fragments is structurally lossy. When a segment does not
//! end a sentence and the next one follows quickly in the same language, the two
//! become one line (keeping the first id) and the merged text is translated again,
//! replacing the fragment's translation.
use crate::filter::{self, is_sentence_end};
use crate::text::{self, same};
use crate::time;
use crate::transcribe::{LineModel, TranscriptLine};
use vstd::prelude::*;
use vstd::string::*;

verus! {

/// Hard cap on the characters of a merged line: a speaker who never pauses at
/// sentence ends shall not grow one line without bound.
pub const MERGE_CHAR_CAP: usize = 300;

/// What became of a line.
pub enum Assembled {
    /// A fresh line: append it to the transcript.
    New(TranscriptLine),
    /// The text of an existing line grew: replace the line with this id and
    /// translate the whole merged text again.
    Merged(TranscriptLine),
}

/// Joins fragments of a sentence.
pub struct SentenceAssembler {
    max_gap_ms: i64,
    open: Option<TranscriptLine>,
}

/// The contents of a [`SentenceAssembler`].
pub struct AssemblerModel {
    /// The largest pause in milliseconds that still counts as the same sentence.
    pub max_gap_ms: int,
    /// The line that may still grow.
    pub open: Option<LineModel>,
}

impl View for SentenceAssembler {
    type V = AssemblerModel;

    closed spec fn view(&self) -> AssemblerModel {
        AssemblerModel {
            max_gap_ms: self.max_gap_ms as int,
            open: match self.open {
                Some(l) => Some(l@),
                None => None,
            },
        }
    }
}

/// What stands between two parts of a line in this language.
pub open spec fn separator(lang: Seq<char>) -> Seq<char> {
    if lang == "ja"@ {
        ""@
    } else {
        " "@
    }
}

/// Whether `next` continues the sentence that `open` began, and the line made of both
/// stays within the cap.
pub open spec fn continues(open: LineModel, next: LineModel, max_gap_ms: int) -> bool {
    &&& max_gap_ms > 0
    &&& open.src_lang == next.src_lang
    &&& !filter::sentence_ends(open.text)
    &&& time::millis_between(open.ended_at, next.started_at) <= max_gap_ms
    &&& open.text.len() + separator(open.src_lang).len() + next.text.len() <= MERGE_CHAR_CAP
}

/// The one line made of two: the texts joined, with a space between them unless
/// they are Japanese, and no translation yet.
pub open spec fn merge(open: LineModel, next: LineModel) -> LineModel {
    LineModel {
        text: open.text + separator(open.src_lang) + next.text,
        ended_at: next.ended_at,
        translated: None,
        ..open
    }
}

/// Whether the assembler joins `line` to the line that it holds open.
pub open spec fn joins(m: AssemblerModel, line: LineModel) -> bool {
    m.open matches Some(open) && continues(open, line, m.max_gap_ms)
}

/// The line that a push gives back: the open line with `line` joined to it, or
/// `line` itself.
pub open spec fn pushed(m: AssemblerModel, line: LineModel) -> LineModel {
    if joins(m, line) {
        merge(m.open->0, line)
    } else {
        line
    }
}

/// The assembler after a push: the line given back is the open one.
pub open spec fn after_push(m: AssemblerModel, line: LineModel) -> AssemblerModel {
    AssemblerModel { open: Some(pushed(m, line)), ..m }
}

impl SentenceAssembler {
    /// `max_gap_ms` is the largest pause between segments that still counts as the
    /// same sentence; 0 disables merging entirely.
    pub fn new(max_gap_ms: u32) -> (r: Self)
        ensures
            r@ == (AssemblerModel { max_gap_ms: max_gap_ms as int, open: None }),
    {
        SentenceAssembler { max_gap_ms: max_gap_ms as i64, open: None }
    }

    /// Takes the next line: it joins the open line, or stands for itself.
    pub fn push(&mut self, line: TranscriptLine) -> (r: Assembled)
        ensures
            final(self)@ == after_push(old(self)@, line@),
            match r {
                Assembled::Merged(l) => joins(old(self)@, line@) && l@ == pushed(
                    old(self)@,
                    line@,
                ),
                Assembled::New(l) => !joins(old(self)@, line@) && l@ == line@,
            },
    {
        if self.max_gap_ms > 0 {
            if let Some(open) = &self.open {
                let have: usize = open.text.as_str().unicode_len();
                let more: usize = line.text.as_str().unicode_len();
                let sep = if same(open.src_lang.as_str(), "ja") {
                    ""
                } else {
                    " "
                };
                let between: usize = sep.unicode_len();
                proof {
                    reveal_strlit("");
                    reveal_strlit(" ");
                }
                let mergeable = same(open.src_lang.as_str(), line.src_lang.as_str())
                    && !is_sentence_end(open.text.as_str())
                    && open.ended_at.millis_until(&line.started_at) <= self.max_gap_ms
                    && have <= MERGE_CHAR_CAP && more <= MERGE_CHAR_CAP && have + between + more
                    <= MERGE_CHAR_CAP;
                if mergeable {
                    let mut text = open.text.clone();
                    text.append(sep);
                    text.append(line.text.as_str());
                    let merged = TranscriptLine {
                        id: open.id,
                        text,
                        translated: None,
                        src_lang: open.src_lang.clone(),
                        started_at: open.started_at,
                        ended_at: line.ended_at,
                    };
                    self.open = Some(merged.clone());
                    return Assembled::Merged(merged);
                }
            }
        }
        self.open = Some(line.clone());
        Assembled::New(line)
    }
}

/// A transcript after one push: the line given back replaces the last one when it
/// was joined to it, and is appended otherwise.
pub open spec fn extend_transcript(
    lines: Seq<LineModel>,
    m: AssemblerModel,
    line: LineModel,
) -> Seq<LineModel> {
    if joins(m, line) {
        lines.update(lines.len() - 1, pushed(m, line))
    } else {
        lines.push(pushed(m, line))
    }
}

/// The assembler after a whole session that began with a new one.
pub open spec fn session_state(max_gap_ms: int, input: Seq<LineModel>) -> AssemblerModel
    decreases input.len(),
{
    if input.len() == 0 {
        AssemblerModel { max_gap_ms, open: None }
    } else {
        after_push(session_state(max_gap_ms, input.drop_last()), input.last())
    }
}

/// The transcript of a whole session that began with a new assembler.
pub open spec fn session_lines(max_gap_ms: int, input: Seq<LineModel>) -> Seq<LineModel>
    decreases input.len(),
{
    if input.len() == 0 {
        Seq::empty()
    } else {
        extend_transcript(
            session_lines(max_gap_ms, input.drop_last()),
            session_state(max_gap_ms, input.drop_last()),
            input.last(),
        )
    }
}

/// In every session the open line is the last line of the transcript, so a joined
/// line always replaces the last one, under the id that the line already had.
pub proof fn open_line_is_last(max_gap_ms: int, input: Seq<LineModel>)
    ensures
        session_state(max_gap_ms, input).max_gap_ms == max_gap_ms,
        input.len() == 0 ==> session_state(max_gap_ms, input).open is None,
        input.len() > 0 ==> {
            let lines = session_lines(max_gap_ms, input);
            &&& lines.len() > 0
            &&& session_state(max_gap_ms, input).open == Some(lines.last())
        },
        input.len() > 0 ==> {
            let before = session_lines(max_gap_ms, input.drop_last());
            joins(session_state(max_gap_ms, input.drop_last()), input.last()) ==> before.len() > 0
                && session_lines(max_gap_ms, input).last().id == before.last().id
        },
    decreases input.len(),
{
    if input.len() > 0 {
        open_line_is_last(max_gap_ms, input.drop_last());
    }
}

/// No line of a session is longer than the cap allows: a line that was joined
/// together stays within it, every other line is one of the lines that came in.
pub proof fn lines_stay_bounded(max_gap_ms: int, input: Seq<LineModel>)
    ensures
        forall|i: int|
            0 <= i < session_lines(max_gap_ms, input).len() ==> {
                let l = #[trigger] session_lines(max_gap_ms, input)[i];
                l.text.len() <= MERGE_CHAR_CAP || input.contains(l)
            },
    decreases input.len(),
{
    if input.len() > 0 {
        let before = input.drop_last();
        lines_stay_bounded(max_gap_ms, before);
        open_line_is_last(max_gap_ms, before);
        let m = session_state(max_gap_ms, before);
        let line = input.last();
        let lines = session_lines(max_gap_ms, input);
        assert forall|i: int| 0 <= i < lines.len() implies lines[i].text.len() <= MERGE_CHAR_CAP
            || input.contains(#[trigger] lines[i]) by {
            if i == lines.len() - 1 {
                if !joins(m, line) {
                    assert(input[input.len() - 1] == lines[i]);
                }
            } else {
                assert(lines[i] == session_lines(max_gap_ms, before)[i]);
                if before.contains(lines[i]) {
                    let k = choose|k: int| 0 <= k < before.len() && before[k] == lines[i];
                    assert(input[k] == lines[i]);
                }
            }
        }
    }
}

/// Where the runs of a session begin: at each line that was not joined to the one
/// before it.
pub open spec fn run_starts(max_gap_ms: int, input: Seq<LineModel>) -> Seq<int>
    decreases input.len(),
{
    if input.len() == 0 {
        Seq::empty()
    } else {
        let before = input.drop_last();
        if joins(session_state(max_gap_ms, before), input.last()) {
            run_starts(max_gap_ms, before)
        } else {
            run_starts(max_gap_ms, before).push(input.len() - 1)
        }
    }
}

/// Where a run ends: where the next one begins, or at the end of the input.
pub open spec fn run_end(starts: Seq<int>, n: int, i: int) -> int {
    if i + 1 < starts.len() {
        starts[i + 1]
    } else {
        n
    }
}

/// The texts of lines.
pub open spec fn texts(lines: Seq<LineModel>) -> Seq<Seq<char>> {
    Seq::new(lines.len(), |i: int| lines[i].text)
}

/// Whether a line is made of a run of lines: the texts of all of them, in order and
/// with the separator between them; the id, the language and the start of the first;
/// the end of the last; and the translation of a line that stands for itself.
pub open spec fn made_of(line: LineModel, run: Seq<LineModel>) -> bool {
    &&& run.len() > 0
    &&& line.text == text::joined(texts(run), separator(run[0].src_lang))
    &&& line.id == run[0].id
    &&& line.src_lang == run[0].src_lang
    &&& line.started_at == run[0].started_at
    &&& line.ended_at == run.last().ended_at
    &&& line.translated == if run.len() == 1 {
        run[0].translated
    } else {
        None
    }
    &&& forall|k: int| 0 <= k < run.len() ==> (#[trigger] run[k]).src_lang == run[0].src_lang
}

/// The transcript of a session is its input cut into consecutive runs, one line for
/// each: nothing is lost, nothing is repeated, and the order stays.
#[verifier::rlimit(60)]
#[verifier::spinoff_prover]
pub proof fn transcript_is_runs_of_input(max_gap_ms: int, input: Seq<LineModel>)
    ensures
        ({
            let lines = session_lines(max_gap_ms, input);
            let starts = run_starts(max_gap_ms, input);
            let n = input.len() as int;
            &&& starts.len() == lines.len()
            &&& input.len() > 0 ==> starts.len() > 0 && starts[0] == 0
            &&& forall|i: int|
                0 <= i < starts.len() ==> 0 <= #[trigger] starts[i] < run_end(starts, n, i) <= n
            &&& forall|i: int|
                0 <= i < lines.len() ==> made_of(
                    #[trigger] lines[i],
                    input.subrange(starts[i], run_end(starts, n, i)),
                )
        }),
    decreases input.len(),
{
    if input.len() > 0 {
        let before = input.drop_last();
        let line = input.last();
        let m = session_state(max_gap_ms, before);
        let n = input.len() as int;
        transcript_is_runs_of_input(max_gap_ms, before);
        open_line_is_last(max_gap_ms, before);
        let old_lines = session_lines(max_gap_ms, before);
        let old_starts = run_starts(max_gap_ms, before);
        let lines = session_lines(max_gap_ms, input);
        let starts = run_starts(max_gap_ms, input);
        assert forall|i: int| 0 <= i < starts.len() implies 0 <= #[trigger] starts[i] < run_end(
            starts,
            n,
            i,
        ) <= n by {
            if i < old_starts.len() {
                assert(old_starts[i] == starts[i]);
                assert(0 <= old_starts[i] < run_end(old_starts, n - 1, i) <= n - 1);
            }
        }
        assert forall|i: int| 0 <= i < lines.len() implies made_of(
            #[trigger] lines[i],
            input.subrange(starts[i], run_end(starts, n, i)),
        ) by {
            let run = input.subrange(starts[i], run_end(starts, n, i));
            if i < lines.len() - 1 {
                assert(lines[i] == old_lines[i]);
                assert(0 <= old_starts[i] < run_end(old_starts, n - 1, i) <= n - 1);
                assert(run_end(starts, n, i) == run_end(old_starts, n - 1, i));
                assert(run =~= before.subrange(old_starts[i], run_end(old_starts, n - 1, i)));
            } else if joins(m, line) {
                let old_run = before.subrange(old_starts[i], n - 1);
                assert(made_of(old_lines[i], old_run));
                lemma_run_grows(old_lines[i], old_run, line);
                assert(run =~= old_run.push(line));
            } else {
                assert(run =~= seq![line]);
                lemma_run_of_one(line);
            }
        }
    }
}

proof fn lemma_run_of_one(line: LineModel)
    ensures
        made_of(line, seq![line]),
{
    let t = texts(seq![line]);
    assert(t =~= seq![line.text]);
    assert(text::joined(t, separator(line.src_lang)) == line.text);
}

proof fn lemma_run_grows(open: LineModel, run: Seq<LineModel>, next: LineModel)
    requires
        made_of(open, run),
        next.src_lang == open.src_lang,
    ensures
        made_of(merge(open, next), run.push(next)),
{
    let longer = run.push(next);
    let sep = separator(run[0].src_lang);
    assert(texts(longer).drop_last() =~= texts(run));
    assert(texts(longer).last() == next.text);
    assert(longer[0] == run[0]);
    assert forall|k: int| 0 <= k < longer.len() implies (#[trigger] longer[k]).src_lang
        == longer[0].src_lang by {
        if k < run.len() {
            assert(longer[k] == run[k]);
        }
    }
    assert(merge(open, next).text == text::joined(texts(longer), sep));
}

/// A transcript in which a line takes the place of the one with its id.
pub open spec fn replaced(lines: Seq<LineModel>, line: LineModel) -> Seq<LineModel> {
    Seq::new(
        lines.len(),
        |i: int|
            if lines[i].id == line.id {
                line
            } else {
                lines[i]
            },
    )
}

/// Where the ids of the input differ, a joined line can be put into the transcript by
/// its id: the one line with that id is the last one.
pub proof fn joined_line_is_found_by_id(max_gap_ms: int, input: Seq<LineModel>)
    requires
        input.len() > 0,
        forall|i: int, j: int|
            0 <= i < j < input.len() ==> (#[trigger] input[i]).id != (#[trigger] input[j]).id,
        joins(session_state(max_gap_ms, input.drop_last()), input.last()),
    ensures
        session_lines(max_gap_ms, input) == replaced(
            session_lines(max_gap_ms, input.drop_last()),
            pushed(session_state(max_gap_ms, input.drop_last()), input.last()),
        ),
{
    let before = input.drop_last();
    let m = session_state(max_gap_ms, before);
    let line = pushed(m, input.last());
    let old_lines = session_lines(max_gap_ms, before);
    let starts = run_starts(max_gap_ms, before);
    let n = before.len() as int;
    open_line_is_last(max_gap_ms, before);
    transcript_is_runs_of_input(max_gap_ms, before);
    let last = old_lines.len() - 1;
    assert forall|i: int| 0 <= i < old_lines.len() implies #[trigger] old_lines[i].id
        == input[starts[i]].id && 0 <= starts[i] < n by {
        assert(0 <= starts[i] < run_end(starts, n, i) <= n);
        assert(made_of(old_lines[i], before.subrange(starts[i], run_end(starts, n, i))));
        assert(before.subrange(starts[i], run_end(starts, n, i))[0] == input[starts[i]]);
    }
    assert forall|i: int| 0 <= i < last implies old_lines[i].id != line.id by {
        lemma_starts_increase(starts, n, i, last);
        assert(old_lines[i].id == input[starts[i]].id);
        assert(old_lines[last].id == input[starts[last]].id);
    }
    assert(session_lines(max_gap_ms, input) =~= replaced(old_lines, line));
}

proof fn lemma_starts_increase(starts: Seq<int>, n: int, i: int, j: int)
    requires
        0 <= i < j < starts.len(),
        forall|k: int|
            0 <= k < starts.len() ==> 0 <= #[trigger] starts[k] < run_end(starts, n, k) <= n,
    ensures
        starts[i] < starts[j],
    decreases j - i,
{
    assert(starts[i] < run_end(starts, n, i));
    if i + 1 < j {
        lemma_starts_increase(starts, n, i + 1, j);
    }
}

/// With a gap of zero nothing is merged: the transcript is the input.
pub proof fn zero_gap_keeps_lines(input: Seq<LineModel>)
    ensures
        session_lines(0, input) == input,
    decreases input.len(),
{
    if input.len() > 0 {
        zero_gap_keeps_lines(input.drop_last());
        open_line_is_last(0, input.drop_last());
        assert(input.drop_last().push(input.last()) =~= input);
    }
}

/// Merging keeps the id, the language and the start of the first part, takes the
/// end of the second, drops the translation, and holds both texts whole and in
/// order.
pub proof fn merge_keeps_first(open: LineModel, next: LineModel)
    ensures
        merge(open, next).id == open.id,
        merge(open, next).src_lang == open.src_lang,
        merge(open, next).started_at == open.started_at,
        merge(open, next).ended_at == next.ended_at,
        merge(open, next).translated is None,
        merge(open, next).text.take(open.text.len() as int) == open.text,
        merge(open, next).text.skip(merge(open, next).text.len() - next.text.len()) == next.text,
{
    let t = merge(open, next).text;
    assert(t.take(open.text.len() as int) =~= open.text);
    assert(t.skip(t.len() - next.text.len()) =~= next.text);
}

/// When a line is joined to the transcript: exactly where merging is on, the last
/// line is in the same language and does not close a sentence, the pause between the
/// two is no longer than the gap, and both together, with a space between them unless
/// they are Japanese, have no more than 300 characters. Joined or not, nothing else of
/// the transcript changes.
pub proof fn when_a_line_is_joined(max_gap_ms: int, input: Seq<LineModel>)
    requires
        input.len() > 1,
    ensures
        ({
            let before = session_lines(max_gap_ms, input.drop_last());
            let after = session_lines(max_gap_ms, input);
            let n = before.len() as int;
            let prev = before[n - 1];
            let line = input[input.len() - 1];
            let space = if prev.src_lang == "ja"@ {
                0int
            } else {
                1
            };
            let joined = {
                &&& max_gap_ms > 0
                &&& prev.src_lang == line.src_lang
                &&& prev.text.len() == 0 || !".!?。！？"@.contains(prev.text[prev.text.len() - 1])
                &&& time::millis_between(prev.ended_at, line.started_at) <= max_gap_ms
                &&& prev.text.len() + space + line.text.len() <= 300
            };
            &&& n > 0
            &&& joined ==> {
                &&& after.len() == n
                &&& after[n - 1].text.len() == prev.text.len() + space + line.text.len()
                &&& text::begins(after[n - 1].text, prev.text)
                &&& text::ends(after[n - 1].text, line.text)
                &&& space == 1 ==> after[n - 1].text[prev.text.len() as int] == ' '
                &&& after[n - 1].id == prev.id
                &&& after[n - 1].translated is None
            }
            &&& !joined ==> after.len() == n + 1 && after[n] == line && after[n - 1] == prev
            &&& forall|i: int| 0 <= i < n - 1 ==> #[trigger] after[i] == before[i]
        }),
{
    let short = input.drop_last();
    open_line_is_last(max_gap_ms, short);
    let before = session_lines(max_gap_ms, short);
    let prev = before[before.len() - 1];
    let line = input[input.len() - 1];
    reveal_strlit(" ");
    reveal_strlit("");
    filter::what_closes_a_sentence(prev.text);
    merge_keeps_first(prev, line);
}

/// The transcript of a session that began with one line is that line.
pub proof fn first_line_stands(max_gap_ms: int, line: LineModel)
    ensures
        session_lines(max_gap_ms, seq![line]) == seq![line],
        session_lines(max_gap_ms, Seq::empty()).len() == 0,
{
    let one = seq![line];
    let none = one.drop_last();
    assert(none.len() == 0);
    assert(session_state(max_gap_ms, none).open is None);
    assert(session_lines(max_gap_ms, none) =~= Seq::<LineModel>::empty());
    assert(session_lines(max_gap_ms, one) =~= one);
}

} // verus!
