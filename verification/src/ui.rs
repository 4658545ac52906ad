//! What the screen shows: the transcript in its columns, and the texts around it.
use crate::app::DevicePicker;
use crate::audio::LOOPBACK_PREFIX;
use crate::msg::{DraftState, TranslatorStatus};
use crate::text::{self, decimal_of, pad_right, same, strip_prefix};
use crate::transcribe::{self, LineModel, TranscriptLine};
use vstd::prelude::*;
use vstd::string::*;

verus! {

/// The column of the view without translation: every line shows its own transcribed
/// text, whatever language it was detected as.
pub const SOURCE_COL: &'static str = "*";

/// How the text of a line is set off.
#[derive(Clone, Copy, Debug, PartialEq, Eq, Structural)]
pub enum Tone {
    /// What was said.
    Source,
    /// A translation.
    Translated,
    /// A translation that is not there yet.
    Waiting,
}

/// A line as it stands in a column.
pub struct RenderedLine {
    pub head: String,
    pub text: String,
    pub tone: Tone,
}

/// The contents of a [`RenderedLine`].
pub struct RenderedModel {
    pub head: Seq<char>,
    pub text: Seq<char>,
    pub tone: Tone,
}

impl View for RenderedLine {
    type V = RenderedModel;

    open spec fn view(&self) -> RenderedModel {
        RenderedModel { head: self.head@, text: self.text@, tone: self.tone }
    }
}

/// Whether a column shows what was said, and not its translation.
pub open spec fn shows_source(line: LineModel, col: Seq<char>) -> bool {
    col == SOURCE_COL@ || line.src_lang == col
}

/// A line as it stands in a column.
pub open spec fn rendered(line: LineModel, col: Seq<char>) -> RenderedModel {
    let source = shows_source(line, col);
    RenderedModel {
        head: "["@ + line.started_at.hms() + "] "@ + (if source {
            "▶ "@
        } else {
            "  "@
        }),
        text: if source {
            line.text
        } else {
            match line.translated {
                Some(t) => t,
                None => "…"@,
            }
        },
        tone: if source {
            Tone::Source
        } else if line.translated is Some {
            Tone::Translated
        } else {
            Tone::Waiting
        },
    }
}

/// Sets a line for a column.
pub fn render_line(line: &TranscriptLine, col: &str) -> (r: RenderedLine)
    ensures
        r@ == rendered(line@, col@),
{
    let source = same(col, SOURCE_COL) || same(line.src_lang.as_str(), col);
    let mut head = "[".to_owned();
    head.append(line.started_at.hms().as_str());
    head.append("] ");
    head.append(
        if source {
            "▶ "
        } else {
            "  "
        },
    );
    if source {
        return RenderedLine { head, text: line.text.clone(), tone: Tone::Source };
    }
    match &line.translated {
        Some(t) => RenderedLine { head, text: t.clone(), tone: Tone::Translated },
        None => RenderedLine { head, text: "…".to_owned(), tone: Tone::Waiting },
    }
}

/// The widest column that is laid out. Terminals are far narrower, and up to here
/// none of the 16-bit sums of ratatui's word wrapper can overflow: a grapheme that
/// is wider than the column is left out there, so no sum exceeds four widths.
pub const MAX_WIDTH: u16 = 16_000;

/// The rows that ratatui wraps a head and a text into, at a width.
pub uninterp spec fn line_rows(head: Seq<char>, text: Seq<char>, width: int) -> nat;

/// `Paragraph::line_count` of ratatui on one line of two spans, wrapped without
/// trimming: the number of rows depends on the two texts and the width alone.
#[verifier::external_body]
fn wrapped_rows(head: &str, text: &str, width: u16) -> (r: usize)
    requires
        width <= MAX_WIDTH,
    ensures
        r == line_rows(head@, text@, width as int),
{
    let line = ratatui::text::Line::from(
        vec![ratatui::text::Span::raw(head), ratatui::text::Span::raw(text)],
    );
    ratatui::widgets::Paragraph::new(vec![line]).wrap(ratatui::widgets::Wrap { trim: false }).line_count(
        width,
    )
}

/// The rows that a line takes in a column, as far as 16 bits count them.
pub open spec fn row_count(line: LineModel, col: Seq<char>, width: int) -> u16 {
    let r = rendered(line, col);
    let n = line_rows(r.head, r.text, width);
    if n <= u16::MAX {
        n as u16
    } else {
        u16::MAX
    }
}

/// The rows that each line of a column takes, so a frame only wraps lines that are
/// new or changed instead of the whole transcript: otherwise the cost of a frame
/// would grow with the length of the session.
pub struct ColumnCache {
    width: u16,
    rows: Vec<u16>,
}

/// The contents of a [`ColumnCache`].
#[verifier::ext_equal]
pub struct CacheModel {
    pub width: int,
    pub rows: Seq<u16>,
}

impl View for ColumnCache {
    type V = CacheModel;

    closed spec fn view(&self) -> CacheModel {
        CacheModel { width: self.width as int, rows: self.rows@ }
    }
}

impl CacheModel {
    /// The cache agrees with a transcript: it covers no more lines than there are,
    /// and what it holds is what wrapping them again would give.
    pub open spec fn agrees(self, lines: Seq<LineModel>, col: Seq<char>) -> bool {
        &&& self.rows.len() <= lines.len()
        &&& forall|i: int|
            0 <= i < self.rows.len() ==> #[trigger] self.rows[i] == row_count(
                lines[i],
                col,
                self.width,
            )
    }

    /// The cache without what stands from a line on.
    pub open spec fn cut(self, idx: int) -> Self {
        if idx < self.rows.len() {
            CacheModel { rows: self.rows.take(idx), ..self }
        } else {
            self
        }
    }

    /// What of the cache holds at a width.
    pub open spec fn kept(self, width: int) -> Seq<u16> {
        if width == self.width && width != 0 {
            self.rows
        } else {
            Seq::empty()
        }
    }

    /// The cache brought up to date with a transcript, at a width.
    pub open spec fn synced(self, lines: Seq<LineModel>, col: Seq<char>, width: int) -> Self {
        let kept = self.kept(width);
        CacheModel {
            width,
            rows: if width == 0 || kept.len() >= lines.len() {
                kept
            } else {
                Seq::new(
                    lines.len(),
                    |i: int|
                        if i < kept.len() {
                            kept[i]
                        } else {
                            row_count(lines[i], col, width)
                        },
                )
            },
        }
    }
}

impl ColumnCache {
    pub fn new() -> (r: Self)
        ensures
            r@ == (CacheModel { width: 0, rows: Seq::empty() }),
    {
        ColumnCache { width: 0, rows: Vec::new() }
    }

    /// Forgets the rows from a line on.
    pub fn invalidate_from(&mut self, idx: usize)
        ensures
            final(self)@ == old(self)@.cut(idx as int),
    {
        self.rows.truncate(idx);
    }

    /// Brings the cache up to date.
    pub fn sync(&mut self, lines: &Vec<TranscriptLine>, col: &str, width: u16)
        requires
            width <= MAX_WIDTH,
        ensures
            final(self)@ == old(self)@.synced(transcribe::line_models(lines@), col@, width as int),
    {
        let ghost all = transcribe::line_models(lines@);
        if width != self.width {
            self.width = width;
            self.rows.clear();
        }
        if width == 0 {
            self.rows.clear();
            return;
        }
        let ghost kept = self.rows@;
        assert(kept =~= old(self)@.kept(width as int));
        while self.rows.len() < lines.len()
            invariant
                all == transcribe::line_models(lines@),
                self.width == width,
                0 < width <= MAX_WIDTH,
                kept.len() <= self.rows@.len(),
                kept.len() <= lines@.len() ==> self.rows@.len() <= lines@.len(),
                kept.len() > lines@.len() ==> self.rows@ == kept,
                forall|i: int|
                    0 <= i < self.rows@.len() ==> #[trigger] self.rows@[i] == if i < kept.len() {
                        kept[i]
                    } else {
                        row_count(all[i], col@, width as int)
                    },
            decreases lines@.len() - self.rows@.len(),
        {
            let i: usize = self.rows.len();
            let line = render_line(&lines[i], col);
            let n: usize = wrapped_rows(line.head.as_str(), line.text.as_str(), width);
            let rows: u16 = if n < 65_535 {
                n as u16
            } else {
                65_535
            };
            assert(rows == row_count(all[i as int], col@, width as int));
            self.rows.push(rows);
        }
        assert(self@ =~= old(self)@.synced(all, col@, width as int));
    }

    /// The rows of each line.
    pub fn rows(&self) -> (r: &Vec<u16>)
        ensures
            r@ == self@.rows,
    {
        &self.rows
    }
}

/// The rows of both columns.
pub struct TranscriptLayout {
    en: ColumnCache,
    ja: ColumnCache,
}

/// The contents of a [`TranscriptLayout`].
#[verifier::ext_equal]
pub struct LayoutModel {
    pub en: CacheModel,
    pub ja: CacheModel,
}

impl View for TranscriptLayout {
    type V = LayoutModel;

    closed spec fn view(&self) -> LayoutModel {
        LayoutModel { en: self.en@, ja: self.ja@ }
    }
}

/// The language of the first column.
pub open spec fn first_col(single_column: bool) -> Seq<char> {
    if single_column {
        SOURCE_COL@
    } else {
        "en"@
    }
}

impl LayoutModel {
    /// The layout without what stands from a line on.
    pub open spec fn cut(self, idx: int) -> Self {
        LayoutModel { en: self.en.cut(idx), ja: self.ja.cut(idx) }
    }

    /// Both caches agree with a transcript.
    pub open spec fn agrees(self, lines: Seq<LineModel>, single_column: bool) -> bool {
        self.en.agrees(lines, first_col(single_column)) && self.ja.agrees(lines, "ja"@)
    }
}

impl TranscriptLayout {
    pub fn new() -> (r: Self)
        ensures
            r@.en == (CacheModel { width: 0, rows: Seq::empty() }),
            r@.ja == (CacheModel { width: 0, rows: Seq::empty() }),
    {
        TranscriptLayout { en: ColumnCache::new(), ja: ColumnCache::new() }
    }

    /// Call when an existing line changed (its translation arrived, say).
    pub fn invalidate_line(&mut self, idx: usize)
        ensures
            final(self)@ == old(self)@.cut(idx as int),
    {
        self.en.invalidate_from(idx);
        self.ja.invalidate_from(idx);
    }
}

/// The sum of row counts.
pub open spec fn total_rows(rows: Seq<u16>) -> nat
    decreases rows.len(),
{
    if rows.len() == 0 {
        0
    } else {
        total_rows(rows.drop_last()) + rows.last() as nat
    }
}

/// The part of a column that is on the screen.
#[derive(Clone, Copy, Debug, PartialEq, Eq, Structural)]
pub struct Viewport {
    /// The largest distance from the tail that this column can be scrolled.
    pub col_max: u16,
    /// The first line that is drawn.
    pub start: usize,
    /// The rows of that line above the top of the screen.
    pub offset: u16,
    /// The line behind the last one that is drawn.
    pub end: usize,
}

/// The rows above the screen while it follows the tail.
pub open spec fn tail_top(rows: Seq<u16>, height: u16) -> nat {
    if total_rows(rows) > height {
        (total_rows(rows) - height) as nat
    } else {
        0
    }
}

/// How far a column can be scrolled, as far as 16 bits count it.
pub open spec fn scroll_limit(rows: Seq<u16>, height: u16) -> u16 {
    if tail_top(rows, height) <= u16::MAX {
        tail_top(rows, height) as u16
    } else {
        u16::MAX
    }
}

/// The rows above the screen.
pub open spec fn screen_top(rows: Seq<u16>, height: u16, scroll_up: u16) -> int {
    tail_top(rows, height) - (if scroll_up < scroll_limit(rows, height) {
        scroll_up
    } else {
        scroll_limit(rows, height)
    })
}

/// The line that holds a row, and the line behind the last one where none does.
/// `n` counts the lines of the transcript.
pub open spec fn is_first_at(rows: Seq<u16>, n: int, top: int, start: int, offset: int) -> bool {
    ||| {
        &&& 0 <= start < rows.len()
        &&& total_rows(rows.take(start)) <= top < total_rows(rows.take(start + 1))
        &&& offset == top - total_rows(rows.take(start))
    }
    ||| {
        &&& total_rows(rows) <= top
        &&& start == n
        &&& offset == 0
    }
}

/// The line behind the last one that is needed to fill this many rows, from a line
/// on.
pub open spec fn is_end_of(rows: Seq<u16>, n: int, start: int, need: int, end: int) -> bool {
    &&& start <= end <= n
    &&& end < n ==> total_rows(rows.subrange(start, end)) >= need
    &&& start < end ==> total_rows(rows.subrange(start, end - 1)) < need
}

proof fn lemma_rows_split(rows: Seq<u16>, a: int, b: int)
    requires
        0 <= a <= b <= rows.len(),
    ensures
        total_rows(rows.take(b)) == total_rows(rows.take(a)) + total_rows(rows.subrange(a, b)),
    decreases b - a,
{
    if a == b {
        assert(rows.subrange(a, b) =~= Seq::<u16>::empty());
    } else {
        lemma_rows_split(rows, a, b - 1);
        assert(rows.take(b).drop_last() =~= rows.take(b - 1));
        assert(rows.subrange(a, b).drop_last() =~= rows.subrange(a, b - 1));
    }
}

fn sum_rows(rows: &Vec<u16>) -> (r: u128)
    ensures
        r == total_rows(rows@),
{
    let mut total: u128 = 0;
    let mut i: usize = 0;
    while i < rows.len()
        invariant
            i <= rows@.len(),
            total == total_rows(rows@.take(i as int)),
            total <= i * 65_535,
        decreases rows@.len() - i,
    {
        assert(rows@.take(i + 1).drop_last() =~= rows@.take(i as int));
        total = total + rows[i] as u128;
        i += 1;
    }
    assert(rows@.take(rows@.len() as int) =~= rows@);
    total
}

/// The part of a column that is on the screen. Only its lines are set and drawn.
/// `n` counts the lines of the transcript; a column without width has no rows.
pub fn viewport(rows: &Vec<u16>, n: usize, height: u16, scroll_up: u16) -> (r: Viewport)
    requires
        rows@.len() == n || rows@.len() == 0,
    ensures
        r.col_max == scroll_limit(rows@, height),
        is_first_at(
            rows@,
            n as int,
            screen_top(rows@, height, scroll_up),
            r.start as int,
            r.offset as int,
        ),
        is_end_of(rows@, n as int, r.start as int, height + r.offset, r.end as int),
{
    let total: u128 = sum_rows(rows);
    let tail: u128 = if total > height as u128 {
        total - height as u128
    } else {
        0
    };
    let col_max: u16 = if tail < 65_535 {
        tail as u16
    } else {
        65_535
    };
    let up: u16 = if scroll_up < col_max {
        scroll_up
    } else {
        col_max
    };
    let top: u128 = tail - up as u128;
    let ghost want = screen_top(rows@, height, scroll_up);
    assert(top == want);
    let mut cum: u128 = 0;
    let mut start: usize = n;
    let mut offset: u16 = 0;
    let mut i: usize = 0;
    assert(rows@.take(0) =~= Seq::<u16>::empty());
    let mut found = false;
    while i < rows.len() && !found
        invariant
            i <= rows@.len(),
            !found ==> {
                &&& cum == total_rows(rows@.take(i as int))
                &&& cum <= top
                &&& start == n
                &&& offset == 0
                &&& cum <= i * 65_535
            },
            found ==> {
                &&& start < rows@.len()
                &&& total_rows(rows@.take(start as int)) <= top < total_rows(rows@.take(start + 1))
                &&& offset == top - total_rows(rows@.take(start as int))
            },
        decreases rows@.len() - i, (if found { 0int } else { 1int }),
    {
        assert(rows@.take(i + 1).drop_last() =~= rows@.take(i as int));
        let next: u128 = cum + rows[i] as u128;
        if next > top {
            start = i;
            offset = (top - cum) as u16;
            found = true;
        } else {
            cum = next;
            i += 1;
        }
    }
    assert(rows@.take(rows@.len() as int) =~= rows@);
    let need: u32 = height as u32 + offset as u32;
    let mut covered: u32 = 0;
    let mut end: usize = start;
    proof {
        if start < n {
            assert(rows@.subrange(start as int, start as int) =~= Seq::<u16>::empty());
        }
    }
    while end < n && covered < need
        invariant
            start <= end <= n,
            start < n ==> rows@.len() == n,
            need == height + offset,
            start < n || end == start,
            start < n ==> covered == total_rows(rows@.subrange(start as int, end as int)),
            start < end ==> total_rows(rows@.subrange(start as int, end - 1)) < need,
            covered < need + 65_536,
        decreases n - end,
    {
        assert(rows@.subrange(start as int, end + 1).drop_last() =~= rows@.subrange(
            start as int,
            end as int,
        ));
        covered = covered + rows[end] as u32;
        end += 1;
    }
    Viewport { col_max, start, offset, end }
}

/// The inside of a pane, in cells.
#[derive(Clone, Copy, Debug, PartialEq, Eq, Structural)]
pub struct PaneSize {
    pub width: u16,
    pub height: u16,
}

/// What the screen shows.
pub struct UiState<'a> {
    pub lines: &'a Vec<TranscriptLine>,
    /// The level of the input, from 0 to 100.
    pub level_pct: u16,
    pub language: &'a str,
    pub recording: bool,
    pub input_name: &'a str,
    pub model_name: &'a str,
    pub saved_note: Option<&'a str>,
    pub translator_status: TranslatorStatus,
    /// When true, translation is off: one full-width column shows the transcribed
    /// text of each line instead of the EN ↔ JA split.
    pub single_column: bool,
    pub picker: Option<&'a DevicePicker>,
    pub show_help: bool,
    pub draft: DraftState,
    /// The two durations of the draft in seconds, with one decimal.
    pub speech_secs: &'a str,
    pub elapsed_secs: &'a str,
    /// Rows scrolled up from the tail. 0 = follow latest.
    pub scroll_up: u16,
}

/// A column of the transcript.
pub struct Column {
    pub title: &'static str,
    pub view: Viewport,
    /// The lines that are drawn, from the first one of the view on.
    pub lines: Vec<RenderedLine>,
}

/// The contents of each line of a list.
pub open spec fn rendered_models(lines: Seq<RenderedLine>) -> Seq<RenderedModel> {
    Seq::new(lines.len(), |i: int| lines[i]@)
}

/// Some lines of a transcript, set for a column.
pub open spec fn rendered_range(
    lines: Seq<LineModel>,
    col: Seq<char>,
    start: int,
    end: int,
) -> Seq<RenderedModel> {
    Seq::new((end - start) as nat, |k: int| rendered(lines[start + k], col))
}

/// Whether a view is the part of a column that is on the screen.
pub open spec fn is_view(
    v: Viewport,
    rows: Seq<u16>,
    n: int,
    height: u16,
    scroll_up: u16,
) -> bool {
    &&& v.col_max == scroll_limit(rows, height)
    &&& is_first_at(
        rows,
        n,
        screen_top(rows, height, scroll_up),
        v.start as int,
        v.offset as int,
    )
    &&& is_end_of(rows, n, v.start as int, height + v.offset, v.end as int)
}

/// Whether a column shows a transcript as it should.
pub open spec fn is_column(
    c: Column,
    title: Seq<char>,
    lines: Seq<LineModel>,
    col: Seq<char>,
    rows: Seq<u16>,
    height: u16,
    scroll_up: u16,
) -> bool {
    &&& c.title@ == title
    &&& is_view(c.view, rows, lines.len() as int, height, scroll_up)
    &&& rendered_models(c.lines@) == rendered_range(
        lines,
        col,
        c.view.start as int,
        c.view.end as int,
    )
}

fn transcript_column(
    lines: &Vec<TranscriptLine>,
    col: &str,
    title: &'static str,
    size: PaneSize,
    scroll_up: u16,
    cache: &mut ColumnCache,
) -> (r: Column)
    requires
        size.width <= MAX_WIDTH,
        old(cache)@.rows.len() <= lines@.len(),
    ensures
        final(cache)@ == old(cache)@.synced(
            transcribe::line_models(lines@),
            col@,
            size.width as int,
        ),
        is_column(
            r,
            title@,
            transcribe::line_models(lines@),
            col@,
            final(cache)@.rows,
            size.height,
            scroll_up,
        ),
{
    let ghost all = transcribe::line_models(lines@);
    cache.sync(lines, col, size.width);
    let view = viewport(cache.rows(), lines.len(), size.height, scroll_up);
    let mut shown: Vec<RenderedLine> = Vec::new();
    let mut i: usize = view.start;
    while i < view.end
        invariant
            view.start <= i <= view.end,
            view.end <= lines@.len(),
            all == transcribe::line_models(lines@),
            rendered_models(shown@) == rendered_range(all, col@, view.start as int, i as int),
        decreases view.end - i,
    {
        let ghost before = shown@;
        shown.push(render_line(&lines[i], col));
        assert(rendered_models(shown@) =~= rendered_models(before).push(
            rendered(all[i as int], col@),
        ));
        assert(rendered_range(all, col@, view.start as int, i + 1) =~= rendered_range(
            all,
            col@,
            view.start as int,
            i as int,
        ).push(rendered(all[i as int], col@)));
        i += 1;
    }
    Column { title, view, lines: shown }
}

/// The title of the frame.
pub open spec fn title_text(
    recording: bool,
    language: Seq<char>,
    input: Seq<char>,
    model: Seq<char>,
    status: TranslatorStatus,
) -> Seq<char> {
    " kotoma · "@ + (if recording {
        "REC"@
    } else {
        "PAUSED"@
    }) + " · lang="@ + language + " · in="@ + input + " · model="@ + model + " · "@ + (match status {
        TranslatorStatus::Loading => "tr=loading"@,
        TranslatorStatus::Ready => "tr=ready"@,
        TranslatorStatus::Failed => "tr=off"@,
    }) + " "@
}

fn title_of(state: &UiState) -> (r: String)
    ensures
        r@ == title_text(
            state.recording,
            state.language@,
            state.input_name@,
            state.model_name@,
            state.translator_status,
        ),
{
    let mut r = " kotoma · ".to_owned();
    r.append(
        if state.recording {
            "REC"
        } else {
            "PAUSED"
        },
    );
    r.append(" · lang=");
    r.append(state.language);
    r.append(" · in=");
    r.append(state.input_name);
    r.append(" · model=");
    r.append(state.model_name);
    r.append(" · ");
    r.append(
        match state.translator_status {
            TranslatorStatus::Loading => "tr=loading",
            TranslatorStatus::Ready => "tr=ready",
            TranslatorStatus::Failed => "tr=off",
        },
    );
    r.append(" ");
    r
}

/// The line on the segment in progress.
pub open spec fn draft_text(active: bool, speech: Seq<char>, elapsed: Seq<char>) -> Seq<char> {
    if active {
        " ● capturing · "@ + speech + "s speech · "@ + elapsed + "s elapsed"@
    } else {
        " (no speech)"@
    }
}

fn draft_of(state: &UiState) -> (r: String)
    ensures
        r@ == draft_text(state.draft.active, state.speech_secs@, state.elapsed_secs@),
{
    if !state.draft.active {
        return " (no speech)".to_owned();
    }
    let mut r = " ● capturing · ".to_owned();
    r.append(state.speech_secs);
    r.append("s speech · ");
    r.append(state.elapsed_secs);
    r.append("s elapsed");
    r
}

/// The title of the single column.
pub open spec fn transcript_title(language: Seq<char>) -> Seq<char> {
    if language == "en"@ {
        " English "@
    } else if language == "ja"@ {
        " 日本語 "@
    } else {
        " Transcript "@
    }
}

fn single_title(language: &str) -> (r: &'static str)
    ensures
        r@ == transcript_title(language@),
{
    if same(language, "en") {
        " English "
    } else if same(language, "ja") {
        " 日本語 "
    } else {
        " Transcript "
    }
}

/// What the last line says of scrolling.
pub open spec fn nav_text(scroll_up: u16) -> Seq<char> {
    if scroll_up == 0 {
        " ↑/PgUp scroll "@
    } else {
        " ↑↓/PgUp/PgDn · End follow (−"@ + text::decimal(scroll_up as nat) + ") "@
    }
}

/// The last line: a note where there is one, and the keys.
pub open spec fn help_text(note: Option<Seq<char>>, scroll_up: u16) -> Seq<char> {
    match note {
        Some(n) => " "@ + n + " · q quit&save · s save · ? help ·"@ + nav_text(scroll_up),
        None =>
            " q quit&save · s save · l lang · d device · m sys-audio · space pause · ? help ·"@
            + nav_text(scroll_up),
    }
}

fn help_of(state: &UiState) -> (r: String)
    ensures
        r@ == help_text(text::opt_slice(state.saved_note), state.scroll_up),
{
    let mut nav = " ↑/PgUp scroll ".to_owned();
    if state.scroll_up != 0 {
        nav = " ↑↓/PgUp/PgDn · End follow (−".to_owned();
        nav.append(decimal_of(state.scroll_up as u64).as_str());
        nav.append(") ");
    }
    let mut r = match state.saved_note {
        Some(note) => {
            let mut r = " ".to_owned();
            r.append(note);
            r.append(" · q quit&save · s save · ? help ·");
            r
        },
        None => {
            " q quit&save · s save · l lang · d device · m sys-audio · space pause · ? help ·".to_owned()
        },
    };
    r.append(nav.as_str());
    r
}

/// How a row of the picker is set off.
#[derive(Clone, Copy, Debug, PartialEq, Eq, Structural)]
pub enum Mark {
    /// The selected row of the section in focus.
    Focused,
    /// The selected row of the other section.
    Selected,
    Plain,
}

/// A row of the picker.
pub struct PickerRow {
    pub label: String,
    pub mark: Mark,
}

/// How the row of a device is set off.
pub open spec fn mark_of(selected: bool, focused: bool) -> Mark {
    if selected && focused {
        Mark::Focused
    } else if selected {
        Mark::Selected
    } else {
        Mark::Plain
    }
}

/// The name of a device in the picker.
pub open spec fn device_label(device: Seq<char>) -> Seq<char> {
    if text::begins(device, LOOPBACK_PREFIX@) {
        "[loopback] "@ + device.skip(LOOPBACK_PREFIX@.len() as int)
    } else {
        device
    }
}

/// The row of a device.
pub open spec fn picker_row(device: Seq<char>, mark: Mark) -> Seq<char> {
    (match mark {
        Mark::Focused => "▶ "@,
        Mark::Selected => "● "@,
        Mark::Plain => "  "@,
    }) + device_label(device)
}

/// Whether these are the rows of a section of the picker.
pub open spec fn is_section(
    rows: Seq<PickerRow>,
    devices: Seq<Seq<char>>,
    selected: int,
    focused: bool,
) -> bool {
    &&& rows.len() == devices.len()
    &&& forall|i: int|
        0 <= i < rows.len() ==> {
            &&& (#[trigger] rows[i]).mark == mark_of(i == selected, focused)
            &&& rows[i].label@ == picker_row(devices[i], rows[i].mark)
        }
}

fn picker_section(devices: &Vec<String>, selected: usize, focused: bool) -> (r: Vec<PickerRow>)
    ensures
        is_section(r@, text::strs(devices@), selected as int, focused),
{
    let mut rows: Vec<PickerRow> = Vec::new();
    let mut i: usize = 0;
    while i < devices.len()
        invariant
            i <= devices@.len(),
            rows@.len() == i,
            forall|k: int|
                0 <= k < i ==> {
                    &&& (#[trigger] rows@[k]).mark == mark_of(k == selected, focused)
                    &&& rows@[k].label@ == picker_row(text::strs(devices@)[k], rows@[k].mark)
                },
        decreases devices@.len() - i,
    {
        let is_sel = i == selected;
        let mark = if is_sel && focused {
            Mark::Focused
        } else if is_sel {
            Mark::Selected
        } else {
            Mark::Plain
        };
        let mut label = match mark {
            Mark::Focused => "▶ ".to_owned(),
            Mark::Selected => "● ".to_owned(),
            Mark::Plain => "  ".to_owned(),
        };
        let ghost marker = label@;
        match strip_prefix(devices[i].as_str(), LOOPBACK_PREFIX) {
            Some(name) => {
                label.append("[loopback] ");
                label.append(name.as_str());
            },
            None => {
                label.append(devices[i].as_str());
            },
        }
        assert(label@ =~= marker + device_label(devices@[i as int]@));
        rows.push(PickerRow { label, mark });
        i += 1;
    }
    rows
}

/// The picker as it is shown.
pub struct PickerView {
    pub mic: Vec<PickerRow>,
    pub mic_focused: bool,
    pub sys: Vec<PickerRow>,
    pub sys_focused: bool,
}

/// Sets the picker.
pub fn picker_view(pk: &DevicePicker) -> (r: PickerView)
    ensures
        is_section(r.mic@, pk@.mic, pk@.mic_sel, pk@.focus == 0),
        is_section(r.sys@, pk@.sys, pk@.sys_sel, pk@.focus == 1),
        r.mic_focused == (pk@.focus == 0),
        r.sys_focused == (pk@.focus == 1),
{
    PickerView {
        mic: picker_section(&pk.mic, pk.mic_sel, pk.focus == 0),
        mic_focused: pk.focus == 0,
        sys: picker_section(&pk.sys, pk.sys_sel, pk.focus == 1),
        sys_focused: pk.focus == 1,
    }
}

/// A frame.
pub struct Screen {
    pub title: String,
    pub level_pct: u16,
    pub draft: String,
    pub first: Column,
    /// The other column, where there are two.
    pub second: Option<Column>,
    /// The largest distance that any column can be scrolled.
    pub scroll_max: u16,
    pub help: String,
    pub picker: Option<PickerView>,
    pub show_help: bool,
}

/// Sets a frame, for panes of these sizes. The second size counts only where there
/// are two columns.
pub fn draw(
    state: &UiState,
    layout: &mut TranscriptLayout,
    first: PaneSize,
    second: PaneSize,
) -> (r: Screen)
    requires
        first.width <= MAX_WIDTH,
        second.width <= MAX_WIDTH,
        old(layout)@.en.rows.len() <= state.lines@.len(),
        old(layout)@.ja.rows.len() <= state.lines@.len(),
    ensures
        ({
            let lines = transcribe::line_models(state.lines@);
            let col = first_col(state.single_column);
            &&& final(layout)@.en == old(layout)@.en.synced(lines, col, first.width as int)
            &&& is_column(
                r.first,
                if state.single_column {
                    transcript_title(state.language@)
                } else {
                    " English "@
                },
                lines,
                col,
                final(layout)@.en.rows,
                first.height,
                state.scroll_up,
            )
            &&& match r.second {
                Some(c) => {
                    &&& !state.single_column
                    &&& final(layout)@.ja == old(layout)@.ja.synced(
                        lines,
                        "ja"@,
                        second.width as int,
                    )
                    &&& is_column(
                        c,
                        " 日本語 "@,
                        lines,
                        "ja"@,
                        final(layout)@.ja.rows,
                        second.height,
                        state.scroll_up,
                    )
                    &&& r.scroll_max == if c.view.col_max > r.first.view.col_max {
                        c.view.col_max
                    } else {
                        r.first.view.col_max
                    }
                },
                None => {
                    &&& state.single_column
                    &&& final(layout)@.ja == old(layout)@.ja
                    &&& r.scroll_max == r.first.view.col_max
                },
            }
        }),
        r.title@ == title_text(
            state.recording,
            state.language@,
            state.input_name@,
            state.model_name@,
            state.translator_status,
        ),
        r.level_pct == state.level_pct,
        r.draft@ == draft_text(state.draft.active, state.speech_secs@, state.elapsed_secs@),
        r.help@ == help_text(text::opt_slice(state.saved_note), state.scroll_up),
        match (r.picker, state.picker) {
            (Some(v), Some(pk)) => {
                &&& is_section(v.mic@, pk@.mic, pk@.mic_sel, pk@.focus == 0)
                &&& is_section(v.sys@, pk@.sys, pk@.sys_sel, pk@.focus == 1)
                &&& v.mic_focused == (pk@.focus == 0)
                &&& v.sys_focused == (pk@.focus == 1)
            },
            (None, None) => true,
            _ => false,
        },
        r.show_help == state.show_help,
{
    let title = title_of(state);
    let draft = draft_of(state);
    let help = help_of(state);
    let picker = match state.picker {
        Some(pk) => Some(picker_view(pk)),
        None => None,
    };
    if state.single_column {
        let column = transcript_column(
            state.lines,
            SOURCE_COL,
            single_title(state.language),
            first,
            state.scroll_up,
            &mut layout.en,
        );
        let scroll_max: u16 = column.view.col_max;
        return Screen {
            title,
            level_pct: state.level_pct,
            draft,
            first: column,
            second: None,
            scroll_max,
            help,
            picker,
            show_help: state.show_help,
        };
    }
    let left = transcript_column(
        state.lines,
        "en",
        " English ",
        first,
        state.scroll_up,
        &mut layout.en,
    );
    let right = transcript_column(
        state.lines,
        "ja",
        " 日本語 ",
        second,
        state.scroll_up,
        &mut layout.ja,
    );
    let scroll_max: u16 = if right.view.col_max > left.view.col_max {
        right.view.col_max
    } else {
        left.view.col_max
    };
    Screen {
        title,
        level_pct: state.level_pct,
        draft,
        first: left,
        second: Some(right),
        scroll_max,
        help,
        picker,
        show_help: state.show_help,
    }
}

/// A key with what it does.
pub struct HelpRow {
    /// The key, with the space that aligns the descriptions.
    pub key: String,
    pub description: &'static str,
}

/// The column of the keys: a space, and the key in sixteen cells.
pub open spec fn key_cell(key: Seq<char>) -> Seq<char> {
    " "@ + (key + text::spaces(text::gap(key.len(), 16)))
}

/// The keys, with what they do.
pub open spec fn key_help() -> Seq<(Seq<char>, Seq<char>)> {
    seq![
        ("q / Ctrl+C"@, "Save & quit (+ 要約/Summary)"@),
        ("s"@, "Save now"@),
        ("l"@, "Cycle language (en → ja → auto)"@),
        ("space"@, "Pause / resume capture"@),
        ("m"@, "Toggle system-audio mix"@),
        ("d"@, "Audio source picker"@),
        ("↑ / ↓"@, "Scroll one line"@),
        ("PgUp / PgDn"@, "Scroll half a page"@),
        ("Home / End"@, "Oldest line / follow live"@),
        ("mouse wheel"@, "Scroll transcript"@),
        ("?"@, "Toggle this help"@),
    ]
}

/// The launch flags: they cannot be toggled while the program runs, but listing them
/// saves a trip to `--help`.
pub open spec fn flag_help() -> Seq<(Seq<char>, Seq<char>)> {
    seq![
        ("--no-translate"@, "Transcribe only (no translation)"@),
        ("-l <en|ja|auto>"@, "Set starting language"@),
        ("-r / --resume"@, "Append to an existing file"@),
    ]
}

/// Whether rows list these keys.
pub open spec fn lists(rows: Seq<HelpRow>, entries: Seq<(Seq<char>, Seq<char>)>) -> bool {
    &&& rows.len() == entries.len()
    &&& forall|i: int|
        0 <= i < rows.len() ==> (#[trigger] rows[i]).key@ == key_cell(entries[i].0)
            && rows[i].description@ == entries[i].1
}

fn help_row(key: &str, description: &'static str) -> (r: HelpRow)
    ensures
        r.key@ == key_cell(key@),
        r.description@ == description@,
{
    let mut cell = " ".to_owned();
    cell.append(pad_right(key, 16).as_str());
    HelpRow { key: cell, description }
}

/// The rows of the help on keys.
pub fn help_keys() -> (r: Vec<HelpRow>)
    ensures
        lists(r@, key_help()),
{
    let mut r: Vec<HelpRow> = Vec::new();
    r.push(help_row("q / Ctrl+C", "Save & quit (+ 要約/Summary)"));
    r.push(help_row("s", "Save now"));
    r.push(help_row("l", "Cycle language (en → ja → auto)"));
    r.push(help_row("space", "Pause / resume capture"));
    r.push(help_row("m", "Toggle system-audio mix"));
    r.push(help_row("d", "Audio source picker"));
    r.push(help_row("↑ / ↓", "Scroll one line"));
    r.push(help_row("PgUp / PgDn", "Scroll half a page"));
    r.push(help_row("Home / End", "Oldest line / follow live"));
    r.push(help_row("mouse wheel", "Scroll transcript"));
    r.push(help_row("?", "Toggle this help"));
    r
}

/// The rows of the help on launch flags.
pub fn help_flags() -> (r: Vec<HelpRow>)
    ensures
        lists(r@, flag_help()),
{
    let mut r: Vec<HelpRow> = Vec::new();
    r.push(help_row("--no-translate", "Transcribe only (no translation)"));
    r.push(help_row("-l <en|ja|auto>", "Set starting language"));
    r.push(help_row("-r / --resume", "Append to an existing file"));
    r
}

/// A cache that agrees with a transcript still does after it was brought up to date,
/// and then covers all of it: what the screen goes by is what wrapping every line
/// again would give.
pub proof fn synced_cache_is_right(
    c: CacheModel,
    lines: Seq<LineModel>,
    col: Seq<char>,
    width: int,
)
    requires
        c.agrees(lines, col),
        width >= 0,
    ensures
        c.synced(lines, col, width).agrees(lines, col),
        width > 0 ==> c.synced(lines, col, width).rows == Seq::new(
            lines.len(),
            |i: int| row_count(lines[i], col, width),
        ),
{
    let s = c.synced(lines, col, width);
    if width > 0 {
        assert(s.rows =~= Seq::new(lines.len(), |i: int| row_count(lines[i], col, width)));
    }
}

/// A new line at the end leaves a cache in agreement.
pub proof fn new_line_keeps_cache(
    c: CacheModel,
    lines: Seq<LineModel>,
    col: Seq<char>,
    line: LineModel,
)
    requires
        c.agrees(lines, col),
    ensures
        c.agrees(lines.push(line), col),
{
    assert forall|i: int| 0 <= i < c.rows.len() implies #[trigger] c.rows[i] == row_count(
        lines.push(line)[i],
        col,
        c.width,
    ) by {
        assert(lines.push(line)[i] == lines[i]);
    }
}

/// A line that changed leaves a cache in agreement once it is cut there.
pub proof fn cut_cache_allows_change(
    c: CacheModel,
    lines: Seq<LineModel>,
    col: Seq<char>,
    idx: int,
    line: LineModel,
)
    requires
        c.agrees(lines, col),
        0 <= idx < lines.len(),
    ensures
        c.cut(idx).agrees(lines.update(idx, line), col),
{
    let d = c.cut(idx);
    assert forall|i: int| 0 <= i < d.rows.len() implies #[trigger] d.rows[i] == row_count(
        lines.update(idx, line)[i],
        col,
        d.width,
    ) by {
        assert(d.rows[i] == c.rows[i]);
        assert(lines.update(idx, line)[i] == lines[i]);
    }
}

/// Of a line in one of the two languages, one column shows what was said and the
/// other one its translation, or a mark while there is none; the view without
/// translation shows what was said.
pub proof fn one_side_is_the_source(line: LineModel)
    requires
        line.src_lang == "en"@ || line.src_lang == "ja"@,
    ensures
        ({
            let own = rendered(line, line.src_lang);
            let other = rendered(
                line,
                if line.src_lang == "en"@ {
                    "ja"@
                } else {
                    "en"@
                },
            );
            let alone = rendered(line, SOURCE_COL@);
            &&& own.tone == Tone::Source && own.text == line.text
            &&& alone == own
            &&& match line.translated {
                Some(t) => other.tone == Tone::Translated && other.text == t
                    && other.head.len() == own.head.len(),
                None => other.tone == Tone::Waiting && other.text == "…"@ && other.head.len()
                    == own.head.len(),
            }
        }),
{
    reveal_strlit("en");
    reveal_strlit("ja");
    reveal_strlit("*");
    reveal_strlit("▶ ");
    reveal_strlit("  ");
    assert("en"@[0] == 'e' && "ja"@[0] == 'j' && "*"@[0] == '*');
}

/// The lines that are drawn fill a screen that has any height: they begin at or
/// above its top, and reach its bottom or the end of the transcript.
pub proof fn drawn_lines_fill_the_screen(
    v: Viewport,
    rows: Seq<u16>,
    height: u16,
    scroll_up: u16,
)
    requires
        is_view(v, rows, rows.len() as int, height, scroll_up),
    ensures
        ({
            let top = screen_top(rows, height, scroll_up);
            &&& 0 <= top
            &&& v.start < rows.len() ==> total_rows(rows.take(v.start as int)) + v.offset == top
            &&& v.end < rows.len() ==> total_rows(rows.take(v.end as int)) >= top + height
            &&& v.start == rows.len() ==> total_rows(rows) == 0 || height == 0
        }),
{
    if v.end < rows.len() {
        lemma_rows_split(rows, v.start as int, v.end as int);
    }
}

/// While the screen follows the tail, the last row of the transcript is at its
/// bottom; scrolled up to the limit it shows the first row, unless 16 bits are too
/// few to get there; and beyond the limit scrolling changes nothing.
pub proof fn scrolling_reaches_both_ends(rows: Seq<u16>, height: u16, scroll_up: u16)
    ensures
        total_rows(rows) > height ==> screen_top(rows, height, 0) + height == total_rows(rows),
        total_rows(rows) <= height ==> screen_top(rows, height, scroll_up) == 0,
        total_rows(rows) - height <= u16::MAX ==> screen_top(
            rows,
            height,
            scroll_limit(rows, height),
        ) == 0,
        scroll_up >= scroll_limit(rows, height) ==> screen_top(rows, height, scroll_up)
            == screen_top(rows, height, scroll_limit(rows, height)),
{
}

/// How a line stands in a column, whatever the two are: behind its time, with a mark
/// where the column shows what was said. That is so in the column of the language
/// that was spoken and in the view without translation; any other column shows the
/// translation, or an ellipsis while there is none.
pub proof fn lines_are_set_by_language(line: LineModel, col: Seq<char>)
    ensures
        ({
            let r = rendered(line, col);
            let time = line.started_at.hms();
            if col == "*"@ || line.src_lang == col {
                &&& r.head == "["@ + time + "] ▶ "@
                &&& r.text == line.text
                &&& r.tone == Tone::Source
            } else {
                &&& r.head == "["@ + time + "]   "@
                &&& match line.translated {
                    Some(t) => r.text == t && r.tone == Tone::Translated,
                    None => r.text == "…"@ && r.tone == Tone::Waiting,
                }
            }
        }),
{
    reveal_strlit("[");
    reveal_strlit("] ");
    reveal_strlit("▶ ");
    reveal_strlit("  ");
    reveal_strlit("] ▶ ");
    reveal_strlit("]   ");
    let r = rendered(line, col);
    let time = line.started_at.hms();
    if col == "*"@ || line.src_lang == col {
        assert(r.head =~= "["@ + time + "] ▶ "@);
    } else {
        assert(r.head =~= "["@ + time + "]   "@);
    }
}

/// A column draws every line of its view and no other: the lines from the first one
/// to the one before the end, in order, each as it is set for the column.
pub proof fn columns_draw_every_line_of_the_view(
    c: Column,
    title: Seq<char>,
    lines: Seq<LineModel>,
    col: Seq<char>,
    rows: Seq<u16>,
    height: u16,
    scroll_up: u16,
)
    requires
        is_column(c, title, lines, col, rows, height, scroll_up),
    ensures
        c.title@ == title,
        c.view.start <= c.view.end <= lines.len(),
        c.lines@.len() == c.view.end - c.view.start,
        forall|k: int|
            0 <= k < c.view.end - c.view.start ==> (#[trigger] c.lines@[k])@ == rendered(
                lines[c.view.start + k],
                col,
            ),
{
    let shown = rendered_models(c.lines@);
    assert(shown.len() == c.lines@.len());
    assert forall|k: int| 0 <= k < c.view.end - c.view.start implies (#[trigger] c.lines@[k])@
        == rendered(lines[c.view.start + k], col) by {
        assert(shown[k] == c.lines@[k]@);
    }
}

/// What a column draws fills its pane: the rows of the drawn lines reach from the top
/// of the screen to its bottom, or to the end of the transcript, and no line is drawn
/// that is not needed. While the screen follows the tail of a transcript that is
/// longer than the pane, the bottom is the last row; a transcript that fits is drawn
/// whole.
pub proof fn columns_fill_their_pane(
    c: Column,
    title: Seq<char>,
    lines: Seq<LineModel>,
    col: Seq<char>,
    rows: Seq<u16>,
    height: u16,
    scroll_up: u16,
)
    requires
        is_column(c, title, lines, col, rows, height, scroll_up),
        rows.len() == lines.len(),
        height > 0,
    ensures
        ({
            let from = c.view.start as int;
            let to = c.view.end as int;
            let drawn = total_rows(rows.subrange(from, to));
            &&& from == lines.len() || c.view.offset < rows[from]
            &&& drawn >= height + c.view.offset || to == lines.len()
            &&& from < to ==> total_rows(rows.subrange(from, to - 1)) < height + c.view.offset
            &&& total_rows(rows) <= height && (forall|i: int|
                0 <= i < rows.len() ==> #[trigger] rows[i] > 0) ==> c.view.offset == 0
                && c.lines@.len() == lines.len()
            &&& total_rows(rows) > height && scroll_up == 0 ==> total_rows(rows.take(from))
                + c.view.offset + height == total_rows(rows) && total_rows(rows.take(to))
                == total_rows(rows)
        }),
{
    columns_draw_every_line_of_the_view(c, title, lines, col, rows, height, scroll_up);
    let from = c.view.start as int;
    let to = c.view.end as int;
    let n = rows.len() as int;
    let top = screen_top(rows, height, scroll_up);
    assert(rows.take(n) =~= rows);
    lemma_rows_split(rows, from, to);
    lemma_rows_split(rows, to, n);
    if from < n {
        assert(rows.take(from + 1).drop_last() =~= rows.take(from));
    }
    if total_rows(rows) <= height && (forall|i: int| 0 <= i < n ==> #[trigger] rows[i] > 0) {
        if from > 0 {
            assert(rows[from - 1] > 0);
            assert(rows.take(from).drop_last() =~= rows.take(from - 1));
        }
        assert(from == 0);
        if to < n {
            assert(rows[to] > 0);
            lemma_rows_split(rows, to, to + 1);
            lemma_rows_split(rows, to + 1, n);
            assert(rows.take(to + 1).drop_last() =~= rows.take(to));
        }
    }
}

/// The rows of a transcript are those of its parts together, and those of a line are
/// what wrapping it gives, up to what 16 bits hold.
pub proof fn rows_add_up(a: Seq<u16>, b: Seq<u16>, line: LineModel, col: Seq<char>, width: int)
    ensures
        total_rows(a + b) == total_rows(a) + total_rows(b),
        total_rows(seq![row_count(line, col, width)]) == row_count(line, col, width),
        ({
            let n = line_rows(rendered(line, col).head, rendered(line, col).text, width);
            &&& n <= 0xffff ==> row_count(line, col, width) == n
            &&& n > 0xffff ==> row_count(line, col, width) == 0xffff
        }),
{
    let all = a + b;
    lemma_rows_split(all, a.len() as int, all.len() as int);
    assert(all.take(all.len() as int) =~= all);
    assert(all.take(a.len() as int) =~= a);
    assert(all.subrange(a.len() as int, all.len() as int) =~= b);
    let one = seq![row_count(line, col, width)];
    assert(one.drop_last() =~= Seq::<u16>::empty());
    assert(total_rows(one.drop_last()) == 0);
}

/// Scrolling moves the screen row by row: each row that is scrolled up from the tail
/// brings its top one row nearer to the beginning, up to the limit, which is the
/// number of rows that do not fit.
pub proof fn scrolling_goes_row_by_row(rows: Seq<u16>, height: u16, scroll_up: u16)
    ensures
        total_rows(rows) <= height ==> scroll_limit(rows, height) == 0,
        height < total_rows(rows) <= height + 0xffff ==> scroll_limit(rows, height)
            == total_rows(rows) - height,
        total_rows(rows) > height + 0xffff ==> scroll_limit(rows, height) == 0xffff,
        scroll_up <= scroll_limit(rows, height) ==> screen_top(rows, height, scroll_up)
            == screen_top(rows, height, 0) - scroll_up,
{
}

/// A column without width holds no rows; a change of the width forgets all rows.
pub proof fn widths_are_kept_apart(c: CacheModel, lines: Seq<LineModel>, col: Seq<char>, width: int)
    ensures
        c.synced(lines, col, 0).rows.len() == 0,
        c.synced(lines, col, width).width == width,
        width > 0 && width != c.width ==> forall|i: int|
            0 <= i < lines.len() ==> #[trigger] c.synced(lines, col, width).rows[i] == row_count(
                lines[i],
                col,
                width,
            ),
{
}

/// The first column shows English, or what was said where there is no other one.
pub proof fn columns_by_view()
    ensures
        first_col(false) == "en"@,
        first_col(true) == "*"@,
{
}

proof fn lemma_stands_in(whole: Seq<char>, before: Seq<char>, part: Seq<char>, after: Seq<char>)
    requires
        whole == before + part + after,
    ensures
        text::occurs(whole, part),
{
    text::parts_are_found(before, part, after);
}

/// The title says whether it records, in which language, from where, with which model,
/// and how the translator is.
pub proof fn title_tells_the_state(
    recording: bool,
    language: Seq<char>,
    input: Seq<char>,
    model: Seq<char>,
    status: TranslatorStatus,
)
    ensures
        ({
            let t = title_text(recording, language, input, model, status);
            &&& recording ==> text::begins(t, " kotoma · REC · "@)
            &&& !recording ==> text::begins(t, " kotoma · PAUSED · "@)
            &&& text::occurs(t, " · lang="@ + language + " · in="@ + input + " · model="@ + model)
            &&& t == (if recording {
                " kotoma · REC"@
            } else {
                " kotoma · PAUSED"@
            }) + (" · lang="@ + language + " · in="@ + input + " · model="@ + model) + (match status {
                TranslatorStatus::Loading => " · tr=loading "@,
                TranslatorStatus::Ready => " · tr=ready "@,
                TranslatorStatus::Failed => " · tr=off "@,
            })
            &&& status == TranslatorStatus::Loading ==> text::ends(t, " · tr=loading "@)
            &&& status == TranslatorStatus::Ready ==> text::ends(t, " · tr=ready "@)
            &&& status == TranslatorStatus::Failed ==> text::ends(t, " · tr=off "@)
        }),
{
    reveal_strlit(" kotoma · ");
    reveal_strlit("REC");
    reveal_strlit("PAUSED");
    reveal_strlit(" · lang=");
    reveal_strlit(" · in=");
    reveal_strlit(" · model=");
    reveal_strlit(" · ");
    reveal_strlit("tr=loading");
    reveal_strlit("tr=ready");
    reveal_strlit("tr=off");
    reveal_strlit(" ");
    reveal_strlit(" kotoma · REC · ");
    reveal_strlit(" kotoma · PAUSED · ");
    reveal_strlit(" · tr=loading ");
    reveal_strlit(" · tr=ready ");
    reveal_strlit(" · tr=off ");
    let t = title_text(recording, language, input, model, status);
    let a = if recording {
        " kotoma · REC · "@
    } else {
        " kotoma · PAUSED · "@
    };
    assert(t.take(a.len() as int) =~= a);
    let b = match status {
        TranslatorStatus::Loading => " · tr=loading "@,
        TranslatorStatus::Ready => " · tr=ready "@,
        TranslatorStatus::Failed => " · tr=off "@,
    };
    assert(t.skip(t.len() - b.len()) =~= b);
    let mid = " · lang="@ + language + " · in="@ + input + " · model="@ + model;
    reveal_strlit(" kotoma · REC");
    reveal_strlit(" kotoma · PAUSED");
    let front = if recording {
        " kotoma · REC"@
    } else {
        " kotoma · PAUSED"@
    };
    assert(t =~= front + mid + b);
    lemma_stands_in(t, front, mid, b);
}

/// The line on the segment in progress gives both durations, and says so where there
/// is no speech. The last line gives the note, the keys, and how far the screen is
/// from the tail.
pub proof fn status_lines_tell_the_state(
    speech: Seq<char>,
    elapsed: Seq<char>,
    note: Seq<char>,
    scroll_up: u16,
)
    ensures
        draft_text(false, speech, elapsed) == " (no speech)"@,
        draft_text(true, speech, elapsed) == " ● capturing · "@ + speech + "s speech · "@ + elapsed
            + "s elapsed"@,
        scroll_up == 0 ==> nav_text(scroll_up) == " ↑/PgUp scroll "@,
        scroll_up > 0 ==> nav_text(scroll_up) == " ↑↓/PgUp/PgDn · End follow (−"@ + text::decimal(
            scroll_up as nat,
        ) + ") "@,
        help_text(Some(note), scroll_up) == " "@ + note + " · q quit&save · s save · ? help ·"@
            + nav_text(scroll_up),
        help_text(None, scroll_up)
            == " q quit&save · s save · l lang · d device · m sys-audio · space pause · ? help ·"@
            + nav_text(scroll_up),
        text::begins(help_text(Some(note), scroll_up), " "@ + note + " · q quit&save"@),
        text::begins(help_text(None, scroll_up), " q quit&save · s save · l lang · d device"@),
        scroll_up == 0 ==> text::ends(help_text(None, scroll_up), " ? help · ↑/PgUp scroll "@)
            && text::ends(help_text(Some(note), scroll_up), " ? help · ↑/PgUp scroll "@),
        scroll_up > 0 ==> text::ends(
            help_text(None, scroll_up),
            "End follow (−"@ + text::decimal(scroll_up as nat) + ") "@,
        ) && text::ends(
            help_text(Some(note), scroll_up),
            "End follow (−"@ + text::decimal(scroll_up as nat) + ") "@,
        ),
{
    reveal_strlit(" ");
    reveal_strlit(" · q quit&save · s save · ? help ·");
    reveal_strlit(" q quit&save · s save · l lang · d device · m sys-audio · space pause · ? help ·");
    reveal_strlit(" ↑/PgUp scroll ");
    reveal_strlit(" ↑↓/PgUp/PgDn · End follow (−");
    reveal_strlit(") ");
    reveal_strlit(" · q quit&save");
    reveal_strlit(" q quit&save · s save · l lang · d device");
    reveal_strlit(" ? help · ↑/PgUp scroll ");
    reveal_strlit("End follow (−");
    let with = help_text(Some(note), scroll_up);
    let without = help_text(None, scroll_up);
    let a = " "@ + note + " · q quit&save"@;
    assert(with.take(a.len() as int) =~= a);
    let b = " q quit&save · s save · l lang · d device"@;
    assert(without.take(b.len() as int) =~= b);
    let end = if scroll_up == 0 {
        " ? help · ↑/PgUp scroll "@
    } else {
        "End follow (−"@ + text::decimal(scroll_up as nat) + ") "@
    };
    assert(with.skip(with.len() - end.len()) =~= end);
    assert(without.skip(without.len() - end.len()) =~= end);
}

/// The single column is named after the language that is spoken, where one is set.
pub proof fn single_column_is_named(language: Seq<char>)
    ensures
        transcript_title("en"@) == " English "@,
        transcript_title("ja"@) == " 日本語 "@,
        language != "en"@ && language != "ja"@ ==> transcript_title(language) == " Transcript "@,
{
    reveal_strlit("en");
    reveal_strlit("ja");
    assert("en"@[0] != "ja"@[0]);
}

/// A section of the picker has a row for each device, in order. Exactly the selected
/// one is set off, by an arrow in the section in focus and by a dot in the other one;
/// an output that is recorded in loopback is told by its name without the prefix.
pub proof fn sections_show_every_device(
    rows: Seq<PickerRow>,
    devices: Seq<Seq<char>>,
    selected: int,
    focused: bool,
)
    requires
        is_section(rows, devices, selected, focused),
    ensures
        rows.len() == devices.len(),
        forall|i: int|
            0 <= i < rows.len() ==> {
                let name = if text::begins(devices[i], "loopback:"@) {
                    "[loopback] "@ + devices[i].skip(9)
                } else {
                    devices[i]
                };
                &&& i != selected ==> (#[trigger] rows[i]).mark == Mark::Plain && rows[i].label@
                    == "  "@ + name
                &&& i == selected && focused ==> rows[i].mark == Mark::Focused && rows[i].label@
                    == "▶ "@ + name
                &&& i == selected && !focused ==> rows[i].mark == Mark::Selected && rows[i].label@
                    == "● "@ + name
            },
{
    reveal_strlit("loopback:");
}

/// The keys that the help lists, each with what it does, aligned behind sixteen cells.
pub proof fn help_lists_every_key(key: Seq<char>)
    requires
        key.len() <= 16,
    ensures
        key_cell(key).len() == 17,
        key_cell(key).subrange(1, 1 + key.len() as int) == key,
        key_help().len() == 11,
        key_help().contains(("q / Ctrl+C"@, "Save & quit (+ 要約/Summary)"@)),
        key_help().contains(("s"@, "Save now"@)),
        key_help().contains(("l"@, "Cycle language (en → ja → auto)"@)),
        key_help().contains(("space"@, "Pause / resume capture"@)),
        key_help().contains(("m"@, "Toggle system-audio mix"@)),
        key_help().contains(("d"@, "Audio source picker"@)),
        key_help().contains(("↑ / ↓"@, "Scroll one line"@)),
        key_help().contains(("PgUp / PgDn"@, "Scroll half a page"@)),
        key_help().contains(("Home / End"@, "Oldest line / follow live"@)),
        key_help().contains(("mouse wheel"@, "Scroll transcript"@)),
        key_help().contains(("?"@, "Toggle this help"@)),
        flag_help().len() == 3,
        flag_help().contains(("--no-translate"@, "Transcribe only (no translation)"@)),
        flag_help().contains(("-l <en|ja|auto>"@, "Set starting language"@)),
        flag_help().contains(("-r / --resume"@, "Append to an existing file"@)),
{
    reveal_strlit(" ");
    assert(key_cell(key).subrange(1, 1 + key.len() as int) =~= key);
    let k = key_help();
    assert(k[0] == ("q / Ctrl+C"@, "Save & quit (+ 要約/Summary)"@));
    assert(k[1] == ("s"@, "Save now"@));
    assert(k[2] == ("l"@, "Cycle language (en → ja → auto)"@));
    assert(k[3] == ("space"@, "Pause / resume capture"@));
    assert(k[4] == ("m"@, "Toggle system-audio mix"@));
    assert(k[5] == ("d"@, "Audio source picker"@));
    assert(k[6] == ("↑ / ↓"@, "Scroll one line"@));
    assert(k[7] == ("PgUp / PgDn"@, "Scroll half a page"@));
    assert(k[8] == ("Home / End"@, "Oldest line / follow live"@));
    assert(k[9] == ("mouse wheel"@, "Scroll transcript"@));
    assert(k[10] == ("?"@, "Toggle this help"@));
    let f = flag_help();
    assert(f[0] == ("--no-translate"@, "Transcribe only (no translation)"@));
    assert(f[1] == ("-l <en|ja|auto>"@, "Set starting language"@));
    assert(f[2] == ("-r / --resume"@, "Append to an existing file"@));
}

} // verus!
