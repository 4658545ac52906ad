//! The transcript as a Markdown document.
use crate::text::{self, ends_with, same};
use crate::time::{self, TimeModel, Timestamp};
use crate::transcribe::{self, LineModel, TranscriptLine};
use vstd::prelude::*;
use vstd::string::*;

verus! {

/// A character as it stands in a cell: a bar is escaped, a line break is a space.
pub open spec fn escape_char(c: char) -> Seq<char> {
    if c == '|' {
        seq!['\\', '|']
    } else if c == '\n' {
        seq![' ']
    } else {
        seq![c]
    }
}

/// A text as it stands in a cell.
pub open spec fn escaped(s: Seq<char>) -> Seq<char>
    decreases s.len(),
{
    if s.len() == 0 {
        Seq::empty()
    } else {
        escaped(s.drop_last()) + escape_char(s.last())
    }
}

/// A text as it stands in a cell of a table.
pub fn escape_cell(s: &str) -> (r: String)
    ensures
        r@ == escaped(s@),
{
    let mut r = String::new();
    for c in it: s.chars()
        invariant
            it.seq() == s@,
            r@ == escaped(s@.take(it.index())),
    {
        let ghost k = it.index();
        assert(s@.take(k + 1).drop_last() =~= s@.take(k));
        let ghost before = r@;
        if c == '|' {
            r.push('\\');
            r.push('|');
        } else if c == '\n' {
            r.push(' ');
        } else {
            r.push(c);
        }
        assert(r@ =~= before + escape_char(c));
    }
    assert(s@.take(s@.len() as int) =~= s@);
    r
}

/// The English side of a line: its own text, or its translation.
pub open spec fn english(line: LineModel) -> Seq<char> {
    if line.src_lang == "ja"@ {
        match line.translated {
            Some(t) => t,
            None => ""@,
        }
    } else {
        line.text
    }
}

/// The Japanese side of a line: its own text, or its translation.
pub open spec fn japanese(line: LineModel) -> Seq<char> {
    if line.src_lang == "ja"@ {
        line.text
    } else {
        match line.translated {
            Some(t) => t,
            None => ""@,
        }
    }
}

/// The row of a line: its time, and its two sides.
pub open spec fn row(line: LineModel) -> Seq<char> {
    "| "@ + line.started_at.hms() + " | "@ + escaped(english(line)) + " | "@ + escaped(
        japanese(line),
    ) + " |\n"@
}

/// The rows of all lines.
pub open spec fn rows(lines: Seq<LineModel>) -> Seq<char>
    decreases lines.len(),
{
    if lines.len() == 0 {
        Seq::empty()
    } else {
        rows(lines.drop_last()) + row(lines.last())
    }
}

/// The heading of a session: when it began and when it ended, where the date of the
/// end is left out if it is that of the beginning.
pub open spec fn heading(started: TimeModel, ended: TimeModel) -> Seq<char> {
    if started.day() == ended.day() {
        "## "@ + time::date_text(started.day()) + " "@ + started.hm() + " – "@ + ended.hm() + "\n"@
    } else {
        "## "@ + time::date_text(started.day()) + " "@ + started.hm() + " – "@ + time::date_text(ended.day())
            + " "@ + ended.hm() + "\n"@
    }
}

/// The head of the table.
pub const TABLE_HEAD: &'static str = "\n| time | English | 日本語 |\n|------|---------|--------|\n";

/// The block of a session: the heading and the table. A session without lines has
/// no block.
pub open spec fn session_block(lines: Seq<LineModel>) -> Seq<char> {
    if lines.len() == 0 {
        Seq::empty()
    } else {
        heading(lines[0].started_at, lines.last().ended_at) + TABLE_HEAD@ + rows(lines)
    }
}

/// The head of a new document.
pub open spec fn frontmatter(now: TimeModel) -> Seq<char> {
    "---\ntitle: Transcript\ncreated: "@ + time::date_text(now.day()) + " "@ + now.hms()
        + "\n---\n\n"@
}

/// What stands before the new session in a document that is continued: the prior
/// content, a line break where it lacks one, and an empty line.
pub open spec fn resumed(prior: Seq<char>) -> Seq<char> {
    (if text::ends(prior, "\n"@) {
        prior
    } else {
        prior + "\n"@
    }) + "\n"@
}

/// The document of a session, new or behind prior content. There is none when there
/// is nothing to write.
pub open spec fn document_of(
    lines: Seq<LineModel>,
    existing: Option<Seq<char>>,
    now: TimeModel,
) -> Option<Seq<char>> {
    match existing {
        Some(prior) => Some(resumed(prior) + session_block(lines)),
        None => if lines.len() == 0 {
            None
        } else {
            Some(frontmatter(now) + session_block(lines))
        },
    }
}

/// The head of a new document.
fn write_frontmatter(f: &mut String, now: &Timestamp)
    ensures
        final(f)@ == old(f)@ + frontmatter(now@),
{
    let ghost before = f@;
    f.append("---\ntitle: Transcript\ncreated: ");
    f.append(now.date().as_str());
    f.append(" ");
    f.append(now.hms().as_str());
    f.append("\n---\n\n");
    assert(f@ =~= before + frontmatter(now@));
}

/// The heading of a session.
fn write_heading(f: &mut String, started: &Timestamp, ended: &Timestamp)
    ensures
        final(f)@ == old(f)@ + heading(started@, ended@),
{
    let ghost before = f@;
    f.append("## ");
    f.append(started.date().as_str());
    f.append(" ");
    f.append(started.hm().as_str());
    f.append(" – ");
    if !started.same_day(ended) {
        f.append(ended.date().as_str());
        f.append(" ");
    }
    f.append(ended.hm().as_str());
    f.append("\n");
    assert(f@ =~= before + heading(started@, ended@));
}

/// The row of a line.
fn write_row(f: &mut String, line: &TranscriptLine)
    ensures
        final(f)@ == old(f)@ + row(line@),
{
    let ghost before = f@;
    let translated = match &line.translated {
        Some(t) => t.as_str(),
        None => "",
    };
    let text = line.text.as_str();
    let ja = same(line.src_lang.as_str(), "ja");
    f.append("| ");
    f.append(line.started_at.hms().as_str());
    f.append(" | ");
    f.append(escape_cell(if ja { translated } else { text }).as_str());
    f.append(" | ");
    f.append(escape_cell(if ja { text } else { translated }).as_str());
    f.append(" |\n");
    assert(f@ =~= before + row(line@));
}

/// The block of a session.
fn write_session(f: &mut String, lines: &Vec<TranscriptLine>)
    requires
        lines@.len() > 0,
    ensures
        final(f)@ == old(f)@ + session_block(transcribe::line_models(lines@)),
{
    let ghost all = transcribe::line_models(lines@);
    let ghost before = f@;
    let n: usize = lines.len();
    write_heading(f, &lines[0].started_at, &lines[n - 1].ended_at);
    f.append(TABLE_HEAD);
    let ghost head = f@;
    assert(head + rows(all.take(0)) =~= head);
    let mut i: usize = 0;
    while i < n
        invariant
            i <= n,
            n == lines@.len(),
            all == transcribe::line_models(lines@),
            f@ == head + rows(all.take(i as int)),
        decreases n - i,
    {
        assert(all.take(i + 1).drop_last() =~= all.take(i as int));
        assert(all.take(i + 1).last() == lines@[i as int]@);
        write_row(f, &lines[i]);
        assert(f@ =~= head + rows(all.take(i + 1)));
        i += 1;
    }
    assert(all.take(n as int) =~= all);
    assert(all[0] == lines@[0]@ && all.last() == lines@[n - 1]@);
    assert(f@ =~= before + session_block(all));
}

/// The document to save. `existing` is the content that a resumed session is
/// appended to; it is the snapshot taken when the session began, so saving again
/// during the session replaces the block of the session and never repeats it.
pub fn document(
    lines: &Vec<TranscriptLine>,
    existing: Option<&str>,
    now: &Timestamp,
) -> (r: Option<String>)
    ensures
        match r {
            Some(d) => document_of(
                transcribe::line_models(lines@),
                text::opt_slice(existing),
                now@,
            ) == Some(d@),
            None => document_of(
                transcribe::line_models(lines@),
                text::opt_slice(existing),
                now@,
            ) is None,
        },
{
    let mut f = String::new();
    match existing {
        Some(prior) => {
            f.append(prior);
            assert(f@ =~= prior@);
            if !ends_with(prior, "\n") {
                f.append("\n");
            }
            f.append("\n");
        },
        None => {
            if lines.len() == 0 {
                return None;
            }
            write_frontmatter(&mut f, now);
            assert(f@ =~= frontmatter(now@));
        },
    }
    let ghost head = f@;
    if lines.len() > 0 {
        write_session(&mut f, lines);
    } else {
        assert(head + session_block(transcribe::line_models(lines@)) =~= head);
    }
    Some(f)
}

/// The name of the sibling file that is written first and then renamed into place,
/// so that a failure cannot truncate an existing transcript.
pub fn temporary_name(file_name: Option<&str>) -> (r: String)
    ensures
        r@ == (match file_name {
            Some(n) => n@,
            None => "transcript.md"@,
        }) + ".tmp"@,
{
    let mut r = match file_name {
        Some(n) => n.to_owned(),
        None => "transcript.md".to_owned(),
    };
    r.append(".tmp");
    r
}

/// Resuming keeps the prior content verbatim at the head of the document, and what
/// follows is a line break or two and the block of the session.
pub proof fn resume_keeps_prior(lines: Seq<LineModel>, prior: Seq<char>, now: TimeModel)
    ensures
        document_of(lines, Some(prior), now) matches Some(d) && {
            &&& d.take(prior.len() as int) == prior
            &&& d == resumed(prior) + session_block(lines)
            &&& resumed(prior) == prior + "\n"@ || resumed(prior) == prior + "\n"@ + "\n"@
        },
{
    let d = document_of(lines, Some(prior), now)->0;
    assert(d.take(prior.len() as int) =~= prior);
}

/// Saving twice in a resumed session does not repeat anything: the second document
/// depends on the snapshot and on the lines at that time alone, and differs from the
/// first only behind the resumed content.
pub proof fn saving_again_replaces(
    first: Seq<LineModel>,
    second: Seq<LineModel>,
    prior: Seq<char>,
    now: TimeModel,
    later: TimeModel,
)
    ensures
        document_of(second, Some(prior), now) == document_of(second, Some(prior), later),
        ({
            let n = resumed(prior).len() as int;
            let a = document_of(first, Some(prior), now)->0;
            let b = document_of(second, Some(prior), later)->0;
            &&& a.take(n) == b.take(n)
            &&& b.skip(n) == session_block(second)
        }),
{
    lemma_front_and_end(resumed(prior), session_block(first));
    lemma_front_and_end(resumed(prior), session_block(second));
}

proof fn lemma_front_and_end(a: Seq<char>, b: Seq<char>)
    ensures
        (a + b).take(a.len() as int) == a,
        (a + b).skip(a.len() as int) == b,
        (a + b).skip((a + b).len() - b.len()) == b,
        text::begins(a + b, a),
        text::ends(a + b, b),
{
    assert((a + b).take(a.len() as int) =~= a);
    assert((a + b).skip(a.len() as int) =~= b);
}

/// A cell stays a cell: it holds no line break, and every bar in it is escaped.
pub proof fn cells_stay_cells(s: Seq<char>)
    ensures
        forall|i: int| 0 <= i < escaped(s).len() ==> #[trigger] escaped(s)[i] != '\n',
        forall|i: int|
            0 <= i < escaped(s).len() && #[trigger] escaped(s)[i] == '|' ==> i > 0 && escaped(
                s,
            )[i - 1] == '\\',
    decreases s.len(),
{
    if s.len() > 0 {
        let before = escaped(s.drop_last());
        cells_stay_cells(s.drop_last());
        let e = escaped(s);
        assert forall|i: int| 0 <= i < e.len() implies #[trigger] e[i] != '\n' && (e[i] == '|' ==> i
            > 0 && e[i - 1] == '\\') by {
            if i < before.len() {
                assert(e[i] == before[i]);
                if i > 0 {
                    assert(e[i - 1] == before[i - 1]);
                }
            }
        }
    }
}

/// A text without bars and line breaks stands in a cell as it is.
pub proof fn plain_cells_are_verbatim(s: Seq<char>)
    requires
        forall|i: int| 0 <= i < s.len() ==> #[trigger] s[i] != '|' && s[i] != '\n',
    ensures
        escaped(s) == s,
    decreases s.len(),
{
    if s.len() > 0 {
        let before = s.drop_last();
        assert forall|i: int| 0 <= i < before.len() implies #[trigger] before[i] != '|' && before[i]
            != '\n' by {
            assert(before[i] == s[i]);
        }
        plain_cells_are_verbatim(before);
        assert(s[s.len() - 1] != '|' && s[s.len() - 1] != '\n');
    }
    assert(escaped(s) =~= s);
}

/// How many line breaks a text holds.
pub open spec fn breaks(s: Seq<char>) -> nat
    decreases s.len(),
{
    if s.len() == 0 {
        0
    } else {
        breaks(s.drop_last()) + if s.last() == '\n' {
            1nat
        } else {
            0nat
        }
    }
}

proof fn lemma_breaks_concat(a: Seq<char>, b: Seq<char>)
    ensures
        breaks(a + b) == breaks(a) + breaks(b),
    decreases b.len(),
{
    if b.len() == 0 {
        assert(a + b =~= a);
    } else {
        assert((a + b).drop_last() =~= a + b.drop_last());
        lemma_breaks_concat(a, b.drop_last());
    }
}

proof fn lemma_no_breaks(s: Seq<char>)
    requires
        forall|i: int| 0 <= i < s.len() ==> #[trigger] s[i] != '\n',
    ensures
        breaks(s) == 0,
    decreases s.len(),
{
    if s.len() > 0 {
        assert(s[s.len() - 1] != '\n');
        assert forall|i: int| 0 <= i < s.len() - 1 implies #[trigger] s.drop_last()[i] != '\n' by {
            assert(s.drop_last()[i] == s[i]);
        }
        lemma_no_breaks(s.drop_last());
    }
}

proof fn lemma_two_has_no_breaks(n: int)
    requires
        0 <= n < 100,
    ensures
        breaks(time::two(n)) == 0,
{
    assert(text::digit((n / 10) as nat) != '\n');
    assert(text::digit((n % 10) as nat) != '\n');
    lemma_no_breaks(time::two(n));
}

proof fn lemma_row_is_one_line(line: LineModel)
    ensures
        breaks(row(line)) == 1,
{
    let t = line.started_at;
    let en = escaped(english(line));
    let ja = escaped(japanese(line));
    reveal_strlit("| ");
    reveal_strlit(" | ");
    reveal_strlit(" |\n");
    lemma_no_breaks("| "@);
    lemma_no_breaks(" | "@);
    lemma_two_has_no_breaks(t.hour());
    lemma_two_has_no_breaks(t.minute());
    lemma_two_has_no_breaks(t.second());
    lemma_no_breaks(seq![':']);
    lemma_breaks_concat(time::two(t.hour()), seq![':']);
    lemma_breaks_concat(time::two(t.hour()) + seq![':'], time::two(t.minute()));
    lemma_breaks_concat(t.hm(), seq![':']);
    lemma_breaks_concat(t.hm() + seq![':'], time::two(t.second()));
    assert(breaks(t.hms()) == 0);
    cells_stay_cells(english(line));
    cells_stay_cells(japanese(line));
    lemma_no_breaks(en);
    lemma_no_breaks(ja);
    assert(breaks(" |\n"@) == 1) by {
        let s = " |\n"@;
        assert(s.drop_last() =~= seq![' ', '|']);
        lemma_no_breaks(s.drop_last());
    }
    let a = "| "@ + t.hms();
    let b = a + " | "@;
    let c = b + en;
    let d = c + " | "@;
    let e = d + ja;
    lemma_breaks_concat("| "@, t.hms());
    lemma_breaks_concat(a, " | "@);
    lemma_breaks_concat(b, en);
    lemma_breaks_concat(c, " | "@);
    lemma_breaks_concat(d, ja);
    lemma_breaks_concat(e, " |\n"@);
}

/// The table has exactly one line of text for each line of the transcript, whatever
/// the lines hold.
pub proof fn one_row_per_line(lines: Seq<LineModel>)
    ensures
        breaks(rows(lines)) == lines.len(),
    decreases lines.len(),
{
    if lines.len() > 0 {
        one_row_per_line(lines.drop_last());
        lemma_row_is_one_line(lines.last());
        lemma_breaks_concat(rows(lines.drop_last()), row(lines.last()));
    }
}

/// What stands in a cell is what its parts give, one after the other; a bar becomes an
/// escaped bar, a line break a space, and any other character stays.
pub proof fn cells_are_set_character_by_character(a: Seq<char>, b: Seq<char>, c: char)
    ensures
        escaped(a + b) == escaped(a) + escaped(b),
        escaped(seq!['|']) == seq!['\\', '|'],
        escaped(seq!['\n']) == seq![' '],
        c != '|' && c != '\n' ==> escaped(seq![c]) == seq![c],
    decreases b.len(),
{
    assert forall|d: char| #[trigger] escaped(seq![d]) == escape_char(d) by {
        assert(seq![d].drop_last() =~= Seq::<char>::empty());
        assert(escaped(seq![d].drop_last()) =~= Seq::<char>::empty());
        assert(escaped(seq![d]) =~= escape_char(d));
    }
    if b.len() == 0 {
        assert(a + b =~= a);
        assert(escaped(a) + escaped(b) =~= escaped(a));
    } else {
        cells_are_set_character_by_character(a, b.drop_last(), c);
        assert((a + b).drop_last() =~= a + b.drop_last());
        assert(escaped(a + b) =~= escaped(a) + escaped(b));
    }
}

/// The sides of a line: what was said stands under its own language, the translation
/// under the other one, and nothing where there is no translation.
pub proof fn sides_by_language(line: LineModel)
    ensures
        ({
            let translation = match line.translated {
                Some(t) => t,
                None => Seq::empty(),
            };
            if line.src_lang == "ja"@ {
                japanese(line) == line.text && english(line) == translation
            } else {
                english(line) == line.text && japanese(line) == translation
            }
        }),
{
    reveal_strlit("");
    assert(""@ =~= Seq::<char>::empty());
}

/// The table goes line by line: the rows of a session are those of its parts, one
/// after the other, and the row of a line holds its time, its English side and its
/// Japanese side between bars.
pub proof fn table_goes_line_by_line(a: Seq<LineModel>, b: Seq<LineModel>, line: LineModel)
    ensures
        rows(Seq::empty()).len() == 0,
        rows(a + b) == rows(a) + rows(b),
        rows(seq![line]) == "| "@ + line.started_at.hms() + " | "@ + escaped(english(line)) + " | "@
            + escaped(japanese(line)) + " |\n"@,
    decreases b.len(),
{
    let one = seq![line];
    assert(one.drop_last() =~= Seq::<LineModel>::empty());
    assert(rows(one.drop_last()) =~= Seq::<char>::empty());
    assert(rows(one) =~= row(line));
    if b.len() == 0 {
        assert(a + b =~= a);
        assert(rows(a) + rows(b) =~= rows(a));
    } else {
        table_goes_line_by_line(a, b.drop_last(), line);
        assert((a + b).drop_last() =~= a + b.drop_last());
        assert(rows(a + b) =~= rows(a) + rows(b));
    }
}

/// Where a row stands: behind the rows of the lines before it.
proof fn lemma_row_stands_in(lines: Seq<LineModel>, i: int)
    requires
        0 <= i < lines.len(),
    ensures
        rows(lines) == rows(lines.take(i)) + row(lines[i]) + rows(lines.skip(i + 1)),
{
    let front = lines.take(i + 1);
    table_goes_line_by_line(front, lines.skip(i + 1), lines[i]);
    assert(front + lines.skip(i + 1) =~= lines);
    assert(front.drop_last() =~= lines.take(i));
    assert(front.last() == lines[i]);
}

/// The block of a session holds every line: behind the heading and the head of the
/// table comes the row of each line, from the first one to the last one, and nothing
/// else. A session without lines has no block.
pub proof fn block_holds_every_line(lines: Seq<LineModel>)
    ensures
        lines.len() == 0 ==> session_block(lines).len() == 0,
        lines.len() > 0 ==> {
            let top = heading(lines[0].started_at, lines[lines.len() - 1].ended_at)
                + "\n| time | English | 日本語 |\n|------|---------|--------|\n"@;
            let block = session_block(lines);
            &&& text::begins(block, top)
            &&& block.len() == top.len() + rows(lines).len()
            &&& breaks(block) == breaks(top) + lines.len()
            &&& forall|i: int|
                0 <= i < lines.len() ==> {
                    let at = top.len() + rows(lines.take(i)).len();
                    &&& at + row(#[trigger] lines[i]).len() <= block.len()
                    &&& block.subrange(at as int, at + row(lines[i]).len() as int) == row(lines[i])
                }
        },
{
    if lines.len() > 0 {
        let top = heading(lines[0].started_at, lines[lines.len() - 1].ended_at)
            + "\n| time | English | 日本語 |\n|------|---------|--------|\n"@;
        let block = session_block(lines);
        assert(block =~= top + rows(lines));
        assert(block.take(top.len() as int) =~= top);
        lemma_breaks_concat(top, rows(lines));
        one_row_per_line(lines);
        assert forall|i: int| 0 <= i < lines.len() implies {
            let at = top.len() + rows(lines.take(i)).len();
            &&& at + row(#[trigger] lines[i]).len() <= block.len()
            &&& block.subrange(at as int, at + row(lines[i]).len() as int) == row(lines[i])
        } by {
            lemma_row_stands_in(lines, i);
            let at = top.len() + rows(lines.take(i)).len();
            assert(block.subrange(at as int, at + row(lines[i]).len() as int) =~= row(lines[i]));
        }
    }
}

/// The document holds the row of every line of the session, whether it is new or
/// continues an older one, and it ends with that of the last line.
pub proof fn document_holds_every_line(
    lines: Seq<LineModel>,
    existing: Option<Seq<char>>,
    now: TimeModel,
    i: int,
)
    requires
        0 <= i < lines.len(),
    ensures
        document_of(lines, existing, now) matches Some(d) && {
            &&& text::occurs(d, row(lines[i]))
            &&& text::ends(d, session_block(lines))
            &&& text::ends(d, rows(lines))
            &&& text::ends(d, row(lines[lines.len() - 1]))
        },
{
    let d = document_of(lines, existing, now)->0;
    let before = match existing {
        Some(prior) => resumed(prior),
        None => frontmatter(now),
    };
    let top = heading(lines[0].started_at, lines[lines.len() - 1].ended_at) + TABLE_HEAD@;
    let n = lines.len() as int;
    lemma_row_stands_in(lines, i);
    lemma_row_stands_in(lines, n - 1);
    assert(lines.skip(n) =~= Seq::<LineModel>::empty());
    let empty = rows(lines.skip(n));
    assert(empty =~= Seq::<char>::empty());
    assert(d == before + (top + rows(lines)));
    lemma_front_and_end(before, top + rows(lines));
    lemma_part_of_rows(before, top, rows(lines.take(i)), row(lines[i]), rows(lines.skip(i + 1)));
    lemma_part_of_rows(before, top, rows(lines.take(n - 1)), row(lines[n - 1]), empty);
}

proof fn lemma_part_of_rows(
    before: Seq<char>,
    top: Seq<char>,
    front: Seq<char>,
    part: Seq<char>,
    rest: Seq<char>,
)
    ensures
        text::occurs(before + (top + (front + part + rest)), part),
        text::ends(before + (top + (front + part + rest)), front + part + rest),
        rest.len() == 0 ==> text::ends(before + (top + (front + part + rest)), part),
{
    let d = before + (top + (front + part + rest));
    let a = before + top + front;
    assert(d =~= a + part + rest);
    text::parts_are_found(a, part, rest);
    let all = front + part + rest;
    assert(d =~= (before + top) + all);
    lemma_front_and_end(before + top, all);
    if rest.len() == 0 {
        assert(d =~= a + part);
        lemma_front_and_end(a, part);
    }
}

/// When there is something to write: always for a session that is continued, and for
/// a new one where it has lines. What is continued stands in front, ended by a line
/// break and an empty line; a new document begins with its title and its date.
pub proof fn what_a_document_begins_with(
    lines: Seq<LineModel>,
    prior: Seq<char>,
    now: TimeModel,
)
    ensures
        document_of(lines, None, now) is None <==> lines.len() == 0,
        document_of(lines, Some(prior), now) is Some,
        prior.len() > 0 && prior.last() == '\n' ==> resumed(prior) == prior + seq!['\n'],
        prior.len() == 0 || prior.last() != '\n' ==> resumed(prior) == prior + seq!['\n', '\n'],
        text::begins((document_of(lines, Some(prior), now))->0, resumed(prior)),
        (document_of(lines, Some(prior), now))->0 == resumed(prior) + session_block(lines),
        lines.len() > 0 ==> (document_of(lines, None, now))->0
            == "---\ntitle: Transcript\ncreated: "@ + time::date_text(now.day()) + " "@ + now.hms()
            + "\n---\n\n"@ + session_block(lines),
        lines.len() > 0 ==> text::begins(
            (document_of(lines, None, now))->0,
            "---\ntitle: Transcript\ncreated: "@ + time::date_text(now.day()) + " "@ + now.hms()
                + "\n---\n\n"@ + "## "@,
        ),
{
    lemma_resumed(prior);
    lemma_front_and_end(resumed(prior), session_block(lines));
    if lines.len() > 0 {
        let h = heading(lines[0].started_at, lines[lines.len() - 1].ended_at);
        headings_give_both_ends(lines[0].started_at, lines[lines.len() - 1].ended_at);
        lemma_new_document(frontmatter(now), h, TABLE_HEAD@ + rows(lines));
        assert(session_block(lines) =~= h + (TABLE_HEAD@ + rows(lines)));
    }
}

proof fn lemma_new_document(front: Seq<char>, h: Seq<char>, rest: Seq<char>)
    requires
        text::begins(h, "## "@),
    ensures
        text::begins(front + (h + rest), front + "## "@),
{
    let d = front + (h + rest);
    let p = front + "## "@;
    assert(h.take("## "@.len() as int) =~= "## "@);
    assert(d.take(p.len() as int) =~= p);
}

proof fn lemma_resumed(prior: Seq<char>)
    ensures
        prior.len() > 0 && prior.last() == '\n' ==> resumed(prior) == prior + seq!['\n'],
        prior.len() == 0 || prior.last() != '\n' ==> resumed(prior) == prior + seq!['\n', '\n'],
{
    reveal_strlit("\n");
    if text::ends(prior, "\n"@) {
        text::parts_are_found(prior, "\n"@, prior);
        assert(prior.last() == '\n');
        assert(resumed(prior) =~= prior + seq!['\n']);
    } else {
        if prior.len() > 0 && prior.last() == '\n' {
            assert(prior.skip(prior.len() - 1) =~= "\n"@);
            assert(false);
        }
        assert(resumed(prior) =~= prior + seq!['\n', '\n']);
    }
}

/// A heading gives the date and the time of the beginning, and the time of the end,
/// with its date where that is another one.
pub proof fn headings_give_both_ends(started: TimeModel, ended: TimeModel)
    ensures
        text::begins(heading(started, ended), "## "@),
        text::begins(
            heading(started, ended),
            "## "@ + time::date_text(started.day()) + " "@ + started.hm() + " – "@,
        ),
        started.day() == ended.day() ==> text::ends(
            heading(started, ended),
            started.hm() + " – "@ + ended.hm() + "\n"@,
        ),
        started.day() != ended.day() ==> text::ends(
            heading(started, ended),
            started.hm() + " – "@ + time::date_text(ended.day()) + " "@ + ended.hm() + "\n"@,
        ),
{
    let h = heading(started, ended);
    let a = "## "@ + time::date_text(started.day()) + " "@ + started.hm() + " – "@;
    assert(h.take(a.len() as int) =~= a);
    assert(h.take("## "@.len() as int) =~= "## "@);
    let b = if started.day() == ended.day() {
        started.hm() + " – "@ + ended.hm() + "\n"@
    } else {
        started.hm() + " – "@ + time::date_text(ended.day()) + " "@ + ended.hm() + "\n"@
    };
    assert(h.skip(h.len() - b.len()) =~= b);
}

} // verus!
