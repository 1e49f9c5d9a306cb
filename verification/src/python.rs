//! The Python console: what is sent to the interpreter, how its output is shown, the history of
//! commands, and how changed buffers are merged.

use vstd::prelude::*;

use crate::geometry;
use crate::geometry::smaller;
use crate::input::{TextInput, TextView};
use crate::numbers;
use crate::numbers::decimal_text;
use crate::text;
use crate::text::{chars_of, copy_texts, join_text, same_text, split_text, string_of, trimmed, trimmed_end};

verus! {

broadcast use crate::text::group_views;

/// The number of characters in a line of the console.
pub const PYTHON_CONSOLE_LINE_WIDTH: usize = 72;

/// What the interpreter is asked to do.
#[derive(Debug)]
pub enum PythonCommand {
    Execute(String),
    Apply,
}

/// The contents of a [`PythonCommand`].
pub enum CommandView {
    Execute(Seq<char>),
    Apply,
}

impl View for PythonCommand {
    type V = CommandView;

    open spec fn view(&self) -> CommandView {
        match self {
            PythonCommand::Execute(source) => CommandView::Execute(source@),
            PythonCommand::Apply => CommandView::Apply,
        }
    }
}

/// A file as the interpreter gets to see it.
#[derive(Debug)]
pub struct PythonDocument {
    pub index: usize,
    pub bytes: Vec<u8>,
    pub selection_start: usize,
    pub selection_end: usize,
    pub selections: Vec<(usize, usize)>,
}

/// The contents of a [`PythonDocument`].
pub struct DocumentView {
    pub index: int,
    pub bytes: Seq<u8>,
    pub selection_start: int,
    pub selection_end: int,
    pub selections: Seq<(usize, usize)>,
}

impl View for PythonDocument {
    type V = DocumentView;

    open spec fn view(&self) -> DocumentView {
        DocumentView {
            index: self.index as int,
            bytes: self.bytes@,
            selection_start: self.selection_start as int,
            selection_end: self.selection_end as int,
            selections: self.selections@,
        }
    }
}

/// A file on disk that holds the bytes of an open file for the interpreter, and the bytes that
/// were put there.
#[derive(Clone, Debug)]
pub struct PythonSnapshot {
    pub index: usize,
    pub path: String,
    pub baseline: Vec<u8>,
}

/// The contents of a [`PythonSnapshot`].
pub struct SnapshotView {
    pub index: int,
    pub path: Seq<char>,
    pub baseline: Seq<u8>,
}

impl View for PythonSnapshot {
    type V = SnapshotView;

    open spec fn view(&self) -> SnapshotView {
        SnapshotView { index: self.index as int, path: self.path@, baseline: self.baseline@ }
    }
}

impl PythonSnapshot {
    /// A snapshot with the same contents.
    pub fn copy(&self) -> (snapshot: PythonSnapshot)
        ensures
            snapshot@ == self@,
    {
        PythonSnapshot {
            index: self.index,
            path: self.path.clone(),
            baseline: crate::editing::copy_bytes(&self.baseline),
        }
    }
}

/// Snapshots with the same contents.
pub fn copy_snapshots(snapshots: &Vec<PythonSnapshot>) -> (out: Vec<PythonSnapshot>)
    ensures
        text::views(out@) == text::views(snapshots@),
{
    let mut out: Vec<PythonSnapshot> = Vec::new();
    let mut i: usize = 0;
    while i < snapshots.len()
        invariant
            i <= snapshots.len(),
            out@.len() == i,
            forall|k: int| 0 <= k < i ==> (#[trigger] out@[k])@ == snapshots@[k]@,
        decreases snapshots.len() - i,
    {
        out.push(snapshots[i].copy());
        i = i + 1;
    }
    assert(text::views(out@) =~= text::views(snapshots@));
    out
}

/// What the interpreter answers.
#[derive(Debug)]
pub struct PythonResponse {
    pub output: String,
    pub error: Option<String>,
    pub applied: bool,
}

/// The contents of a [`PythonResponse`].
pub struct ResponseView {
    pub output: Seq<char>,
    pub error: Option<Seq<char>>,
    pub applied: bool,
}

impl View for PythonResponse {
    type V = ResponseView;

    open spec fn view(&self) -> ResponseView {
        ResponseView {
            output: self.output@,
            error: match self.error {
                Some(error) => Some(error@),
                None => None,
            },
            applied: self.applied,
        }
    }
}

// ---------------------------------------------------------------------------
// What is sent to the interpreter
// ---------------------------------------------------------------------------

/// A character as it stands in a JSON string: quotation marks, backslashes and control
/// characters are escaped, and all others stand for themselves.
pub open spec fn json_character(c: char) -> Seq<char> {
    if c == '"' || c == '\\' {
        seq!['\\', c]
    } else if c == '\u{8}' {
        seq!['\\', 'b']
    } else if c == '\t' {
        seq!['\\', 't']
    } else if c == '\n' {
        seq!['\\', 'n']
    } else if c == '\u{c}' {
        seq!['\\', 'f']
    } else if c == '\r' {
        seq!['\\', 'r']
    } else if (c as int) < 0x20 {
        let code = c as int;
        seq!['\\', 'u', '0', '0'].push(numbers::digit(code / 16, false)).push(
            numbers::digit(code % 16, false),
        )
    } else {
        seq![c]
    }
}

/// The characters of a text as they stand in a JSON string.
pub open spec fn json_characters(text: Seq<char>) -> Seq<char>
    decreases text.len(),
{
    if text.len() == 0 {
        Seq::empty()
    } else {
        json_characters(text.drop_last()) + json_character(text.last())
    }
}

/// A text as a JSON string.
pub open spec fn json_string(text: Seq<char>) -> Seq<char> {
    seq!['"'] + json_characters(text) + seq!['"']
}

/// A JSON string holds no line break, since control characters are escaped.
proof fn lemma_json_string(text: Seq<char>)
    ensures
        !json_string(text).contains('\n'),
{
    lemma_json_characters(text);
    let json = json_string(text);
    let inner = json_characters(text);
    assert forall|i: int| 0 <= i < json.len() implies json[i] != '\n' by {
        if 0 < i < json.len() - 1 {
            assert(json[i] == inner[i - 1]);
            assert(inner.contains(inner[i - 1]));
        }
    }
}

proof fn lemma_json_character(c: char)
    ensures
        !json_character(c).contains('\n'),
{
    let code = c as int;
    if code < 0x20 {
        assert(numbers::digit(code / 16, false) != '\n');
        assert(numbers::digit(code % 16, false) != '\n');
    }
}

proof fn lemma_json_characters(text: Seq<char>)
    ensures
        !json_characters(text).contains('\n'),
    decreases text.len(),
{
    if text.len() > 0 {
        let rest = json_characters(text.drop_last());
        let last = json_character(text.last());
        lemma_json_characters(text.drop_last());
        lemma_json_character(text.last());
        assert forall|i: int| 0 <= i < json_characters(text).len() implies json_characters(text)[i]
            != '\n' by {
            if i < rest.len() {
                assert(rest.contains(rest[i]));
            } else {
                assert(json_characters(text)[i] == last[i - rest.len()]);
                assert(last.contains(last[i - rest.len()]));
            }
        }
    }
}

/// Calls `serde_json::to_string` on a string slice, for which it does not fail. It gives the text
/// between quotation marks, with the characters escaped that [`json_character`] names.
#[verifier::external_body]
fn json_text(text: &str) -> (json: String)
    ensures
        json@ == json_string(text@),
{
    match serde_json::to_string(text) {
        Ok(json) => json,
        Err(_) => String::new(),
    }
}

/// The line that asks the interpreter to do something: a JSON object with its kind and, for
/// source text, the source.
pub open spec fn request_of(command: CommandView) -> Seq<char> {
    match command {
        CommandView::Execute(source) => "{\"kind\":\"execute\",\"source\":"@ + json_string(source)
            + "}\n"@,
        CommandView::Apply => "{\"kind\":\"apply\"}\n"@,
    }
}

/// The line that asks the interpreter to do something.
pub fn request_line(command: &PythonCommand) -> (line: String)
    ensures
        line@ == request_of(command@),
        line@.len() > 0,
        line@.last() == '\n',
        !line@.drop_last().contains('\n'),
{
    proof {
        reveal_strlit("{\"kind\":\"execute\",\"source\":");
        reveal_strlit("}\n");
        reveal_strlit("{\"kind\":\"apply\"}\n");
    }
    match command {
        PythonCommand::Execute(source) => {
            let mut line = "{\"kind\":\"execute\",\"source\":".to_owned();
            let json = json_text(source);
            proof {
                lemma_json_string(source@);
            }
            line.append(&json);
            line.append("}\n");
            proof {
                let head = "{\"kind\":\"execute\",\"source\":"@;
                assert(line@.drop_last() =~= head + json@ + seq!['}']);
                assert forall|i: int| 0 <= i < line@.len() - 1 implies line@.drop_last()[i]
                    != '\n' by {
                    if head.len() <= i < head.len() + json@.len() {
                        assert(line@.drop_last()[i] == json@[i - head.len()]);
                        assert(json@.contains(json@[i - head.len()]));
                    }
                }
            }
            line
        },
        PythonCommand::Apply => "{\"kind\":\"apply\"}\n".to_owned(),
    }
}

/// A selection in JSON.
pub open spec fn selection_json(range: (usize, usize)) -> Seq<char> {
    "{\"end\":"@ + numbers::decimal(range.1 as nat) + ",\"start\":"@ + numbers::decimal(
        range.0 as nat,
    ) + "}"@
}

/// Selections in JSON, separated by commas.
pub open spec fn selections_json(ranges: Seq<(usize, usize)>) -> Seq<char>
    decreases ranges.len(),
{
    if ranges.len() == 0 {
        Seq::empty()
    } else if ranges.len() == 1 {
        selection_json(ranges[0])
    } else {
        selections_json(ranges.drop_last()) + ","@ + selection_json(ranges.last())
    }
}

/// A file in JSON, by its place, its selections, and the path of its snapshot.
pub open spec fn document_json(document: DocumentView, path: Seq<char>) -> Seq<char> {
    "{\"index\":"@ + numbers::decimal(document.index as nat) + ",\"selection_end\":"@
        + numbers::decimal(document.selection_end as nat) + ",\"selection_start\":"@
        + numbers::decimal(document.selection_start as nat) + ",\"selections\":["@
        + selections_json(document.selections) + "],\"snapshot\":"@ + json_string(path) + "}"@
}

/// Files in JSON, separated by commas.
pub open spec fn documents_json(
    documents: Seq<DocumentView>,
    snapshots: Seq<SnapshotView>,
) -> Seq<char>
    decreases documents.len(),
{
    if documents.len() == 0 {
        Seq::empty()
    } else if documents.len() == 1 {
        document_json(documents[0], snapshots[0].path)
    } else {
        documents_json(documents.drop_last(), snapshots.drop_last()) + ","@ + document_json(
            documents.last(),
            snapshots.last().path,
        )
    }
}

fn selections_text(ranges: &Vec<(usize, usize)>) -> (out: String)
    ensures
        out@ == selections_json(ranges@),
{
    let mut out = String::new();
    let mut i: usize = 0;
    assert(out@ =~= selections_json(ranges@.take(0)));
    while i < ranges.len()
        invariant
            i <= ranges.len(),
            out@ == selections_json(ranges@.take(i as int)),
        decreases ranges.len() - i,
    {
        let ghost before = out@;
        let ghost more = ranges@.take(i + 1);
        assert(more.drop_last() =~= ranges@.take(i as int));
        let (start, end) = ranges[i];
        let mut item = "{\"end\":".to_owned();
        item.append(&decimal_text(end));
        item.append(",\"start\":");
        item.append(&decimal_text(start));
        item.append("}");
        assert(item@ == selection_json(ranges@[i as int]));
        if i > 0 {
            out.append(",");
        }
        out.append(&item);
        proof {
            if i == 0 {
                assert(before =~= Seq::<char>::empty());
                assert(out@ =~= item@);
            }
            assert(more.last() == ranges@[i as int]);
        }
        i = i + 1;
    }
    assert(ranges@.take(i as int) =~= ranges@);
    out
}

/// Whether the interpreter can be told about the open files: the active one must be among them.
pub fn check_active(count: usize, active: usize) -> (outcome: Result<(), String>)
    ensures
        match outcome {
            Ok(_) => active < count,
            Err(error) => active >= count && error@ == "Active Python document is unavailable"@,
        },
{
    if active < count {
        Ok(())
    } else {
        Err("Active Python document is unavailable".to_owned())
    }
}

/// The JSON text that tells the interpreter about the open files.
pub fn bridge_documents(
    documents: &Vec<PythonDocument>,
    snapshots: &Vec<PythonSnapshot>,
) -> (json: String)
    requires
        documents.len() == snapshots.len(),
    ensures
        json@ == "["@ + documents_json(text::views(documents@), text::views(snapshots@)) + "]"@,
{
    let ghost docs = text::views(documents@);
    let ghost shots = text::views(snapshots@);
    let mut list = String::new();
    let mut i: usize = 0;
    assert(list@ =~= documents_json(docs.take(0), shots.take(0)));
    while i < documents.len()
        invariant
            i <= documents.len() == snapshots.len(),
            docs == text::views(documents@),
            shots == text::views(snapshots@),
            list@ == documents_json(docs.take(i as int), shots.take(i as int)),
        decreases documents.len() - i,
    {
        let ghost before = list@;
        proof {
            assert(docs.take(i + 1).drop_last() =~= docs.take(i as int));
            assert(shots.take(i + 1).drop_last() =~= shots.take(i as int));
            assert(docs[i as int] == documents@[i as int]@);
            assert(shots[i as int] == snapshots@[i as int]@);
        }
        let document = &documents[i];
        let mut item = "{\"index\":".to_owned();
        item.append(&decimal_text(document.index));
        item.append(",\"selection_end\":");
        item.append(&decimal_text(document.selection_end));
        item.append(",\"selection_start\":");
        item.append(&decimal_text(document.selection_start));
        item.append(",\"selections\":[");
        item.append(&selections_text(&document.selections));
        item.append("],\"snapshot\":");
        item.append(&json_text(&snapshots[i].path));
        item.append("}");
        assert(item@ == document_json(docs[i as int], shots[i as int].path));
        if i > 0 {
            list.append(",");
        }
        list.append(&item);
        proof {
            if i == 0 {
                assert(before =~= Seq::<char>::empty());
                assert(list@ =~= item@);
            }
            assert(docs.take(i + 1).last() == docs[i as int]);
            assert(shots.take(i + 1).last() == shots[i as int]);
        }
        i = i + 1;
    }
    assert(docs.take(i as int) =~= docs);
    assert(shots.take(i as int) =~= shots);
    let mut json = "[".to_owned();
    json.append(&list);
    json.append("]");
    json
}

// ---------------------------------------------------------------------------
// Output
// ---------------------------------------------------------------------------

/// A line cut into pieces of the width of the console; the empty line is one empty piece.
pub open spec fn chunked(line: Seq<char>) -> Seq<Seq<char>> {
    let width = PYTHON_CONSOLE_LINE_WIDTH as int;
    if line.len() == 0 {
        seq![line]
    } else {
        Seq::new(
            ((line.len() + width - 1) / width) as nat,
            |i: int| line.subrange(width * i, geometry::min(width * i + width, line.len() as int)),
        )
    }
}

/// Lines cut into pieces, one after the other.
pub open spec fn chunked_lines(lines: Seq<Seq<char>>) -> Seq<Seq<char>>
    decreases lines.len(),
{
    if lines.len() == 0 {
        Seq::empty()
    } else {
        chunked_lines(lines.drop_last()) + chunked(lines.last())
    }
}

/// Output as the lines of the console.
pub open spec fn wrapped(output: Seq<char>) -> Seq<Seq<char>> {
    chunked_lines(text::split(output, '\n'))
}

fn chunk_line(line: &str) -> (chunks: Vec<String>)
    ensures
        text::views(chunks@) == chunked(line@),
{
    let characters = chars_of(line);
    let mut chunks: Vec<String> = Vec::new();
    if characters.len() == 0 {
        chunks.push(String::new());
        assert(chunks@[0]@ =~= line@);
        assert(text::views(chunks@) =~= chunked(line@));
        return chunks;
    }
    let length: usize = characters.len();
    let mut at: usize = 0;
    while at < length
        invariant
            at <= length == characters.len(),
            characters@ == line@,
            length > 0,
            at < length ==> at == 72 * chunks@.len(),
            at == length ==> chunks@.len() == (length + 71) / 72,
            chunks@.len() <= (length + 71) / 72,
            forall|k: int| 0 <= k < chunks@.len() ==> (#[trigger] chunks@[k])@ == chunked(line@)[k],
        decreases length - at,
    {
        let end: usize = if length - at > PYTHON_CONSOLE_LINE_WIDTH {
            at + PYTHON_CONSOLE_LINE_WIDTH
        } else {
            length
        };
        let piece = string_of(&characters, at, end);
        chunks.push(piece);
        at = end;
    }
    assert(text::views(chunks@) =~= chunked(line@));
    chunks
}

/// Output as the lines of the console.
pub fn wrap_python_output(output: &str) -> (lines: Vec<String>)
    ensures
        text::views(lines@) == wrapped(output@),
{
    let pieces = split_text(output, '\n');
    let ghost parts = text::views(pieces@);
    let mut lines: Vec<String> = Vec::new();
    let mut i: usize = 0;
    assert(text::views(lines@) =~= chunked_lines(parts.take(0)));
    while i < pieces.len()
        invariant
            i <= pieces.len(),
            parts == text::views(pieces@),
            text::views(lines@) == chunked_lines(parts.take(i as int)),
        decreases pieces.len() - i,
    {
        assert(parts.take(i + 1).drop_last() =~= parts.take(i as int));
        assert(parts.take(i + 1).last() == pieces@[i as int]@);
        let mut chunks = chunk_line(&pieces[i]);
        lines.append(&mut chunks);
        i = i + 1;
    }
    assert(parts.take(i as int) =~= parts);
    lines
}

/// Texts one after the other.
pub open spec fn flattened(parts: Seq<Seq<char>>) -> Seq<char>
    decreases parts.len(),
{
    if parts.len() == 0 {
        Seq::empty()
    } else {
        flattened(parts.drop_last()) + parts.last()
    }
}

proof fn lemma_chunks_flatten(line: Seq<char>, count: int)
    requires
        line.len() > 0,
        0 <= count <= chunked(line).len(),
    ensures
        flattened(chunked(line).take(count)) == line.take(
            geometry::min(72 * count, line.len() as int),
        ),
    decreases count,
{
    let chunks = chunked(line);
    if count == 0 {
        assert(flattened(chunks.take(0)) =~= line.take(0));
    } else {
        lemma_chunks_flatten(line, count - 1);
        assert(chunks.take(count).drop_last() =~= chunks.take(count - 1));
        assert(chunks.take(count).last() == chunks[count - 1]);
        assert(72 * (count - 1) < line.len());
        assert(flattened(chunks.take(count)) =~= line.take(
            geometry::min(72 * count, line.len() as int),
        ));
    }
}

/// No line of the console is wider than it, every piece but the last of a line fills it, and the
/// pieces of a line make up the line.
pub proof fn chunks_make_up_the_line(line: Seq<char>)
    ensures
        chunked(line).len() > 0,
        forall|i: int|
            0 <= i < chunked(line).len() ==> (#[trigger] chunked(line)[i]).len()
                <= PYTHON_CONSOLE_LINE_WIDTH,
        forall|i: int|
            0 <= i < chunked(line).len() - 1 ==> (#[trigger] chunked(line)[i]).len()
                == PYTHON_CONSOLE_LINE_WIDTH,
        flattened(chunked(line)) == line,
{
    let chunks = chunked(line);
    if line.len() == 0 {
        reveal_with_fuel(flattened, 2);
        assert(chunks.drop_last() =~= Seq::<Seq<char>>::empty());
        assert(flattened(chunks) =~= line);
    } else {
        lemma_chunks_flatten(line, chunks.len() as int);
        assert(chunks.take(chunks.len() as int) =~= chunks);
        assert(line.take(line.len() as int) =~= line);
    }
}

/// A line without the carriage return at its end.
pub open spec fn chomped(line: Seq<char>) -> Seq<char> {
    if line.len() > 0 && line.last() == '\r' {
        line.drop_last()
    } else {
        line
    }
}

/// The lines of a text. A line ends with a line break, and a carriage return before it does not
/// belong to the line; the last line need not end.
pub open spec fn lines_of(text: Seq<char>) -> Seq<Seq<char>> {
    let parts = text::split(text, '\n');
    let whole = Seq::new((parts.len() - 1) as nat, |i: int| chomped(parts[i]));
    if parts.last().len() == 0 {
        whole
    } else {
        whole.push(parts.last())
    }
}

fn text_lines(source: &str) -> (lines: Vec<String>)
    ensures
        text::views(lines@) == lines_of(source@),
{
    let pieces = split_text(source, '\n');
    let ghost parts = text::views(pieces@);
    let last: usize = pieces.len() - 1;
    let mut lines: Vec<String> = Vec::new();
    let mut i: usize = 0;
    while i < last
        invariant
            i <= last == pieces.len() - 1,
            parts == text::views(pieces@),
            lines@.len() == i,
            forall|k: int| 0 <= k < i ==> (#[trigger] lines@[k])@ == chomped(parts[k]),
        decreases last - i,
    {
        let characters = chars_of(&pieces[i]);
        assert(parts[i as int] == characters@);
        let mut length: usize = characters.len();
        if length > 0 && characters[length - 1] == '\r' {
            length = length - 1;
        }
        let line = string_of(&characters, 0, length);
        assert(line@ =~= chomped(parts[i as int]));
        lines.push(line);
        i = i + 1;
    }
    assert(parts.last() == pieces@[last as int]@);
    if !pieces[last].as_str().is_empty() {
        lines.push(pieces[last].clone());
    }
    assert(text::views(lines@) =~= lines_of(source@));
    lines
}

/// A command as the console repeats it: each line after a prompt.
pub open spec fn echoed(command: Seq<char>) -> Seq<Seq<char>> {
    let lines = lines_of(command);
    Seq::new(
        lines.len(),
        |i: int|
            (if i == 0 {
                ">>> "@
            } else {
                "... "@
            }) + lines[i],
    )
}

fn echo(command: &str) -> (out: Vec<String>)
    ensures
        text::views(out@) == echoed(command@),
{
    let lines = text_lines(command);
    let ghost parts = text::views(lines@);
    let mut out: Vec<String> = Vec::new();
    let mut i: usize = 0;
    while i < lines.len()
        invariant
            i <= lines.len(),
            parts == text::views(lines@),
            parts == lines_of(command@),
            out@.len() == i,
            forall|k: int| 0 <= k < i ==> (#[trigger] out@[k])@ == echoed(command@)[k],
        decreases lines.len() - i,
    {
        assert(parts[i as int] == lines@[i as int]@);
        let mut line = if i == 0 {
            ">>> ".to_owned()
        } else {
            "... ".to_owned()
        };
        line.append(&lines[i]);
        out.push(line);
        i = i + 1;
    }
    assert(text::views(out@) =~= echoed(command@));
    out
}

// ---------------------------------------------------------------------------
// The console
// ---------------------------------------------------------------------------

/// The Python console of a file.
#[derive(Debug)]
pub struct PythonPane {
    pub input: TextInput,
    pub repl_lines: Vec<String>,
    pub output: Vec<String>,
    pub snapshots: Vec<PythonSnapshot>,
    pub pending: usize,
    pub scroll: usize,
    pub visible_output_lines: usize,
    pub history: Vec<String>,
    pub history_index: Option<usize>,
    pub history_draft: String,
}

/// The contents of a [`PythonPane`].
pub struct PaneView {
    pub input: TextView,
    pub repl_lines: Seq<Seq<char>>,
    pub output: Seq<Seq<char>>,
    pub snapshots: Seq<SnapshotView>,
    pub pending: int,
    pub scroll: int,
    pub visible_output_lines: int,
    pub history: Seq<Seq<char>>,
    pub history_index: Option<usize>,
    pub history_draft: Seq<char>,
}

impl View for PythonPane {
    type V = PaneView;

    open spec fn view(&self) -> PaneView {
        PaneView {
            input: self.input@,
            repl_lines: text::views(self.repl_lines@),
            output: text::views(self.output@),
            snapshots: text::views(self.snapshots@),
            pending: self.pending as int,
            scroll: self.scroll as int,
            visible_output_lines: self.visible_output_lines as int,
            history: text::views(self.history@),
            history_index: self.history_index,
            history_draft: self.history_draft@,
        }
    }
}

/// What typing a command leads to: the console afterwards, and what the interpreter is asked to
/// do, if anything.
pub struct EntryView {
    pub pane: PaneView,
    pub command: Option<CommandView>,
}

/// The spaces and tabs that a line starts with.
pub open spec fn leading_blanks(line: Seq<char>) -> Seq<char>
    decreases line.len(),
{
    if line.len() > 0 && (line[0] == ' ' || line[0] == '\t') {
        seq![line[0]] + leading_blanks(line.skip(1))
    } else {
        Seq::empty()
    }
}

/// The indentation of the line after one that goes on.
pub open spec fn continuation(line: Seq<char>) -> Seq<char> {
    leading_blanks(line) + "    "@
}

/// The indentation of the line after one that goes on: that of the line and four spaces.
pub fn python_continuation_indentation(line: &str) -> (indentation: String)
    ensures
        indentation@ == continuation(line@),
{
    let characters = chars_of(line);
    let mut out = String::new();
    let mut i: usize = 0;
    assert(line@.skip(0) =~= line@);
    assert(out@ + leading_blanks(line@) =~= leading_blanks(line@));
    while i < characters.len() && (characters[i] == ' ' || characters[i] == '\t')
        invariant
            i <= characters.len(),
            characters@ == line@,
            out@ + leading_blanks(line@.skip(i as int)) == leading_blanks(line@),
        ensures
            out@ == leading_blanks(line@),
        decreases characters.len() - i,
    {
        let ghost rest = line@.skip(i as int);
        let ghost before = out@;
        out.push(characters[i]);
        assert(rest.skip(1) =~= line@.skip(i + 1));
        i = i + 1;
        assert(out@ + leading_blanks(line@.skip(i as int)) =~= before + leading_blanks(rest));
    }
    out.append("    ");
    out
}

impl PaneView {
    /// The cursor lies in the input, and the command that is shown is one of the history.
    pub open spec fn wf(self) -> bool {
        &&& self.input.wf()
        &&& self.history_index matches Some(index) ==> index < self.history.len()
    }

    /// The console of a new session.
    pub open spec fn opened(snapshots: Seq<SnapshotView>, history: Seq<Seq<char>>) -> PaneView {
        PaneView {
            input: TextView::blank(),
            repl_lines: Seq::empty(),
            output: seq![
                "Python 3 analysis console"@,
                "Active: buffer, selected, selection_start/end | all documents: buffer_N, selected_N, buffers"@,
                "Preloaded: struct, binascii, hashlib, base64, zlib, math, re, pathlib"@,
                "Use rexedit_help() for the complete namespace; :apply writes all same-length buffers."@,
            ],
            snapshots,
            pending: 0,
            scroll: 0,
            visible_output_lines: 1,
            history,
            history_index: None,
            history_draft: Seq::empty(),
        }
    }

    /// How far the output can be scrolled back.
    pub open spec fn max_scroll(self) -> int {
        geometry::minus(
            geometry::plus(
                geometry::plus(self.output.len() as int, self.repl_lines.len() as int),
                1,
            ),
            self.visible_output_lines,
        )
    }

    /// The console scrolled to a place.
    pub open spec fn scrolled(self, scroll: int) -> PaneView {
        PaneView { scroll, ..self }
    }

    /// The console scrolled back by some lines, as far as it goes.
    pub open spec fn scrolled_back(self, lines: int) -> PaneView {
        self.scrolled(geometry::min(geometry::plus(self.scroll, lines), self.max_scroll()))
    }

    /// The console scrolled forward by some lines, as far as it goes.
    pub open spec fn scrolled_forward(self, lines: int) -> PaneView {
        self.scrolled(geometry::minus(self.scroll, lines))
    }

    /// The source text that is being typed, its lines joined.
    pub open spec fn source(self) -> Seq<char> {
        text::join(self.repl_lines.push(self.input.value), '\n')
    }

    /// The console with a source text to type on.
    pub open spec fn with_source(self, source: Seq<char>) -> PaneView {
        let lines = text::split(source, '\n');
        PaneView {
            repl_lines: lines.drop_last(),
            input: TextView::holding(lines.last(), false),
            ..self
        }
    }

    /// The console with an older or a newer command of the history to type on. What was being
    /// typed is kept, and comes back after the newest command.
    pub open spec fn recalled(self, older: bool) -> PaneView {
        if self.history.len() == 0 {
            self
        } else if older {
            let index = match self.history_index {
                Some(index) => geometry::minus(index as int, 1),
                None => self.history.len() - 1,
            };
            PaneView {
                history_index: Some(index as usize),
                history_draft: if self.history_index is Some {
                    self.history_draft
                } else {
                    self.source()
                },
                ..self
            }.with_source(self.history[index])
        } else {
            match self.history_index {
                None => self,
                Some(index) => if index + 1 < self.history.len() {
                    PaneView { history_index: Some((index + 1) as usize), ..self }.with_source(
                        self.history[index + 1],
                    )
                } else {
                    PaneView {
                        history_index: None,
                        history_draft: Seq::empty(),
                        ..self
                    }.with_source(self.history_draft)
                },
            }
        }
    }

    /// The console after a line that goes on.
    pub open spec fn continued(self, line: Seq<char>) -> PaneView {
        PaneView {
            repl_lines: self.repl_lines.push(line),
            input: TextView::holding(continuation(line), false),
            scroll: 0,
            ..self
        }
    }

    /// The console after a command that is complete.
    pub open spec fn committed(self, command: Seq<char>) -> EntryView {
        EntryView {
            pane: PaneView {
                output: self.output + echoed(command),
                scroll: 0,
                history: if self.history.len() > 0 && self.history.last() == command {
                    self.history
                } else {
                    self.history.push(command)
                },
                history_index: None,
                history_draft: Seq::empty(),
                ..self
            },
            command: Some(
                if text::trim(command) == ":apply"@ {
                    CommandView::Apply
                } else {
                    CommandView::Execute(command)
                },
            ),
        }
    }

    /// What the enter key leads to. A line that ends with a colon starts a block; further lines
    /// belong to it, until an empty one completes it.
    pub open spec fn entered(self) -> EntryView {
        let line = self.input.value;
        let cleared = PaneView { input: TextView::blank(), ..self };
        let trailing = text::trim_end(line);
        if self.repl_lines.len() > 0 {
            if text::trim(line).len() == 0 {
                PaneView { repl_lines: Seq::empty(), ..cleared }.committed(
                    text::join(self.repl_lines, '\n'),
                )
            } else {
                EntryView { pane: cleared.continued(line), command: None }
            }
        } else if trailing.len() > 0 && trailing.last() == ':' {
            EntryView { pane: cleared.continued(line), command: None }
        } else if text::trim(line).len() == 0 {
            EntryView {
                pane: PaneView { output: self.output.push(">>>"@), scroll: 0, ..cleared },
                command: None,
            }
        } else {
            cleared.committed(line)
        }
    }

    /// The console with the unfinished block dropped.
    pub open spec fn discarded(self) -> PaneView {
        PaneView { repl_lines: Seq::empty(), input: TextView::blank(), ..self }
    }

    /// The console with no output.
    pub open spec fn cleared(self) -> PaneView {
        PaneView { output: Seq::empty(), scroll: 0, ..self }
    }

    /// The console after the interpreter was asked to do something.
    pub open spec fn awaiting(self) -> PaneView {
        PaneView { pending: self.pending + 1, ..self }
    }

    /// The console after an answer of the interpreter.
    pub open spec fn answered(self, response: ResponseView) -> PaneView {
        let shown = if response.output.len() == 0 {
            self.output
        } else {
            self.output + wrapped(response.output)
        };
        PaneView {
            pending: geometry::minus(self.pending, 1),
            output: match response.error {
                Some(error) => shown + wrapped(error),
                None => shown,
            },
            scroll: 0,
            ..self
        }
    }

    /// The console after a key that edits the input.
    pub open spec fn typed(self, key: crate::input::KeyEvent) -> PaneView {
        PaneView {
            input: self.input.after_key(key),
            history_index: None,
            history_draft: Seq::empty(),
            ..self
        }
    }
}

impl PythonPane {
    /// The console of a new session.
    pub fn open(snapshots: Vec<PythonSnapshot>, history: Vec<String>) -> (pane: PythonPane)
        ensures
            pane@ == PaneView::opened(text::views(snapshots@), text::views(history@)),
            pane@.wf(),
    {
        let mut output: Vec<String> = Vec::new();
        output.push("Python 3 analysis console".to_owned());
        output.push(
            "Active: buffer, selected, selection_start/end | all documents: buffer_N, selected_N, buffers".to_owned(),
        );
        output.push(
            "Preloaded: struct, binascii, hashlib, base64, zlib, math, re, pathlib".to_owned(),
        );
        output.push(
            "Use rexedit_help() for the complete namespace; :apply writes all same-length buffers.".to_owned(),
        );
        let pane = PythonPane {
            input: TextInput::default(),
            repl_lines: Vec::new(),
            output,
            snapshots,
            pending: 0,
            scroll: 0,
            visible_output_lines: 1,
            history,
            history_index: None,
            history_draft: String::new(),
        };
        proof {
            let expected = PaneView::opened(text::views(snapshots@), text::views(history@));
            assert(pane@.output =~= expected.output);
            assert(pane@.repl_lines =~= expected.repl_lines);
            assert(pane@.history_draft =~= expected.history_draft);
        }
        pane
    }

    /// How far the output can be scrolled back.
    pub fn max_scroll(&self) -> (lines: usize)
        ensures
            lines == self@.max_scroll(),
    {
        self.output.len().saturating_add(self.repl_lines.len()).saturating_add(1).saturating_sub(
            self.visible_output_lines,
        )
    }

    /// Scrolls forward as far as is needed to show output.
    pub fn clamp_scroll(&mut self)
        ensures
            final(self)@ == old(self)@.scrolled(
                geometry::min(old(self)@.scroll, old(self)@.max_scroll()),
            ),
    {
        self.scroll = smaller(self.scroll, self.max_scroll());
    }

    /// Scrolls back by some lines.
    pub fn scroll_back(&mut self, lines: usize)
        ensures
            final(self)@ == old(self)@.scrolled_back(lines as int),
    {
        self.scroll = self.scroll.saturating_add(lines);
        self.clamp_scroll();
    }

    /// Scrolls forward by some lines.
    pub fn scroll_forward(&mut self, lines: usize)
        ensures
            final(self)@ == old(self)@.scrolled_forward(lines as int),
    {
        self.scroll = self.scroll.saturating_sub(lines);
    }

    /// The source text that is being typed.
    pub fn python_input_source(&self) -> (source: String)
        ensures
            source@ == self@.source(),
    {
        let mut lines = copy_texts(&self.repl_lines);
        lines.push(self.input.value.clone());
        join_text(&lines, '\n')
    }

    /// Puts a source text up to type on.
    pub fn set_python_input_source(&mut self, source: &str)
        ensures
            final(self)@ == old(self)@.with_source(source@),
    {
        let mut lines = split_text(source, '\n');
        let ghost parts = text::views(lines@);
        let last = lines.pop();
        match last {
            Some(input) => {
                assert(input@ == parts.last());
                self.input.set_value(input);
            },
            None => {},
        }
        self.repl_lines = lines;
        assert(text::views(self.repl_lines@) =~= parts.drop_last());
    }

    /// Puts an older or a newer command of the history up to type on.
    pub fn navigate_python_history(&mut self, older: bool)
        requires
            old(self)@.wf(),
        ensures
            final(self)@ == old(self)@.recalled(older),
            final(self)@.wf(),
    {
        let ghost before = self@;
        if self.history.len() == 0 {
            return;
        }
        if older {
            let index: usize = match self.history_index {
                Some(index) => index.saturating_sub(1),
                None => {
                    self.history_draft = self.python_input_source();
                    self.history.len() - 1
                },
            };
            self.history_index = Some(index);
            let source = self.history[index].clone();
            assert(source@ == before.history[index as int]);
            self.set_python_input_source(&source);
        } else {
            match self.history_index {
                None => {},
                Some(index) => {
                    if index < self.history.len() - 1 {
                        let next: usize = index + 1;
                        self.history_index = Some(next);
                        let source = self.history[next].clone();
                        assert(source@ == before.history[next as int]);
                        self.set_python_input_source(&source);
                    } else {
                        self.history_index = None;
                        let mut draft = String::new();
                        std::mem::swap(&mut draft, &mut self.history_draft);
                        assert(self.history_draft@ =~= Seq::<char>::empty());
                        self.set_python_input_source(&draft);
                    }
                },
            }
        }
    }

    /// Takes up a line that goes on.
    fn continue_block(&mut self, line: String)
        ensures
            final(self)@ == old(self)@.continued(line@),
    {
        let indentation = python_continuation_indentation(&line);
        self.repl_lines.push(line);
        self.input.set_value(indentation);
        self.scroll = 0;
    }

    /// Takes up a command that is complete.
    fn commit(&mut self, command: String) -> (request: PythonCommand)
        ensures
            final(self)@ == old(self)@.committed(command@).pane,
            Some(request@) == old(self)@.committed(command@).command,
    {
        let mut lines = echo(&command);
        self.output.append(&mut lines);
        self.scroll = 0;
        let repeated = self.history.len() > 0 && same_text(
            &self.history[self.history.len() - 1],
            &command,
        );
        if !repeated {
            self.history.push(command.clone());
        }
        self.history_index = None;
        self.history_draft = String::new();
        assert(self.history_draft@ =~= Seq::<char>::empty());
        if same_text(&trimmed(&command), ":apply") {
            PythonCommand::Apply
        } else {
            PythonCommand::Execute(command)
        }
    }

    /// Applies the enter key, and returns what the interpreter is to be asked, if anything.
    pub fn enter(&mut self) -> (request: Option<PythonCommand>)
        requires
            old(self)@.wf(),
        ensures
            final(self)@ == old(self)@.entered().pane,
            final(self)@.wf(),
            match request {
                Some(command) => old(self)@.entered().command == Some(command@),
                None => old(self)@.entered().command is None,
            },
    {
        let line = self.input.take_value();
        let blank = trimmed(&line).as_str().is_empty();
        if self.repl_lines.len() > 0 {
            if blank {
                let command = join_text(&self.repl_lines, '\n');
                self.repl_lines = Vec::new();
                return Some(self.commit(command));
            }
            self.continue_block(line);
            return None;
        }
        let trailing = trimmed_end(&line);
        let characters = chars_of(&trailing);
        if characters.len() > 0 && characters[characters.len() - 1] == ':' {
            self.continue_block(line);
            return None;
        }
        if blank {
            self.output.push(">>>".to_owned());
            self.scroll = 0;
            return None;
        }
        Some(self.commit(line))
    }

    /// Drops the unfinished block.
    pub fn discard(&mut self)
        ensures
            final(self)@ == old(self)@.discarded(),
    {
        self.repl_lines = Vec::new();
        self.input = TextInput::default();
    }

    /// Drops the output.
    pub fn clear(&mut self)
        ensures
            final(self)@ == old(self)@.cleared(),
    {
        self.output = Vec::new();
        self.scroll = 0;
    }

    /// Shows an answer of the interpreter.
    pub fn receive(&mut self, response: &PythonResponse)
        ensures
            final(self)@ == old(self)@.answered(response@),
    {
        self.pending = self.pending.saturating_sub(1);
        if !response.output.as_str().is_empty() {
            let mut lines = wrap_python_output(&response.output);
            self.output.append(&mut lines);
        }
        match &response.error {
            Some(error) => {
                let mut lines = wrap_python_output(error);
                self.output.append(&mut lines);
            },
            None => {},
        }
        self.scroll = 0;
    }

    /// Applies a key that edits the input.
    pub fn type_key(&mut self, key: crate::input::KeyEvent)
        requires
            old(self)@.wf(),
        ensures
            final(self)@ == old(self)@.typed(key),
            final(self)@.wf(),
    {
        self.input.handle_key(key);
        self.history_index = None;
        self.history_draft = String::new();
        assert(self.history_draft@ =~= Seq::<char>::empty());
    }
}

/// Going to the newest command of the history and back gives back what was being typed.
pub proof fn history_keeps_the_draft(pane: PaneView)
    requires
        pane.history.len() > 0,
        pane.history.len() <= usize::MAX,
        pane.history_index is None,
        text::none_contains(pane.repl_lines.push(pane.input.value), '\n'),
    ensures
        pane.recalled(true).recalled(false).repl_lines == pane.repl_lines,
        pane.recalled(true).recalled(false).input == TextView::holding(pane.input.value, false),
        pane.recalled(true).recalled(false).history_index is None,
{
    let lines = pane.repl_lines.push(pane.input.value);
    text::lemma_split_join(lines, '\n');
    assert(lines.drop_last() =~= pane.repl_lines);
    assert(lines.last() == pane.input.value);
}

/// A source text that is put up to type on is the source text that is being typed.
pub proof fn source_reads_back(pane: PaneView, source: Seq<char>)
    ensures
        pane.with_source(source).source() == source,
{
    let lines = text::split(source, '\n');
    text::lemma_split_nonempty(source, '\n');
    text::lemma_join_split(source, '\n');
    assert(lines.drop_last().push(lines.last()) =~= lines);
}

/// A block goes on until an empty line completes it, and is then run as a whole.
pub proof fn empty_line_completes_a_block(pane: PaneView)
    requires
        pane.repl_lines.len() > 0,
        text::trim(pane.input.value).len() == 0,
        text::trim(text::join(pane.repl_lines, '\n')) != ":apply"@,
    ensures
        pane.entered().command == Some(CommandView::Execute(text::join(pane.repl_lines, '\n'))),
        pane.entered().pane.repl_lines.len() == 0,
{
}

// ---------------------------------------------------------------------------
// Changed buffers
// ---------------------------------------------------------------------------

/// Whether a byte changed in the interpreter alone.
pub open spec fn taken(baseline: Seq<u8>, python: Seq<u8>, editor: Seq<u8>, i: int) -> bool {
    python[i] != baseline[i] && editor[i] == baseline[i]
}

/// Whether a byte changed in the interpreter and in the editor, and not to the same.
pub open spec fn in_conflict(baseline: Seq<u8>, python: Seq<u8>, editor: Seq<u8>, i: int) -> bool {
    python[i] != baseline[i] && editor[i] != baseline[i] && python[i] != editor[i]
}

/// The bytes of the editor with the changes of the interpreter that are in no conflict.
pub open spec fn merged(baseline: Seq<u8>, python: Seq<u8>, editor: Seq<u8>) -> Seq<u8> {
    Seq::new(
        editor.len(),
        |i: int|
            if taken(baseline, python, editor, i) {
                python[i]
            } else {
                editor[i]
            },
    )
}

/// The number of bytes before `end` that are taken over.
pub open spec fn taken_count(
    baseline: Seq<u8>,
    python: Seq<u8>,
    editor: Seq<u8>,
    end: int,
) -> int
    decreases end,
{
    if end <= 0 {
        0
    } else {
        taken_count(baseline, python, editor, end - 1) + if taken(
            baseline,
            python,
            editor,
            end - 1,
        ) {
            1int
        } else {
            0
        }
    }
}

/// The number of bytes before `end` that are in conflict.
pub open spec fn conflict_count(
    baseline: Seq<u8>,
    python: Seq<u8>,
    editor: Seq<u8>,
    end: int,
) -> int
    decreases end,
{
    if end <= 0 {
        0
    } else {
        conflict_count(baseline, python, editor, end - 1) + if in_conflict(
            baseline,
            python,
            editor,
            end - 1,
        ) {
            1int
        } else {
            0
        }
    }
}

/// A merge of a changed buffer into the editor.
#[derive(Debug)]
pub struct Merge {
    pub bytes: Vec<u8>,
    pub applied: usize,
    pub conflicts: usize,
}

/// Merges the bytes of the interpreter into those of the editor.
pub fn merge(baseline: &Vec<u8>, python: &Vec<u8>, editor: &Vec<u8>) -> (out: Merge)
    requires
        baseline.len() == editor.len(),
        python.len() == editor.len(),
    ensures
        out.bytes@ == merged(baseline@, python@, editor@),
        out.applied == taken_count(baseline@, python@, editor@, editor@.len() as int),
        out.conflicts == conflict_count(baseline@, python@, editor@, editor@.len() as int),
{
    let mut bytes: Vec<u8> = Vec::new();
    let mut applied: usize = 0;
    let mut conflicts: usize = 0;
    let mut i: usize = 0;
    while i < editor.len()
        invariant
            i <= editor.len(),
            baseline.len() == editor.len(),
            python.len() == editor.len(),
            bytes@ == merged(baseline@, python@, editor@).take(i as int),
            applied == taken_count(baseline@, python@, editor@, i as int),
            conflicts == conflict_count(baseline@, python@, editor@, i as int),
            applied <= i,
            conflicts <= i,
        decreases editor.len() - i,
    {
        let python_changed = python[i] != baseline[i];
        let editor_changed = editor[i] != baseline[i];
        if python_changed && editor_changed && python[i] != editor[i] {
            conflicts = conflicts + 1;
            bytes.push(editor[i]);
        } else if python_changed && python[i] != editor[i] {
            applied = applied + 1;
            bytes.push(python[i]);
        } else {
            bytes.push(editor[i]);
        }
        i = i + 1;
        assert(bytes@ =~= merged(baseline@, python@, editor@).take(i as int));
    }
    assert(bytes@ =~= merged(baseline@, python@, editor@));
    Merge { bytes, applied, conflicts }
}

/// A merge keeps every byte that was edited directly, takes over every byte that the interpreter
/// alone changed, and leaves all others as they are.
pub proof fn merge_keeps_direct_edits(
    baseline: Seq<u8>,
    python: Seq<u8>,
    editor: Seq<u8>,
    i: int,
)
    requires
        baseline.len() == editor.len(),
        python.len() == editor.len(),
        0 <= i < editor.len(),
    ensures
        merged(baseline, python, editor).len() == editor.len(),
        editor[i] != baseline[i] ==> merged(baseline, python, editor)[i] == editor[i],
        editor[i] == baseline[i] ==> merged(baseline, python, editor)[i] == python[i],
{
}

/// The console after so many steps to older commands of the history, or to newer ones.
pub open spec fn walked(pane: PaneView, older: bool, steps: nat) -> PaneView
    decreases steps,
{
    if steps == 0 {
        pane
    } else {
        walked(pane, older, (steps - 1) as nat).recalled(older)
    }
}

proof fn lemma_walked_back(pane: PaneView, steps: nat)
    requires
        0 < pane.history.len() <= usize::MAX,
        pane.history_index is None,
        steps > 0,
    ensures
        ({
            let back = walked(pane, true, steps);
            let index = geometry::minus(pane.history.len() as int, steps as int);
            &&& back.history == pane.history
            &&& back.history_draft == pane.source()
            &&& back.history_index == Some(index as usize)
        }),
    decreases steps,
{
    if steps > 1 {
        lemma_walked_back(pane, (steps - 1) as nat);
    } else {
        assert(walked(pane, true, 0) == pane);
    }
}

proof fn lemma_walked_forth(pane: PaneView, steps: nat)
    requires
        0 < pane.history.len() <= usize::MAX,
        pane.history_index is Some,
        pane.history_index->Some_0 < pane.history.len(),
    ensures
        ({
            let forth = walked(pane, false, steps);
            let index = pane.history_index->Some_0 + steps;
            let drafted = pane.with_source(pane.history_draft);
            &&& forth.history == pane.history
            &&& index < pane.history.len() ==> forth.history_index == Some(index as usize)
                && forth.history_draft == pane.history_draft
            &&& index >= pane.history.len() ==> forth.history_index is None && forth.repl_lines
                == drafted.repl_lines && forth.input == drafted.input
        }),
    decreases steps,
{
    if steps > 0 {
        lemma_walked_forth(pane, (steps - 1) as nat);
    }
}

proof fn lemma_walked_nowhere(pane: PaneView, older: bool, steps: nat)
    requires
        pane.history.len() == 0,
    ensures
        walked(pane, older, steps) == pane,
    decreases steps,
{
    if steps > 0 {
        lemma_walked_nowhere(pane, older, (steps - 1) as nat);
    }
}

/// As many steps to newer commands as were made to older ones lead back to what was being typed.
pub proof fn walks_through_the_history_return(pane: PaneView, steps: nat)
    requires
        pane.history.len() <= usize::MAX,
        pane.history_index is None,
    ensures
        ({
            let there = walked(pane, true, steps);
            let back = walked(there, false, steps);
            &&& back.source() == pane.source()
            &&& back.history_index is None
            &&& back.history == pane.history
        }),
{
    if pane.history.len() == 0 {
        lemma_walked_nowhere(pane, true, steps);
        lemma_walked_nowhere(pane, false, steps);
    } else if steps > 0 {
        let there = walked(pane, true, steps);
        lemma_walked_back(pane, steps);
        lemma_walked_forth(there, steps);
        source_reads_back(there, pane.source());
    }
}

} // verus!
