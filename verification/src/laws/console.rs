//! What the console does with commands, and what they do to the file.

use vstd::prelude::*;

use crate::app::DocView;
use crate::effects::EffectView;
use crate::input::{KeyCode, KeyEvent, MouseButton, MouseEvent, MouseEventKind};
use crate::modes::{Focus, ModeView};
use crate::python;
use crate::python::{CommandView, PaneView, ResponseView, SnapshotView};
use crate::text;

verus! {

/// Whether a line is complete by itself: it is not empty and starts no block.
pub open spec fn stands_alone(line: Seq<char>) -> bool {
    let end = text::trim_end(line);
    text::trim(line).len() > 0 && !(end.len() > 0 && end.last() == ':')
}

/// The enter key hands a line over that is complete by itself: to be run, or as the command that takes
/// the buffers over. The line is shown behind a prompt, it is the newest of the history, in which it
/// does not stand twice in a row, and the input is empty again. No byte of the file changes.
pub proof fn lines_are_handed_over(doc: DocView, key: KeyEvent, pane: PaneView)
    requires
        doc.mode == ModeView::Python(pane),
        doc.focus == Focus::Python,
        key.code == KeyCode::Enter,
        !key.modifiers.control,
        pane.repl_lines.len() == 0,
        stands_alone(pane.input.value),
    ensures
        ({
            let line = pane.input.value;
            let after = doc.pressed(key).doc;
            &&& after == DocView {
                mode: after.mode,
                python_history: after.python_history,
                effects: after.effects,
                ..doc
            }
            &&& after.effects == doc.effects.push(
                EffectView::Command(
                    if text::trim(line) == ":apply"@ {
                        CommandView::Apply
                    } else {
                        CommandView::Execute(line)
                    },
                ),
            )
            &&& after.mode matches ModeView::Python(shown) && {
                &&& shown.input.value.len() == 0
                &&& shown.repl_lines.len() == 0
                &&& shown.scroll == 0
                &&& shown.history_index is None
                &&& shown.history.len() > 0 && shown.history.last() == line
                &&& pane.history.len() > 0 && pane.history.last() == line ==> shown.history
                    == pane.history
                &&& pane.history.len() == 0 || pane.history.last() != line ==> shown.history
                    == pane.history.push(line)
                &&& after.python_history == shown.history
                &&& shown.output.len() >= pane.output.len()
                &&& shown.output.take(pane.output.len() as int) == pane.output
                &&& shown.pending == pane.pending
                &&& shown.snapshots == pane.snapshots
            }
        }),
{
    reveal(DocView::python_key);
    reveal(DocView::python_pane_key);
    reveal(DocView::python_entered);
    reveal(DocView::in_mode);
    reveal(DocView::remembering);
    reveal(DocView::asking);
    let entry = pane.entered();
    assert(entry.pane.output.take(pane.output.len() as int) =~= pane.output);
}

/// A line that ends with a colon starts a block: it is kept, nothing is handed over, and the next line
/// starts indented by four more spaces than it. So does every further line that is not empty.
pub proof fn blocks_go_on(doc: DocView, key: KeyEvent, pane: PaneView)
    requires
        doc.mode == ModeView::Python(pane),
        doc.focus == Focus::Python,
        key.code == KeyCode::Enter,
        !key.modifiers.control,
        text::trim(pane.input.value).len() > 0,
        pane.repl_lines.len() > 0 || (text::trim_end(pane.input.value).len() > 0 && text::trim_end(
            pane.input.value,
        ).last() == ':'),
    ensures
        ({
            let line = pane.input.value;
            let after = doc.pressed(key).doc;
            &&& after == DocView { mode: after.mode, ..doc }
            &&& after.mode matches ModeView::Python(shown) && {
                &&& shown.repl_lines == pane.repl_lines.push(line)
                &&& shown.input.value == python::leading_blanks(line) + "    "@
                &&& shown.input.cursor == shown.input.value.len()
                &&& shown.output == pane.output
                &&& shown.history == pane.history
            }
        }),
{
    reveal(DocView::python_key);
    reveal(DocView::python_pane_key);
    reveal(DocView::python_entered);
    reveal(DocView::in_mode);
}

/// The blanks that a line starts with are spaces and tabs, and all of them.
pub proof fn leading_blanks_are_all_of_them(line: Seq<char>)
    ensures
        ({
            let blanks = python::leading_blanks(line);
            let n = blanks.len() as int;
            &&& n <= line.len()
            &&& line.take(n) == blanks
            &&& forall|i: int| 0 <= i < n ==> #[trigger] line[i] == ' ' || line[i] == '\t'
            &&& n < line.len() ==> line[n] != ' ' && line[n] != '\t'
        }),
    decreases line.len(),
{
    let blanks = python::leading_blanks(line);
    let n = blanks.len() as int;
    if line.len() > 0 && (line[0] == ' ' || line[0] == '\t') {
        let rest = line.skip(1);
        leading_blanks_are_all_of_them(rest);
        let fewer = python::leading_blanks(rest);
        assert(blanks == seq![line[0]] + fewer);
        assert(line.take(n) =~= blanks) by {
            assert forall|i: int| 0 <= i < n implies line.take(n)[i] == blanks[i] by {
                if i > 0 {
                    assert(blanks[i] == fewer[i - 1]);
                    assert(fewer[i - 1] == rest.take(n - 1)[i - 1]);
                }
            }
        }
        assert forall|i: int| 0 <= i < n implies #[trigger] line[i] == ' ' || line[i] == '\t' by {
            if i > 0 {
                assert(line[i] == rest[i - 1]);
            }
        }
        if n < line.len() {
            assert(line[n] == rest[n - 1]);
        }
    } else {
        assert(line.take(0) =~= blanks);
    }
}

/// An empty line that follows a block hands the whole block over, its lines joined by line breaks.
pub proof fn blocks_are_handed_over_whole(doc: DocView, key: KeyEvent, pane: PaneView)
    requires
        doc.mode == ModeView::Python(pane),
        doc.focus == Focus::Python,
        key.code == KeyCode::Enter,
        !key.modifiers.control,
        pane.repl_lines.len() > 0,
        text::trim(pane.input.value).len() == 0,
        text::trim(text::join(pane.repl_lines, '\n')) != ":apply"@,
    ensures
        ({
            let block = text::join(pane.repl_lines, '\n');
            let after = doc.pressed(key).doc;
            &&& after.effects == doc.effects.push(EffectView::Command(CommandView::Execute(block)))
            &&& after.bytes == doc.bytes
            &&& after.mode matches ModeView::Python(shown) && {
                &&& shown.repl_lines.len() == 0
                &&& shown.input.value.len() == 0
                &&& shown.history.len() > 0 && shown.history.last() == block
            }
        }),
{
    reveal(DocView::python_key);
    reveal(DocView::python_pane_key);
    reveal(DocView::python_entered);
    reveal(DocView::in_mode);
    reveal(DocView::remembering);
    reveal(DocView::asking);
}

/// A command is shown line by line, the first one behind the prompt and the others behind dots.
pub proof fn commands_are_shown_behind_prompts(command: Seq<char>, i: int)
    requires
        0 <= i < python::lines_of(command).len(),
    ensures
        python::echoed(command).len() == python::lines_of(command).len(),
        python::echoed(command)[i].len() == 4 + python::lines_of(command)[i].len(),
        python::echoed(command)[i].skip(4) == python::lines_of(command)[i],
        python::echoed(command)[i].take(4) == if i == 0 {
            ">>> "@
        } else {
            "... "@
        },
{
    reveal_strlit(">>> ");
    reveal_strlit("... ");
    let shown = python::echoed(command)[i];
    assert(shown.skip(4) =~= python::lines_of(command)[i]);
    assert(shown.take(4) =~= if i == 0 {
        ">>> "@
    } else {
        "... "@
    });
}

/// So many steps back in the history show the command that was entered so many commands ago, or the
/// oldest one.
pub proof fn steps_back_show_older_commands(pane: PaneView, steps: nat)
    requires
        0 < pane.history.len() <= usize::MAX,
        pane.history_index is None,
        steps > 0,
    ensures
        ({
            let count = pane.history.len() as int;
            let at = if steps <= count {
                count - steps
            } else {
                0
            };
            python::walked(pane, true, steps).source() == pane.history[at]
        }),
{
    let before = python::walked(pane, true, (steps - 1) as nat);
    lemma_walked(pane, (steps - 1) as nat);
    let count = pane.history.len() as int;
    let at = if steps <= count {
        count - steps
    } else {
        0
    };
    let recalled = before.recalled(true);
    let shown = PaneView {
        history_index: recalled.history_index,
        history_draft: recalled.history_draft,
        ..before
    };
    python::source_reads_back(shown, pane.history[at]);
    assert(recalled == shown.with_source(pane.history[at]));
}

proof fn lemma_walked(pane: PaneView, steps: nat)
    requires
        0 < pane.history.len() <= usize::MAX,
        pane.history_index is None,
    ensures
        ({
            let there = python::walked(pane, true, steps);
            let count = pane.history.len() as int;
            &&& there.history == pane.history
            &&& steps == 0 ==> there.history_index is None
            &&& steps > 0 ==> there.history_index == Some(
                (if steps <= count {
                    count - steps
                } else {
                    0
                }) as usize,
            )
        }),
    decreases steps,
{
    if steps > 0 {
        lemma_walked(pane, (steps - 1) as nat);
    }
}

/// An answer of the interpreter is shown behind all that was shown before, its output first and then
/// what went wrong, one command fewer is awaited, and the newest lines are in sight.
pub proof fn answers_are_shown(doc: DocView, pane: PaneView, response: ResponseView)
    requires
        doc.mode == ModeView::Python(pane),
    ensures
        ({
            let after = doc.python_answered(response);
            let output = if response.output.len() > 0 {
                python::wrapped(response.output)
            } else {
                Seq::empty()
            };
            let error = match response.error {
                Some(error) => python::wrapped(error),
                None => Seq::empty(),
            };
            &&& after == DocView { mode: after.mode, ..doc }
            &&& after.mode matches ModeView::Python(shown) && {
                &&& shown.output == pane.output + output + error
                &&& shown.pending == if pane.pending > 0 {
                    pane.pending - 1
                } else {
                    0
                }
                &&& shown.scroll == 0
                &&& shown == PaneView {
                    output: shown.output,
                    pending: shown.pending,
                    scroll: shown.scroll,
                    ..pane
                }
            }
            &&& doc.answered_snapshots(response) == if response.applied {
                pane.snapshots
            } else {
                Seq::empty()
            }
        }),
{
    reveal(DocView::python_answered);
    reveal(DocView::in_mode);
    let output = if response.output.len() > 0 {
        python::wrapped(response.output)
    } else {
        Seq::empty()
    };
    let error = match response.error {
        Some(error) => python::wrapped(error),
        None => Seq::empty(),
    };
    let shown = pane.answered(response);
    assert(shown.output =~= pane.output + output + error);
}

/// The lines of the console make up what was put out, but for its line breaks.
pub proof fn shown_lines_make_up_the_output(output: Seq<char>)
    ensures
        python::flattened(python::wrapped(output)) == python::flattened(text::split(output, '\n')),
        text::join(text::split(output, '\n'), '\n') == output,
{
    lemma_chunked_lines(text::split(output, '\n'));
    text::lemma_join_split(output, '\n');
}

proof fn lemma_chunked_lines(lines: Seq<Seq<char>>)
    ensures
        python::flattened(python::chunked_lines(lines)) == python::flattened(lines),
    decreases lines.len(),
{
    if lines.len() > 0 {
        lemma_chunked_lines(lines.drop_last());
        python::chunks_make_up_the_line(lines.last());
        lemma_flattened(python::chunked_lines(lines.drop_last()), python::chunked(lines.last()));
    } else {
        assert(python::chunked_lines(lines) =~= lines);
    }
}

proof fn lemma_flattened(left: Seq<Seq<char>>, right: Seq<Seq<char>>)
    ensures
        python::flattened(left + right) == python::flattened(left) + python::flattened(right),
    decreases right.len(),
{
    if right.len() == 0 {
        assert(left + right =~= left);
        assert(python::flattened(left) + python::flattened(right) =~= python::flattened(left));
    } else {
        lemma_flattened(left, right.drop_last());
        assert((left + right).drop_last() =~= left + right.drop_last());
        assert((left + right).last() == right.last());
        assert(python::flattened(left + right) =~= python::flattened(left) + python::flattened(
            right,
        ));
    }
}

/// The escape key drops an unfinished entry of the console first, and with none left closes it: the
/// history is kept, the viewer has the keys again, and the interpreter is to be ended.
pub proof fn escape_drops_and_then_closes(doc: DocView, key: KeyEvent, pane: PaneView)
    requires
        doc.mode == ModeView::Python(pane),
        doc.focus == Focus::Python,
        key.code == KeyCode::Esc,
    ensures
        ({
            let after = doc.pressed(key).doc;
            let unfinished = pane.repl_lines.len() > 0 || pane.input.value.len() > 0;
            &&& unfinished ==> after == (DocView {
                mode: after.mode,
                status: after.status,
                ..doc
            }) && (after.mode matches ModeView::Python(shown) && shown.repl_lines.len() == 0
                && shown.input.value.len() == 0 && shown.history == pane.history && shown.output
                == pane.output)
            &&& !unfinished ==> after == DocView {
                mode: ModeView::Normal,
                focus: Focus::Viewer,
                python_history: pane.history,
                effects: doc.effects.push(EffectView::ClosePython),
                status: after.status,
                ..doc
            }
        }),
{
    reveal(DocView::python_key);
    reveal(DocView::python_escape);
    reveal(DocView::python_closed);
    reveal(DocView::remembering);
    reveal(DocView::in_mode);
    reveal(DocView::focused);
    reveal(DocView::asking);
    reveal(DocView::say);
}

/// A running command is interrupted, and without one nothing changes but the message.
pub proof fn running_commands_are_interrupted(doc: DocView, key: KeyEvent, pane: PaneView)
    requires
        doc.mode == ModeView::Python(pane),
        key.modifiers.control,
        key.code == KeyCode::Char('c'),
    ensures
        ({
            let after = doc.pressed(key).doc;
            &&& pane.pending > 0 ==> after == DocView {
                effects: doc.effects.push(EffectView::Interrupt),
                ..doc
            }
            &&& pane.pending <= 0 ==> after == DocView { status: after.status, ..doc }
        }),
{
    reveal(DocView::python_key);
    reveal(DocView::asking);
    reveal(DocView::say);
}

/// The console opens over the file with the history of the commands before it, empty to type in, and
/// has the keys; nothing of the file changes.
pub proof fn consoles_open_empty(doc: DocView, snapshots: Seq<SnapshotView>)
    ensures
        ({
            let after = doc.python_opened(snapshots);
            &&& after == DocView {
                mode: after.mode,
                focus: Focus::Python,
                status: after.status,
                ..doc
            }
            &&& after.mode matches ModeView::Python(shown) && {
                &&& shown.snapshots == snapshots
                &&& shown.history == doc.python_history
                &&& shown.history_index is None
                &&& shown.input.value.len() == 0
                &&& shown.repl_lines.len() == 0
                &&& shown.pending == 0
                &&& shown.scroll == 0
            }
        }),
{
    reveal(DocView::python_opened);
    reveal(DocView::in_mode);
    reveal(DocView::focused);
    reveal(DocView::say);
}

/// Taking over a buffer tells how many bytes it changed and how many it kept back, keeps the fields
/// and what is selected, and leaves nothing to take back; where the buffer has no change nothing
/// changes but the message.
pub proof fn merges_are_counted(doc: DocView, snapshot: SnapshotView, python: Seq<u8>)
    requires
        python.len() == doc.bytes.len(),
        snapshot.baseline.len() == doc.bytes.len(),
    ensures
        ({
            let after = doc.snapshot_applied(snapshot, Ok(python));
            let base = snapshot.baseline;
            let all = Seq::new(doc.bytes.len(), |i: int| i);
            let taken = all.filter(
                |i: int| python[i] != base[i] && doc.bytes[i] == base[i],
            ).len();
            let held = all.filter(
                |i: int| python[i] != base[i] && doc.bytes[i] != base[i] && python[i] != doc.bytes[i],
            ).len();
            &&& after.fields == doc.fields
            &&& after.selection == doc.selection
            &&& after.additional == doc.additional
            &&& after.saved == doc.saved
            &&& after.mode == doc.mode
            &&& taken == 0 && held == 0 ==> after == DocView { status: after.status, ..doc }
            &&& taken > 0 || held > 0 ==> {
                &&& after.undo.len() == 0
                &&& after.redo.len() == 0
                &&& after.pending is None
                &&& after.status == DocView::merge_message(taken as int, held as int)
            }
        }),
{
    let base = snapshot.baseline;
    let all = Seq::new(doc.bytes.len(), |i: int| i);
    lemma_counts(base, python, doc.bytes, doc.length());
    assert(all.take(doc.length()) =~= all);
    reveal(DocView::snapshot_applied);
    reveal(DocView::buffer_merged);
    reveal(DocView::forgetting);
    reveal(DocView::installed);
    reveal(DocView::say);
}

proof fn lemma_counts(base: Seq<u8>, python: Seq<u8>, editor: Seq<u8>, end: int)
    requires
        0 <= end <= editor.len(),
    ensures
        ({
            let all = Seq::new(editor.len(), |i: int| i);
            &&& python::taken_count(base, python, editor, end) == all.take(end).filter(
                |i: int| python[i] != base[i] && editor[i] == base[i],
            ).len()
            &&& python::conflict_count(base, python, editor, end) == all.take(end).filter(
                |i: int| python[i] != base[i] && editor[i] != base[i] && python[i] != editor[i],
            ).len()
        }),
    decreases end,
{
    reveal(Seq::filter);
    let all = Seq::new(editor.len(), |i: int| i);
    if end > 0 {
        lemma_counts(base, python, editor, end - 1);
        assert(all.take(end).drop_last() =~= all.take(end - 1));
        assert(all.take(end).last() == end - 1);
    }
}

/// The tabulator key gives the keys to the next pane, and together with the shift key to the one
/// before: from the viewer to the list of fields, from there to the console, and from there to the
/// viewer. The list of fields is passed over where it is not shown. Nothing else changes.
pub proof fn tabulators_go_through_the_panes(doc: DocView, key: KeyEvent)
    requires
        doc.mode is Python,
        key.code == KeyCode::Tab || key.code == KeyCode::BackTab,
    ensures
        ({
            let after = doc.pressed(key).doc;
            let listed = doc.settings.show_sidebar;
            let on = key.code == KeyCode::Tab;
            &&& after == DocView { focus: after.focus, status: after.status, ..doc }
            &&& doc.focus == Focus::Viewer && on && listed ==> after.focus == Focus::Fields
            &&& doc.focus == Focus::Viewer && !(on && listed) ==> after.focus == Focus::Python
            &&& doc.focus == Focus::Fields && on ==> after.focus == Focus::Python
            &&& doc.focus == Focus::Fields && !on ==> after.focus == Focus::Viewer
            &&& doc.focus == Focus::Python && !on && listed ==> after.focus == Focus::Fields
            &&& doc.focus == Focus::Python && !(!on && listed) ==> after.focus == Focus::Viewer
        }),
{
    reveal(DocView::python_key);
    reveal(DocView::focus_cycled);
    reveal(DocView::focused);
    reveal(DocView::say);
}

/// The keys of the console scroll its output by ten lines or to either end, and clear it; any other
/// goes into the line that is typed. Nothing but the console changes.
pub proof fn keys_scroll_the_console(doc: DocView, key: KeyEvent, pane: PaneView)
    requires
        doc.mode == ModeView::Python(pane),
        doc.focus == Focus::Python,
        pane.scroll >= 0,
        pane.visible_output_lines >= 0,
        pane.scroll + 10 <= usize::MAX,
        pane.output.len() + pane.repl_lines.len() < usize::MAX,
    ensures
        ({
            let after = doc.pressed(key).doc;
            let shown = after.mode->Python_0;
            let lines = pane.output.len() + pane.repl_lines.len() + 1;
            let most = if lines > pane.visible_output_lines {
                lines - pane.visible_output_lines
            } else {
                0
            };
            let page = !key.modifiers.control && (key.code == KeyCode::PageUp || key.code
                == KeyCode::PageDown);
            let end = key.modifiers.control && (key.code == KeyCode::Home || key.code == KeyCode::End);
            let clear = key.modifiers.control && key.code == KeyCode::Char('l');
            &&& page || end || clear ==> after.mode is Python && after == DocView {
                mode: after.mode,
                ..doc
            }
            &&& page || end ==> shown == PaneView { scroll: shown.scroll, ..pane }
            &&& page && key.code == KeyCode::PageUp ==> shown.scroll == if pane.scroll + 10 < most {
                pane.scroll + 10
            } else {
                most
            }
            &&& page && key.code == KeyCode::PageDown ==> shown.scroll == if pane.scroll > 10 {
                pane.scroll - 10
            } else {
                0
            }
            &&& end && key.code == KeyCode::Home ==> shown.scroll == most
            &&& end && key.code == KeyCode::End ==> shown.scroll == 0
            &&& clear ==> shown.output.len() == 0 && shown.scroll == 0 && shown == PaneView {
                output: shown.output,
                scroll: shown.scroll,
                ..pane
            }
        }),
{
    reveal(DocView::python_key);
    reveal(DocView::python_pane_key);
    reveal(DocView::in_mode);
}

/// Characters that are typed in the console go into its line and nowhere else.
pub proof fn typed_characters_reach_the_console(doc: DocView, key: KeyEvent, pane: PaneView)
    requires
        doc.mode == ModeView::Python(pane),
        doc.focus == Focus::Python,
        key.code is Char || key.code == KeyCode::Backspace || key.code == KeyCode::Left || key.code
            == KeyCode::Right || key.code == KeyCode::Delete,
        !key.modifiers.control,
    ensures
        ({
            let after = doc.pressed(key).doc;
            let shown = after.mode->Python_0;
            &&& after.mode is Python
            &&& after == DocView { mode: after.mode, ..doc }
            &&& shown.input == pane.input.after_key(key)
            &&& shown == PaneView {
                input: shown.input,
                history_index: None,
                history_draft: shown.history_draft,
                ..pane
            }
        }),
{
    reveal(DocView::python_key);
    reveal(DocView::python_pane_key);
    reveal(DocView::in_mode);
}

/// A command that was handed to the interpreter is awaited, and one that could not be is only told.
pub proof fn sent_commands_are_awaited(doc: DocView, pane: PaneView, error: Seq<char>)
    requires
        doc.mode == ModeView::Python(pane),
    ensures
        doc.command_sent(Ok(())) == (DocView {
            mode: ModeView::Python(PaneView { pending: pane.pending + 1, ..pane }),
            ..doc
        }),
        doc.command_sent(Err(error)) == (DocView { status: error, ..doc }),
{
    reveal(DocView::command_sent);
    reveal(DocView::in_mode);
    reveal(DocView::say);
}

/// Any use of the mouse in the console gives the keys to it, and the wheel scrolls it by three lines.
pub proof fn the_mouse_gives_the_keys_to_the_console(doc: DocView, mouse: MouseEvent, pane: PaneView)
    requires
        doc.mode == ModeView::Python(pane),
        !doc.bar_takes(mouse),
        pane.scroll >= 0,
        pane.visible_output_lines >= 0,
        pane.scroll + 3 <= usize::MAX,
        pane.output.len() + pane.repl_lines.len() < usize::MAX,
        doc.python_area.covers(mouse.column, mouse.row),
    ensures
        ({
            let after = doc.mouse_used(mouse);
            let shown = after.mode->Python_0;
            let lines = pane.output.len() + pane.repl_lines.len() + 1;
            let most = if lines > pane.visible_output_lines {
                lines - pane.visible_output_lines
            } else {
                0
            };
            let up = mouse.kind == MouseEventKind::ScrollUp;
            let down = mouse.kind == MouseEventKind::ScrollDown;
            up || down ==> {
                &&& after.mode is Python
                &&& after == DocView { mode: after.mode, focus: Focus::Python, ..doc }
                &&& shown == PaneView { scroll: shown.scroll, ..pane }
                &&& up ==> shown.scroll == if pane.scroll + 3 < most {
                    pane.scroll + 3
                } else {
                    most
                }
                &&& down ==> shown.scroll == if pane.scroll > 3 {
                    pane.scroll - 3
                } else {
                    0
                }
            }
        }),
        doc.mouse_used(mouse).focus == Focus::Python,
        doc.mouse_used(mouse).bytes == doc.bytes,
{
    reveal(DocView::mouse_used);
    reveal(DocView::text_unselected);
    reveal(DocView::bar_mouse);
    reveal(DocView::bar_held);
    reveal(DocView::pane_mouse);
    reveal(DocView::console_mouse);
    reveal(DocView::focused);
    reveal(DocView::in_mode);
}


proof fn lemma_focus_hides_no_byte(doc: DocView, focus: Focus, column: u16, row: u16)
    ensures
        doc.focused(focus).byte_under(column, row) == doc.byte_under(column, row),
        doc.focused(focus).field_under(column, row) == doc.field_under(column, row),
{
    reveal(DocView::focused);
    let other = doc.focused(focus);
    assert forall|x: int| other.column_index(x) == doc.column_index(x) by {
        assert forall|i: int| other.in_column(x, i) == doc.in_column(x, i) by {}
        assert((|i: int| other.in_column(x, i)) =~= (|i: int| doc.in_column(x, i)));
    }
}

/// A click into the viewer or the list of fields beside the console, where neither a byte nor a field
/// is, gives the keys to that pane and changes nothing else.
pub proof fn clicks_beside_the_console_give_the_keys(doc: DocView, mouse: MouseEvent)
    requires
        doc.mode is Python,
        mouse.kind == MouseEventKind::Down(MouseButton::Left),
        !doc.bar_takes(mouse),
        !doc.python_area.covers(mouse.column, mouse.row),
        doc.byte_under(mouse.column, mouse.row) is None,
        doc.field_under(mouse.column, mouse.row) is None,
    ensures
        ({
            let viewer = doc.viewer_area.covers(mouse.column, mouse.row);
            let fields = doc.fields_area.covers(mouse.column, mouse.row);
            doc.mouse_used(mouse) == DocView {
                focus: if viewer {
                    Focus::Viewer
                } else if fields {
                    Focus::Fields
                } else {
                    doc.focus
                },
                ..doc
            }
        }),
{
    lemma_focus_hides_no_byte(doc, Focus::Viewer, mouse.column, mouse.row);
    lemma_focus_hides_no_byte(doc, Focus::Fields, mouse.column, mouse.row);
    reveal(DocView::mouse_used);
    reveal(DocView::text_unselected);
    reveal(DocView::bar_mouse);
    reveal(DocView::pane_mouse);
    reveal(DocView::focus_clicked);
    reveal(DocView::content_mouse);
    reveal(DocView::content_clicked);
    reveal(DocView::focused);
}

proof fn lemma_blank(line: Seq<char>)
    requires
        forall|i: int| 0 <= i < line.len() ==> text::is_space(#[trigger] line[i]),
    ensures
        text::trim_end(line).len() == 0,
        text::trim(line).len() == 0,
    decreases line.len(),
{
    text::trimming_takes_white_space_only(line);
    let kept = text::trim(line);
    if kept.len() > 0 {
        let (from, to) = choose|from: int, to: int|
            #![trigger line.subrange(from, to)]
            0 <= from <= to <= line.len() && kept == line.subrange(from, to);
        assert(kept[0] == line[from]);
    }
    if line.len() > 0 {
        assert(text::is_space(line[line.len() - 1]));
        lemma_blank(line.drop_last());
    }
}

/// The enter key after a line of blanks outside a block shows an empty prompt and hands nothing over.
pub proof fn blank_lines_show_a_prompt(doc: DocView, key: KeyEvent, pane: PaneView)
    requires
        doc.mode == ModeView::Python(pane),
        doc.focus == Focus::Python,
        key.code == KeyCode::Enter,
        pane.repl_lines.len() == 0,
        forall|i: int|
            0 <= i < pane.input.value.len() ==> text::is_space(#[trigger] pane.input.value[i]),
    ensures
        ({
            let after = doc.pressed(key).doc;
            let shown = after.mode->Python_0;
            &&& after.mode is Python
            &&& after == DocView { mode: after.mode, ..doc }
            &&& shown.input.value.len() == 0
            &&& shown.output == pane.output.push(">>>"@)
            &&& shown == PaneView {
                input: shown.input,
                output: shown.output,
                scroll: 0,
                ..pane
            }
        }),
{
    lemma_blank(pane.input.value);
    reveal(DocView::python_key);
    reveal(DocView::python_pane_key);
    reveal(DocView::python_entered);
    reveal(DocView::in_mode);
}


} // verus!
