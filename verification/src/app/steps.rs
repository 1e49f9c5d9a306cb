//! Every event keeps the record of what happened to an open file true.

use vstd::prelude::*;

use crate::app;
use crate::app::edit;
use crate::app::laws;
use crate::app::DocView;
use crate::dialog::{PathAction, SuggestionView};
use crate::editing;
use crate::entropy::EntropyMessage;
use crate::geometry;
use crate::input::{KeyCode, KeyEvent, MouseEvent};
use crate::model::{FieldView, ThemeView};
use crate::modes;
use crate::modes::{Focus, ModeView, ResetTarget, THEME_ROWS};
use crate::python::{PaneView, ResponseView, SnapshotView};
use crate::search::MessageView;

verus! {

impl DocView {
    /// The offset of the cursor, if there is one.
    pub open spec fn cursor(self) -> Option<usize> {
        match self.selection {
            Some(s) => Some(s.cursor),
            None => None,
        }
    }

    /// Whether the record of changes is true, and a byte is being typed only while bytes are
    /// edited and nothing is open that takes the cursor elsewhere.
    pub open spec fn in_step(self) -> bool {
        &&& self.traced()
        &&& self.pending is Some ==> self.edit_mode && !(self.mode is Search) && !(
        self.mode is Jump) && !(self.mode is Field)
    }
}

/// What is recorded, what is being typed, and the cursor are the same in two states.
spec fn still(a: DocView, b: DocView) -> bool {
    &&& a.bytes == b.bytes
    &&& a.saved == b.saved
    &&& a.modified == b.modified
    &&& a.undo == b.undo
    &&& a.redo == b.redo
    &&& a.pending == b.pending
    &&& a.edit_high_nibble == b.edit_high_nibble
    &&& a.edit_kind == b.edit_kind
    &&& a.edit_mode == b.edit_mode
    &&& a.cursor() == b.cursor()
}

/// The same but for the cursor, with no byte being typed in either.
spec fn calm(a: DocView, b: DocView) -> bool {
    &&& a.bytes == b.bytes
    &&& a.saved == b.saved
    &&& a.modified == b.modified
    &&& a.undo == b.undo
    &&& a.redo == b.redo
    &&& a.pending is None
    &&& b.pending is None
    &&& a.edit_high_nibble
    &&& b.edit_high_nibble
}

proof fn lemma_still(a: DocView, b: DocView)
    requires
        a.in_step(),
        still(a, b),
        b.mode == a.mode || a.pending is None || !(b.mode is Search || b.mode is Jump
            || b.mode is Field),
    ensures
        b.in_step(),
{
}

proof fn lemma_calm(a: DocView, b: DocView)
    requires
        a.in_step(),
        calm(a, b),
    ensures
        b.in_step(),
{
}

/// A file that was just opened is in step.
pub proof fn opening_is_in_step(path: Seq<char>, bytes: Seq<u8>)
    requires
        bytes.len() <= usize::MAX,
    ensures
        DocView::opened(path, bytes).in_step(),
{
    laws::opening_is_traced(path, bytes);
}

/// Whatever state is in step, a change that is taken back and made again leaves the bytes as they
/// were, and so does one that is made again and taken back. The offsets that are marked are those
/// at which the bytes differ from the saved ones throughout.
pub proof fn undo_and_redo_restore(doc: DocView)
    requires
        doc.wf(),
        doc.in_step(),
    ensures
        doc.committed().undo.len() > 0 ==> doc.undone().redone().bytes == doc.bytes,
        doc.committed().redo.len() > 0 ==> doc.redone().undone().bytes == doc.bytes,
        doc.undone().in_step(),
        doc.redone().in_step(),
        doc.undone().modified == editing::changes(doc.undone().bytes, doc.undone().saved),
        doc.redone().modified == editing::changes(doc.redone().bytes, doc.redone().saved),
{
    laws::undo_and_redo_are_inverse(doc);
    laws::lemma_undo_settles(doc);
}

/// With nothing recorded, taking back and making again change no byte and say so.
pub proof fn nothing_to_undo_or_redo(doc: DocView)
    requires
        doc.in_step(),
    ensures
        doc.committed().undo.len() == 0 ==> doc.undone().bytes == doc.bytes && doc.undone().status
            == "Nothing to undo"@,
        doc.committed().redo.len() == 0 ==> doc.redone().bytes == doc.bytes && doc.redone().status
            == "Nothing to redo"@,
{
    laws::keeping_a_byte_is_traced(doc);
    reveal(DocView::undone);
    reveal(DocView::redone);
    reveal(DocView::say);
}

// ---------------------------------------------------------------------------
// Keys
// ---------------------------------------------------------------------------

proof fn lemma_search_key(doc: DocView, key: KeyEvent)
    requires
        doc.in_step(),
        doc.mode is Search,
    ensures
        doc.search_key(key).in_step(),
{
    reveal(DocView::search_key);
    reveal(DocView::search_started);
    reveal(DocView::search_cancelled);
    reveal(DocView::with_search);
    reveal(DocView::in_mode);
    reveal(DocView::asking);
    reveal(DocView::say);
    lemma_calm(doc, doc.search_key(key));
}

proof fn lemma_jump_key(doc: DocView, key: KeyEvent)
    requires
        doc.in_step(),
        doc.mode is Jump,
    ensures
        doc.jump_key(key).in_step(),
{
    reveal(DocView::jump_key);
    reveal(DocView::jumped);
    reveal(DocView::with_selection);
    reveal(DocView::scrolled);
    reveal(DocView::in_mode);
    reveal(DocView::say);
    lemma_calm(doc, doc.jump_key(key));
}

proof fn lemma_field_key(doc: DocView, key: KeyEvent)
    requires
        doc.in_step(),
        doc.mode is Field,
    ensures
        doc.field_key(key).in_step(),
{
    reveal(DocView::field_key);
    reveal(DocView::in_mode);
    if key.code == KeyCode::Enter {
        lemma_field_committed(doc);
    }
    lemma_calm(doc, doc.field_key(key));
}

proof fn lemma_field_committed(doc: DocView)
    requires
        doc.pending is None,
        doc.edit_high_nibble,
        doc.mode is Field,
    ensures
        calm(doc, doc.field_committed()),
{
    reveal(DocView::committed);
    reveal(DocView::draft_committed);
    reveal(DocView::field_stored);
    reveal(DocView::with_fields);
    reveal(DocView::field_activated);
    reveal(DocView::with_selection);
    reveal(DocView::scrolled);
    reveal(DocView::fields_scrolled);
    reveal(DocView::in_mode);
    reveal(DocView::asking);
    reveal(DocView::say);
}

proof fn lemma_path_key(doc: DocView, key: KeyEvent)
    requires
        doc.in_step(),
        doc.mode is Path,
    ensures
        doc.path_key(key).in_step(),
{
    laws::keeping_a_byte_is_traced(doc);
    reveal(DocView::path_key);
    reveal(DocView::path_confirmed);
    reveal(DocView::in_mode);
    reveal(DocView::asking);
    reveal(DocView::say);
    let after = doc.path_key(key);
    if after.pending is Some || doc.pending is None {
        if doc.pending is None {
            reveal(DocView::committed);
        }
        lemma_still(doc, after);
    }
}

proof fn lemma_themed(doc: DocView, theme: ThemeView)
    requires
        doc.in_step(),
        doc.mode is Theme,
    ensures
        doc.themed(theme).in_step(),
{
    reveal(DocView::themed);
    lemma_still(doc, doc.themed(theme));
}

proof fn lemma_opened(doc: DocView, mode: ModeView)
    requires
        doc.in_step(),
        !(mode is Search),
        !(mode is Jump),
        !(mode is Field),
    ensures
        doc.in_mode(mode).in_step(),
{
    reveal(DocView::in_mode);
    lemma_still(doc, doc.in_mode(mode));
}

proof fn lemma_path_requested(doc: DocView, action: PathAction)
    requires
        doc.in_step(),
    ensures
        doc.path_requested(action).in_step(),
{
    reveal(DocView::path_requested);
    reveal(DocView::in_mode);
    reveal(DocView::asking);
    lemma_still(doc, doc.path_requested(action));
}

proof fn lemma_theme_key(doc: DocView, key: KeyEvent)
    requires
        doc.in_step(),
        doc.mode is Theme,
    ensures
        doc.theme_key(key).in_step(),
{
    reveal(DocView::theme_key);
    let active = doc.mode->Theme_0;
    if key.modifiers.control {
        lemma_path_requested(doc, PathAction::SaveTheme);
        lemma_path_requested(doc, PathAction::LoadTheme);
        lemma_themed(doc, ThemeView { name: Seq::empty(), ..doc.theme });
        lemma_opened(doc, ModeView::ConfirmReset(ResetTarget::Theme));
    } else {
        match key.code {
            KeyCode::Esc | KeyCode::Enter => lemma_opened(doc, ModeView::Normal),
            KeyCode::Tab | KeyCode::Down => lemma_opened(
                doc,
                ModeView::Theme(modes::stepped_row(active, THEME_ROWS as int, true)),
            ),
            KeyCode::BackTab | KeyCode::Up => lemma_opened(
                doc,
                ModeView::Theme(modes::stepped_row(active, THEME_ROWS as int, false)),
            ),
            KeyCode::Left => lemma_themed(doc, doc.theme.changed(active, false)),
            KeyCode::Right => lemma_themed(doc, doc.theme.changed(active, true)),
            KeyCode::Backspace => lemma_themed(
                doc,
                ThemeView { name: doc.theme.name.drop_last(), ..doc.theme },
            ),
            KeyCode::Char(c) => lemma_themed(
                doc,
                ThemeView { name: doc.theme.name.push(c), ..doc.theme },
            ),
            _ => {},
        }
    }
}

proof fn lemma_settings_key(doc: DocView, key: KeyEvent)
    requires
        doc.in_step(),
        doc.mode is Settings,
    ensures
        doc.settings_key(key).in_step(),
{
    reveal(DocView::settings_key);
    reveal(DocView::setting_toggled);
    reveal(DocView::with_settings);
    reveal(DocView::cursor_shown);
    reveal(DocView::scrolled);
    reveal(DocView::in_mode);
    lemma_still(doc, doc.settings_key(key));
}

proof fn lemma_reset_key(doc: DocView, key: KeyEvent)
    requires
        doc.in_step(),
        doc.mode is ConfirmReset,
    ensures
        doc.reset_key(key).in_step(),
{
    reveal(DocView::reset_key);
    reveal(DocView::reset);
    reveal(DocView::themed);
    reveal(DocView::with_settings);
    reveal(DocView::cursor_shown);
    reveal(DocView::scrolled);
    reveal(DocView::in_mode);
    reveal(DocView::say);
    lemma_still(doc, doc.reset_key(key));
}

proof fn lemma_help_key(doc: DocView, key: KeyEvent)
    requires
        doc.in_step(),
        doc.mode is Help,
    ensures
        doc.help_key(key).in_step(),
{
    reveal(DocView::help_key);
    reveal(DocView::in_mode);
    lemma_still(doc, doc.help_key(key));
}

proof fn lemma_normal_key(doc: DocView, key: KeyEvent)
    requires
        doc.wf(),
        doc.in_step(),
        doc.mode is Normal,
    ensures
        doc.pressed(key).doc.in_step(),
{
    laws::keys_are_traced(doc, key);
    laws::lemma_half_typed_stays_open(doc, key);
}

proof fn lemma_python_escape(doc: DocView, pane: PaneView)
    requires
        doc.in_step(),
        doc.mode is Python,
    ensures
        doc.python_escape(pane).in_step(),
{
    laws::keeping_a_byte_is_traced(doc);
    reveal(DocView::python_escape);
    reveal(DocView::python_closed);
    reveal(DocView::remembering);
    reveal(DocView::with_kind);
    reveal(DocView::focused);
    reveal(DocView::in_mode);
    reveal(DocView::asking);
    reveal(DocView::say);
    let after = doc.python_escape(pane);
    if !(doc.focus == Focus::Viewer && doc.edit_mode) {
        lemma_still(doc, after);
    }
}

proof fn lemma_python_pane_key(doc: DocView, pane: PaneView, key: KeyEvent)
    requires
        doc.in_step(),
        doc.mode is Python,
    ensures
        doc.python_pane_key(pane, key).in_step(),
{
    reveal(DocView::python_pane_key);
    reveal(DocView::python_entered);
    reveal(DocView::remembering);
    reveal(DocView::in_mode);
    reveal(DocView::asking);
    lemma_still(doc, doc.python_pane_key(pane, key));
}

proof fn lemma_python_content_key(doc: DocView, key: KeyEvent)
    requires
        doc.wf(),
        doc.in_step(),
        doc.mode is Python,
    ensures
        doc.python_content_key(key).in_step(),
{
    reveal(DocView::python_content_key);
    if doc.focus == Focus::Viewer {
        if doc.edit_mode {
            lemma_python_overwrite_key(doc, key);
        } else if key.code == KeyCode::Char('i') {
            reveal(DocView::with_kind);
            reveal(DocView::say);
        } else {
            laws::lemma_moved(doc, key.code, key.modifiers.shift);
            lemma_calm(doc, doc.python_content_key(key));
        }
    } else if doc.focus == Focus::Fields {
        lemma_fields_walked(doc);
    }
}

/// The fields lie in the file, and its offsets are machine numbers.
spec fn measured(doc: DocView) -> bool {
    &&& editing::fields_inside(doc.fields, doc.length())
    &&& doc.length() <= usize::MAX
}

/// Selecting the bytes of a field keeps a file in step.
proof fn lemma_field_activated(doc: DocView)
    requires
        doc.in_step(),
        !(doc.mode is Field),
        measured(doc),
    ensures
        doc.field_activated().in_step(),
{
    reveal(DocView::field_activated);
    reveal(DocView::with_selection);
    reveal(DocView::scrolled);
    reveal(DocView::fields_scrolled);
    laws::keeping_a_byte_is_traced(doc);
    edit::lemma_committed_frame(doc);
    if 0 <= doc.selected_field < doc.fields.len() {
        let field = doc.fields[doc.selected_field];
        assert(0 <= field.start <= field.end < doc.length());
        let left = doc.leaving(field.end);
        let after = doc.field_activated();
        if doc.cursor() == Some(field.end as usize) {
            lemma_still(doc, after);
        } else {
            lemma_calm(left, after);
        }
    }
}

/// Walking through the fields and deleting one keep a file in step.
proof fn lemma_fields_walked(doc: DocView)
    requires
        doc.wf(),
        doc.in_step(),
        !(doc.mode is Field),
    ensures
        doc.next_field().in_step(),
        doc.previous_field().in_step(),
        doc.field_deleted().in_step(),
{
    reveal(app::fields_ok);
    reveal(app::layout_ok);
    reveal(DocView::next_field);
    reveal(DocView::previous_field);
    reveal(DocView::field_chosen);
    if doc.fields.len() > 0 {
        lemma_field_activated(
            doc.field_chosen(geometry::min(doc.selected_field + 1, doc.fields.len() - 1)),
        );
        lemma_field_activated(doc.field_chosen(geometry::minus(doc.selected_field, 1)));
    }
    reveal(DocView::fields_scrolled);
    reveal(DocView::field_deleted);
    reveal(DocView::with_fields);
    reveal(DocView::asking);
    reveal(DocView::say);
}

proof fn lemma_python_overwrite_key(doc: DocView, key: KeyEvent)
    requires
        doc.wf(),
        doc.in_step(),
        doc.mode is Python,
        doc.edit_mode,
    ensures
        doc.python_overwrite_key(key).in_step(),
{
    laws::lemma_undo_settles(doc);
    laws::lemma_edit_key_traced(doc, key.code);
    laws::lemma_edit_key_mode(doc, key.code);
    reveal(DocView::python_overwrite_key);
    reveal(DocView::say);
}

/// Every key keeps a file in step, whatever is open.
pub proof fn keys_keep_in_step(doc: DocView, key: KeyEvent)
    requires
        doc.wf(),
        doc.in_step(),
    ensures
        doc.pressed(key).doc.in_step(),
{
    match doc.mode {
        ModeView::Normal => lemma_normal_key(doc, key),
        ModeView::Search(_) => lemma_search_key(doc, key),
        ModeView::Jump(_) => lemma_jump_key(doc, key),
        ModeView::Field(_) => lemma_field_key(doc, key),
        ModeView::Path(_) => lemma_path_key(doc, key),
        ModeView::Theme(_) => lemma_theme_key(doc, key),
        ModeView::Settings(_) => lemma_settings_key(doc, key),
        ModeView::ConfirmReset(_) => lemma_reset_key(doc, key),
        ModeView::Help(_) => lemma_help_key(doc, key),
        ModeView::Python(pane) => {
            reveal(DocView::python_key);
            if key.code == KeyCode::Esc {
                lemma_python_escape(doc, pane);
            } else if key.code == KeyCode::Tab || key.code == KeyCode::BackTab {
                reveal(DocView::focus_cycled);
                reveal(DocView::focused);
                reveal(DocView::say);
            } else if key.is_control('c') {
                reveal(DocView::asking);
                reveal(DocView::say);
            } else if doc.focus != Focus::Python {
                lemma_python_content_key(doc, key);
            } else {
                lemma_python_pane_key(doc, pane, key);
            }
        },
    }
}

// ---------------------------------------------------------------------------
// The mouse
// ---------------------------------------------------------------------------

proof fn lemma_bar_mouse(doc: DocView, mouse: MouseEvent)
    ensures
        still(doc, doc.bar_mouse(mouse)),
        doc.bar_mouse(mouse).fields == doc.fields,
        doc.mode is Python <==> doc.bar_mouse(mouse).mode is Python,
        !(doc.mode is Python) ==> doc.bar_mouse(mouse).mode == doc.mode,
{
    reveal(DocView::bar_mouse);
    reveal(DocView::bar_held);
    reveal(DocView::bar_pulled);
    reveal(DocView::focused);
    reveal(DocView::scrolled);
    reveal(DocView::fields_scrolled);
    reveal(DocView::in_mode);
}

proof fn lemma_byte_clicked(doc: DocView, offset: int, also: bool)
    requires
        doc.in_step(),
    ensures
        doc.byte_clicked(offset, also).in_step(),
{
    laws::keeping_a_byte_is_traced(doc);
    reveal(DocView::byte_clicked);
    reveal(DocView::picked);
    reveal(DocView::focused);
    reveal(DocView::dragging);
    reveal(DocView::at_first_digit);
    reveal(DocView::appending);
}

proof fn lemma_selection_dragged(doc: DocView, mouse: MouseEvent)
    requires
        doc.in_step(),
        measured(doc),
    ensures
        doc.selection_dragged(mouse).in_step(),
{
    reveal(DocView::selection_dragged);
    reveal(DocView::selecting_also);
    laws::keeping_a_byte_is_traced(doc);
    edit::lemma_committed_frame(doc);
    let after = doc.selection_dragged(mouse);
    if let (Some(offset), Some(s)) = (doc.byte_under(mouse.column, mouse.row), doc.selection) {
        if doc.mouse_dragging {
            if s.cursor == offset {
                lemma_still(doc, after);
            } else {
                lemma_calm(doc.leaving(offset), after);
            }
        }
    }
}

proof fn lemma_content_mouse(doc: DocView, mouse: MouseEvent)
    requires
        measured(doc),
        doc.in_step(),
        !(doc.mode is Field),
    ensures
        doc.content_mouse(mouse).in_step(),
{
    reveal(DocView::content_mouse);
    reveal(DocView::fields_scrolled);
    reveal(DocView::focused);
    reveal(DocView::scrolled);
    reveal(DocView::dragging);
    if mouse.kind is Down {
        reveal(DocView::content_clicked);
        if let Some(offset) = doc.byte_under(mouse.column, mouse.row) {
            lemma_byte_clicked(doc, offset, mouse.modifiers.control);
        } else if let Some(index) = doc.field_under(mouse.column, mouse.row) {
            reveal(DocView::field_chosen);
            lemma_field_activated(doc.field_chosen(index));
        }
    } else if mouse.kind is Drag {
        lemma_selection_dragged(doc, mouse);
    }
}

proof fn lemma_pane_mouse(doc: DocView, mouse: MouseEvent)
    requires
        measured(doc),
        doc.in_step(),
    ensures
        doc.pane_mouse(mouse).in_step(),
{
    reveal(DocView::pane_mouse);
    reveal(DocView::focused);
    match doc.mode {
        ModeView::Python(pane) => if doc.python_area.covers(mouse.column, mouse.row) {
            reveal(DocView::console_mouse);
            reveal(DocView::in_mode);
        } else {
            reveal(DocView::focus_clicked);
            lemma_content_mouse(doc.focus_clicked(mouse), mouse);
        },
        ModeView::Normal => lemma_content_mouse(doc, mouse),
        _ => {},
    }
}

/// Every mouse event keeps a file in step.
pub proof fn mouse_keeps_in_step(doc: DocView, mouse: MouseEvent)
    requires
        doc.wf(),
        doc.in_step(),
    ensures
        doc.mouse_used(mouse).in_step(),
{
    reveal(DocView::mouse_used);
    reveal(DocView::text_unselected);
    reveal(DocView::in_mode);
    assert(measured(doc)) by {
        reveal(app::fields_ok);
        reveal(app::layout_ok);
    }
    let clicked = if mouse.is_click() {
        doc.text_unselected()
    } else {
        doc
    };
    assert(still(doc, clicked));
    assert(clicked.in_step());
    lemma_bar_mouse(clicked, mouse);
    let pulled = clicked.bar_mouse(mouse);
    lemma_still(clicked, pulled);
    if !(clicked.mode is Help) && !(clicked.mode is Path) && !clicked.bar_takes(mouse) {
        lemma_pane_mouse(pulled, mouse);
    }
}

// ---------------------------------------------------------------------------
// What comes back from outside
// ---------------------------------------------------------------------------

/// The outcome of using the clipboard keeps a file in step.
pub proof fn clipboard_keeps_in_step(
    doc: DocView,
    length: int,
    copied: Result<(), Seq<char>>,
    pasted: Result<Seq<char>, Seq<char>>,
)
    requires
        doc.wf(),
        doc.in_step(),
    ensures
        doc.copy_finished(length, copied).in_step(),
        doc.paste_finished(pasted).in_step(),
{
    reveal(DocView::say);
    if let Ok(content) = pasted {
        laws::pasting_is_traced(doc, content);
        laws::lemma_pasting_settles(doc, content);
    }
}

/// The outcome of reading or writing a file keeps an open file in step.
pub proof fn files_keep_in_step(
    doc: DocView,
    path: Seq<char>,
    fields: Seq<FieldView>,
    theme: ThemeView,
    stored: Result<Option<Seq<char>>, Seq<char>>,
    found: Result<Option<Seq<FieldView>>, Seq<char>>,
    message: Seq<char>,
)
    requires
        doc.in_step(),
    ensures
        doc.say(message).in_step(),
        doc.done(message).in_step(),
        doc.pending is None ==> doc.binary_saved(path).in_step(),
        doc.save_finished(path, stored).in_step(),
        doc.overlay_loaded(path, fields).in_step(),
        doc.overlay_persisted(stored).in_step(),
        doc.overlay_restored(found).in_step(),
        doc.themed(theme).done(message).in_step(),
{
    reveal(DocView::say);
    reveal(DocView::in_mode);
    reveal(DocView::asking);
    reveal(DocView::stored_at);
    reveal(DocView::overlay_loaded);
    reveal(DocView::with_overlay);
    reveal(DocView::overlay_persisted);
    reveal(DocView::overlay_restored);
    reveal(DocView::themed);
    assert(editing::changes(doc.bytes, doc.bytes) =~= Set::<usize>::empty());
}

/// Suggested paths keep a file in step.
pub proof fn suggestions_keep_in_step(
    doc: DocView,
    action: PathAction,
    path: Seq<char>,
    candidates: Seq<SuggestionView>,
    leads: Seq<bool>,
    separator: char,
)
    requires
        doc.in_step(),
    ensures
        doc.path_suggested(action, path).in_step(),
        doc.paths_rechecked(leads, separator).in_step(),
        doc.paths_listed(candidates).in_step(),
{
    reveal(DocView::in_mode);
    reveal(DocView::paths_listed);
    reveal(DocView::paths_rechecked);
}

/// The reports of a search and of the calculation of the entropy keep a file in step, and so do
/// starting and stopping them.
pub proof fn reports_keep_in_step(
    doc: DocView,
    found: Seq<MessageView>,
    counted: Seq<EntropyMessage>,
)
    requires
        doc.in_step(),
    ensures
        doc.search_drained(found).in_step(),
        doc.entropy_drained(counted).in_step(),
        doc.search_cancelled().in_step(),
        doc.entropy_requested().in_step(),
        doc.entropy_dropped().in_step(),
    decreases found.len() + counted.len(),
{
    reveal(DocView::search_cancelled);
    reveal(DocView::entropy_requested);
    reveal(DocView::entropy_dropped);
    reveal(DocView::search_reported);
    reveal(DocView::entropy_reported);
    reveal(DocView::with_search);
    reveal(DocView::asking);
    reveal(DocView::say);
    if found.len() > 0 {
        reports_keep_in_step(doc, found.drop_last(), counted);
    }
    if counted.len() > 0 {
        reports_keep_in_step(doc, found, counted.drop_last());
    }
}

/// What the interpreter does keeps a file in step: its start, its answers, and the outcome of
/// handing it a command or of interrupting it.
pub proof fn answers_keep_in_step(
    doc: DocView,
    snapshots: Seq<SnapshotView>,
    responses: Seq<ResponseView>,
    outcome: Result<(), Seq<char>>,
)
    requires
        doc.in_step(),
    ensures
        doc.python_opened(snapshots).in_step(),
        doc.python_drained(responses).in_step(),
        doc.command_sent(outcome).in_step(),
        doc.interrupted(outcome).in_step(),
    decreases responses.len(),
{
    reveal(DocView::python_opened);
    reveal(DocView::python_answered);
    reveal(DocView::command_sent);
    reveal(DocView::focused);
    reveal(DocView::in_mode);
    reveal(DocView::say);
    if responses.len() > 0 {
        answers_keep_in_step(doc, snapshots, responses.drop_last(), outcome);
    }
}

/// Taking over the buffer of the interpreter keeps a file in step.
pub proof fn buffers_keep_in_step(
    doc: DocView,
    snapshot: SnapshotView,
    read: Result<Seq<u8>, Seq<char>>,
)
    requires
        doc.in_step(),
    ensures
        doc.snapshot_applied(snapshot, read).in_step(),
{
    reveal(DocView::snapshot_applied);
    reveal(DocView::buffer_merged);
    reveal(DocView::installed);
    reveal(DocView::forgetting);
    reveal(DocView::say);
}

} // verus!
