//! An open file: its bytes, what is selected and shown of them, and everything that can be done
//! with them.

use std::collections::BTreeSet;
use std::sync::Arc;

use vstd::prelude::*;

use crate::codec;
use crate::codec::content_identity;
use crate::editing;
use crate::editing::{copy_bytes, EditAction, EditKind, EditView, PendingEdit};
use crate::effects::{Effect, EffectView};
use crate::entropy::EntropyMessage;
use crate::geometry;
use crate::geometry::{smaller, Rect};
use crate::model;
use crate::model::{Field, FieldView, NamedColor, Overlay, SearchMatch, Selection, Theme, ThemeView};
use crate::modes::{Focus, Mode, ModeView, ScrollbarDrag};
use crate::numbers;
use crate::numbers::decimal_text;
use crate::rows;
use crate::rows::{build_rows, find_row, DisplayRow, ViewerSettings};
use crate::search;
use crate::selection;
use crate::selection::{gather, merge_ranges};
use crate::text;

pub mod console;
pub mod edit;
pub mod fields;
pub mod find;
pub mod keys;
pub mod laws;
pub mod mouse;
pub mod paths;
pub mod steps;

verus! {

broadcast use crate::text::group_views;

/// The state of the search in a file.
#[derive(Debug)]
pub struct SearchState {
    pub query: String,
    pub results: Vec<SearchMatch>,
    pub current: usize,
    pub has_active_result: bool,
    pub running: bool,
    pub scanned: usize,
    pub total: usize,
    pub worker: bool,
}

/// The contents of a [`SearchState`].
pub struct SearchView {
    pub query: Seq<char>,
    pub results: Seq<SearchMatch>,
    pub current: int,
    pub has_active_result: bool,
    pub running: bool,
    pub scanned: int,
    pub total: int,
    pub worker: bool,
}

impl View for SearchState {
    type V = SearchView;

    open spec fn view(&self) -> SearchView {
        SearchView {
            query: self.query@,
            results: self.results@,
            current: self.current as int,
            has_active_result: self.has_active_result,
            running: self.running,
            scanned: self.scanned as int,
            total: self.total as int,
            worker: self.worker,
        }
    }
}

impl SearchView {
    /// No search at all.
    pub open spec fn idle() -> SearchView {
        SearchView {
            query: Seq::empty(),
            results: Seq::empty(),
            current: 0,
            has_active_result: false,
            running: false,
            scanned: 0,
            total: 0,
            worker: false,
        }
    }
}

impl Default for SearchState {
    fn default() -> (state: Self)
        ensures
            state@ == SearchView::idle(),
    {
        let state = SearchState {
            query: String::new(),
            results: Vec::new(),
            current: 0,
            has_active_result: false,
            running: false,
            scanned: 0,
            total: 0,
            worker: false,
        };
        assert(state.query@ =~= Seq::<char>::empty());
        assert(state.results@ =~= Seq::<SearchMatch>::empty());
        state
    }
}

/// An open file.
#[derive(Debug)]
pub struct App {
    pub path: String,
    pub bytes: Arc<Vec<u8>>,
    pub saved_bytes: Arc<Vec<u8>>,
    pub scroll: usize,
    pub visible_rows: usize,
    pub selection: Option<Selection>,
    pub additional_selections: Vec<Selection>,
    pub fields: Vec<Field>,
    pub selected_field: usize,
    pub fields_scroll: usize,
    pub visible_fields: usize,
    pub focus: Focus,
    pub search: SearchState,
    pub mode: Mode,
    pub status: String,
    pub viewer_area: Rect,
    pub fields_area: Rect,
    pub python_area: Rect,
    pub theme: Theme,
    pub settings: ViewerSettings,
    pub display_rows: Vec<DisplayRow>,
    pub python_history: Vec<String>,
    pub edit_mode: bool,
    pub edit_kind: EditKind,
    pub edit_high_nibble: bool,
    pub insert_at_end: bool,
    pub modified_offsets: BTreeSet<usize>,
    pub undo_stack: Vec<EditAction>,
    pub redo_stack: Vec<EditAction>,
    pub pending_edit: Option<PendingEdit>,
    pub vim_g_pending: bool,
    pub mouse_dragging: bool,
    pub scrollbar_dragging: Option<ScrollbarDrag>,
    pub quit_armed: bool,
    pub entropy_ready: bool,
    pub entropy_worker: bool,
    pub entropy_scanned: usize,
    pub entropy_total: usize,
    pub effects: Vec<Effect>,
}

/// The contents of an [`App`].
pub struct DocView {
    pub path: Seq<char>,
    pub bytes: Seq<u8>,
    pub saved: Seq<u8>,
    pub scroll: int,
    pub visible_rows: int,
    pub selection: Option<Selection>,
    pub additional: Seq<Selection>,
    pub fields: Seq<FieldView>,
    pub selected_field: int,
    pub fields_scroll: int,
    pub visible_fields: int,
    pub focus: Focus,
    pub search: SearchView,
    pub mode: ModeView,
    pub status: Seq<char>,
    pub viewer_area: Rect,
    pub fields_area: Rect,
    pub python_area: Rect,
    pub theme: ThemeView,
    pub settings: ViewerSettings,
    pub rows: Seq<DisplayRow>,
    pub python_history: Seq<Seq<char>>,
    pub edit_mode: bool,
    pub edit_kind: EditKind,
    pub edit_high_nibble: bool,
    pub insert_at_end: bool,
    pub modified: Set<usize>,
    pub undo: Seq<EditView>,
    pub redo: Seq<EditView>,
    pub pending: Option<PendingEdit>,
    pub vim_g_pending: bool,
    pub mouse_dragging: bool,
    pub scrollbar_dragging: Option<ScrollbarDrag>,
    pub quit_armed: bool,
    pub entropy_ready: bool,
    pub entropy_worker: bool,
    pub entropy_scanned: int,
    pub entropy_total: int,
    pub effects: Seq<EffectView>,
}

impl View for App {
    type V = DocView;

    open spec fn view(&self) -> DocView {
        DocView {
            path: self.path@,
            bytes: self.bytes@,
            saved: self.saved_bytes@,
            scroll: self.scroll as int,
            visible_rows: self.visible_rows as int,
            selection: self.selection,
            additional: self.additional_selections@,
            fields: text::views(self.fields@),
            selected_field: self.selected_field as int,
            fields_scroll: self.fields_scroll as int,
            visible_fields: self.visible_fields as int,
            focus: self.focus,
            search: self.search@,
            mode: self.mode@,
            status: self.status@,
            viewer_area: self.viewer_area,
            fields_area: self.fields_area,
            python_area: self.python_area,
            theme: self.theme@,
            settings: self.settings,
            rows: self.display_rows@,
            python_history: text::views(self.python_history@),
            edit_mode: self.edit_mode,
            edit_kind: self.edit_kind,
            edit_high_nibble: self.edit_high_nibble,
            insert_at_end: self.insert_at_end,
            modified: self.modified_offsets@,
            undo: text::views(self.undo_stack@),
            redo: text::views(self.redo_stack@),
            pending: self.pending_edit,
            vim_g_pending: self.vim_g_pending,
            mouse_dragging: self.mouse_dragging,
            scrollbar_dragging: self.scrollbar_dragging,
            quit_armed: self.quit_armed,
            entropy_ready: self.entropy_ready,
            entropy_worker: self.entropy_worker,
            entropy_scanned: self.entropy_scanned as int,
            entropy_total: self.entropy_total as int,
            effects: text::views(self.effects@),
        }
    }
}

/// The lines of the viewer are those of the bytes.
#[verifier::opaque]
pub open spec fn layout_ok(
    bytes: Seq<u8>,
    settings: ViewerSettings,
    visible_rows: int,
    lines: Seq<DisplayRow>,
) -> bool {
    &&& bytes.len() <= usize::MAX
    &&& settings.wf()
    &&& 0 <= visible_rows <= u16::MAX
    &&& lines == rows::rows_of(bytes, settings)
}

/// The fields lie in the file, and the selected one is one of them.
#[verifier::opaque]
pub open spec fn fields_ok(length: nat, fields: Seq<FieldView>, selected: int) -> bool {
    &&& editing::fields_inside(fields, length as int)
    &&& 0 <= selected
    &&& fields.len() == 0 || selected < fields.len()
}

/// The results of the search lie in the file and in order.
#[verifier::opaque]
pub open spec fn search_ok(length: nat, results: Seq<SearchMatch>, current: int) -> bool {
    &&& search::ordered_matches(results, length as int)
    &&& 0 <= current < usize::MAX
}

/// What is open is in order.
#[verifier::opaque]
pub open spec fn mode_ok(length: nat, fields: Seq<FieldView>, mode: ModeView) -> bool {
    mode.wf(length as int, fields)
}

/// All recorded changes can be taken back and made again, and the byte that is being typed lies
/// in the file.
#[verifier::opaque]
pub open spec fn history_ok(
    length: nat,
    undo: Seq<EditView>,
    redo: Seq<EditView>,
    pending: Option<PendingEdit>,
) -> bool {
    &&& editing::can_undo(undo, length as int)
    &&& editing::can_redo(redo, length as int)
    &&& match pending {
        Some(PendingEdit::Overwrite { offset, .. }) => offset < length,
        Some(PendingEdit::Insert { offset, high_nibble }) => offset <= length && high_nibble < 16,
        None => true,
    }
}

/// The offsets that are marked are those at which the bytes differ from the saved ones.
#[verifier::opaque]
pub open spec fn marks_ok(bytes: Seq<u8>, saved: Seq<u8>, modified: Set<usize>) -> bool {
    &&& saved.len() <= usize::MAX
    &&& modified == editing::changes(bytes, saved)
}

/// The areas on the terminal leave room for their scrollbars.
#[verifier::opaque]
pub open spec fn areas_ok(viewer: Rect, fields: Rect, python: Rect) -> bool {
    viewer.drawable() && fields.drawable() && python.drawable()
}

/// What is selected lies in the file.
#[verifier::opaque]
pub open spec fn selection_ok(
    length: nat,
    current: Option<Selection>,
    additional: Seq<Selection>,
) -> bool {
    &&& match current {
        Some(s) => s.anchor < length && s.cursor < length,
        None => true,
    }
    &&& selection::inside(additional, length as int)
}

impl DocView {
    /// The number of bytes.
    pub open spec fn length(self) -> int {
        self.bytes.len() as int
    }

    /// What is shown and marked agrees with the bytes.
    pub open spec fn sound(self) -> bool {
        &&& layout_ok(self.bytes, self.settings, self.visible_rows, self.rows)
        &&& fields_ok(self.bytes.len(), self.fields, self.selected_field)
        &&& search_ok(self.bytes.len(), self.search.results, self.search.current)
        &&& mode_ok(self.bytes.len(), self.fields, self.mode)
        &&& areas_ok(self.viewer_area, self.fields_area, self.python_area)
        &&& marks_ok(self.bytes, self.saved, self.modified)
    }

    /// What is recorded agrees with the bytes.
    pub open spec fn traceable(self) -> bool {
        history_ok(self.bytes.len(), self.undo, self.redo, self.pending)
    }

    /// What is shown and recorded agrees with the bytes.
    pub open spec fn valid(self) -> bool {
        self.sound() && self.traceable()
    }

    /// What is selected lies in the file.
    pub open spec fn placed(self) -> bool {
        selection_ok(self.bytes.len(), self.selection, self.additional)
    }

    /// The state of an open file between two events.
    pub open spec fn wf(self) -> bool {
        self.valid() && self.placed()
    }

    /// A file that was just opened.
    pub open spec fn opened(path: Seq<char>, bytes: Seq<u8>) -> DocView {
        DocView {
            path,
            bytes,
            saved: bytes,
            scroll: 0,
            visible_rows: 1,
            selection: if bytes.len() > 0 {
                Some(Selection::at(0))
            } else {
                None
            },
            additional: Seq::empty(),
            fields: Seq::empty(),
            selected_field: 0,
            fields_scroll: 0,
            visible_fields: 1,
            focus: Focus::Viewer,
            search: SearchView::idle(),
            mode: ModeView::Normal,
            status: "Ready"@,
            viewer_area: Rect { x: 0, y: 0, width: 0, height: 0 },
            fields_area: Rect { x: 0, y: 0, width: 0, height: 0 },
            python_area: Rect { x: 0, y: 0, width: 0, height: 0 },
            theme: model::default_theme(),
            settings: ViewerSettings::initial(),
            rows: rows::rows_of(bytes, ViewerSettings::initial()),
            python_history: Seq::empty(),
            edit_mode: false,
            edit_kind: EditKind::Overwrite,
            edit_high_nibble: true,
            insert_at_end: false,
            modified: Set::empty(),
            undo: Seq::empty(),
            redo: Seq::empty(),
            pending: None,
            vim_g_pending: false,
            mouse_dragging: false,
            scrollbar_dragging: None,
            quit_armed: false,
            entropy_ready: false,
            entropy_worker: false,
            entropy_scanned: 0,
            entropy_total: 0,
            effects: Seq::empty(),
        }
    }

    /// With a message to the user.
    #[verifier::opaque]
    pub open spec fn say(self, message: Seq<char>) -> DocView {
        DocView { status: message, ..self }
    }

    /// With something more to be done outside.
    #[verifier::opaque]
    pub open spec fn asking(self, effect: EffectView) -> DocView {
        DocView { effects: self.effects.push(effect), ..self }
    }

    /// In another mode.
    #[verifier::opaque]
    pub open spec fn in_mode(self, mode: ModeView) -> DocView {
        DocView { mode, ..self }
    }

    /// With another pane taking the keys.
    #[verifier::opaque]
    pub open spec fn focused(self, focus: Focus) -> DocView {
        DocView { focus, ..self }
    }

    /// With quitting confirmed by the next press of its key, or not.
    #[verifier::opaque]
    pub open spec fn armed(self, quit: bool) -> DocView {
        DocView { quit_armed: quit, ..self }
    }

    /// With the lines of the viewer laid out anew.
    #[verifier::opaque]
    pub open spec fn rebuilt(self) -> DocView {
        DocView { rows: rows::rows_of(self.bytes, self.settings), ..self }
    }

    /// The line of the viewer that holds an offset.
    pub open spec fn row_of(self, offset: int) -> int {
        rows::row_for(self.rows, self.settings.bytes_per_row as int, self.length(), offset)
    }

    /// How far the viewer can be scrolled.
    pub open spec fn max_scroll(self) -> int {
        geometry::minus(self.rows.len() as int, self.visible_rows)
    }

    /// How far the list of fields can be scrolled.
    pub open spec fn field_max_scroll(self) -> int {
        geometry::minus(self.fields.len() as int, self.visible_fields)
    }

    /// Scrolled to a line.
    #[verifier::opaque]
    pub open spec fn scrolled(self, line: int) -> DocView {
        DocView { scroll: line, ..self }
    }

    /// The line to scroll to, as little away as is needed to show the one that holds an offset.
    #[verifier::opaque]
    pub open spec fn scroll_for(self, offset: int) -> int {
        let row = self.row_of(offset);
        let wanted = if row < self.scroll {
            row
        } else if row >= geometry::plus(self.scroll, self.visible_rows) {
            geometry::minus(row, geometry::minus(self.visible_rows, 1))
        } else {
            self.scroll
        };
        geometry::min(wanted, self.max_scroll())
    }

    /// Scrolled as little as is needed to show the line that holds an offset.
    pub open spec fn showing(self, offset: int) -> DocView {
        self.scrolled(self.scroll_for(offset))
    }

    /// With one selection and nothing else selected.
    #[verifier::opaque]
    pub open spec fn with_selection(self, selection: Option<Selection>) -> DocView {
        DocView { selection, additional: Seq::empty(), ..self }
    }

    /// With one byte selected and nothing else, in sight.
    pub open spec fn selecting(self, offset: int) -> DocView {
        self.with_selection(Some(Selection::at(offset))).showing(offset)
    }

    /// With the cursor at an offset; with `extend` the selection reaches from where it was.
    #[verifier::opaque]
    pub open spec fn cursor_at(self, offset: int, extend: bool) -> DocView {
        if self.bytes.len() == 0 {
            self
        } else {
            DocView {
                selection: match self.selection {
                    Some(s) => if extend {
                        Some(Selection { cursor: offset as usize, ..s })
                    } else {
                        Some(Selection::at(offset))
                    },
                    None => Some(Selection::at(offset)),
                },
                additional: if extend {
                    self.additional
                } else {
                    Seq::empty()
                },
                insert_at_end: false,
                ..self
            }.showing(offset)
        }
    }

    /// With the cursor moved by `delta` bytes, as far as the file goes.
    #[verifier::opaque]
    pub open spec fn cursor_moved(self, delta: int, extend: bool) -> DocView {
        if self.bytes.len() == 0 {
            self
        } else {
            let current = match self.selection {
                Some(s) => s.cursor as int,
                None => 0,
            };
            let offset = geometry::min(geometry::max(current + delta, 0), self.length() - 1);
            self.cursor_at(offset, extend).at_first_digit()
        }
    }

    /// Waiting for the first digit of a byte.
    #[verifier::opaque]
    pub open spec fn at_first_digit(self) -> DocView {
        DocView { edit_high_nibble: true, ..self }
    }

    /// The number of bytes on a page of the viewer.
    pub open spec fn page(self) -> int {
        self.visible_rows * self.settings.bytes_per_row
    }

    /// All that is selected.
    pub open spec fn all_selections(self) -> Seq<Selection> {
        match self.selection {
            Some(s) => self.additional.push(s),
            None => self.additional,
        }
    }

    /// The selected ranges, separate and in order.
    pub open spec fn ranges(self) -> Seq<Selection> {
        selection::merged(self.all_selections())
    }

    /// The bytes of the selected ranges.
    pub open spec fn selected(self) -> Seq<u8> {
        if self.bytes.len() == 0 {
            Seq::empty()
        } else {
            selection::gathered(self.bytes, self.ranges())
        }
    }

    /// The bytes of the selection at the cursor, as far as the file reaches.
    pub open spec fn inspected(self) -> Seq<u8> {
        match self.selection {
            Some(s) => if self.bytes.len() == 0 {
                Seq::empty()
            } else {
                selection::range_bytes(self.bytes, s)
            },
            None => Seq::empty(),
        }
    }

    /// With the search stopped.
    #[verifier::opaque]
    pub open spec fn search_cancelled(self) -> DocView {
        let stopped = DocView {
            search: SearchView { running: false, worker: false, ..self.search },
            ..self
        };
        if self.search.worker {
            stopped.asking(EffectView::CancelSearch)
        } else {
            stopped
        }
    }

    /// With the calculation of the entropy stopped and its result gone.
    #[verifier::opaque]
    pub open spec fn entropy_dropped(self) -> DocView {
        let dropped = DocView {
            entropy_ready: false,
            entropy_worker: false,
            entropy_scanned: 0,
            entropy_total: 0,
            ..self
        };
        if self.entropy_worker {
            dropped.asking(EffectView::CancelEntropy)
        } else {
            dropped
        }
    }

    /// With the calculation of the entropy started, unless it runs or is done.
    #[verifier::opaque]
    pub open spec fn entropy_requested(self) -> DocView {
        if self.entropy_ready || self.entropy_worker {
            self
        } else {
            DocView {
                entropy_total: self.length(),
                entropy_scanned: 0,
                entropy_worker: true,
                ..self
            }.asking(EffectView::StartEntropy).say("Calculating entropy in the background…"@)
        }
    }

    /// After a report of the calculation of the entropy. Reports of a calculation that was
    /// stopped do not count.
    #[verifier::opaque]
    pub open spec fn entropy_reported(self, message: EntropyMessage) -> DocView {
        if !self.entropy_worker {
            self
        } else {
            match message {
                EntropyMessage::Progress(scanned) => DocView {
                    entropy_scanned: geometry::min(scanned as int, self.entropy_total),
                    ..self
                },
                EntropyMessage::Done => DocView {
                    entropy_ready: true,
                    entropy_worker: false,
                    entropy_scanned: self.entropy_total,
                    ..self
                }.say("Entropy calculation complete"@),
            }
        }
    }

    /// After several reports of the calculation of the entropy.
    pub open spec fn entropy_drained(self, messages: Seq<EntropyMessage>) -> DocView
        decreases messages.len(),
    {
        if messages.len() == 0 {
            self
        } else {
            self.entropy_drained(messages.drop_last()).entropy_reported(messages.last())
        }
    }

    /// The fields of a stored overlay that fit the file.
    pub open spec fn fitting_fields(self, fields: Seq<FieldView>) -> Seq<FieldView>
        decreases fields.len(),
    {
        if fields.len() == 0 {
            fields
        } else {
            let rest = self.fitting_fields(fields.drop_last());
            let last = fields.last();
            if last.start <= last.end && last.end < self.length() {
                rest.push(last)
            } else {
                rest
            }
        }
    }

    /// With the fields of a stored overlay in place of the current ones.
    #[verifier::opaque]
    pub open spec fn with_overlay(self, fields: Seq<FieldView>) -> DocView {
        DocView { fields: self.fitting_fields(fields), selected_field: 0, ..self }
    }

    /// After the overlay that was stored for the file was looked for.
    #[verifier::opaque]
    pub open spec fn overlay_restored(
        self,
        outcome: Result<Option<Seq<FieldView>>, Seq<char>>,
    ) -> DocView {
        match outcome {
            Ok(Some(fields)) => {
                let loaded = self.with_overlay(fields);
                loaded.say(
                    "Restored "@ + numbers::decimal(loaded.fields.len()) + " saved overlay field(s)"@,
                )
            },
            Ok(None) => self,
            Err(error) => self.say("Could not restore saved overlay: "@ + error),
        }
    }

    /// After the fields were stored in the course of a change.
    #[verifier::opaque]
    pub open spec fn overlay_persisted(
        self,
        outcome: Result<Option<Seq<char>>, Seq<char>>,
    ) -> DocView {
        match outcome {
            Ok(Some(path)) => self.say(self.status + "; overlay saved to "@ + path),
            Ok(None) => self,
            Err(error) => self.say(self.status + "; "@ + error),
        }
    }
}

/// Fields that fit a file are ordered and lie in it.
proof fn lemma_fitting_fields(doc: DocView, fields: Seq<FieldView>)
    requires
        forall|i: int| 0 <= i < fields.len() ==> 0 <= (#[trigger] fields[i]).start,
    ensures
        editing::fields_inside(doc.fitting_fields(fields), doc.length()),
    decreases fields.len(),
{
    if fields.len() > 0 {
        let rest = fields.drop_last();
        assert forall|i: int| 0 <= i < rest.len() implies 0 <= (#[trigger] rest[i]).start by {
            assert(rest[i] == fields[i]);
        }
        lemma_fitting_fields(doc, rest);
        assert(0 <= fields[fields.len() - 1].start);
    }
}

/// Stored fields that fit the file are kept, in order; all others are left out.
pub proof fn overlay_keeps_what_fits(doc: DocView, fields: Seq<FieldView>, field: FieldView)
    ensures
        doc.with_overlay(fields).fields.contains(field) <==> fields.contains(field) && field.start
            <= field.end && field.end < doc.length(),
    decreases fields.len(),
{
    reveal(DocView::with_overlay);
    let kept = doc.fitting_fields(fields);
    if fields.len() > 0 {
        let rest = fields.drop_last();
        let last = fields[fields.len() - 1];
        overlay_keeps_what_fits(doc, rest, field);
        assert(fields =~= rest.push(last));
        if rest.contains(field) {
            let k = choose|k: int| 0 <= k < rest.len() && rest[k] == field;
            assert(fields[k] == field);
        }
        if fields.contains(field) && field != last {
            let k = choose|k: int| 0 <= k < fields.len() && fields[k] == field;
            assert(rest[k] == field);
        }
        let before = doc.fitting_fields(rest);
        if last.start <= last.end && last.end < doc.length() {
            assert(kept[before.len() as int] == last);
            if before.contains(field) {
                let k = choose|k: int| 0 <= k < before.len() && before[k] == field;
                assert(kept[k] == field);
            }
            if kept.contains(field) && field != last {
                let k = choose|k: int| 0 <= k < kept.len() && kept[k] == field;
                assert(before[k] == field);
            }
        }
        assert(fields[fields.len() - 1] == last);
    }
}

/// Moving the cursor puts it at the offset that lies so far away.
proof fn lemma_cursor_moved(doc: DocView, delta: int, extend: bool, offset: int)
    requires
        doc.bytes.len() > 0,
        offset == geometry::min(
            geometry::max(
                (match doc.selection {
                    Some(s) => s.cursor as int,
                    None => 0,
                }) + delta,
                0,
            ),
            doc.length() - 1,
        ),
    ensures
        doc.cursor_moved(delta, extend) == doc.cursor_at(offset, extend).at_first_digit(),
{
    reveal(DocView::cursor_moved);
}

/// The line that is scrolled to lies within the range of the scrollbar, and a byte of the file
/// that is scrolled to is in sight if the viewer has a line to show it in.
pub proof fn shown_bytes_are_in_sight(doc: DocView, offset: int)
    requires
        doc.valid(),
        0 <= offset < doc.length(),
        doc.visible_rows > 0,
        0 <= doc.scroll,
    ensures
        0 <= doc.showing(offset).scroll <= doc.max_scroll(),
        doc.showing(offset).scroll <= doc.row_of(offset) < doc.showing(offset).scroll
            + doc.visible_rows,
{
    reveal(layout_ok);
    reveal(DocView::scrolled);
    reveal(DocView::scroll_for);
    rows::row_lookup_is_exact(doc.bytes, doc.settings, offset);
}

/// The offset that lies `delta` bytes from another, between the start of a file and `last`.
fn offset_by(current: usize, delta: isize, last: usize) -> (offset: usize)
    ensures
        offset == geometry::min(geometry::max(current + delta, 0), last as int),
{
    let target: i128 = current as i128 + delta as i128;
    if target <= 0 {
        0
    } else if target >= last as i128 {
        last
    } else {
        target as usize
    }
}

impl App {
    /// Opens a file by its path and its bytes.
    pub fn new(path: String, bytes: Vec<u8>) -> (app: Self)
        ensures
            app@ == DocView::opened(path@, bytes@),
            app@.wf(),
    {
        let selection = if bytes.len() > 0 {
            Some(Selection::new(0))
        } else {
            None
        };
        let settings = ViewerSettings::default();
        let display_rows = build_rows(&bytes, settings);
        let saved = copy_bytes(&bytes);
        let app = App {
            path,
            bytes: Arc::new(bytes),
            saved_bytes: Arc::new(saved),
            scroll: 0,
            visible_rows: 1,
            selection,
            additional_selections: Vec::new(),
            fields: Vec::new(),
            selected_field: 0,
            fields_scroll: 0,
            visible_fields: 1,
            focus: Focus::Viewer,
            search: SearchState::default(),
            mode: Mode::Normal,
            status: "Ready".to_owned(),
            viewer_area: Rect::default(),
            fields_area: Rect::default(),
            python_area: Rect::default(),
            theme: Theme::default(),
            settings,
            display_rows,
            python_history: Vec::new(),
            edit_mode: false,
            edit_kind: EditKind::Overwrite,
            edit_high_nibble: true,
            insert_at_end: false,
            modified_offsets: BTreeSet::new(),
            undo_stack: Vec::new(),
            redo_stack: Vec::new(),
            pending_edit: None,
            vim_g_pending: false,
            mouse_dragging: false,
            scrollbar_dragging: None,
            quit_armed: false,
            entropy_ready: false,
            entropy_worker: false,
            entropy_scanned: 0,
            entropy_total: 0,
            effects: Vec::new(),
        };
        assert(app.additional_selections@ =~= Seq::<Selection>::empty());
        assert(app@.bytes.len() == app.bytes.len());
        proof {
            reveal(layout_ok);
            reveal(fields_ok);
            reveal(search_ok);
            reveal(mode_ok);
            reveal(history_ok);
            reveal(areas_ok);
            reveal(marks_ok);
            reveal(selection_ok);
            reveal(crate::modes::mode_view);
            editing::no_changes_means_equal(app@.bytes, app@.saved);
            assert(app@.modified =~= editing::changes(app@.bytes, app@.saved));
        }
        app
    }

    /// Hands over what is to be done outside, in order.
    pub fn take_effects(&mut self) -> (effects: Vec<Effect>)
        ensures
            text::views(effects@) == old(self)@.effects,
            final(self)@ == (DocView { effects: Seq::empty(), ..old(self)@ }),
    {
        let mut effects: Vec<Effect> = Vec::new();
        std::mem::swap(&mut effects, &mut self.effects);
        effects
    }

    /// Shows a message to the user.
    pub fn say(&mut self, message: String)
        ensures
            final(self)@ == old(self)@.say(message@),
            old(self)@.sound() ==> final(self)@.sound(),
            old(self)@.traceable() ==> final(self)@.traceable(),
            old(self)@.placed() ==> final(self)@.placed(),
    {
        proof {
            reveal(DocView::say);
        }
        self.status = message;
    }

    /// Asks for something to be done outside.
    pub fn ask(&mut self, effect: Effect)
        ensures
            final(self)@ == old(self)@.asking(effect@),
            old(self)@.sound() ==> final(self)@.sound(),
            old(self)@.traceable() ==> final(self)@.traceable(),
            old(self)@.placed() ==> final(self)@.placed(),
    {
        proof {
            reveal(DocView::asking);
        }
        self.effects.push(effect);
    }

    /// Changes the mode.
    pub fn set_mode(&mut self, mode: Mode)
        ensures
            final(self)@ == old(self)@.in_mode(mode@),
            old(self)@.sound() && mode_ok(old(self)@.bytes.len(), old(self)@.fields, mode@)
                ==> final(self)@.sound(),
            old(self)@.traceable() ==> final(self)@.traceable(),
            old(self)@.placed() ==> final(self)@.placed(),
    {
        proof {
            reveal(DocView::in_mode);
        }
        self.mode = mode;
    }

    /// Gives the keys to a pane.
    pub fn set_focus(&mut self, focus: Focus)
        ensures
            final(self)@ == old(self)@.focused(focus),
            old(self)@.sound() ==> final(self)@.sound(),
            old(self)@.traceable() ==> final(self)@.traceable(),
            old(self)@.placed() ==> final(self)@.placed(),
    {
        proof {
            reveal(DocView::focused);
        }
        self.focus = focus;
    }

    /// Sets whether the next press of its key quits.
    pub fn arm_quit(&mut self, quit: bool)
        ensures
            final(self)@ == old(self)@.armed(quit),
            old(self)@.sound() ==> final(self)@.sound(),
            old(self)@.traceable() ==> final(self)@.traceable(),
            old(self)@.placed() ==> final(self)@.placed(),
    {
        proof {
            reveal(DocView::armed);
        }
        self.quit_armed = quit;
    }

    /// The number of lines in the viewer.
    pub fn row_count(&self) -> (count: usize)
        ensures
            count == self@.rows.len(),
    {
        self.display_rows.len()
    }

    /// How far the viewer can be scrolled.
    pub fn max_scroll(&self) -> (lines: usize)
        ensures
            lines == self@.max_scroll(),
    {
        self.row_count().saturating_sub(self.visible_rows)
    }

    /// How far the list of fields can be scrolled.
    pub fn field_max_scroll(&self) -> (lines: usize)
        ensures
            lines == self@.field_max_scroll(),
    {
        self.fields.len().saturating_sub(self.visible_fields)
    }

    /// Lays out the lines of the viewer anew.
    pub fn rebuild_display_rows(&mut self)
        requires
            old(self)@.settings.wf(),
        ensures
            final(self)@ == old(self)@.rebuilt(),
    {
        proof {
            reveal(DocView::rebuilt);
        }
        self.display_rows = build_rows(&self.bytes, self.settings);
    }

    /// The line of the viewer that holds an offset.
    pub fn display_row_for_offset(&self, offset: usize) -> (row: usize)
        requires
            layout_ok(self@.bytes, self@.settings, self@.visible_rows, self@.rows),
        ensures
            row == self@.row_of(offset as int),
    {
        proof {
            reveal(layout_ok);
        }
        find_row(&self.display_rows, &self.bytes, self.settings, offset)
    }

    /// Scrolls to a line.
    pub fn set_scroll(&mut self, line: usize)
        ensures
            final(self)@ == old(self)@.scrolled(line as int),
            old(self)@.sound() ==> final(self)@.sound(),
            old(self)@.traceable() ==> final(self)@.traceable(),
            old(self)@.placed() ==> final(self)@.placed(),
    {
        proof {
            reveal(DocView::scrolled);
        }
        self.scroll = line;
    }

    /// The line to scroll to in order to show an offset.
    fn line_for(&self, offset: usize) -> (line: usize)
        requires
            layout_ok(self@.bytes, self@.settings, self@.visible_rows, self@.rows),
        ensures
            line == self@.scroll_for(offset as int),
    {
        proof {
            reveal(DocView::scroll_for);
        }
        let row: usize = self.display_row_for_offset(offset);
        let wanted: usize = if row < self.scroll {
            row
        } else if row >= self.scroll.saturating_add(self.visible_rows) {
            row.saturating_sub(self.visible_rows.saturating_sub(1))
        } else {
            self.scroll
        };
        smaller(wanted, self.max_scroll())
    }

    /// Scrolls as little as is needed to show an offset.
    pub fn ensure_visible(&mut self, offset: usize)
        requires
            layout_ok(
                old(self)@.bytes,
                old(self)@.settings,
                old(self)@.visible_rows,
                old(self)@.rows,
            ),
        ensures
            final(self)@ == old(self)@.showing(offset as int),
            old(self)@.sound() ==> final(self)@.sound(),
            old(self)@.traceable() ==> final(self)@.traceable(),
            old(self)@.placed() ==> final(self)@.placed(),
    {
        let line: usize = self.line_for(offset);
        self.set_scroll(line);
    }

    /// The selected ranges, merged where they touch, in order.
    pub fn selected_ranges(&self) -> (ranges: Vec<Selection>)
        ensures
            ranges@ == self@.ranges(),
            selection::canonical(ranges@),
            forall|offset: int| #[trigger]
                selection::covered(ranges@, offset) == selection::covered(
                    self@.all_selections(),
                    offset,
                ),
    {
        let mut all: Vec<Selection> = Vec::new();
        let mut i: usize = 0;
        while i < self.additional_selections.len()
            invariant
                i <= self.additional_selections.len(),
                all@ == self.additional_selections@.take(i as int),
            decreases self.additional_selections.len() - i,
        {
            all.push(self.additional_selections[i]);
            i = i + 1;
            assert(all@ =~= self.additional_selections@.take(i as int));
        }
        assert(all@ =~= self.additional_selections@);
        match self.selection {
            Some(selection) => {
                all.push(selection);
            },
            None => {},
        }
        merge_ranges(&all)
    }

    /// The bytes of the selected ranges.
    pub fn selected_bytes(&self) -> (bytes: Vec<u8>)
        ensures
            bytes@ == self@.selected(),
    {
        if self.bytes.len() == 0 {
            let none: Vec<u8> = Vec::new();
            assert(none@ =~= Seq::<u8>::empty());
            return none;
        }
        gather(&self.bytes, &self.selected_ranges())
    }

    /// Whether an offset is selected.
    pub fn is_selected(&self, offset: usize) -> (selected: bool)
        ensures
            selected == selection::covered(self@.all_selections(), offset as int),
    {
        let ghost all = self@.all_selections();
        match self.selection {
            Some(s) => {
                if s.contains(offset) {
                    assert(all[all.len() - 1].covers(offset as int));
                    return true;
                }
            },
            None => {},
        }
        let mut i: usize = 0;
        while i < self.additional_selections.len()
            invariant
                i <= self.additional_selections.len(),
                all == self@.all_selections(),
                self.selection matches Some(s) ==> !s.covers(offset as int),
                forall|k: int|
                    0 <= k < i ==> !(#[trigger] self.additional_selections@[k]).covers(
                        offset as int,
                    ),
            decreases self.additional_selections.len() - i,
        {
            if self.additional_selections[i].contains(offset) {
                assert(all[i as int].covers(offset as int));
                return true;
            }
            i = i + 1;
        }
        assert forall|k: int| 0 <= k < all.len() implies !(#[trigger] all[k]).covers(
            offset as int,
        ) by {
            if k < self.additional_selections@.len() {
                assert(all[k] == self.additional_selections@[k]);
            }
        }
        false
    }

    /// The bytes of the selection that holds the cursor.
    pub fn current_bytes(&self) -> (bytes: &[u8])
        ensures
            bytes@ == match self@.selection {
                Some(s) => if self@.bytes.len() == 0 {
                    Seq::empty()
                } else {
                    selection::range_bytes(self@.bytes, s)
                },
                None => Seq::empty(),
            },
            bytes@ == self@.inspected(),
    {
        let all = self.bytes.as_slice();
        let none = vstd::slice::slice_subrange(all, 0, 0);
        assert(none@ =~= Seq::<u8>::empty());
        match self.selection {
            Some(selection) => {
                if self.bytes.len() == 0 {
                    return none;
                }
                let last: usize = self.bytes.len() - 1;
                let start: usize = smaller(selection.start(), last);
                let end: usize = smaller(selection.end(), last);
                vstd::slice::slice_subrange(all, start, end + 1)
            },
            None => none,
        }
    }

    /// The colour of a byte in the hexadecimal or the text column.
    pub fn theme_color_for_byte(&self, offset: usize, byte: u8, ascii: bool) -> (color: NamedColor)
        ensures
            color == self@.theme.byte_color(offset as int, byte, ascii),
    {
        self.theme.color_for_byte(offset, byte, ascii)
    }

    /// Puts the cursor at an offset; with `extend` the selection reaches from where it was.
    pub fn select_offset(&mut self, offset: usize, extend: bool)
        requires
            old(self)@.valid(),
            old(self)@.placed(),
            offset < old(self)@.length() || old(self)@.length() == 0,
        ensures
            final(self)@ == old(self)@.cursor_at(offset as int, extend),
            final(self)@.wf(),
    {
        proof {
            reveal(DocView::cursor_at);
        }
        proof {
            reveal(selection_ok);
        }
        if self.bytes.len() == 0 {
            return;
        }
        if extend {
            self.selection = match self.selection {
                Some(selection) => Some(Selection { anchor: selection.anchor, cursor: offset }),
                None => Some(Selection::new(offset)),
            };
        } else {
            self.selection = Some(Selection::new(offset));
            self.additional_selections = Vec::new();
            assert(self.additional_selections@ =~= Seq::<Selection>::empty());
        }
        self.insert_at_end = false;
        self.ensure_visible(offset);
    }

    /// Selects one range and nothing else.
    pub fn set_selection(&mut self, selection: Option<Selection>)
        ensures
            final(self)@ == old(self)@.with_selection(selection),
            old(self)@.sound() ==> final(self)@.sound(),
            old(self)@.traceable() ==> final(self)@.traceable(),
            match selection {
                Some(s) => s.anchor < old(self)@.length() && s.cursor < old(self)@.length(),
                None => true,
            } ==> final(self)@.placed(),
    {
        proof {
            reveal(DocView::with_selection);
            reveal(selection_ok);
        }
        self.selection = selection;
        self.additional_selections = Vec::new();
        assert(self.additional_selections@ =~= Seq::<Selection>::empty());
    }

    /// Selects one byte and nothing else, and shows it.
    pub fn select_byte(&mut self, offset: usize)
        requires
            old(self)@.sound(),
            offset < old(self)@.length(),
        ensures
            final(self)@ == old(self)@.selecting(offset as int),
            final(self)@.sound(),
            old(self)@.traceable() ==> final(self)@.traceable(),
            final(self)@.placed(),
    {
        proof {
            reveal(DocView::with_selection);
        }
        self.set_selection(Some(Selection::new(offset)));
        self.ensure_visible(offset);
    }

    /// Moves the cursor by `delta` bytes, as far as the file goes.
    pub fn move_cursor(&mut self, delta: isize, extend: bool)
        requires
            old(self)@.wf(),
        ensures
            final(self)@ == old(self)@.cursor_moved(delta as int, extend),
            final(self)@.wf(),
    {
        if self.bytes.len() == 0 {
            proof {
                reveal(DocView::cursor_moved);
            }
            return;
        }
        let current: usize = match self.selection {
            Some(selection) => selection.cursor,
            None => 0,
        };
        let offset: usize = offset_by(current, delta, self.bytes.len() - 1);
        proof {
            lemma_cursor_moved(self@, delta as int, extend, offset as int);
        }
        self.select_offset(offset, extend);
        self.expect_first_digit();
    }

    /// Waits for the first digit of a byte.
    pub fn expect_first_digit(&mut self)
        ensures
            final(self)@ == old(self)@.at_first_digit(),
            old(self)@.sound() ==> final(self)@.sound(),
            old(self)@.traceable() ==> final(self)@.traceable(),
            old(self)@.placed() ==> final(self)@.placed(),
    {
        proof {
            reveal(DocView::at_first_digit);
        }
        self.edit_high_nibble = true;
    }

    /// The number of bytes on a page of the viewer.
    pub fn page_size(&self) -> (bytes: isize)
        requires
            self@.valid(),
        ensures
            bytes == self@.page(),
            0 <= bytes <= 2_097_120,
    {
        proof {
            reveal(layout_ok);
        }
        let rows: usize = self.visible_rows;
        let width: usize = self.settings.bytes_per_row;
        assert(rows * width <= 65535 * 32) by (nonlinear_arith)
            requires
                rows <= 65535,
                width <= 32,
        ;
        (rows * width) as isize
    }

    /// The width of a line of the viewer in bytes.
    pub fn row_width(&self) -> (bytes: isize)
        requires
            self@.valid(),
        ensures
            bytes == self@.settings.bytes_per_row,
            0 <= bytes <= 32,
    {
        proof {
            reveal(layout_ok);
        }
        self.settings.bytes_per_row as isize
    }

    /// Stops the search.
    pub fn cancel_search(&mut self)
        ensures
            final(self)@ == old(self)@.search_cancelled(),
            old(self)@.sound() ==> final(self)@.sound(),
            old(self)@.traceable() ==> final(self)@.traceable(),
            old(self)@.placed() ==> final(self)@.placed(),
    {
        proof {
            reveal(DocView::search_cancelled);
        }
        let worker = self.search.worker;
        self.search.worker = false;
        self.search.running = false;
        if worker {
            self.ask(Effect::CancelSearch);
        }
    }

    /// Starts the calculation of the entropy, unless it runs or is done.
    pub fn request_entropy(&mut self)
        ensures
            final(self)@ == old(self)@.entropy_requested(),
            old(self)@.sound() ==> final(self)@.sound(),
            old(self)@.traceable() ==> final(self)@.traceable(),
            old(self)@.placed() ==> final(self)@.placed(),
    {
        proof {
            reveal(DocView::entropy_requested);
        }
        if self.entropy_ready || self.entropy_worker {
            return;
        }
        self.entropy_total = self.bytes.len();
        self.entropy_scanned = 0;
        self.entropy_worker = true;
        self.ask(Effect::StartEntropy);
        self.say("Calculating entropy in the background…".to_owned());
    }

    /// Whether the calculation of the entropy runs.
    pub fn entropy_running(&self) -> (running: bool)
        ensures
            running == self@.entropy_worker,
    {
        self.entropy_worker
    }

    /// Takes up a report of the calculation of the entropy.
    pub fn receive_entropy(&mut self, message: EntropyMessage)
        ensures
            final(self)@ == old(self)@.entropy_reported(message),
            old(self)@.sound() ==> final(self)@.sound(),
            old(self)@.traceable() ==> final(self)@.traceable(),
            old(self)@.placed() ==> final(self)@.placed(),
    {
        proof {
            reveal(DocView::entropy_reported);
        }
        if !self.entropy_worker {
            return;
        }
        match message {
            EntropyMessage::Progress(scanned) => {
                self.entropy_scanned = smaller(scanned, self.entropy_total);
            },
            EntropyMessage::Done => {
                self.entropy_ready = true;
                self.entropy_worker = false;
                self.entropy_scanned = self.entropy_total;
                self.say("Entropy calculation complete".to_owned());
            },
        }
    }

    /// Takes up the reports of the calculation of the entropy that have come in, in order.
    pub fn drain_entropy_messages(&mut self, messages: &Vec<EntropyMessage>)
        ensures
            final(self)@ == old(self)@.entropy_drained(messages@),
            old(self)@.wf() ==> final(self)@.wf(),
    {
        let ghost before = self@;
        let mut i: usize = 0;
        while i < messages.len()
            invariant
                i <= messages.len(),
                self@ == before.entropy_drained(messages@.take(i as int)),
                before.wf() ==> self@.wf(),
            decreases messages.len() - i,
        {
            assert(messages@.take(i + 1).drop_last() =~= messages@.take(i as int));
            self.receive_entropy(messages[i]);
            i = i + 1;
        }
        assert(messages@.take(i as int) =~= messages@);
    }

    /// Stops the calculation of the entropy and drops its result.
    pub fn invalidate_entropy(&mut self)
        ensures
            final(self)@ == old(self)@.entropy_dropped(),
            old(self)@.sound() ==> final(self)@.sound(),
            old(self)@.traceable() ==> final(self)@.traceable(),
            old(self)@.placed() ==> final(self)@.placed(),
    {
        proof {
            reveal(DocView::entropy_dropped);
        }
        let worker = self.entropy_worker;
        self.entropy_ready = false;
        self.entropy_worker = false;
        self.entropy_scanned = 0;
        self.entropy_total = 0;
        if worker {
            self.ask(Effect::CancelEntropy);
        }
    }

    /// The name under which the fields are stored.
    pub fn overlay_file_name(&self) -> (name: String)
        ensures
            name@ == codec::identity_of(self@.saved) + ".json"@,
    {
        let mut name = content_identity(&self.saved_bytes);
        name.append(".json");
        name
    }

    /// Whether the fields are to be stored: only for a file that exists, and only if there are
    /// any or some were stored before.
    pub fn overlay_is_due(&self, on_disk: bool, stored_before: bool) -> (due: bool)
        ensures
            due == (on_disk && (self@.fields.len() > 0 || stored_before)),
    {
        on_disk && (self.fields.len() > 0 || stored_before)
    }

    /// Puts the fields of a stored overlay in place of the current ones.
    pub fn load_overlay(&mut self, overlay: Overlay)
        requires
            old(self)@.wf(),
            !(old(self)@.mode is Field),
        ensures
            final(self)@ == old(self)@.with_overlay(text::views(overlay.fields@)),
            final(self)@.wf(),
    {
        proof {
            reveal(DocView::with_overlay);
        }
        let ghost stored = text::views(overlay.fields@);
        let ghost before = self@;
        let mut kept: Vec<Field> = Vec::new();
        let mut i: usize = 0;
        assert(text::views(kept@) =~= before.fitting_fields(stored.take(0)));
        while i < overlay.fields.len()
            invariant
                i <= overlay.fields.len(),
                stored == text::views(overlay.fields@),
                self@ == before,
                text::views(kept@) == before.fitting_fields(stored.take(i as int)),
            decreases overlay.fields.len() - i,
        {
            assert(stored.take(i + 1).drop_last() =~= stored.take(i as int));
            assert(stored.take(i + 1).last() == overlay.fields@[i as int]@);
            let field = &overlay.fields[i];
            if field.start <= field.end && field.end < self.bytes.len() {
                kept.push(field.copy());
            }
            i = i + 1;
        }
        assert(stored.take(i as int) =~= stored);
        proof {
            lemma_fitting_fields(before, stored);
            reveal(fields_ok);
            reveal(mode_ok);
        }
        self.fields = kept;
        self.selected_field = 0;
    }

    /// Takes up the overlay that was stored for the file, if there is one.
    pub fn restore_overlay(&mut self, outcome: Result<Option<Overlay>, String>)
        requires
            old(self)@.wf(),
            !(old(self)@.mode is Field),
        ensures
            final(self)@ == old(self)@.overlay_restored(
                match outcome {
                    Ok(Some(overlay)) => Ok(Some(text::views(overlay.fields@))),
                    Ok(None) => Ok(None),
                    Err(error) => Err(error@),
                },
            ),
            final(self)@.wf(),
    {
        proof {
            reveal(DocView::overlay_restored);
        }
        match outcome {
            Ok(Some(overlay)) => {
                self.load_overlay(overlay);
                let mut message = "Restored ".to_owned();
                message.append(&decimal_text(self.fields.len()));
                message.append(" saved overlay field(s)");
                self.say(message);
            },
            Ok(None) => {},
            Err(error) => {
                let mut message = "Could not restore saved overlay: ".to_owned();
                message.append(&error);
                self.say(message);
            },
        }
    }

    /// Takes up the outcome of storing the fields in the course of a change: where they were
    /// stored, that there was nothing to store, or what went wrong.
    pub fn finish_overlay(&mut self, outcome: Result<Option<String>, String>)
        ensures
            final(self)@ == old(self)@.overlay_persisted(
                match outcome {
                    Ok(Some(path)) => Ok(Some(path@)),
                    Ok(None) => Ok(None),
                    Err(error) => Err(error@),
                },
            ),
            old(self)@.sound() ==> final(self)@.sound(),
            old(self)@.traceable() ==> final(self)@.traceable(),
            old(self)@.placed() ==> final(self)@.placed(),
    {
        proof {
            reveal(DocView::overlay_persisted);
        }
        let mut message = self.status.clone();
        match outcome {
            Ok(Some(path)) => {
                message.append("; overlay saved to ");
                message.append(&path);
                self.say(message);
            },
            Ok(None) => {},
            Err(error) => {
                message.append("; ");
                message.append(&error);
                self.say(message);
            },
        }
    }
}

} // verus!
