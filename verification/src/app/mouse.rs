//! The mouse in an open file.

use vstd::prelude::*;

use crate::app;
use crate::app::edit;
use crate::app::{App, DocView};
use crate::dialog::{CompletionView, PathDialogView};
use crate::geometry;
use crate::geometry::{is_scrollbar_column, scrollbar_position_from_row, smaller, Rect};
use crate::input::{MouseButton, MouseEvent, MouseEventKind};
use crate::model::Selection;
use crate::modes;
use crate::modes::{Focus, Mode, ModeView, ScrollbarDrag};
use crate::rows;
use crate::rows::DisplayRow;
use crate::selection;

verus! {

broadcast use crate::text::group_views;

/// Whether a cell belongs to the scrollbar of an area.
pub open spec fn on_bar(area: Rect, column: u16, row: u16) -> bool {
    geometry::on_scrollbar(area, column) && area.covers(column, row)
}

impl DocView {
    /// The width of the offsets at the left of the viewer.
    pub open spec fn prefix_width(self) -> int {
        if self.settings.show_offsets {
            10
        } else {
            0
        }
    }

    /// The column, inside the border, in which the digits of a line's byte start: each byte takes
    /// three columns, and every eight bytes are set apart by one more.
    pub open spec fn hex_column(self, index: int) -> int {
        self.prefix_width() + 3 * index + index / 8
    }

    /// The column, inside the border, in which the characters of a line start.
    pub open spec fn text_column(self) -> int {
        let width = self.settings.bytes_per_row;
        self.prefix_width() + 3 * width + (width - 1) / 8 + 2
    }

    /// Whether a column inside the border shows the byte of a line with this index, as digits or
    /// as a character.
    pub open spec fn in_column(self, x: int, index: int) -> bool {
        &&& 0 <= index < self.settings.bytes_per_row
        &&& self.hex_column(index) <= x < self.hex_column(index) + 3 || (self.settings.show_ascii
            && x == self.text_column() + index)
    }

    /// The index in a line of the byte that a column inside the border shows, if it shows one.
    pub open spec fn column_index(self, x: int) -> Option<int> {
        if exists|index: int| self.in_column(x, index) {
            Some(choose|index: int| self.in_column(x, index))
        } else {
            None
        }
    }

    /// The offset of the byte that a cell of the terminal shows, if it shows one. A line that
    /// stands for a run shows its first byte throughout.
    pub open spec fn byte_under(self, column: u16, row: u16) -> Option<int> {
        let line = self.scroll + row - self.viewer_area.y - 1;
        if !self.viewer_area.encloses(column, row) || line >= self.rows.len() {
            None
        } else {
            match self.rows[line] {
                DisplayRow::Repeated { start, .. } => Some(start as int),
                DisplayRow::Bytes { offset } => match self.column_index(
                    column - self.viewer_area.x - 1,
                ) {
                    Some(index) => if offset + index < self.length() {
                        Some(offset + index)
                    } else {
                        None
                    },
                    None => None,
                },
            }
        }
    }

    /// The index of the field that a cell of the terminal shows, if it shows one.
    pub open spec fn field_under(self, column: u16, row: u16) -> Option<int> {
        let line = row - self.fields_area.y - 1;
        if self.fields_area.encloses(column, row) && line < self.visible_fields && self.fields_scroll
            + line < self.fields.len() {
            Some(self.fields_scroll + line)
        } else {
            None
        }
    }

    /// With a scrollbar held by the mouse, or none.
    #[verifier::opaque]
    pub open spec fn bar_held(self, bar: Option<ScrollbarDrag>) -> DocView {
        DocView { scrollbar_dragging: bar, ..self }
    }

    /// With the mouse selecting bytes, or not.
    #[verifier::opaque]
    pub open spec fn dragging(self, held: bool) -> DocView {
        DocView { mouse_dragging: held, ..self }
    }

    /// With one byte selected, beside what was selected or in its place.
    #[verifier::opaque]
    pub open spec fn picked(self, offset: int, also: bool) -> DocView {
        DocView {
            selection: Some(Selection::at(offset)),
            additional: if also {
                self.all_selections()
            } else {
                Seq::empty()
            },
            ..self
        }
    }

    /// After a click on a byte.
    #[verifier::opaque]
    pub open spec fn byte_clicked(self, offset: int, also: bool) -> DocView {
        let settled = if self.edit_mode {
            self.committed()
        } else {
            self
        };
        settled.picked(offset, also).focused(Focus::Viewer).dragging(
            true,
        ).at_first_digit().appending(false)
    }

    /// After a click on the viewer or the list of fields.
    #[verifier::opaque]
    pub open spec fn content_clicked(self, mouse: MouseEvent) -> DocView {
        match self.byte_under(mouse.column, mouse.row) {
            Some(offset) => self.byte_clicked(offset, mouse.modifiers.control),
            None => match self.field_under(mouse.column, mouse.row) {
                Some(index) => if self.edit_mode {
                    self
                } else {
                    self.field_chosen(index).field_activated()
                },
                None => self,
            },
        }
    }

    /// After the mouse was dragged: a selection that it makes reaches to the byte under it. A byte
    /// that is being typed elsewhere is kept as it stands.
    #[verifier::opaque]
    pub open spec fn selection_dragged(self, mouse: MouseEvent) -> DocView {
        match (self.byte_under(mouse.column, mouse.row), self.selection) {
            (Some(offset), Some(s)) => if self.mouse_dragging {
                self.leaving(offset).selecting_also(Selection { cursor: offset as usize, ..s })
            } else {
                self
            },
            _ => self,
        }
    }

    /// After a mouse event on the viewer or the list of fields.
    #[verifier::opaque]
    pub open spec fn content_mouse(self, mouse: MouseEvent) -> DocView {
        let on_fields = self.fields_area.covers(mouse.column, mouse.row);
        match mouse.kind {
            MouseEventKind::ScrollUp => if on_fields {
                self.fields_scrolled(geometry::minus(self.fields_scroll, 3)).focused(Focus::Fields)
            } else {
                self.scrolled(geometry::minus(self.scroll, 3))
            },
            MouseEventKind::ScrollDown => if on_fields {
                self.fields_scrolled(
                    geometry::min(geometry::plus(self.fields_scroll, 3), self.field_max_scroll()),
                ).focused(Focus::Fields)
            } else {
                self.scrolled(geometry::min(geometry::plus(self.scroll, 3), self.max_scroll()))
            },
            MouseEventKind::Down(MouseButton::Left) => self.content_clicked(mouse),
            MouseEventKind::Drag(MouseButton::Left) => self.selection_dragged(mouse),
            MouseEventKind::Up(MouseButton::Left) => self.dragging(false),
            _ => self,
        }
    }

    /// The scrollbar that a mouse event is about, if any: the one under a click, or the one that
    /// is held.
    pub open spec fn bar_meant(self, mouse: MouseEvent) -> Option<ScrollbarDrag> {
        match mouse.kind {
            MouseEventKind::Down(MouseButton::Left) => if self.mode is Python && on_bar(
                self.python_area,
                mouse.column,
                mouse.row,
            ) {
                Some(ScrollbarDrag::Python)
            } else if on_bar(self.fields_area, mouse.column, mouse.row) {
                Some(ScrollbarDrag::Fields)
            } else if on_bar(self.viewer_area, mouse.column, mouse.row) {
                Some(ScrollbarDrag::Viewer)
            } else {
                None
            },
            MouseEventKind::Drag(MouseButton::Left) => self.scrollbar_dragging,
            _ => None,
        }
    }

    /// With a scrollbar pulled to a row of the terminal. The console counts its lines from the
    /// end.
    #[verifier::opaque]
    pub open spec fn bar_pulled(self, bar: ScrollbarDrag, row: u16) -> DocView {
        match bar {
            ScrollbarDrag::Viewer => self.focused(Focus::Viewer).scrolled(
                geometry::scroll_target(self.viewer_area, row, self.max_scroll()),
            ),
            ScrollbarDrag::Fields => self.focused(Focus::Fields).fields_scrolled(
                geometry::scroll_target(self.fields_area, row, self.field_max_scroll()),
            ),
            ScrollbarDrag::Python => match self.mode {
                ModeView::Python(pane) => self.focused(Focus::Python).with_pane(
                    pane.scrolled(
                        geometry::minus(
                            pane.max_scroll(),
                            geometry::scroll_target(self.python_area, row, pane.max_scroll()),
                        ),
                    ),
                ),
                _ => self.focused(Focus::Python),
            },
        }
    }

    /// Whether a mouse event goes to a scrollbar and nowhere else.
    pub open spec fn bar_takes(self, mouse: MouseEvent) -> bool {
        match mouse.kind {
            MouseEventKind::Up(MouseButton::Left) => self.scrollbar_dragging is Some,
            _ => match self.bar_meant(mouse) {
                Some(ScrollbarDrag::Python) => self.mode is Python,
                Some(_) => true,
                None => false,
            },
        }
    }

    /// After a mouse event, as far as the scrollbars are concerned.
    #[verifier::opaque]
    pub open spec fn bar_mouse(self, mouse: MouseEvent) -> DocView {
        match mouse.kind {
            MouseEventKind::Up(MouseButton::Left) => self.bar_held(None),
            _ => match self.bar_meant(mouse) {
                Some(bar) => self.bar_held(Some(bar)).bar_pulled(bar, mouse.row),
                None => self,
            },
        }
    }

    /// With no text marked as selected in what is open.
    #[verifier::opaque]
    pub open spec fn text_unselected(self) -> DocView {
        match self.mode {
            ModeView::Search(input) => self.in_mode(ModeView::Search(input.unselected())),
            ModeView::Jump(input) => self.in_mode(ModeView::Jump(input.unselected())),
            ModeView::Field(editor) => self.in_mode(ModeView::Field(editor.after_click())),
            ModeView::Path(dialog) => self.in_mode(
                ModeView::Path(
                    PathDialogView {
                        path: CompletionView {
                            input: dialog.path.input.unselected(),
                            ..dialog.path
                        },
                        ..dialog
                    },
                ),
            ),
            _ => self,
        }
    }

    /// After a mouse event while the help is open: the wheel scrolls it.
    pub open spec fn help_wheel(self, scroll: int, kind: MouseEventKind) -> DocView {
        match kind {
            MouseEventKind::ScrollUp => self.in_mode(ModeView::Help(geometry::minus(scroll, 3))),
            MouseEventKind::ScrollDown => self.in_mode(ModeView::Help(geometry::plus(scroll, 3))),
            _ => self,
        }
    }

    /// After a mouse event on the console.
    #[verifier::opaque]
    pub open spec fn console_mouse(self, pane: crate::python::PaneView, kind: MouseEventKind) -> DocView {
        match kind {
            MouseEventKind::ScrollUp => self.focused(Focus::Python).with_pane(
                pane.scrolled_back(3),
            ),
            MouseEventKind::ScrollDown => self.focused(Focus::Python).with_pane(
                pane.scrolled_forward(3),
            ),
            _ => self.focused(Focus::Python),
        }
    }

    /// After a click beside the console, as far as the keys are concerned.
    #[verifier::opaque]
    pub open spec fn focus_clicked(self, mouse: MouseEvent) -> DocView {
        if !mouse.is_click() {
            self
        } else if self.viewer_area.covers(mouse.column, mouse.row) {
            self.focused(Focus::Viewer)
        } else if self.fields_area.covers(mouse.column, mouse.row) {
            self.focused(Focus::Fields)
        } else {
            self
        }
    }

    /// After a mouse event that no scrollbar and no dialog takes.
    #[verifier::opaque]
    pub open spec fn pane_mouse(self, mouse: MouseEvent) -> DocView {
        match self.mode {
            ModeView::Python(pane) => if self.python_area.covers(mouse.column, mouse.row) {
                self.console_mouse(pane, mouse.kind)
            } else {
                self.focus_clicked(mouse).content_mouse(mouse)
            },
            ModeView::Normal => self.content_mouse(mouse),
            _ => self,
        }
    }

    /// After a mouse event.
    #[verifier::opaque]
    pub open spec fn mouse_used(self, mouse: MouseEvent) -> DocView {
        let doc = if mouse.is_click() {
            self.text_unselected()
        } else {
            self
        };
        match doc.mode {
            ModeView::Help(scroll) => doc.help_wheel(scroll, mouse.kind),
            ModeView::Path(dialog) => doc.in_path(
                dialog.action,
                dialog.path.after_wheel(mouse.kind),
            ),
            _ => if doc.bar_takes(mouse) {
                doc.bar_mouse(mouse)
            } else {
                doc.bar_mouse(mouse).pane_mouse(mouse)
            },
        }
    }
}

/// A column shows one byte of a line at most.
pub proof fn columns_show_one_byte(doc: DocView, x: int, index: int, other: int)
    requires
        doc.in_column(x, index),
        doc.in_column(x, other),
    ensures
        index == other,
        doc.column_index(x) == Some(index),
{
    let chosen = choose|index: int| doc.in_column(x, index);
    assert(doc.in_column(x, chosen));
    let width = doc.settings.bytes_per_row as int;
    assert(doc.hex_column(index) + 3 < doc.text_column());
    assert(doc.hex_column(other) + 3 < doc.text_column());
    assert(doc.hex_column(chosen) + 3 < doc.text_column());
}

/// A byte of the file that a line in sight holds is found under the cells that show it: its
/// digits, and its character where characters are shown.
pub proof fn cells_show_their_bytes(doc: DocView, column: u16, row: u16, line: int, index: int)
    requires
        0 <= line < doc.rows.len(),
        doc.viewer_area.encloses(column, row),
        line == doc.scroll + row - doc.viewer_area.y - 1,
        doc.rows[line] is Bytes,
        doc.in_column(column - doc.viewer_area.x - 1, index),
        doc.rows[line].first() + index < doc.length(),
    ensures
        doc.byte_under(column, row) == Some(doc.rows[line].first() + index),
{
    columns_show_one_byte(doc, column - doc.viewer_area.x - 1, index, index);
}

/// A byte that is found under a cell lies in the file.
proof fn lemma_byte_under(doc: DocView, column: u16, row: u16)
    requires
        app::layout_ok(doc.bytes, doc.settings, doc.visible_rows, doc.rows),
        0 <= doc.scroll,
    ensures
        doc.byte_under(column, row) matches Some(offset) ==> 0 <= offset < doc.length(),
{
    reveal(app::layout_ok);
    rows::rows_tile_the_file(
        doc.bytes,
        doc.settings.bytes_per_row as int,
        doc.settings.compress_repeated_rows,
        0,
    );
    let line = doc.scroll + row - doc.viewer_area.y - 1;
    if doc.viewer_area.encloses(column, row) && line < doc.rows.len() {
        assert(0 <= doc.rows[line].first() < doc.length());
        let x = column - doc.viewer_area.x - 1;
        if exists|index: int| doc.in_column(x, index) {
            assert(doc.in_column(x, choose|index: int| doc.in_column(x, index)));
        }
    }
}

impl App {
    /// The index in a line of the byte that a column inside the border shows.
    fn column_at(&self, x: usize) -> (place: Option<usize>)
        requires
            self@.settings.wf(),
        ensures
            match place {
                Some(index) => self@.column_index(x as int) == Some(index as int),
                None => self@.column_index(x as int) is None,
            },
    {
        let ghost doc = self@;
        let width: usize = self.settings.bytes_per_row;
        let prefix: usize = if self.settings.show_offsets {
            10
        } else {
            0
        };
        let mut i: usize = 0;
        while i < width
            invariant
                doc == self@,
                width == doc.settings.bytes_per_row,
                width <= 32,
                prefix == doc.prefix_width(),
                i <= width,
                forall|k: int|
                    0 <= k < i ==> !(#[trigger] doc.hex_column(k) <= x < doc.hex_column(k) + 3),
            decreases width - i,
        {
            let start: usize = prefix + i * 3 + i / 8;
            assert(start == doc.hex_column(i as int));
            if start <= x && x < start + 3 {
                proof {
                    columns_show_one_byte(doc, x as int, i as int, i as int);
                }
                return Some(i);
            }
            i = i + 1;
        }
        let first: usize = prefix + width * 3 + (width - 1) / 8 + 2;
        assert(first == doc.text_column());
        if self.settings.show_ascii && first <= x && x - first < width {
            let index: usize = x - first;
            proof {
                columns_show_one_byte(doc, x as int, index as int, index as int);
            }
            return Some(index);
        }
        assert forall|index: int| !doc.in_column(x as int, index) by {
            if 0 <= index < width {
                assert(!(doc.hex_column(index) <= x < doc.hex_column(index) + 3));
            }
        }
        None
    }

    /// The offset of the byte that a cell of the terminal shows.
    pub fn byte_at(&self, column: u16, row: u16) -> (place: Option<usize>)
        requires
            self@.valid(),
        ensures
            match place {
                Some(offset) => self@.byte_under(column, row) == Some(offset as int) && offset
                    < self@.length(),
                None => self@.byte_under(column, row) is None,
            },
    {
        proof {
            lemma_byte_under(self@, column, row);
            reveal(app::layout_ok);
        }
        let (x, y) = match self.viewer_area.inner_position(column, row) {
            Some(place) => place,
            None => {
                return None;
            },
        };
        let line: usize = match self.scroll.checked_add(y as usize) {
            Some(line) => line,
            None => {
                assert(self@.rows.len() == self.display_rows.len());
                return None;
            },
        };
        if line >= self.display_rows.len() {
            return None;
        }
        match self.display_rows[line] {
            DisplayRow::Repeated { start, .. } => Some(start),
            DisplayRow::Bytes { offset } => match self.column_at(x as usize) {
                Some(index) => match offset.checked_add(index) {
                    Some(found) => if found < self.bytes.len() {
                        Some(found)
                    } else {
                        None
                    },
                    None => None,
                },
                None => None,
            },
        }
    }

    /// The index of the field that a cell of the terminal shows.
    pub fn field_at(&self, column: u16, row: u16) -> (place: Option<usize>)
        ensures
            match place {
                Some(index) => self@.field_under(column, row) == Some(index as int) && index
                    < self@.fields.len(),
                None => self@.field_under(column, row) is None,
            },
    {
        match self.fields_area.inner_position(column, row) {
            Some((_, y)) => {
                let line: usize = y as usize;
                let index: usize = self.fields_scroll.saturating_add(line);
                if line < self.visible_fields && index < self.fields.len() {
                    Some(index)
                } else {
                    None
                }
            },
            None => None,
        }
    }

    /// Takes hold of a scrollbar, or lets go of it.
    fn hold_bar(&mut self, bar: Option<ScrollbarDrag>)
        ensures
            final(self)@ == old(self)@.bar_held(bar),
            old(self)@.wf() ==> final(self)@.wf(),
    {
        proof {
            reveal(DocView::bar_held);
        }
        self.scrollbar_dragging = bar;
    }

    /// Starts selecting bytes with the mouse, or ends it.
    fn set_dragging(&mut self, held: bool)
        ensures
            final(self)@ == old(self)@.dragging(held),
            old(self)@.wf() ==> final(self)@.wf(),
    {
        proof {
            reveal(DocView::dragging);
        }
        self.mouse_dragging = held;
    }

    /// Selects one byte, beside what was selected or in its place.
    fn pick(&mut self, offset: usize, also: bool)
        requires
            old(self)@.wf(),
            offset < old(self)@.length(),
        ensures
            final(self)@ == old(self)@.picked(offset as int, also),
            final(self)@.wf(),
    {
        proof {
            reveal(DocView::picked);
            reveal(app::selection_ok);
        }
        if also {
            match self.selection {
                Some(selection) => {
                    self.additional_selections.push(selection);
                },
                None => {},
            }
        } else {
            self.additional_selections = Vec::new();
            assert(self.additional_selections@ =~= Seq::<Selection>::empty());
        }
        self.selection = Some(Selection::new(offset));
    }

    /// Applies a click on a byte.
    fn click_byte(&mut self, offset: usize, also: bool)
        requires
            old(self)@.wf(),
            offset < old(self)@.length(),
        ensures
            final(self)@ == old(self)@.byte_clicked(offset as int, also),
            final(self)@.wf(),
    {
        proof {
            reveal(DocView::byte_clicked);
            edit::lemma_committed_frame(self@);
        }
        if self.edit_mode {
            self.commit_pending_edit();
        }
        self.pick(offset, also);
        self.set_focus(Focus::Viewer);
        self.set_dragging(true);
        self.expect_first_digit();
        self.set_appending(false);
    }

    /// Applies a click on the viewer or the list of fields.
    fn click_content(&mut self, mouse: MouseEvent)
        requires
            old(self)@.wf(),
        ensures
            final(self)@ == old(self)@.content_clicked(mouse),
            final(self)@.wf(),
    {
        proof {
            reveal(DocView::content_clicked);
        }
        match self.byte_at(mouse.column, mouse.row) {
            Some(offset) => self.click_byte(offset, mouse.modifiers.control),
            None => match self.field_at(mouse.column, mouse.row) {
                Some(index) => {
                    if !self.edit_mode {
                        self.choose_field(index);
                        self.activate_selected_field();
                    }
                },
                None => {},
            },
        }
    }

    /// Applies a drag of the mouse to the selection that it makes.
    fn drag_selection(&mut self, mouse: MouseEvent)
        requires
            old(self)@.wf(),
        ensures
            final(self)@ == old(self)@.selection_dragged(mouse),
            final(self)@.wf(),
    {
        proof {
            reveal(DocView::selection_dragged);
            reveal(app::selection_ok);
        }
        if !self.mouse_dragging {
            return;
        }
        match self.byte_at(mouse.column, mouse.row) {
            Some(offset) => match self.selection {
                Some(selection) => {
                    proof {
                        edit::lemma_committed_frame(self@);
                    }
                    self.leave_byte(offset);
                    self.select_also(Selection { anchor: selection.anchor, cursor: offset });
                },
                None => {},
            },
            None => {},
        }
    }

    /// Applies a mouse event on the viewer or the list of fields.
    pub fn handle_content_mouse(&mut self, mouse: MouseEvent)
        requires
            old(self)@.wf(),
        ensures
            final(self)@ == old(self)@.content_mouse(mouse),
            final(self)@.wf(),
    {
        proof {
            reveal(DocView::content_mouse);
        }
        let on_fields = self.fields_area.contains(mouse.column, mouse.row);
        match mouse.kind {
            MouseEventKind::ScrollUp => {
                if on_fields {
                    self.set_fields_scroll(self.fields_scroll.saturating_sub(3));
                    self.set_focus(Focus::Fields);
                } else {
                    self.set_scroll(self.scroll.saturating_sub(3));
                }
            },
            MouseEventKind::ScrollDown => {
                if on_fields {
                    let most: usize = self.field_max_scroll();
                    self.set_fields_scroll(smaller(self.fields_scroll.saturating_add(3), most));
                    self.set_focus(Focus::Fields);
                } else {
                    let most: usize = self.max_scroll();
                    self.set_scroll(smaller(self.scroll.saturating_add(3), most));
                }
            },
            MouseEventKind::Down(MouseButton::Left) => self.click_content(mouse),
            MouseEventKind::Drag(MouseButton::Left) => self.drag_selection(mouse),
            MouseEventKind::Up(MouseButton::Left) => self.set_dragging(false),
            _ => {},
        }
    }

    /// Whether the console is open.
    pub fn in_python(&self) -> (open: bool)
        ensures
            open == self@.mode is Python,
    {
        proof {
            reveal(modes::mode_view);
        }
        matches!(self.mode, Mode::Python(_))
    }

    /// The scrollbar that a mouse event is about.
    fn bar_for(&self, mouse: MouseEvent) -> (bar: Option<ScrollbarDrag>)
        ensures
            bar == self@.bar_meant(mouse),
    {
        match mouse.kind {
            MouseEventKind::Down(MouseButton::Left) => {
                if self.in_python() && is_bar(self.python_area, mouse.column, mouse.row) {
                    Some(ScrollbarDrag::Python)
                } else if is_bar(self.fields_area, mouse.column, mouse.row) {
                    Some(ScrollbarDrag::Fields)
                } else if is_bar(self.viewer_area, mouse.column, mouse.row) {
                    Some(ScrollbarDrag::Viewer)
                } else {
                    None
                }
            },
            MouseEventKind::Drag(MouseButton::Left) => self.scrollbar_dragging,
            _ => None,
        }
    }

    /// Scrolls the console so far back that `top` lines of it lie above.
    fn scroll_console_to(&mut self, top: usize)
        requires
            old(self)@.wf(),
            old(self)@.mode is Python,
        ensures
            final(self)@ == old(self)@.with_pane(
                old(self)@.mode->Python_0.scrolled(
                    geometry::minus(old(self)@.mode->Python_0.max_scroll(), top as int),
                ),
            ),
            final(self)@.wf(),
    {
        proof {
            reveal(DocView::in_mode);
            reveal(app::mode_ok);
            reveal(modes::mode_view);
        }
        match &mut self.mode {
            Mode::Python(pane) => {
                pane.scroll = pane.max_scroll().saturating_sub(top);
            },
            _ => {},
        }
    }

    /// How far the console can be scrolled.
    fn console_max_scroll(&self) -> (lines: usize)
        requires
            self@.mode is Python,
        ensures
            lines == self@.mode->Python_0.max_scroll(),
    {
        proof {
            reveal(modes::mode_view);
        }
        match &self.mode {
            Mode::Python(pane) => pane.max_scroll(),
            _ => 0,
        }
    }

    /// Pulls a scrollbar to a row of the terminal.
    fn pull_bar(&mut self, bar: ScrollbarDrag, row: u16)
        requires
            old(self)@.wf(),
        ensures
            final(self)@ == old(self)@.bar_pulled(bar, row),
            final(self)@.wf(),
    {
        proof {
            reveal(DocView::bar_pulled);
            reveal(DocView::focused);
            reveal(app::areas_ok);
        }
        match bar {
            ScrollbarDrag::Viewer => {
                let most: usize = self.max_scroll();
                let line: usize = scrollbar_position_from_row(self.viewer_area, row, most);
                self.set_focus(Focus::Viewer);
                self.set_scroll(line);
            },
            ScrollbarDrag::Fields => {
                let most: usize = self.field_max_scroll();
                let line: usize = scrollbar_position_from_row(self.fields_area, row, most);
                self.set_focus(Focus::Fields);
                self.set_fields_scroll(line);
            },
            ScrollbarDrag::Python => {
                self.set_focus(Focus::Python);
                if self.in_python() {
                    let most: usize = self.console_max_scroll();
                    let top: usize = scrollbar_position_from_row(self.python_area, row, most);
                    self.scroll_console_to(top);
                }
            },
        }
    }

    /// Applies a mouse event to the scrollbars, and returns whether it goes nowhere else.
    pub fn handle_scrollbar_mouse(&mut self, mouse: MouseEvent) -> (taken: bool)
        requires
            old(self)@.wf(),
        ensures
            final(self)@ == old(self)@.bar_mouse(mouse),
            taken == old(self)@.bar_takes(mouse),
            final(self)@.wf(),
    {
        proof {
            reveal(DocView::bar_mouse);
            reveal(DocView::bar_held);
        }
        if mouse.kind == MouseEventKind::Up(MouseButton::Left) {
            let held = self.scrollbar_dragging.is_some();
            self.hold_bar(None);
            return held;
        }
        match self.bar_for(mouse) {
            Some(bar) => {
                let taken = bar != ScrollbarDrag::Python || self.in_python();
                self.hold_bar(Some(bar));
                self.pull_bar(bar, mouse.row);
                taken
            },
            None => false,
        }
    }

    /// Takes the mark of a selection off the text in what is open.
    fn unselect_text(&mut self)
        requires
            old(self)@.wf(),
        ensures
            final(self)@ == old(self)@.text_unselected(),
            final(self)@.wf(),
    {
        proof {
            reveal(DocView::text_unselected);
            reveal(DocView::in_mode);
            reveal(app::mode_ok);
            reveal(modes::mode_view);
        }
        match &mut self.mode {
            Mode::Search(input) => input.clear_selection(),
            Mode::Jump(input) => input.clear_selection(),
            Mode::Field(editor) => editor.click(),
            Mode::Path(dialog) => dialog.input.clear_selection(),
            _ => {},
        }
    }

    /// Applies the mouse wheel to the paths that are offered.
    fn scroll_paths(&mut self, kind: MouseEventKind)
        requires
            old(self)@.wf(),
            old(self)@.mode is Path,
        ensures
            final(self)@ == old(self)@.in_path(
                old(self)@.mode->Path_0.action,
                old(self)@.mode->Path_0.path.after_wheel(kind),
            ),
            final(self)@.wf(),
    {
        proof {
            reveal(DocView::in_path);
            reveal(DocView::in_mode);
            reveal(app::mode_ok);
            reveal(modes::mode_view);
        }
        match &mut self.mode {
            Mode::Path(dialog) => dialog.handle_wheel(kind),
            _ => {},
        }
    }

    /// Scrolls the console back, or forward again.
    fn scroll_console(&mut self, lines: usize, back: bool)
        requires
            old(self)@.wf(),
            old(self)@.mode is Python,
        ensures
            final(self)@ == old(self)@.with_pane(
                if back {
                    old(self)@.mode->Python_0.scrolled_back(lines as int)
                } else {
                    old(self)@.mode->Python_0.scrolled_forward(lines as int)
                },
            ),
            final(self)@.wf(),
    {
        proof {
            reveal(DocView::in_mode);
            reveal(app::mode_ok);
            reveal(modes::mode_view);
        }
        match &mut self.mode {
            Mode::Python(pane) => {
                if back {
                    pane.scroll_back(lines);
                } else {
                    pane.scroll_forward(lines);
                }
            },
            _ => {},
        }
    }

    /// Applies a mouse event on the console.
    fn handle_console_mouse(&mut self, kind: MouseEventKind)
        requires
            old(self)@.wf(),
            old(self)@.mode is Python,
        ensures
            final(self)@ == old(self)@.console_mouse(old(self)@.mode->Python_0, kind),
            final(self)@.wf(),
    {
        proof {
            reveal(DocView::console_mouse);
            reveal(DocView::focused);
        }
        self.set_focus(Focus::Python);
        match kind {
            MouseEventKind::ScrollUp => self.scroll_console(3, true),
            MouseEventKind::ScrollDown => self.scroll_console(3, false),
            _ => {},
        }
    }

    /// Gives the keys to the pane under a click beside the console.
    fn focus_under(&mut self, mouse: MouseEvent)
        requires
            old(self)@.wf(),
        ensures
            final(self)@ == old(self)@.focus_clicked(mouse),
            final(self)@.wf(),
    {
        proof {
            reveal(DocView::focus_clicked);
        }
        if mouse.click() {
            if self.viewer_area.contains(mouse.column, mouse.row) {
                self.set_focus(Focus::Viewer);
            } else if self.fields_area.contains(mouse.column, mouse.row) {
                self.set_focus(Focus::Fields);
            }
        }
    }

    /// Applies a mouse event that no scrollbar and no dialog takes.
    fn handle_pane_mouse(&mut self, mouse: MouseEvent)
        requires
            old(self)@.wf(),
        ensures
            final(self)@ == old(self)@.pane_mouse(mouse),
            final(self)@.wf(),
    {
        proof {
            reveal(DocView::pane_mouse);
            reveal(modes::mode_view);
        }
        match &self.mode {
            Mode::Python(_) => {
                if self.python_area.contains(mouse.column, mouse.row) {
                    self.handle_console_mouse(mouse.kind);
                } else {
                    self.focus_under(mouse);
                    self.handle_content_mouse(mouse);
                }
            },
            Mode::Normal => self.handle_content_mouse(mouse),
            _ => {},
        }
    }

    /// Applies a mouse event.
    pub fn handle_mouse(&mut self, mouse: MouseEvent)
        requires
            old(self)@.wf(),
        ensures
            final(self)@ == old(self)@.mouse_used(mouse),
            final(self)@.wf(),
    {
        proof {
            reveal(DocView::mouse_used);
        }
        if mouse.click() {
            self.unselect_text();
        }
        proof {
            reveal(modes::mode_view);
        }
        let help: Option<usize> = match &self.mode {
            Mode::Help(viewer) => Some(viewer.scroll),
            _ => None,
        };
        match help {
            Some(scroll) => {
                match mouse.kind {
                    MouseEventKind::ScrollUp => self.scroll_help(scroll.saturating_sub(3)),
                    MouseEventKind::ScrollDown => self.scroll_help(scroll.saturating_add(3)),
                    _ => {},
                }
                return;
            },
            None => {},
        }
        if matches!(self.mode, Mode::Path(_)) {
            self.scroll_paths(mouse.kind);
            return;
        }
        if !self.handle_scrollbar_mouse(mouse) {
            self.handle_pane_mouse(mouse);
        }
    }
}

/// Whether a cell belongs to the scrollbar of an area.
fn is_bar(area: Rect, column: u16, row: u16) -> (on: bool)
    ensures
        on == on_bar(area, column, row),
{
    is_scrollbar_column(area, column) && area.contains(column, row)
}

} // verus!
