//! The modes of a file's viewer: the editors, dialogs, and panes that take the keys while they
//! are open.

use vstd::prelude::*;

use crate::dialog::{PathDialog, PathDialogView};
use crate::input::{KeyEvent, TextInput, TextView};
use crate::model::stepped_field_color;
use crate::model::{Field, FieldColor, FieldView, Selection};
use crate::model;
use crate::numbers;
use crate::numbers::hex_text;
use crate::python::{PaneView, PythonPane};
use crate::selection;

verus! {

/// The pane that takes the keys.
#[derive(Clone, Copy, Debug, PartialEq, Eq, Structural)]
pub enum Focus {
    Viewer,
    Fields,
    Python,
}

impl Default for Focus {
    fn default() -> (focus: Self)
        ensures
            focus == Focus::Viewer,
    {
        Focus::Viewer
    }
}

/// The pane whose scrollbar is held.
#[derive(Clone, Copy, Debug, PartialEq, Eq, Structural)]
pub enum ScrollbarDrag {
    Viewer,
    Fields,
    Python,
}

/// What is about to be reset.
#[derive(Clone, Copy, Debug, PartialEq, Eq, Structural)]
pub enum ResetTarget {
    Theme,
    Settings,
}

/// The editor of the theme, by its active row.
#[derive(Debug)]
pub struct ThemeEditor {
    pub active: usize,
}

impl Default for ThemeEditor {
    fn default() -> (editor: Self)
        ensures
            editor.active == 0,
    {
        ThemeEditor { active: 0 }
    }
}

/// The editor of the settings, by its active row.
#[derive(Debug)]
pub struct SettingsEditor {
    pub active: usize,
}

impl Default for SettingsEditor {
    fn default() -> (editor: Self)
        ensures
            editor.active == 0,
    {
        SettingsEditor { active: 0 }
    }
}

/// The list of keys, by how far it is scrolled.
#[derive(Debug)]
pub struct HelpViewer {
    pub scroll: usize,
}

impl Default for HelpViewer {
    fn default() -> (viewer: Self)
        ensures
            viewer.scroll == 0,
    {
        HelpViewer { scroll: 0 }
    }
}

/// The number of rows in the theme editor.
pub const THEME_ROWS: usize = 10;

/// The number of rows in the settings editor.
pub const SETTINGS_ROWS: usize = 7;

/// The number of rows in the field editor.
pub const FIELD_ROWS: usize = 5;

/// The row after `active` among `count`, or the one before it, around the ends.
pub open spec fn stepped_row(active: int, count: int, forward: bool) -> int {
    if forward {
        if active + 1 == count {
            0
        } else {
            active + 1
        }
    } else if active == 0 {
        count - 1
    } else {
        active - 1
    }
}

/// The row after `active` among `count`, or the one before it.
pub fn step_row(active: usize, count: usize, forward: bool) -> (row: usize)
    requires
        active < count,
    ensures
        row == stepped_row(active as int, count as int, forward),
        row < count,
{
    if forward {
        if active == count - 1 {
            0
        } else {
            active + 1
        }
    } else if active == 0 {
        count - 1
    } else {
        active - 1
    }
}

/// The editor of a field.
#[derive(Debug)]
pub struct FieldEditor {
    pub editing: Option<usize>,
    pub name: TextInput,
    pub description: TextInput,
    pub start: TextInput,
    pub end: TextInput,
    pub color: FieldColor,
    pub active: usize,
    pub ranges: Vec<Selection>,
}

/// The contents of a [`FieldEditor`].
pub struct FieldEditorView {
    pub editing: Option<usize>,
    pub name: TextView,
    pub description: TextView,
    pub start: TextView,
    pub end: TextView,
    pub color: FieldColor,
    pub active: int,
    pub ranges: Seq<Selection>,
}

impl View for FieldEditor {
    type V = FieldEditorView;

    open spec fn view(&self) -> FieldEditorView {
        FieldEditorView {
            editing: self.editing,
            name: self.name@,
            description: self.description@,
            start: self.start@,
            end: self.end@,
            color: self.color,
            active: self.active as int,
            ranges: self.ranges@,
        }
    }
}

impl FieldEditorView {
    /// The cursors lie in the inputs, and the active row is one of the rows.
    pub open spec fn wf(self) -> bool {
        &&& self.name.wf()
        &&& self.description.wf()
        &&& self.start.wf()
        &&& self.end.wf()
        &&& 0 <= self.active < FIELD_ROWS
    }

    /// The editor of a new field for some selected ranges.
    pub open spec fn blank(ranges: Seq<Selection>) -> FieldEditorView {
        FieldEditorView {
            editing: None,
            name: TextView::blank(),
            description: TextView::blank(),
            start: TextView::blank(),
            end: TextView::blank(),
            color: FieldColor::Cyan,
            active: 0,
            ranges,
        }
    }

    /// The editor of the field at `index`.
    pub open spec fn of_field(index: int, field: FieldView) -> FieldEditorView {
        FieldEditorView {
            editing: Some(index as usize),
            name: TextView::holding(field.name, true),
            description: TextView::holding(field.description, true),
            start: TextView::holding("0x"@ + numbers::hex(field.start as nat), true),
            end: TextView::holding("0x"@ + numbers::hex(field.end as nat), true),
            color: field.color,
            active: 0,
            ranges: Seq::empty(),
        }
    }

    /// The text in the active row; in the row of the colour there is none.
    pub open spec fn active_text(self) -> Option<TextView> {
        if self.active == 0 {
            Some(self.name)
        } else if self.active == 1 {
            Some(self.description)
        } else if self.active == 2 {
            Some(self.start)
        } else if self.active == 3 {
            Some(self.end)
        } else {
            None
        }
    }

    /// With another text in the active row.
    pub open spec fn with_active_text(self, input: TextView) -> FieldEditorView {
        if self.active == 0 {
            FieldEditorView { name: input, ..self }
        } else if self.active == 1 {
            FieldEditorView { description: input, ..self }
        } else if self.active == 2 {
            FieldEditorView { start: input, ..self }
        } else if self.active == 3 {
            FieldEditorView { end: input, ..self }
        } else {
            self
        }
    }

    /// After a key that edits the active row.
    pub open spec fn after_text_key(self, key: KeyEvent) -> FieldEditorView {
        match self.active_text() {
            Some(input) => self.with_active_text(input.after_key(key)),
            None => self,
        }
    }

    /// After a step to the next or the previous row. A text there is selected if there is any.
    pub open spec fn after_step(self, forward: bool) -> FieldEditorView {
        let there = FieldEditorView {
            active: stepped_row(self.active, FIELD_ROWS as int, forward),
            ..self
        };
        match there.active_text() {
            Some(input) => there.with_active_text(
                TextView { selected: input.value.len() > 0, ..input },
            ),
            None => there,
        }
    }

    /// After an arrow key: in the row of the colour it changes the colour.
    pub open spec fn after_arrow(self, key: KeyEvent, forward: bool) -> FieldEditorView {
        if self.active == 4 {
            FieldEditorView { color: model::step_field_color(self.color, forward), ..self }
        } else {
            self.after_text_key(key)
        }
    }

    /// After a click: the text in the active row is no longer selected.
    pub open spec fn after_click(self) -> FieldEditorView {
        match self.active_text() {
            Some(input) => self.with_active_text(input.unselected()),
            None => self,
        }
    }
}

impl FieldEditor {
    /// The editor of a new field.
    pub fn new() -> (editor: Self)
        ensures
            editor@ == FieldEditorView::blank(Seq::empty()),
    {
        let editor = FieldEditor {
            editing: None,
            name: TextInput::default(),
            description: TextInput::default(),
            start: TextInput::default(),
            end: TextInput::default(),
            color: FieldColor::Cyan,
            active: 0,
            ranges: Vec::new(),
        };
        assert(editor.ranges@ =~= Seq::<Selection>::empty());
        editor
    }

    /// The editor of the field at `index`.
    pub fn from_field(index: usize, field: &Field) -> (editor: Self)
        ensures
            editor@ == FieldEditorView::of_field(index as int, field@),
    {
        let mut start = "0x".to_owned();
        start.append(&hex_text(field.start));
        let mut end = "0x".to_owned();
        end.append(&hex_text(field.end));
        let editor = FieldEditor {
            editing: Some(index),
            name: TextInput::with_value(field.name.clone()),
            description: TextInput::with_value(field.description.clone()),
            start: TextInput::with_value(start),
            end: TextInput::with_value(end),
            color: field.color,
            active: 0,
            ranges: Vec::new(),
        };
        assert(editor.ranges@ =~= Seq::<Selection>::empty());
        editor
    }

    /// Applies a key that edits the active row.
    pub fn handle_text_key(&mut self, key: KeyEvent)
        requires
            old(self)@.wf(),
        ensures
            final(self)@ == old(self)@.after_text_key(key),
            final(self)@.wf(),
    {
        if self.active == 0 {
            self.name.handle_key(key);
        } else if self.active == 1 {
            self.description.handle_key(key);
        } else if self.active == 2 {
            self.start.handle_key(key);
        } else if self.active == 3 {
            self.end.handle_key(key);
        }
    }

    /// Steps to the next or the previous row.
    pub fn step(&mut self, forward: bool)
        requires
            old(self)@.wf(),
        ensures
            final(self)@ == old(self)@.after_step(forward),
            final(self)@.wf(),
    {
        self.active = step_row(self.active, FIELD_ROWS, forward);
        if self.active == 0 {
            self.name.selected = !self.name.value.as_str().is_empty();
        } else if self.active == 1 {
            self.description.selected = !self.description.value.as_str().is_empty();
        } else if self.active == 2 {
            self.start.selected = !self.start.value.as_str().is_empty();
        } else if self.active == 3 {
            self.end.selected = !self.end.value.as_str().is_empty();
        }
    }

    /// Applies an arrow key.
    pub fn arrow(&mut self, key: KeyEvent, forward: bool)
        requires
            old(self)@.wf(),
        ensures
            final(self)@ == old(self)@.after_arrow(key, forward),
            final(self)@.wf(),
    {
        if self.active == 4 {
            self.color = stepped_field_color(self.color, forward);
        } else {
            self.handle_text_key(key);
        }
    }

    /// Applies a click.
    pub fn click(&mut self)
        requires
            old(self)@.wf(),
        ensures
            final(self)@ == old(self)@.after_click(),
            final(self)@.wf(),
    {
        if self.active == 0 {
            self.name.clear_selection();
        } else if self.active == 1 {
            self.description.clear_selection();
        } else if self.active == 2 {
            self.start.clear_selection();
        } else if self.active == 3 {
            self.end.clear_selection();
        }
    }
}

/// What takes the keys of a file's viewer.
#[derive(Debug)]
pub enum Mode {
    Normal,
    Search(TextInput),
    Jump(TextInput),
    Field(FieldEditor),
    Path(PathDialog),
    Theme(ThemeEditor),
    Settings(SettingsEditor),
    ConfirmReset(ResetTarget),
    Python(PythonPane),
    Help(HelpViewer),
}

/// The contents of a [`Mode`].
pub enum ModeView {
    Normal,
    Search(TextView),
    Jump(TextView),
    Field(FieldEditorView),
    Path(PathDialogView),
    Theme(int),
    Settings(int),
    ConfirmReset(ResetTarget),
    Python(PaneView),
    Help(int),
}

/// The contents of a [`Mode`].
#[verifier::opaque]
pub open spec fn mode_view(mode: Mode) -> ModeView {
    match mode {
        Mode::Normal => ModeView::Normal,
        Mode::Search(input) => ModeView::Search(input@),
        Mode::Jump(input) => ModeView::Jump(input@),
        Mode::Field(editor) => ModeView::Field(editor@),
        Mode::Path(dialog) => ModeView::Path(dialog@),
        Mode::Theme(editor) => ModeView::Theme(editor.active as int),
        Mode::Settings(editor) => ModeView::Settings(editor.active as int),
        Mode::ConfirmReset(target) => ModeView::ConfirmReset(target),
        Mode::Python(pane) => ModeView::Python(pane@),
        Mode::Help(viewer) => ModeView::Help(viewer.scroll as int),
    }
}

impl View for Mode {
    type V = ModeView;

    open spec fn view(&self) -> ModeView {
        mode_view(*self)
    }
}

impl ModeView {
    /// What is open is in order for a file of `length` bytes with some fields.
    pub open spec fn wf(self, length: int, fields: Seq<FieldView>) -> bool {
        match self {
            ModeView::Normal => true,
            ModeView::Search(input) => input.wf(),
            ModeView::Jump(input) => input.wf(),
            ModeView::Field(editor) => {
                &&& editor.wf()
                &&& editor.editing matches Some(index) ==> index < fields.len()
                &&& selection::inside(editor.ranges, length)
            },
            ModeView::Path(dialog) => dialog.path.wf(),
            ModeView::Theme(active) => 0 <= active < THEME_ROWS,
            ModeView::Settings(active) => 0 <= active < SETTINGS_ROWS,
            ModeView::ConfirmReset(_) => true,
            ModeView::Python(pane) => pane.wf(),
            ModeView::Help(_) => true,
        }
    }
}

} // verus!
