//! The named fields of an open file.

use vstd::prelude::*;

use crate::app;
use crate::app::edit;
use crate::app::edit::mode_is_free;
use crate::app::{App, DocView};
use crate::codec;
use crate::codec::parse_offset;
use crate::editing;
use crate::effects::{Effect, EffectView};
use crate::geometry;
use crate::geometry::smaller;
use crate::model::{Field, FieldColor, FieldView, Selection};
use crate::modes;
use crate::modes::{FieldEditor, FieldEditorView, Focus, Mode, ModeView};
use crate::numbers;
use crate::numbers::{decimal_text, ordinal_text};
use crate::selection;
use crate::text;
use crate::text::trimmed;

verus! {

broadcast use crate::text::group_views;

/// What was entered in the editor of a field, without spaces around it.
#[derive(Debug)]
pub struct FieldDraft {
    pub editing: Option<usize>,
    pub name: String,
    pub description: String,
    pub start: String,
    pub end: String,
    pub color: FieldColor,
    pub ranges: Vec<Selection>,
}

/// The contents of a [`FieldDraft`].
pub struct DraftView {
    pub editing: Option<usize>,
    pub name: Seq<char>,
    pub description: Seq<char>,
    pub start: Seq<char>,
    pub end: Seq<char>,
    pub color: FieldColor,
    pub ranges: Seq<Selection>,
}

impl View for FieldDraft {
    type V = DraftView;

    open spec fn view(&self) -> DraftView {
        DraftView {
            editing: self.editing,
            name: self.name@,
            description: self.description@,
            start: self.start@,
            end: self.end@,
            color: self.color,
            ranges: self.ranges@,
        }
    }
}

/// What was entered in the editor of a field.
pub open spec fn draft_of(editor: FieldEditorView) -> DraftView {
    DraftView {
        editing: editor.editing,
        name: text::trim(editor.name.value),
        description: text::trim(editor.description.value),
        start: text::trim(editor.start.value),
        end: text::trim(editor.end.value),
        color: editor.color,
        ranges: editor.ranges,
    }
}

/// What was entered in the editor of a field.
fn read_draft(editor: &FieldEditor) -> (draft: FieldDraft)
    ensures
        draft@ == draft_of(editor@),
{
    let mut ranges: Vec<Selection> = Vec::new();
    let mut i: usize = 0;
    while i < editor.ranges.len()
        invariant
            i <= editor.ranges.len(),
            ranges@ == editor.ranges@.take(i as int),
        decreases editor.ranges.len() - i,
    {
        ranges.push(editor.ranges[i]);
        i = i + 1;
        assert(ranges@ =~= editor.ranges@.take(i as int));
    }
    assert(ranges@ =~= editor.ranges@);
    FieldDraft {
        editing: editor.editing,
        name: trimmed(&editor.name.value),
        description: trimmed(&editor.description.value),
        start: trimmed(&editor.start.value),
        end: trimmed(&editor.end.value),
        color: editor.color,
        ranges,
    }
}

/// The fields that separate ranges become. The ones after the first are numbered.
pub open spec fn numbered_fields(
    name: Seq<char>,
    description: Seq<char>,
    color: FieldColor,
    ranges: Seq<Selection>,
) -> Seq<FieldView> {
    Seq::new(
        ranges.len(),
        |i: int|
            FieldView {
                name: if i == 0 {
                    name
                } else {
                    name + " ["@ + numbers::decimal((i + 1) as nat) + "]"@
                },
                description,
                start: ranges[i].low(),
                end: ranges[i].high(),
                color,
            },
    )
}

impl DraftView {
    /// Whether every selected range becomes a field: a new field without a range of its own,
    /// and more than one range selected.
    pub open spec fn takes_ranges(self) -> bool {
        self.editing is None && self.start.len() == 0 && self.end.len() == 0 && self.ranges.len()
            > 1
    }
}

impl DocView {
    /// With the list of fields scrolled to a line.
    #[verifier::opaque]
    pub open spec fn fields_scrolled(self, line: int) -> DocView {
        DocView { fields_scroll: line, ..self }
    }

    /// The line to scroll the list of fields to, as little away as is needed to show the
    /// selected field.
    #[verifier::opaque]
    pub open spec fn fields_scroll_needed(self) -> int {
        let wanted = if self.selected_field < self.fields_scroll {
            self.selected_field
        } else if self.selected_field >= geometry::plus(self.fields_scroll, self.visible_fields) {
            geometry::minus(geometry::plus(self.selected_field, 1), self.visible_fields)
        } else {
            self.fields_scroll
        };
        geometry::min(wanted, self.field_max_scroll())
    }

    /// Scrolled as little as is needed to show the selected field in the list.
    pub open spec fn field_shown(self) -> DocView {
        self.fields_scrolled(self.fields_scroll_needed())
    }

    /// With the bytes of the selected field selected, and both in sight. A byte that is being
    /// typed elsewhere is kept as it stands.
    #[verifier::opaque]
    pub open spec fn field_activated(self) -> DocView {
        if 0 <= self.selected_field < self.fields.len() {
            let field = self.fields[self.selected_field];
            self.leaving(field.end).with_selection(
                Some(Selection { anchor: field.start as usize, cursor: field.end as usize }),
            ).showing(field.start).field_shown()
        } else {
            self
        }
    }

    /// With a field selected in the list.
    #[verifier::opaque]
    pub open spec fn field_chosen(self, index: int) -> DocView {
        DocView { selected_field: index, focus: Focus::Fields, ..self }
    }

    /// With the field before the selected one selected.
    #[verifier::opaque]
    pub open spec fn previous_field(self) -> DocView {
        if self.fields.len() == 0 {
            self
        } else {
            self.field_chosen(geometry::minus(self.selected_field, 1)).field_activated()
        }
    }

    /// With the field after the selected one selected.
    #[verifier::opaque]
    pub open spec fn next_field(self) -> DocView {
        if self.fields.len() == 0 {
            self
        } else {
            self.field_chosen(
                geometry::min(self.selected_field + 1, self.fields.len() - 1),
            ).field_activated()
        }
    }

    /// With the selected field deleted.
    #[verifier::opaque]
    pub open spec fn field_deleted(self) -> DocView {
        if self.fields.len() == 0 {
            self
        } else {
            let fields = self.fields.remove(self.selected_field);
            self.with_fields(
                fields,
                geometry::min(self.selected_field, geometry::minus(fields.len() as int, 1)),
                self.fields_scroll,
            ).field_shown().say(
                "Deleted field '"@ + self.fields[self.selected_field].name + "'"@,
            ).asking(EffectView::PersistOverlay)
        }
    }

    /// With the editor of the selected field open.
    #[verifier::opaque]
    pub open spec fn field_opened(self) -> DocView {
        if self.selected_field < self.fields.len() {
            self.in_mode(
                ModeView::Field(
                    FieldEditorView::of_field(
                        self.selected_field,
                        self.fields[self.selected_field],
                    ),
                ),
            )
        } else {
            self
        }
    }

    /// An offset that was entered, or what the selection gives where none was.
    pub open spec fn entered_offset(self, entry: Seq<char>, end: bool) -> Result<int, Seq<char>> {
        if entry.len() == 0 {
            Ok(
                match self.selection {
                    Some(s) => if end {
                        s.high()
                    } else {
                        s.low()
                    },
                    None => 0,
                },
            )
        } else {
            codec::offset_of(entry)
        }
    }

    /// The name of a field: what was entered, or else a number.
    pub open spec fn entered_name(self, entry: Seq<char>) -> Seq<char> {
        if entry.len() == 0 {
            "field_"@ + numbers::decimal((self.fields.len() + 1) as nat)
        } else {
            entry
        }
    }

    /// With the field that was entered in place of an older one, or added, or with a field added
    /// for each of the selected ranges.
    #[verifier::opaque]
    pub open spec fn field_stored(self, draft: DraftView, start: int, end: int) -> DocView {
        let name = self.entered_name(draft.name);
        let field = FieldView {
            name,
            description: draft.description,
            start,
            end,
            color: draft.color,
        };
        match draft.editing {
            Some(index) => self.with_fields(
                self.fields.update(index as int, field),
                index as int,
                self.fields_scroll,
            ).say("Field updated"@),
            None => if draft.takes_ranges() {
                let fields = self.fields + numbered_fields(
                    name,
                    draft.description,
                    draft.color,
                    draft.ranges,
                );
                self.with_fields(fields, fields.len() - 1, self.fields_scroll).say(
                    "Added "@ + numbers::decimal(draft.ranges.len())
                        + " fields from the separate selections"@,
                )
            } else {
                self.with_fields(
                    self.fields.push(field),
                    self.fields.len() as int,
                    self.fields_scroll,
                ).say("Field added"@)
            },
        }
    }

    /// With what was entered in the editor of a field taken over, if it names a range inside the
    /// file.
    #[verifier::opaque]
    pub open spec fn draft_committed(self, draft: DraftView) -> DocView {
        match self.entered_offset(draft.start, false) {
            Err(error) => self.say("Invalid start: "@ + error),
            Ok(start) => match self.entered_offset(draft.end, true) {
                Err(error) => self.say("Invalid end: "@ + error),
                Ok(end) => if self.bytes.len() == 0 || start > end || end >= self.length() {
                    self.say("Field range must be ordered and inside the file"@)
                } else {
                    self.field_stored(draft, start, end).in_mode(
                        ModeView::Normal,
                    ).field_activated().asking(EffectView::PersistOverlay)
                },
            },
        }
    }

    /// After the enter key in the editor of a field.
    pub open spec fn field_committed(self) -> DocView {
        match self.mode {
            ModeView::Field(editor) => self.draft_committed(draft_of(editor)),
            _ => self,
        }
    }
}

/// The list of fields is scrolled within its range, and shows the selected field if it has a line
/// to show it in.
pub proof fn selected_field_is_in_sight(doc: DocView)
    requires
        doc.sound(),
        doc.fields.len() > 0,
        doc.fields.len() < usize::MAX,
        doc.visible_fields > 0,
        doc.fields_scroll >= 0,
    ensures
        0 <= doc.field_shown().fields_scroll <= doc.field_max_scroll(),
        doc.field_shown().fields_scroll <= doc.selected_field < doc.field_shown().fields_scroll
            + doc.visible_fields,
{
    reveal(DocView::fields_scrolled);
    reveal(DocView::fields_scroll_needed);
    reveal(app::fields_ok);
}

impl App {
    /// Scrolls the list of fields to a line.
    pub fn set_fields_scroll(&mut self, line: usize)
        ensures
            final(self)@ == old(self)@.fields_scrolled(line as int),
            old(self)@.sound() ==> final(self)@.sound(),
            old(self)@.traceable() ==> final(self)@.traceable(),
            old(self)@.placed() ==> final(self)@.placed(),
    {
        proof {
            reveal(DocView::fields_scrolled);
        }
        self.fields_scroll = line;
    }

    /// The line to scroll the list of fields to in order to show the selected one.
    fn fields_line(&self) -> (line: usize)
        ensures
            line == self@.fields_scroll_needed(),
    {
        proof {
            reveal(DocView::fields_scroll_needed);
        }
        let wanted: usize = if self.selected_field < self.fields_scroll {
            self.selected_field
        } else if self.selected_field >= self.fields_scroll.saturating_add(self.visible_fields) {
            self.selected_field.saturating_add(1).saturating_sub(self.visible_fields)
        } else {
            self.fields_scroll
        };
        smaller(wanted, self.field_max_scroll())
    }

    /// Scrolls as little as is needed to show the selected field in the list.
    pub fn ensure_selected_field_visible(&mut self)
        ensures
            final(self)@ == old(self)@.field_shown(),
            old(self)@.sound() ==> final(self)@.sound(),
            old(self)@.traceable() ==> final(self)@.traceable(),
            old(self)@.placed() ==> final(self)@.placed(),
    {
        let line: usize = self.fields_line();
        self.set_fields_scroll(line);
    }

    /// Selects the bytes of the selected field, and shows both.
    pub fn activate_selected_field(&mut self)
        requires
            old(self)@.wf(),
        ensures
            final(self)@ == old(self)@.field_activated(),
            final(self)@.wf(),
    {
        proof {
            reveal(DocView::field_activated);
        }
        if self.selected_field < self.fields.len() {
            let start: usize = self.fields[self.selected_field].start;
            let end: usize = self.fields[self.selected_field].end;
            proof {
                assert(self@.fields[self.selected_field as int]
                    == self.fields@[self.selected_field as int]@);
                assert(start <= end < self@.length()) by {
                    reveal(app::fields_ok);
                }
            }
            proof {
                edit::lemma_committed_frame(self@);
            }
            self.leave_byte(end);
            self.set_selection(Some(Selection { anchor: start, cursor: end }));
            self.ensure_visible(start);
            self.ensure_selected_field_visible();
        }
    }

    /// Selects a field in the list.
    pub fn choose_field(&mut self, index: usize)
        requires
            old(self)@.wf(),
            index < old(self)@.fields.len(),
        ensures
            final(self)@ == old(self)@.field_chosen(index as int),
            final(self)@.wf(),
    {
        proof {
            reveal(DocView::field_chosen);
            reveal(app::fields_ok);
        }
        self.selected_field = index;
        self.focus = Focus::Fields;
    }

    /// Selects the field before the selected one.
    pub fn select_previous_field(&mut self)
        requires
            old(self)@.wf(),
        ensures
            final(self)@ == old(self)@.previous_field(),
            final(self)@.wf(),
    {
        proof {
            reveal(DocView::previous_field);
            reveal(app::fields_ok);
        }
        if self.fields.len() == 0 {
            return;
        }
        self.choose_field(self.selected_field.saturating_sub(1));
        self.activate_selected_field();
    }

    /// Selects the field after the selected one.
    pub fn select_next_field(&mut self)
        requires
            old(self)@.wf(),
        ensures
            final(self)@ == old(self)@.next_field(),
            final(self)@.wf(),
    {
        proof {
            reveal(DocView::next_field);
            reveal(app::fields_ok);
        }
        if self.fields.len() == 0 {
            return;
        }
        let last: usize = self.fields.len() - 1;
        let index: usize = if self.selected_field < last {
            self.selected_field + 1
        } else {
            last
        };
        self.choose_field(index);
        self.activate_selected_field();
    }

    /// Puts other fields in place of the current ones.
    fn set_fields(&mut self, fields: Vec<Field>, selected_field: usize)
        requires
            old(self)@.sound(),
            app::fields_ok(
                old(self)@.bytes.len(),
                text::views(fields@),
                selected_field as int,
            ),
            app::mode_ok(old(self)@.bytes.len(), text::views(fields@), old(self)@.mode),
        ensures
            final(self)@ == old(self)@.with_fields(
                text::views(fields@),
                selected_field as int,
                old(self)@.fields_scroll,
            ),
            final(self)@.sound(),
            old(self)@.traceable() ==> final(self)@.traceable(),
            old(self)@.placed() ==> final(self)@.placed(),
            final(self)@.bytes == old(self)@.bytes,
            final(self)@.fields == text::views(fields@),
    {
        proof {
            reveal(DocView::with_fields);
        }
        self.fields = fields;
        self.selected_field = selected_field;
    }

    /// Deletes the selected field.
    pub fn delete_selected_field(&mut self)
        requires
            old(self)@.wf(),
            mode_is_free(old(self)@.mode),
        ensures
            final(self)@ == old(self)@.field_deleted(),
            final(self)@.wf(),
    {
        proof {
            reveal(DocView::field_deleted);
        }
        if self.fields.len() == 0 {
            return;
        }
        let ghost before = self@;
        let index: usize = self.selected_field;
        proof {
            assert(index < self@.fields.len()) by {
                reveal(app::fields_ok);
            }
        }
        let mut fields = copy_fields(&self.fields);
        let gone = fields.remove(index);
        let mut message = "Deleted field '".to_owned();
        message.append(&gone.name);
        message.append("'");
        let selected: usize = smaller(index, fields.len().saturating_sub(1));
        proof {
            assert(text::views(fields@) =~= before.fields.remove(index as int));
            reveal(app::fields_ok);
            reveal(app::mode_ok);
        }
        self.set_fields(fields, selected);
        self.ensure_selected_field_visible();
        self.say(message);
        self.ask(Effect::PersistOverlay);
    }

    /// Opens the editor of the selected field.
    pub fn edit_selected_field(&mut self)
        requires
            old(self)@.wf(),
        ensures
            final(self)@ == old(self)@.field_opened(),
            final(self)@.wf(),
    {
        proof {
            reveal(DocView::field_opened);
            reveal(app::mode_ok);
            reveal(modes::mode_view);
        }
        if self.selected_field < self.fields.len() {
            let editor = FieldEditor::from_field(
                self.selected_field,
                &self.fields[self.selected_field],
            );
            assert(editor@.ranges =~= Seq::<Selection>::empty());
            self.set_mode(Mode::Field(editor));
        }
    }

    /// An offset that was entered, or what the selection gives where none was.
    fn read_entry(&self, entry: &str, end: bool) -> (offset: Result<usize, String>)
        ensures
            match offset {
                Ok(value) => self@.entered_offset(entry@, end) == Ok::<int, Seq<char>>(
                    value as int,
                ),
                Err(error) => self@.entered_offset(entry@, end) == Err::<int, Seq<char>>(error@),
            },
    {
        if entry.is_empty() {
            match self.selection {
                Some(selection) => Ok(
                    if end {
                        selection.end()
                    } else {
                        selection.start()
                    },
                ),
                None => Ok(0),
            }
        } else {
            parse_offset(entry)
        }
    }

    /// Takes over a field that was entered.
    fn store_field(&mut self, draft: FieldDraft, start: usize, end: usize)
        requires
            old(self)@.wf(),
            start <= end < old(self)@.length(),
            draft.editing matches Some(index) ==> index < old(self)@.fields.len(),
            selection::inside(draft.ranges@, old(self)@.length()),
        ensures
            final(self)@ == old(self)@.field_stored(draft@, start as int, end as int),
            final(self)@.sound(),
            final(self)@.traceable(),
            final(self)@.placed(),
    {
        proof {
            reveal(DocView::field_stored);
            reveal(app::fields_ok);
            reveal(app::mode_ok);
        }
        let ghost before = self@;
        let name = if draft.name.as_str().is_empty() {
            let mut name = "field_".to_owned();
            name.append(&ordinal_text(self.fields.len()));
            name
        } else {
            draft.name
        };
        let mut fields = copy_fields(&self.fields);
        match draft.editing {
            Some(index) => {
                let field = Field {
                    name,
                    description: draft.description,
                    start,
                    end,
                    color: draft.color,
                };
                fields.set(index, field);
                assert(text::views(fields@) =~= before.fields.update(index as int, field@));
                self.set_fields(fields, index);
                self.say("Field updated".to_owned());
            },
            None => {
                let separate = draft.start.as_str().is_empty() && draft.end.as_str().is_empty()
                    && draft.ranges.len() > 1;
                if separate {
                    let added: usize = draft.ranges.len();
                    let mut more = number_fields(
                        &name,
                        &draft.description,
                        draft.color,
                        &draft.ranges,
                    );
                    fields.append(&mut more);
                    let last: usize = fields.len() - 1;
                    self.set_fields(fields, last);
                    let mut message = "Added ".to_owned();
                    message.append(&decimal_text(added));
                    message.append(" fields from the separate selections");
                    self.say(message);
                } else {
                    let field = Field {
                        name,
                        description: draft.description,
                        start,
                        end,
                        color: draft.color,
                    };
                    fields.push(field);
                    let last: usize = fields.len() - 1;
                    self.set_fields(fields, last);
                    self.say("Field added".to_owned());
                }
            },
        }
    }

    /// Takes over what was entered in the editor of a field.
    fn commit_draft(&mut self, draft: FieldDraft)
        requires
            old(self)@.wf(),
            draft.editing matches Some(index) ==> index < old(self)@.fields.len(),
            selection::inside(draft.ranges@, old(self)@.length()),
        ensures
            final(self)@ == old(self)@.draft_committed(draft@),
            final(self)@.wf(),
    {
        proof {
            reveal(DocView::draft_committed);
        }
        let start: usize = match self.read_entry(&draft.start, false) {
            Ok(start) => start,
            Err(error) => {
                let mut message = "Invalid start: ".to_owned();
                message.append(&error);
                self.say(message);
                return;
            },
        };
        let end: usize = match self.read_entry(&draft.end, true) {
            Ok(end) => end,
            Err(error) => {
                let mut message = "Invalid end: ".to_owned();
                message.append(&error);
                self.say(message);
                return;
            },
        };
        if self.bytes.len() == 0 || start > end || end >= self.bytes.len() {
            self.say("Field range must be ordered and inside the file".to_owned());
            return;
        }
        self.store_field(draft, start, end);
        proof {
            reveal(modes::mode_view);
            reveal(app::mode_ok);
        }
        self.set_mode(Mode::Normal);
        self.activate_selected_field();
        self.ask(Effect::PersistOverlay);
    }

    /// Applies the enter key in the editor of a field.
    pub fn commit_field_editor(&mut self)
        requires
            old(self)@.wf(),
        ensures
            final(self)@ == old(self)@.field_committed(),
            final(self)@.wf(),
    {
        proof {
            reveal(modes::mode_view);
            reveal(app::mode_ok);
        }
        let draft = match &self.mode {
            Mode::Field(editor) => read_draft(editor),
            _ => {
                return;
            },
        };
        self.commit_draft(draft);
    }
}

/// Fields with the same contents.
fn copy_fields(fields: &Vec<Field>) -> (out: Vec<Field>)
    ensures
        text::views(out@) == text::views(fields@),
{
    let mut out: Vec<Field> = Vec::new();
    let mut i: usize = 0;
    while i < fields.len()
        invariant
            i <= fields.len(),
            out@.len() == i,
            forall|k: int| 0 <= k < i ==> (#[trigger] out@[k])@ == fields@[k]@,
        decreases fields.len() - i,
    {
        out.push(fields[i].copy());
        i = i + 1;
    }
    assert(text::views(out@) =~= text::views(fields@));
    out
}

/// The fields that separate ranges become.
fn number_fields(
    name: &String,
    description: &String,
    color: FieldColor,
    ranges: &Vec<Selection>,
) -> (fields: Vec<Field>)
    ensures
        text::views(fields@) == numbered_fields(name@, description@, color, ranges@),
{
    let ghost expected = numbered_fields(name@, description@, color, ranges@);
    let mut fields: Vec<Field> = Vec::new();
    let mut i: usize = 0;
    while i < ranges.len()
        invariant
            i <= ranges.len(),
            expected == numbered_fields(name@, description@, color, ranges@),
            fields@.len() == i,
            forall|k: int| 0 <= k < i ==> (#[trigger] fields@[k])@ == expected[k],
        decreases ranges.len() - i,
    {
        let mut numbered = name.clone();
        if i > 0 {
            numbered.append(" [");
            numbered.append(&ordinal_text(i));
            numbered.append("]");
        }
        let field = Field {
            name: numbered,
            description: description.clone(),
            start: ranges[i].start(),
            end: ranges[i].end(),
            color,
        };
        assert(field@ == expected[i as int]);
        fields.push(field);
        i = i + 1;
    }
    assert(text::views(fields@) =~= expected);
    fields
}

/// A field that is added takes its place at the end of the list and is selected, and no other
/// field changes.
pub proof fn added_field_is_selected(doc: DocView, draft: DraftView, start: int, end: int)
    requires
        draft.editing is None,
        !draft.takes_ranges(),
    ensures
        doc.field_stored(draft, start, end).fields.len() == doc.fields.len() + 1,
        doc.field_stored(draft, start, end).selected_field == doc.fields.len(),
        doc.field_stored(draft, start, end).fields.last().start == start,
        doc.field_stored(draft, start, end).fields.last().end == end,
        doc.field_stored(draft, start, end).fields.drop_last() == doc.fields,
{
    reveal(DocView::field_stored);
    reveal(DocView::with_fields);
    reveal(DocView::say);
    assert(doc.field_stored(draft, start, end).fields.drop_last() =~= doc.fields);
}

/// Separate ranges that are selected become one field each, all with the color and the
/// description that were entered, behind the fields that were there.
pub proof fn separate_ranges_share_a_color(doc: DocView, draft: DraftView, start: int, end: int)
    requires
        draft.takes_ranges(),
    ensures
        ({
            let fields = doc.field_stored(draft, start, end).fields;
            let old = doc.fields.len();
            &&& fields.len() == old + draft.ranges.len()
            &&& fields.take(old as int) == doc.fields
            &&& forall|i: int|
                0 <= i < draft.ranges.len() ==> {
                    let field = #[trigger] fields[old + i];
                    &&& field.start == draft.ranges[i].low()
                    &&& field.end == draft.ranges[i].high()
                    &&& field.color == draft.color
                    &&& field.description == draft.description
                }
        }),
{
    reveal(DocView::field_stored);
    reveal(DocView::with_fields);
    reveal(DocView::say);
    assert(doc.field_stored(draft, start, end).fields.take(doc.fields.len() as int) =~= doc.fields);
}

/// Where no offsets are entered, a new field takes what is selected at the cursor.
pub proof fn blank_offsets_keep_the_selection(doc: DocView, draft: DraftView)
    requires
        doc.wf(),
        doc.selection is Some,
        draft.editing is None,
        draft.start.len() == 0,
        draft.end.len() == 0,
        draft.ranges.len() <= 1,
    ensures
        ({
            let after = doc.draft_committed(draft);
            &&& after.fields.len() == doc.fields.len() + 1
            &&& after.fields.last().start == doc.selection->Some_0.low()
            &&& after.fields.last().end == doc.selection->Some_0.high()
            &&& after.mode is Normal
        }),
{
    reveal(DocView::committed);
    reveal(DocView::recorded);
    reveal(DocView::typing);
    reveal(DocView::draft_committed);
    reveal(DocView::field_stored);
    reveal(DocView::with_fields);
    reveal(DocView::field_activated);
    reveal(DocView::with_selection);
    reveal(DocView::scrolled);
    reveal(DocView::fields_scrolled);
    reveal(DocView::in_mode);
    reveal(DocView::asking);
    reveal(DocView::say);
    reveal(app::selection_ok);
}

} // verus!
