//! What the keys for fields do to the fields of a file.

use vstd::prelude::*;

use crate::app;
use crate::app::edit;
use crate::app::fields;
use crate::app::DocView;
use crate::codec;
use crate::editing;
use crate::effects::EffectView;
use crate::geometry;
use crate::input::{KeyCode, KeyEvent, MouseButton, MouseEvent, MouseEventKind};
use crate::laws::selecting::{at_rest, unmodified};
use crate::model::{FieldColor, FieldView, Selection};
use crate::modes::{FieldEditorView, Focus, ModeView};
use crate::numbers;
use crate::selection;
use crate::text;

verus! {

/// Whether an entry in the editor of a field names an offset: the one that is written there, or,
/// where nothing is, one end of what is selected.
pub open spec fn names(doc: DocView, entry: Seq<char>, end: bool, offset: int) -> bool {
    if text::trim(entry).len() > 0 {
        codec::offset_of(text::trim(entry)) == Ok::<int, Seq<char>>(offset)
    } else {
        match doc.selection {
            Some(s) => if end == (s.anchor <= s.cursor) {
                offset == s.cursor
            } else {
                offset == s.anchor
            },
            None => offset == 0,
        }
    }
}

/// The name that a field gets: what was entered, or else a number.
pub open spec fn named(doc: DocView, entry: Seq<char>, name: Seq<char>) -> bool {
    if text::trim(entry).len() > 0 {
        name == text::trim(entry)
    } else {
        name == "field_"@ + numbers::decimal(doc.fields.len() + 1)
    }
}

/// Whether a field is the one that was entered in the editor.
pub open spec fn is_entered(
    doc: DocView,
    editor: FieldEditorView,
    field: FieldView,
    start: int,
    end: int,
) -> bool {
    &&& named(doc, editor.name.value, field.name)
    &&& field.description == text::trim(editor.description.value)
    &&& field.color == editor.color
    &&& field.start == start
    &&& field.end == end
}

/// What confirming the editor of a field leaves behind besides the fields: the bytes of a field
/// are selected and nothing else, the editor is closed, and the fields are to be stored.
pub open spec fn confirmed(doc: DocView, after: DocView, selected: int) -> bool {
    &&& after.selected_field == selected
    &&& after.selection == Some(
        Selection {
            anchor: after.fields[selected].start as usize,
            cursor: after.fields[selected].end as usize,
        },
    )
    &&& after.additional.len() == 0
    &&& after.mode is Normal
    &&& after.bytes == doc.bytes
    &&& after.saved == doc.saved
    &&& after.effects == doc.effects.push(EffectView::PersistOverlay)
}

proof fn lemma_stored(doc: DocView, draft: fields::DraftView, start: int, end: int)
    requires
        doc.bytes.len() > 0,
        doc.entered_offset(draft.start, false) == Ok::<int, Seq<char>>(start),
        doc.entered_offset(draft.end, true) == Ok::<int, Seq<char>>(end),
        start <= end < doc.length(),
        0 <= doc.field_stored(draft, start, end).selected_field < doc.field_stored(
            draft,
            start,
            end,
        ).fields.len(),
    ensures
        ({
            let stored = doc.field_stored(draft, start, end);
            let after = doc.draft_committed(draft);
            &&& after.fields == stored.fields
            &&& after.status == stored.status
            &&& confirmed(doc, after, stored.selected_field)
        }),
{
    reveal(DocView::draft_committed);
    reveal(DocView::field_stored);
    reveal(DocView::with_fields);
    reveal(DocView::in_mode);
    reveal(DocView::say);
    let stored = doc.field_stored(draft, start, end).in_mode(ModeView::Normal);
    lemma_activated(stored);
    reveal(DocView::asking);
}

proof fn lemma_activated(doc: DocView)
    requires
        0 <= doc.selected_field < doc.fields.len(),
    ensures
        ({
            let after = doc.field_activated();
            let field = doc.fields[doc.selected_field];
            &&& after.fields == doc.fields
            &&& after.selected_field == doc.selected_field
            &&& after.selection == Some(
                Selection { anchor: field.start as usize, cursor: field.end as usize },
            )
            &&& after.additional.len() == 0
            &&& after.mode == doc.mode
            &&& after.focus == doc.focus
            &&& after.bytes == doc.bytes
            &&& after.saved == doc.saved
            &&& after.effects == doc.effects
            &&& after.status == doc.status
            &&& after.edit_mode == doc.edit_mode
            &&& after.settings == doc.settings
            &&& after.visible_fields == doc.visible_fields
            &&& after.visible_rows == doc.visible_rows
            &&& after.rows == doc.rows
            &&& after.fields_scroll == doc.fields_scroll_needed()
            &&& after.scroll == doc.scroll_for(field.start)
        }),
{
    reveal(DocView::field_activated);
    reveal(DocView::committed);
    reveal(DocView::recorded);
    reveal(DocView::typing);
    reveal(DocView::with_selection);
    reveal(DocView::scrolled);
    reveal(DocView::scroll_for);
    reveal(DocView::fields_scrolled);
    reveal(DocView::fields_scroll_needed);
}

/// Confirming the editor of a field that is there changes that field and no other: it is as it
/// was entered, and it is selected.
pub proof fn confirming_changes_the_field(
    doc: DocView,
    key: KeyEvent,
    index: int,
    start: int,
    end: int,
)
    requires
        doc.wf(),
        doc.mode is Field,
        key.code == KeyCode::Enter,
        doc.mode->Field_0.editing == Some(index as usize),
        0 <= index < doc.fields.len(),
        index <= usize::MAX,
        names(doc, doc.mode->Field_0.start.value, false, start),
        names(doc, doc.mode->Field_0.end.value, true, end),
        0 <= start <= end < doc.length(),
    ensures
        ({
            let editor = doc.mode->Field_0;
            let after = doc.pressed(key).doc;
            &&& after.fields.len() == doc.fields.len()
            &&& is_entered(doc, editor, after.fields[index], start, end)
            &&& forall|j: int|
                0 <= j < doc.fields.len() && j != index ==> #[trigger] after.fields[j]
                    == doc.fields[j]
            &&& confirmed(doc, after, index)
            &&& after.status == "Field updated"@
        }),
{
    let editor = doc.mode->Field_0;
    let draft = fields::draft_of(editor);
    reveal(DocView::field_key);
    reveal(DocView::field_stored);
    reveal(DocView::with_fields);
    reveal(DocView::say);
    lemma_stored(doc, draft, start, end);
}

/// Confirming the editor of a new field adds one field, as it was entered, behind those that are
/// there, which stay as they are; the new one is selected.
pub proof fn confirming_adds_the_field(doc: DocView, key: KeyEvent, start: int, end: int)
    requires
        doc.wf(),
        doc.mode is Field,
        key.code == KeyCode::Enter,
        doc.mode->Field_0.editing is None,
        text::trim(doc.mode->Field_0.start.value).len() > 0 || text::trim(
            doc.mode->Field_0.end.value,
        ).len() > 0 || doc.mode->Field_0.ranges.len() <= 1,
        names(doc, doc.mode->Field_0.start.value, false, start),
        names(doc, doc.mode->Field_0.end.value, true, end),
        0 <= start <= end < doc.length(),
    ensures
        ({
            let editor = doc.mode->Field_0;
            let after = doc.pressed(key).doc;
            let count = doc.fields.len() as int;
            &&& after.fields.len() == count + 1
            &&& is_entered(doc, editor, after.fields[count], start, end)
            &&& forall|j: int| 0 <= j < count ==> #[trigger] after.fields[j] == doc.fields[j]
            &&& confirmed(doc, after, count)
            &&& after.status == "Field added"@
        }),
{
    let editor = doc.mode->Field_0;
    let draft = fields::draft_of(editor);
    reveal(DocView::field_key);
    reveal(DocView::field_stored);
    reveal(DocView::with_fields);
    reveal(DocView::say);
    lemma_stored(doc, draft, start, end);
}

/// Confirming the editor of a new field without offsets, while separate ranges are selected, adds
/// one field for each of them, behind those that are there: all are described and colored as
/// entered, the first one has the name that was entered, and no name occurs twice. The last one is
/// selected.
pub proof fn confirming_adds_a_field_for_each_range(doc: DocView, key: KeyEvent)
    requires
        doc.wf(),
        doc.mode is Field,
        key.code == KeyCode::Enter,
        doc.mode->Field_0.editing is None,
        text::trim(doc.mode->Field_0.start.value).len() == 0,
        text::trim(doc.mode->Field_0.end.value).len() == 0,
        doc.mode->Field_0.ranges.len() > 1,
        doc.bytes.len() > 0,
    ensures
        ({
            let editor = doc.mode->Field_0;
            let after = doc.pressed(key).doc;
            let count = doc.fields.len() as int;
            let ranges = editor.ranges;
            &&& after.fields.len() == count + ranges.len()
            &&& forall|j: int| 0 <= j < count ==> #[trigger] after.fields[j] == doc.fields[j]
            &&& forall|i: int|
                0 <= i < ranges.len() ==> {
                    let field = #[trigger] after.fields[count + i];
                    &&& field.start <= ranges[i].anchor <= field.end
                    &&& field.start <= ranges[i].cursor <= field.end
                    &&& field.start == ranges[i].anchor || field.start == ranges[i].cursor
                    &&& field.end == ranges[i].anchor || field.end == ranges[i].cursor
                    &&& field.description == text::trim(editor.description.value)
                    &&& field.color == editor.color
                }
            &&& named(doc, editor.name.value, after.fields[count].name)
            &&& forall|i: int|
                0 < i < ranges.len() ==> (#[trigger] after.fields[count + i]).name
                    == after.fields[count].name + " ["@ + numbers::decimal((i + 1) as nat) + "]"@
            &&& confirmed(doc, after, count + ranges.len() - 1)
        }),
{
    let editor = doc.mode->Field_0;
    let draft = fields::draft_of(editor);
    reveal(DocView::field_key);
    reveal(DocView::field_stored);
    reveal(DocView::with_fields);
    reveal(DocView::say);
    reveal(app::selection_ok);
    let start = match doc.selection {
        Some(s) => s.low(),
        None => 0,
    };
    let end = match doc.selection {
        Some(s) => s.high(),
        None => 0,
    };
    lemma_stored(doc, draft, start, end);
}

/// An entry that names no range inside the file changes nothing but the message.
pub proof fn ranges_outside_the_file_are_refused(
    doc: DocView,
    key: KeyEvent,
    start: int,
    end: int,
)
    requires
        doc.mode is Field,
        key.code == KeyCode::Enter,
        names(doc, doc.mode->Field_0.start.value, false, start),
        names(doc, doc.mode->Field_0.end.value, true, end),
        start > end || end >= doc.length(),
    ensures
        doc.pressed(key).doc == (DocView { status: doc.pressed(key).doc.status, ..doc }),
{
    reveal(DocView::field_key);
    reveal(DocView::draft_committed);
    reveal(DocView::say);
}

/// Opening the editor of the selected field and confirming it at once leaves all fields as they
/// are, where the name and the description have no spaces around them and there is a name.
pub proof fn opening_and_confirming_changes_nothing(doc: DocView, key: KeyEvent)
    requires
        doc.wf(),
        at_rest(doc),
        doc.focus == Focus::Fields,
        unmodified(key),
        key.code == KeyCode::Enter,
        doc.fields.len() > 0,
        doc.selected_field <= usize::MAX,
        doc.fields[doc.selected_field].name.len() > 0,
        text::trim(doc.fields[doc.selected_field].name) == doc.fields[doc.selected_field].name,
        text::trim(doc.fields[doc.selected_field].description)
            == doc.fields[doc.selected_field].description,
    ensures
        doc.pressed(key).doc.mode is Field,
        doc.pressed(key).doc.fields == doc.fields,
        doc.pressed(key).doc.pressed(key).doc.fields == doc.fields,
        doc.pressed(key).doc.pressed(key).doc.selected_field == doc.selected_field,
{
    reveal(app::fields_ok);
    reveal(app::layout_ok);
    let field = doc.fields[doc.selected_field];
    assert(0 <= field.start <= field.end < doc.length());
    reveal(DocView::normal_key);
    reveal(DocView::view_key);
    reveal(DocView::view_plain_key);
    reveal(DocView::field_opened);
    reveal(DocView::in_mode);
    reveal(DocView::armed);
    let opened = doc.pressed(key).doc;
    let editor = FieldEditorView::of_field(doc.selected_field, field);
    assert(opened.mode == ModeView::Field(editor));
    reveal(DocView::field_key);
    reveal(DocView::field_stored);
    reveal(DocView::with_fields);
    reveal(DocView::say);
    let draft = fields::draft_of(editor);
    lemma_offset_entry(field.start as nat);
    lemma_offset_entry(field.end as nat);
    lemma_stored(opened, draft, field.start, field.end);
    assert(opened.pressed(key).doc.fields =~= doc.fields);
}

proof fn lemma_offset_entry(offset: nat)
    requires
        offset <= usize::MAX,
    ensures
        ({
            let entry = "0x"@ + numbers::hex(offset);
            &&& text::trim(entry) == entry
            &&& entry.len() > 0
            &&& codec::offset_of(entry) == Ok::<int, Seq<char>>(offset as int)
        }),
{
    reveal_strlit("0x");
    let entry = "0x"@ + numbers::hex(offset);
    codec::offsets_read_back(offset);
    numbers::lemma_numeral_read_back(offset, 16, true);
    codec::lemma_digits_are_plain(numbers::hex(offset), 16);
    assert forall|i: int| 0 <= i < entry.len() implies !text::is_space(#[trigger] entry[i]) by {
        if i >= 2 {
            assert(entry[i] == numbers::hex(offset)[i - 2]);
        }
    }
    codec::lemma_trim_keeps_dense(entry);
}

/// Deleting removes the selected field and no other, and the bytes stay as they are. The field in
/// its place is selected, or the last one.
pub proof fn deleting_removes_the_selected_field(doc: DocView, key: KeyEvent)
    requires
        doc.wf(),
        at_rest(doc),
        doc.focus == Focus::Fields,
        unmodified(key),
        key.code == KeyCode::Char('d') || key.code == KeyCode::Delete,
        doc.fields.len() > 0,
    ensures
        ({
            let after = doc.pressed(key).doc;
            &&& after.fields.len() == doc.fields.len() - 1
            &&& forall|i: int|
                0 <= i < after.fields.len() ==> #[trigger] after.fields[i] == if i
                    < doc.selected_field {
                    doc.fields[i]
                } else {
                    doc.fields[i + 1]
                }
            &&& after.selected_field == if doc.selected_field < after.fields.len() {
                doc.selected_field
            } else {
                geometry::max(after.fields.len() - 1, 0)
            }
            &&& after.effects == doc.effects.push(EffectView::PersistOverlay)
            &&& after.status == "Deleted field '"@ + doc.fields[doc.selected_field].name + "'"@
            &&& after == DocView {
                fields: after.fields,
                selected_field: after.selected_field,
                fields_scroll: after.fields_scroll,
                effects: after.effects,
                status: after.status,
                quit_armed: false,
                ..doc
            }
        }),
{
    reveal(app::fields_ok);
    reveal(DocView::normal_key);
    reveal(DocView::view_key);
    reveal(DocView::view_plain_key);
    reveal(DocView::view_character);
    reveal(DocView::field_deleted);
    reveal(DocView::with_fields);
    reveal(DocView::fields_scrolled);
    reveal(DocView::say);
    reveal(DocView::asking);
    reveal(DocView::armed);
}

/// What choosing a field leaves behind: it is the selected one, exactly its bytes are selected,
/// and its first byte and the field itself are in sight.
pub open spec fn chosen(doc: DocView, after: DocView, index: int) -> bool {
    let field = doc.fields[index];
    &&& after.selected_field == index
    &&& after.fields == doc.fields
    &&& after.selection is Some
    &&& after.selection->Some_0.anchor == field.start
    &&& after.selection->Some_0.cursor == field.end
    &&& after.additional.len() == 0
    &&& after.focus == Focus::Fields
    &&& after.bytes == doc.bytes
    &&& doc.visible_rows > 0 ==> after.scroll <= after.row_of(field.start) < after.scroll
        + after.visible_rows
    &&& doc.visible_fields > 0 ==> after.fields_scroll <= index < after.fields_scroll
        + after.visible_fields
}

proof fn lemma_chosen(doc: DocView, index: int)
    requires
        doc.wf(),
        0 <= index < doc.fields.len(),
        doc.fields.len() < usize::MAX,
        doc.scroll >= 0,
        doc.fields_scroll >= 0,
    ensures
        chosen(doc, doc.field_chosen(index).field_activated(), index),
        doc.field_chosen(index).field_activated().mode == doc.mode,
{
    reveal(app::fields_ok);
    reveal(app::layout_ok);
    reveal(DocView::field_chosen);
    let moved = doc.field_chosen(index);
    let field = doc.fields[index];
    assert(0 <= field.start <= field.end < doc.length());
    lemma_activated(moved);
    reveal(DocView::scroll_for);
    assert(moved.scroll_for(field.start) == doc.scroll_for(field.start));
    if doc.visible_rows > 0 {
        app::shown_bytes_are_in_sight(doc, field.start);
        reveal(DocView::scrolled);
    }
    if doc.visible_fields > 0 {
        fields::selected_field_is_in_sight(moved);
        reveal(DocView::fields_scrolled);
    }
}

/// The keys for the fields go to the one before and the one after, and stay at the ends.
pub proof fn keys_walk_through_the_fields(doc: DocView, key: KeyEvent)
    requires
        doc.wf(),
        at_rest(doc),
        unmodified(key),
        0 < doc.fields.len() < usize::MAX,
        doc.scroll >= 0,
        doc.fields_scroll >= 0,
    ensures
        ({
            let after = doc.pressed(key).doc;
            let back = key.code == KeyCode::Char('[') || (doc.focus == Focus::Fields && key.code
                == KeyCode::Up);
            let on = key.code == KeyCode::Char(']') || (doc.focus == Focus::Fields && key.code
                == KeyCode::Down);
            let at = doc.selected_field;
            &&& back ==> chosen(doc, after, if at > 0 {
                at - 1
            } else {
                0
            })
            &&& on ==> chosen(doc, after, if at + 1 < doc.fields.len() {
                at + 1
            } else {
                at
            })
        }),
{
    reveal(app::fields_ok);
    reveal(DocView::normal_key);
    reveal(DocView::view_key);
    reveal(DocView::view_plain_key);
    reveal(DocView::view_character);
    reveal(DocView::previous_field);
    reveal(DocView::next_field);
    reveal(DocView::armed);
    let at = doc.selected_field;
    lemma_chosen(doc, geometry::minus(at, 1));
    lemma_chosen(doc, geometry::min(at + 1, doc.fields.len() - 1));
}

/// The key that adds a field opens an empty editor for what is selected, and confirming it at once
/// adds fields over exactly the selected offsets: one for each separate range, none of which touches
/// another.
pub proof fn new_fields_cover_what_is_selected(
    doc: DocView,
    letter: KeyEvent,
    enter: KeyEvent,
    offset: int,
)
    requires
        doc.wf(),
        at_rest(doc),
        unmodified(letter),
        letter.code == KeyCode::Char('a'),
        enter.code == KeyCode::Enter,
        doc.selection is Some,
    ensures
        ({
            let after = doc.pressed(letter).doc.pressed(enter).doc;
            let count = doc.fields.len() as int;
            &&& doc.pressed(letter).doc.mode is Field
            &&& after.mode is Normal
            &&& after.fields.len() > count
            &&& forall|j: int| 0 <= j < count ==> #[trigger] after.fields[j] == doc.fields[j]
            &&& selection::merged(doc.all_selections()).len() > 1 ==> (selection::covered(
                doc.all_selections(),
                offset,
            ) <==> exists|i: int|
                count <= i < after.fields.len() && (#[trigger] after.fields[i]).start <= offset
                    <= after.fields[i].end)
            &&& selection::merged(doc.all_selections()).len() <= 1 ==> {
                &&& after.fields.len() == count + 1
                &&& after.fields[count].start <= offset <= after.fields[count].end <==> (
                doc.selection->Some_0.anchor <= offset <= doc.selection->Some_0.cursor
                    || doc.selection->Some_0.cursor <= offset <= doc.selection->Some_0.anchor)
            }
            &&& after.fields[count].name == "field_"@ + numbers::decimal(doc.fields.len() + 1)
            &&& after.fields[count].description.len() == 0
            &&& after.fields[count].color == FieldColor::Cyan
        }),
{
    reveal(app::selection_ok);
    reveal(app::layout_ok);
    reveal(app::fields_ok);
    reveal(DocView::normal_key);
    reveal(DocView::view_key);
    reveal(DocView::view_plain_key);
    reveal(DocView::view_character);
    reveal(DocView::in_mode);
    reveal(DocView::armed);
    let opened = doc.pressed(letter).doc;
    let ranges = doc.ranges();
    let all = doc.all_selections();
    assert(opened.mode == ModeView::Field(FieldEditorView::blank(ranges)));
    assert(text::trim(Seq::<char>::empty()) == Seq::<char>::empty());
    reveal(app::mode_ok);
    selection::lemma_merged_sound(all, doc.bytes.len());
    selection::lemma_merged_inside(all, ranges, doc.length());
    assert(opened.wf());
    let s = doc.selection->Some_0;
    let after = opened.pressed(enter).doc;
    let count = doc.fields.len() as int;
    if ranges.len() > 1 {
        confirming_adds_a_field_for_each_range(opened, enter);
        assert(after.fields[count + 0].description.len() == 0 && after.fields[count + 0].color
            == FieldColor::Cyan);
        assert forall|i: int| 0 <= i < ranges.len() implies {
            let field = #[trigger] after.fields[count + i];
            field.start == ranges[i].low() && field.end == ranges[i].high()
        } by {
            let field = after.fields[count + i];
            assert(field.start <= ranges[i].anchor <= field.end);
            assert(ranges[i].anchor <= ranges[i].cursor);
        }
        assert(selection::covered(ranges, offset) == selection::covered(all, offset));
        if selection::covered(ranges, offset) {
            let k = choose|k: int| 0 <= k < ranges.len() && (#[trigger] ranges[k]).covers(offset);
            assert(after.fields[count + k].start == ranges[k].low());
        }
        if exists|i: int|
            count <= i < after.fields.len() && (#[trigger] after.fields[i]).start <= offset
                <= after.fields[i].end {
            let i = choose|i: int|
                count <= i < after.fields.len() && (#[trigger] after.fields[i]).start <= offset
                    <= after.fields[i].end;
            assert(after.fields[count + (i - count)].start == ranges[i - count].low());
            assert(ranges[i - count].covers(offset));
        }
    } else {
        confirming_adds_the_field(opened, enter, s.low(), s.high());
    }
}

/// Of stored fields those that are ordered and lie in the file are taken over, in order, and no
/// others; the bytes stay as they are.
pub proof fn loading_takes_the_fields_that_fit(
    doc: DocView,
    path: Seq<char>,
    stored: Seq<FieldView>,
)
    ensures
        ({
            let fits = |f: FieldView| f.start <= f.end && f.end < doc.bytes.len();
            let loaded = doc.overlay_loaded(path, stored);
            &&& loaded.fields == stored.filter(fits)
            &&& loaded.selected_field == 0
            &&& loaded.mode is Normal
            &&& loaded.status == "Loaded "@ + numbers::decimal(stored.filter(fits).len())
                + " fields from "@ + path
            &&& loaded == DocView {
                fields: loaded.fields,
                selected_field: 0,
                mode: loaded.mode,
                status: loaded.status,
                ..doc
            }
            &&& doc.overlay_restored(Ok(Some(stored))).fields == stored.filter(fits)
            &&& doc.overlay_restored(Ok(Some(stored))).bytes == doc.bytes
            &&& doc.overlay_restored(Ok(None)) == doc
        }),
{
    reveal(DocView::overlay_loaded);
    reveal(DocView::overlay_restored);
    reveal(DocView::with_overlay);
    reveal(DocView::in_mode);
    reveal(DocView::say);
    lemma_fitting(doc, stored);
    lemma_fitting(doc.in_mode(ModeView::Normal), stored);
}

proof fn lemma_fitting(doc: DocView, stored: Seq<FieldView>)
    ensures
        doc.fitting_fields(stored) == stored.filter(
            |f: FieldView| f.start <= f.end && f.end < doc.bytes.len(),
        ),
    decreases stored.len(),
{
    reveal(Seq::filter);
    if stored.len() > 0 {
        lemma_fitting(doc, stored.drop_last());
    } else {
        assert(doc.fitting_fields(stored) =~= stored.filter(
            |f: FieldView| f.start <= f.end && f.end < doc.bytes.len(),
        ));
    }
}

/// The keys in the editor of a field: characters and the like edit the text of the active row and no
/// other; the tabulator and the arrows for lines go through its five rows, around the ends, and what is
/// there is selected; in the row of the color the arrows for sides change the color by one; the escape
/// key leaves the editor. No field changes before the editor is confirmed.
#[verifier::spinoff_prover]
#[verifier::rlimit(60)]
pub proof fn keys_edit_the_entries(doc: DocView, key: KeyEvent, editor: FieldEditorView)
    requires
        doc.mode == ModeView::Field(editor),
        0 <= editor.active < 5,
        key.code != KeyCode::Enter,
    ensures
        ({
            let after = doc.pressed(key).doc;
            let now = after.mode->Field_0;
            let row = editor.active;
            let on = key.code == KeyCode::Tab || key.code == KeyCode::Down;
            let back = key.code == KeyCode::BackTab || key.code == KeyCode::Up;
            let sides = key.code == KeyCode::Left || key.code == KeyCode::Right;
            &&& after == DocView { mode: after.mode, ..doc }
            &&& key.code == KeyCode::Esc ==> after.mode is Normal
            &&& key.code != KeyCode::Esc ==> {
                &&& after.mode is Field
                &&& now.editing == editor.editing
                &&& now.ranges == editor.ranges
                &&& on ==> now.active == if row == 4 {
                    0
                } else {
                    row + 1
                }
                &&& back ==> now.active == if row == 0 {
                    4
                } else {
                    row - 1
                }
                &&& on || back ==> {
                    &&& now.name.value == editor.name.value
                    &&& now.description.value == editor.description.value
                    &&& now.start.value == editor.start.value
                    &&& now.end.value == editor.end.value
                    &&& now.color == editor.color
                    &&& now.active == 0 ==> now.name.selected == (editor.name.value.len() > 0)
                    &&& now.active == 2 ==> now.start.selected == (editor.start.value.len() > 0)
                }
                &&& !on && !back ==> {
                    &&& now.active == row
                    &&& now.name == if row == 0 {
                        editor.name.after_key(key)
                    } else {
                        editor.name
                    }
                    &&& now.description == if row == 1 {
                        editor.description.after_key(key)
                    } else {
                        editor.description
                    }
                    &&& now.start == if row == 2 {
                        editor.start.after_key(key)
                    } else {
                        editor.start
                    }
                    &&& now.end == if row == 3 {
                        editor.end.after_key(key)
                    } else {
                        editor.end
                    }
                    &&& now.color.position() == if row == 4 && key.code == KeyCode::Right {
                        (editor.color.position() + 1) % 6
                    } else if row == 4 && key.code == KeyCode::Left {
                        (editor.color.position() + 5) % 6
                    } else {
                        editor.color.position()
                    }
                }
            }
        }),
{
    reveal(DocView::field_key);
    reveal(DocView::in_mode);
    crate::model::lemma_step_field_color(editor.color, true);
    crate::model::lemma_step_field_color(editor.color, false);
}

/// A click on a field of the list selects it and exactly its bytes, while the file is viewed.
pub proof fn clicks_choose_fields(doc: DocView, mouse: MouseEvent, index: int)
    requires
        doc.wf(),
        doc.mode is Normal,
        !doc.edit_mode,
        mouse.kind == MouseEventKind::Down(MouseButton::Left),
        !doc.bar_takes(mouse),
        doc.byte_under(mouse.column, mouse.row) is None,
        doc.field_under(mouse.column, mouse.row) == Some(index),
        0 <= index < doc.fields.len(),
        doc.fields.len() < usize::MAX,
        doc.scroll >= 0,
        doc.fields_scroll >= 0,
    ensures
        chosen(doc, doc.mouse_used(mouse), index),
{
    reveal(DocView::mouse_used);
    reveal(DocView::text_unselected);
    reveal(DocView::bar_mouse);
    reveal(DocView::pane_mouse);
    reveal(DocView::content_mouse);
    reveal(DocView::content_clicked);
    lemma_chosen(doc, index);
}

/// Beside the console the keys for the fields go to the one before and the one after, and delete the
/// selected one and no other.
pub proof fn fields_are_chosen_beside_the_console(doc: DocView, key: KeyEvent)
    requires
        doc.wf(),
        doc.mode is Python,
        doc.focus == Focus::Fields,
        unmodified(key),
        0 < doc.fields.len() < usize::MAX,
        doc.scroll >= 0,
        doc.fields_scroll >= 0,
    ensures
        ({
            let after = doc.pressed(key).doc;
            let back = key.code == KeyCode::Char('[') || key.code == KeyCode::Up;
            let on = key.code == KeyCode::Char(']') || key.code == KeyCode::Down;
            let deletes = key.code == KeyCode::Char('d') || key.code == KeyCode::Delete;
            let at = doc.selected_field;
            &&& back || on || deletes ==> after.mode == doc.mode && after.bytes == doc.bytes
            &&& back ==> chosen(doc, after, if at > 0 {
                at - 1
            } else {
                0
            })
            &&& on ==> chosen(doc, after, if at + 1 < doc.fields.len() {
                at + 1
            } else {
                at
            })
            &&& deletes ==> after.fields.len() == doc.fields.len() - 1 && after.effects
                == doc.effects.push(EffectView::PersistOverlay)
            &&& deletes ==> forall|i: int|
                0 <= i < after.fields.len() ==> #[trigger] after.fields[i] == if i < at {
                    doc.fields[i]
                } else {
                    doc.fields[i + 1]
                }
        }),
{
    reveal(app::fields_ok);
    reveal(DocView::python_key);
    reveal(DocView::python_content_key);
    let at = doc.selected_field;
    assert(doc.previous_field() == doc.field_chosen(geometry::minus(at, 1)).field_activated()) by {
        reveal(DocView::previous_field);
    }
    assert(doc.next_field() == doc.field_chosen(
        geometry::min(at + 1, doc.fields.len() - 1),
    ).field_activated()) by {
        reveal(DocView::next_field);
    }
    lemma_chosen(doc, geometry::minus(at, 1));
    lemma_chosen(doc, geometry::min(at + 1, doc.fields.len() - 1));
    reveal(DocView::field_deleted);
    reveal(DocView::with_fields);
    reveal(DocView::fields_scrolled);
    reveal(DocView::say);
    reveal(DocView::asking);
}


} // verus!
