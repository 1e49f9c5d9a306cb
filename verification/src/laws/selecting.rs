//! What is selected, and by which keys.

use vstd::prelude::*;

use crate::app;
use crate::app::DocView;
use crate::codec;
use crate::effects::EffectView;
use crate::input::{KeyCode, KeyEvent, MouseButton, MouseEvent, MouseEventKind};
use crate::model::Selection;
use crate::modes::{Focus, ModeView};
use crate::rows;
use crate::selection;

verus! {

/// Whether the file is viewed: nothing is open, nothing is edited, and no letter is pending.
pub open spec fn at_rest(doc: DocView) -> bool {
    doc.mode is Normal && !doc.edit_mode && !doc.vim_g_pending
}

/// Whether a key is held together with neither of the two that give it another meaning.
pub open spec fn unmodified(key: KeyEvent) -> bool {
    !key.modifiers.control && !key.modifiers.command
}

/// Whether the cursor went from one offset to another as a key asks for, in a file whose last
/// offset is `last`: one byte, one line, or one page back or on, or to one of the ends.
pub open spec fn goes(code: KeyCode, from: int, to: int, last: int, line: int, page: int) -> bool {
    &&& 0 <= to <= last
    &&& code == KeyCode::Left ==> to == from - 1 || (from == 0 && to == 0)
    &&& code == KeyCode::Right ==> to == from + 1 || (from == last && to == last)
    &&& code == KeyCode::Up ==> to == from - line || (from < line && to == 0)
    &&& code == KeyCode::Down ==> to == from + line || (from + line > last && to == last)
    &&& code == KeyCode::PageUp ==> to == from - page || (from < page && to == 0)
    &&& code == KeyCode::PageDown ==> to == from + page || (from + page > last && to == last)
    &&& code == KeyCode::Home ==> to == 0
    &&& code == KeyCode::End ==> to == last
}

/// Whether a key is one of those that move the cursor.
pub open spec fn moves(code: KeyCode) -> bool {
    ||| code == KeyCode::Left
    ||| code == KeyCode::Right
    ||| code == KeyCode::Up
    ||| code == KeyCode::Down
    ||| code == KeyCode::PageUp
    ||| code == KeyCode::PageDown
    ||| code == KeyCode::Home
    ||| code == KeyCode::End
}

/// Extending keeps the other end of the selection and all else that is selected; otherwise one
/// byte is selected and nothing else.
pub proof fn extending_keeps_the_other_end(doc: DocView, offset: int, s: Selection)
    requires
        doc.bytes.len() > 0,
        doc.selection == Some(s),
        0 <= offset <= usize::MAX,
    ensures
        ({
            let after = doc.cursor_at(offset, true);
            &&& after.selection is Some
            &&& after.selection->Some_0.anchor == s.anchor
            &&& after.selection->Some_0.cursor == offset
            &&& after.additional == doc.additional
        }),
        ({
            let after = doc.cursor_at(offset, false);
            &&& after.selection is Some
            &&& after.selection->Some_0.anchor == offset
            &&& after.selection->Some_0.cursor == offset
            &&& after.additional.len() == 0
        }),
{
    reveal(DocView::cursor_at);
    reveal(DocView::scrolled);
}

proof fn lemma_moved(doc: DocView, key: KeyEvent, s: Selection)
    requires
        at_rest(doc),
        unmodified(key),
        doc.focus == Focus::Viewer || (key.code != KeyCode::Up && key.code != KeyCode::Down),
        moves(key.code),
        doc.selection == Some(s),
        s.cursor < doc.length() <= usize::MAX,
        doc.visible_rows >= 0,
    ensures
        ({
            let after = doc.pressed(key).doc;
            let there = after.selection->Some_0;
            &&& !doc.pressed(key).quit
            &&& after.selection is Some
            &&& goes(
                key.code,
                s.cursor as int,
                there.cursor as int,
                doc.length() - 1,
                doc.settings.bytes_per_row as int,
                doc.visible_rows * doc.settings.bytes_per_row,
            )
            &&& key.modifiers.shift ==> there.anchor == s.anchor && after.additional
                == doc.additional
            &&& !key.modifiers.shift ==> there.anchor == there.cursor && after.additional.len() == 0
            &&& after == DocView {
                selection: after.selection,
                additional: after.additional,
                scroll: after.scroll,
                insert_at_end: false,
                edit_high_nibble: after.edit_high_nibble,
                quit_armed: false,
                ..doc
            }
            &&& after.scroll == doc.scroll_for(there.cursor as int)
            &&& doc.edit_high_nibble ==> after.edit_high_nibble
        }),
{
    let to = target(doc, key.code, s.cursor as int);
    let extend = key.modifiers.shift;
    lemma_move_key(doc, key);
    lemma_target(doc, key.code, s.cursor as int);
    lemma_moved_by(doc, key.code, extend, s);
    lemma_cursor_at(doc, to, extend, s);
    reveal(DocView::armed);
    reveal(DocView::at_first_digit);
}

/// Where a key moves the cursor.
spec fn target(doc: DocView, code: KeyCode, from: int) -> int {
    let width = doc.settings.bytes_per_row as int;
    let last = doc.length() - 1;
    match code {
        KeyCode::Left => clamped(from - 1, last),
        KeyCode::Right => clamped(from + 1, last),
        KeyCode::Up => clamped(from - width, last),
        KeyCode::Down => clamped(from + width, last),
        KeyCode::PageUp => clamped(from - doc.page(), last),
        KeyCode::PageDown => clamped(from + doc.page(), last),
        KeyCode::Home => 0,
        _ => last,
    }
}

proof fn lemma_target(doc: DocView, code: KeyCode, from: int)
    requires
        moves(code),
        0 <= from < doc.length(),
        doc.visible_rows >= 0,
    ensures
        goes(
            code,
            from,
            target(doc, code, from),
            doc.length() - 1,
            doc.settings.bytes_per_row as int,
            doc.visible_rows * doc.settings.bytes_per_row,
        ),
{
    let page = doc.visible_rows * doc.settings.bytes_per_row;
    assert(page >= 0) by (nonlinear_arith)
        requires
            page == doc.visible_rows * doc.settings.bytes_per_row,
            doc.visible_rows >= 0,
            doc.settings.bytes_per_row >= 0,
    ;
}

proof fn lemma_moved_by(doc: DocView, code: KeyCode, extend: bool, s: Selection)
    requires
        moves(code),
        doc.selection == Some(s),
        s.cursor < doc.length(),
    ensures
        ({
            let there = doc.cursor_at(target(doc, code, s.cursor as int), extend);
            doc.moved_by(code, extend) == there || doc.moved_by(code, extend)
                == there.at_first_digit()
        }),
{
    reveal(DocView::moved_by);
    reveal(DocView::cursor_moved);
}

spec fn clamped(offset: int, last: int) -> int {
    crate::geometry::min(crate::geometry::max(offset, 0), last)
}

proof fn lemma_move_key(doc: DocView, key: KeyEvent)
    requires
        at_rest(doc),
        unmodified(key),
        doc.focus == Focus::Viewer || (key.code != KeyCode::Up && key.code != KeyCode::Down),
        moves(key.code),
    ensures
        doc.pressed(key).doc == doc.moved_by(key.code, key.modifiers.shift).armed(false),
        !doc.pressed(key).quit,
{
    reveal(DocView::normal_key);
    reveal(DocView::view_key);
    reveal(DocView::view_plain_key);
}

proof fn lemma_cursor_at(doc: DocView, offset: int, extend: bool, s: Selection)
    requires
        doc.selection == Some(s),
        0 <= offset < doc.length() <= usize::MAX,
    ensures
        doc.cursor_at(offset, extend) == (DocView {
            selection: Some(
                Selection {
                    anchor: if extend {
                        s.anchor
                    } else {
                        offset as usize
                    },
                    cursor: offset as usize,
                },
            ),
            additional: if extend {
                doc.additional
            } else {
                Seq::empty()
            },
            scroll: doc.scroll_for(offset),
            insert_at_end: false,
            ..doc
        }),
{
    reveal(DocView::cursor_at);
    reveal(DocView::scrolled);
    reveal(DocView::scroll_for);
}

/// The keys that move the cursor move it so far, or to the end of the file where that is nearer.
/// With the shift key the selection reaches there from where it started, and all else that is
/// selected stays so; without it one byte is selected. The cursor is in sight. Nothing else
/// changes but that a request to quit is forgotten.
pub proof fn keys_move_the_cursor(doc: DocView, key: KeyEvent, s: Selection)
    requires
        doc.wf(),
        at_rest(doc),
        unmodified(key),
        doc.focus == Focus::Viewer || (key.code != KeyCode::Up && key.code != KeyCode::Down),
        moves(key.code),
        doc.selection == Some(s),
        doc.scroll >= 0,
    ensures
        ({
            let after = doc.pressed(key).doc;
            let there = after.selection->Some_0;
            &&& !doc.pressed(key).quit
            &&& after.selection is Some
            &&& goes(
                key.code,
                s.cursor as int,
                there.cursor as int,
                doc.length() - 1,
                doc.settings.bytes_per_row as int,
                doc.visible_rows * doc.settings.bytes_per_row,
            )
            &&& key.modifiers.shift ==> there.anchor == s.anchor && after.additional
                == doc.additional
            &&& !key.modifiers.shift ==> there.anchor == there.cursor && after.additional.len() == 0
            &&& doc.visible_rows > 0 ==> after.scroll <= after.row_of(there.cursor as int)
                < after.scroll + after.visible_rows
            &&& after == DocView {
                selection: after.selection,
                additional: after.additional,
                scroll: after.scroll,
                insert_at_end: false,
                edit_high_nibble: after.edit_high_nibble,
                quit_armed: false,
                ..doc
            }
        }),
{
    reveal(app::selection_ok);
    reveal(app::layout_ok);
    lemma_moved(doc, key, s);
    let there = doc.pressed(key).doc.selection->Some_0;
    if doc.visible_rows > 0 {
        app::shown_bytes_are_in_sight(doc, there.cursor as int);
        reveal(DocView::scrolled);
    }
}

/// A file after several keys.
pub open spec fn after_keys(doc: DocView, keys: Seq<KeyEvent>) -> DocView
    decreases keys.len(),
{
    if keys.len() == 0 {
        doc
    } else {
        after_keys(doc, keys.drop_last()).pressed(keys.last()).doc
    }
}

/// Any number of keys that move the cursor with the shift key held select exactly the bytes
/// between where the selection started and where the cursor is.
pub proof fn extending_covers_all_between(doc: DocView, keys: Seq<KeyEvent>, s: Selection)
    requires
        at_rest(doc),
        doc.focus == Focus::Viewer,
        doc.selection == Some(s),
        s.cursor < doc.length() <= usize::MAX,
        doc.visible_rows >= 0,
        forall|i: int|
            0 <= i < keys.len() ==> moves((#[trigger] keys[i]).code) && unmodified(keys[i])
                && keys[i].modifiers.shift,
    ensures
        ({
            let after = after_keys(doc, keys);
            let there = after.selection->Some_0;
            &&& after.selection is Some
            &&& there.anchor == s.anchor
            &&& there.cursor < doc.length()
            &&& forall|offset: int|
                #![trigger there.covers(offset)]
                there.covers(offset) <==> (s.anchor <= offset <= there.cursor || there.cursor
                    <= offset <= s.anchor)
            &&& after.additional == doc.additional
            &&& after.bytes == doc.bytes
            &&& at_rest(after)
            &&& after.focus == Focus::Viewer
            &&& after.visible_rows == doc.visible_rows
        }),
    decreases keys.len(),
{
    if keys.len() > 0 {
        let rest = keys.drop_last();
        assert forall|i: int| 0 <= i < rest.len() implies moves((#[trigger] rest[i]).code)
            && unmodified(rest[i]) && rest[i].modifiers.shift by {
            assert(rest[i] == keys[i]);
        }
        extending_covers_all_between(doc, rest, s);
        let before = after_keys(doc, rest);
        assert(keys.last() == keys[keys.len() - 1]);
        lemma_moved(before, keys.last(), before.selection->Some_0);
    }
}

/// The keys that copy put the selected bytes on the clipboard: the digits of the bytes at the
/// selected offsets, in the order of the file. Nothing else changes.
pub proof fn keys_copy_what_is_selected(doc: DocView, key: KeyEvent)
    requires
        doc.wf(),
        doc.mode is Normal,
        !doc.vim_g_pending,
        key.modifiers.control || key.modifiers.command,
        key.code == KeyCode::Char('c') || key.code == KeyCode::Char('C'),
        doc.selection is Some,
    ensures
        ({
            let after = doc.pressed(key).doc;
            &&& !doc.pressed(key).quit
            &&& after == DocView { effects: after.effects, ..doc }
            &&& after.effects.len() == doc.effects.len() + 1
            &&& after.effects.drop_last() == doc.effects
            &&& after.effects.last() matches EffectView::Copy(content) && codec::paired(
                codec::hex_digits(content),
            ) == selection::picked(doc.bytes, doc.all_selections(), doc.length())
                && codec::hex_digits(content).len() == content.len()
        }),
{
    reveal(DocView::normal_key);
    reveal(DocView::overwrite_key);
    reveal(DocView::view_key);
    reveal(DocView::view_control_key);
    reveal(DocView::with_first_g);
    reveal(DocView::asking);
    reveal(DocView::selection_copied);
    app::laws::selected_bytes_are_in_order(doc);
    lemma_something_selected(doc);
    codec::hex_reads_back(doc.selected());
    lemma_hex_of(doc.selected());
    assert(doc.effects.push(EffectView::Copy(codec::hex_of(doc.selected()))).drop_last()
        =~= doc.effects);
}

proof fn lemma_hex_of(bytes: Seq<u8>)
    ensures
        codec::hex_of(bytes).len() == 2 * bytes.len(),
    decreases bytes.len(),
{
    if bytes.len() > 0 {
        lemma_hex_of(bytes.drop_last());
    }
}

proof fn lemma_something_selected(doc: DocView)
    requires
        doc.wf(),
        doc.selection is Some,
    ensures
        doc.selected().len() > 0,
{
    reveal(app::selection_ok);
    app::laws::selected_bytes_are_in_order(doc);
    let all = doc.all_selections();
    let at = doc.selection->Some_0.cursor as int;
    assert(all[all.len() - 1].covers(at));
    assert(selection::covered(all, at));
    lemma_picked_grows(doc.bytes, all, at + 1, doc.length());
}

proof fn lemma_picked_grows(bytes: Seq<u8>, ranges: Seq<Selection>, from: int, to: int)
    requires
        0 < from <= to,
        selection::covered(ranges, from - 1),
    ensures
        selection::picked(bytes, ranges, to).len() > 0,
    decreases to - from,
{
    if from < to {
        lemma_picked_grows(bytes, ranges, from, to - 1);
    }
}

/// Confirming an offset that was typed selects the byte there and nothing else, in sight, where
/// the file has it; otherwise nothing changes but the message.
pub proof fn jumping_selects_the_byte(doc: DocView, key: KeyEvent, offset: int)
    requires
        doc.wf(),
        doc.mode is Jump,
        key.code == KeyCode::Enter,
        codec::offset_of(doc.mode->Jump_0.value) == Ok::<int, Seq<char>>(offset),
        doc.scroll >= 0,
    ensures
        ({
            let after = doc.pressed(key).doc;
            &&& 0 <= offset < doc.length() ==> {
                &&& after.selection is Some
                &&& after.selection->Some_0.anchor == offset
                &&& after.selection->Some_0.cursor == offset
                &&& after.additional.len() == 0
                &&& after.mode is Normal
                &&& after.status == "Jumped to 0x"@ + crate::numbers::hex(offset as nat)
                &&& doc.visible_rows > 0 ==> after.scroll <= after.row_of(offset) < after.scroll
                    + after.visible_rows
                &&& after == DocView {
                    selection: after.selection,
                    additional: after.additional,
                    scroll: after.scroll,
                    mode: ModeView::Normal,
                    status: after.status,
                    ..doc
                }
            }
            &&& offset >= doc.length() ==> after == DocView { status: after.status, ..doc }
        }),
{
    reveal(DocView::jump_key);
    reveal(DocView::jumped);
    reveal(DocView::with_selection);
    reveal(DocView::scrolled);
    reveal(DocView::scroll_for);
    reveal(DocView::say);
    reveal(DocView::in_mode);
    reveal(app::layout_ok);
    if 0 <= offset < doc.length() && doc.visible_rows > 0 {
        app::shown_bytes_are_in_sight(doc, offset);
    }
}

/// A click on a byte selects it, and with the control key it is added to what is selected.
/// Dragging on with the button held moves the end of the selection that the click made, and
/// nothing else that is selected.
pub proof fn clicks_and_drags_select(
    doc: DocView,
    click: MouseEvent,
    drag: MouseEvent,
    first: int,
    last: int,
)
    requires
        doc.mode is Normal,
        click.kind == MouseEventKind::Down(MouseButton::Left),
        drag.kind == MouseEventKind::Drag(MouseButton::Left),
        doc.byte_under(click.column, click.row) == Some(first),
        doc.byte_under(drag.column, drag.row) == Some(last),
        !doc.bar_takes(click),
        doc.scrollbar_dragging is None,
        0 <= first <= usize::MAX,
        0 <= last <= usize::MAX,
    ensures
        ({
            let clicked = doc.mouse_used(click);
            let after = clicked.mouse_used(drag);
            let kept = if click.modifiers.control {
                doc.all_selections()
            } else {
                Seq::empty()
            };
            &&& clicked.selection == Some(
                Selection { anchor: first as usize, cursor: first as usize },
            )
            &&& clicked.additional == kept
            &&& clicked.focus == Focus::Viewer
            &&& after.selection == Some(Selection { anchor: first as usize, cursor: last as usize })
            &&& after.additional == kept
            &&& after.bytes == doc.bytes
        }),
{
    reveal(DocView::mouse_used);
    reveal(DocView::text_unselected);
    reveal(DocView::bar_mouse);
    reveal(DocView::pane_mouse);
    reveal(DocView::content_mouse);
    reveal(DocView::content_clicked);
    reveal(DocView::byte_clicked);
    reveal(DocView::picked);
    reveal(DocView::focused);
    reveal(DocView::dragging);
    reveal(DocView::at_first_digit);
    reveal(DocView::appending);
    reveal(DocView::selection_dragged);
    reveal(DocView::selecting_also);
    app::edit::lemma_committed_frame(doc);
    lemma_committed_view(doc);
    let clicked = doc.mouse_used(click);
    assert(clicked.byte_under(drag.column, drag.row) == Some(last)) by {
        assert(clicked.scroll == doc.scroll && clicked.viewer_area == doc.viewer_area
            && clicked.rows == doc.rows && clicked.settings == doc.settings && clicked.bytes
            == doc.bytes);
        assert forall|x: int| clicked.column_index(x) == doc.column_index(x) by {
            assert forall|i: int| clicked.in_column(x, i) == doc.in_column(x, i) by {}
            assert((|i: int| clicked.in_column(x, i)) =~= (|i: int| doc.in_column(x, i)));
        }
    }
    app::edit::lemma_committed_frame(clicked);
}

/// With nothing selected the keys start at the first byte, and select one byte.
pub proof fn keys_start_at_the_first_byte(doc: DocView, key: KeyEvent)
    requires
        at_rest(doc),
        unmodified(key),
        doc.focus == Focus::Viewer,
        moves(key.code),
        doc.selection is None,
        0 < doc.length() <= usize::MAX,
        doc.visible_rows >= 0,
    ensures
        ({
            let after = doc.pressed(key).doc;
            let there = after.selection->Some_0;
            &&& after.selection is Some
            &&& there.anchor == there.cursor
            &&& goes(
                key.code,
                0,
                there.cursor as int,
                doc.length() - 1,
                doc.settings.bytes_per_row as int,
                doc.visible_rows * doc.settings.bytes_per_row,
            )
            &&& after.bytes == doc.bytes
        }),
{
    lemma_move_key(doc, key);
    lemma_target(doc, key.code, 0);
    reveal(DocView::moved_by);
    reveal(DocView::cursor_moved);
    reveal(DocView::cursor_at);
    reveal(DocView::at_first_digit);
    reveal(DocView::scrolled);
    reveal(DocView::armed);
}

/// In an empty file the keys that move the cursor select nothing.
pub proof fn empty_files_have_no_cursor(doc: DocView, key: KeyEvent)
    requires
        at_rest(doc),
        unmodified(key),
        doc.focus == Focus::Viewer,
        moves(key.code),
        doc.length() == 0,
    ensures
        doc.pressed(key).doc == (DocView { quit_armed: false, ..doc }),
{
    lemma_move_key(doc, key);
    reveal(DocView::moved_by);
    reveal(DocView::cursor_moved);
    reveal(DocView::cursor_at);
    reveal(DocView::armed);
}

/// While bytes are edited the keys that move the cursor move it just so, and select one byte; a byte
/// that is being typed stays as it stands, and no byte and no field changes.
pub proof fn keys_move_the_cursor_while_editing(doc: DocView, key: KeyEvent, s: Selection)
    requires
        doc.wf(),
        doc.mode is Normal,
        doc.edit_mode,
        unmodified(key),
        moves(key.code),
        doc.selection == Some(s),
    ensures
        ({
            let after = doc.pressed(key).doc;
            let there = after.selection->Some_0;
            &&& !doc.pressed(key).quit
            &&& after.selection is Some
            &&& there.anchor == there.cursor
            &&& after.additional.len() == 0
            &&& goes(
                key.code,
                s.cursor as int,
                there.cursor as int,
                doc.length() - 1,
                doc.settings.bytes_per_row as int,
                doc.visible_rows * doc.settings.bytes_per_row,
            )
            &&& after.bytes == doc.bytes
            &&& after.fields == doc.fields
            &&& after.saved == doc.saved
            &&& after.mode is Normal
            &&& after.edit_mode
            &&& after.edit_kind == doc.edit_kind
            &&& after.pending is None
            &&& !after.insert_at_end
        }),
{
    reveal(app::selection_ok);
    reveal(app::layout_ok);
    reveal(DocView::normal_key);
    reveal(DocView::overwrite_key);
    reveal(DocView::edit_key);
    assert(crate::app::keys::is_move(key.code));
    let base = doc.committed();
    assert(doc.pressed(key).doc == base.moved_by(key.code, false));
    app::edit::lemma_committed_frame(doc);
    lemma_committed_view(doc);
    lemma_target(base, key.code, s.cursor as int);
    lemma_moved_by(base, key.code, false, s);
    lemma_cursor_at(base, target(base, key.code, s.cursor as int), false, s);
    reveal(DocView::at_first_digit);
}

proof fn lemma_committed_view(doc: DocView)
    ensures
        doc.committed().settings == doc.settings,
        doc.committed().visible_rows == doc.visible_rows,
        doc.committed().rows == doc.rows,
        doc.committed().scroll == doc.scroll,
        doc.committed().viewer_area == doc.viewer_area,
        doc.committed().fields_area == doc.fields_area,
        doc.committed().scrollbar_dragging == doc.scrollbar_dragging,
{
    reveal(DocView::committed);
    reveal(DocView::recorded);
    reveal(DocView::typing);
}

/// Beside the console the viewer moves its cursor with the same keys, and extends the selection with
/// the shift key.
pub proof fn keys_move_the_cursor_beside_the_console(doc: DocView, key: KeyEvent, s: Selection)
    requires
        doc.mode is Python,
        doc.focus == Focus::Viewer,
        !doc.edit_mode,
        unmodified(key),
        moves(key.code),
        doc.selection == Some(s),
        s.cursor < doc.length() <= usize::MAX,
        doc.visible_rows >= 0,
    ensures
        ({
            let after = doc.pressed(key).doc;
            let there = after.selection->Some_0;
            &&& after.selection is Some
            &&& there.anchor == if key.modifiers.shift {
                s.anchor
            } else {
                there.cursor
            }
            &&& goes(
                key.code,
                s.cursor as int,
                there.cursor as int,
                doc.length() - 1,
                doc.settings.bytes_per_row as int,
                doc.visible_rows * doc.settings.bytes_per_row,
            )
            &&& after.bytes == doc.bytes
            &&& after.mode == doc.mode
        }),
{
    let extend = key.modifiers.shift;
    reveal(DocView::python_key);
    reveal(DocView::python_content_key);
    assert(doc.pressed(key).doc == doc.moved_by(key.code, extend));
    lemma_target(doc, key.code, s.cursor as int);
    lemma_moved_by(doc, key.code, extend, s);
    lemma_cursor_at(doc, target(doc, key.code, s.cursor as int), extend, s);
    reveal(DocView::at_first_digit);
}

/// A letter that waits for its second press does not change what any other key does.
pub proof fn pending_letters_change_no_other_key(doc: DocView, key: KeyEvent)
    requires
        doc.mode is Normal,
        !doc.edit_mode,
        doc.vim_g_pending,
        key.code != KeyCode::Char('g'),
        key.code != KeyCode::Char('?'),
    ensures
        doc.pressed(key) == (DocView { vim_g_pending: false, ..doc }).pressed(key),
{
    reveal(DocView::normal_key);
    reveal(DocView::view_key);
    reveal(DocView::with_first_g);
}

/// The bytes that are inspected are those from one end of the selection to the other.
pub proof fn the_selection_is_inspected(doc: DocView, s: Selection, first: int, last: int)
    requires
        doc.wf(),
        doc.selection == Some(s),
        (first == s.anchor && last == s.cursor) || (first == s.cursor && last == s.anchor),
        first <= last,
    ensures
        doc.inspected() == doc.bytes.subrange(first, last + 1),
{
    reveal(app::selection_ok);
}

} // verus!
