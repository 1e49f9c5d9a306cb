//! What typing, deleting, and pasting do to the bytes and the fields of a file.

use vstd::prelude::*;

use crate::app;
use crate::app::DocView;
use crate::codec;
use crate::editing;
use crate::editing::{EditKind, EditView, PendingEdit};
use crate::geometry;
use crate::input::{KeyCode, KeyEvent};
use crate::laws::selecting::{at_rest, goes, moves, unmodified};
use crate::model::{FieldView, Selection};
use crate::modes::Focus;
use crate::numbers;

verus! {

/// Whether a character is the digit of a value, of either case.
pub open spec fn writes(c: char, value: int) -> bool {
    0 <= value < 16 && (c == "0123456789abcdef"@[value] || c == "0123456789ABCDEF"@[value])
}

proof fn lemma_writes(c: char, value: int)
    requires
        writes(c, value),
    ensures
        numbers::is_hex_digit(c),
        numbers::digit_value(c) == value,
        c != 'i' && c != 'q' && c != '?' && c != 'u' && c != 'r',
{
    reveal_strlit("0123456789abcdef");
    reveal_strlit("0123456789ABCDEF");
}

/// Whether bytes are edited, in some way, and the first digit of one is due.
pub open spec fn edits(doc: DocView, kind: EditKind) -> bool {
    &&& doc.mode is Normal
    &&& doc.edit_mode
    &&& doc.edit_kind == kind
    &&& doc.edit_high_nibble
    &&& doc.pending is None
}

/// Whether all that typing does not touch is as it was.
spec fn kept(before: DocView, after: DocView) -> bool {
    &&& after.mode == before.mode
    &&& after.edit_mode == before.edit_mode
    &&& after.edit_kind == before.edit_kind
    &&& after.saved == before.saved
    &&& after.path == before.path
    &&& after.settings == before.settings
    &&& after.visible_rows == before.visible_rows
    &&& after.focus == before.focus
}

proof fn lemma_digit_key(doc: DocView, key: KeyEvent, value: int)
    requires
        doc.mode is Normal,
        doc.edit_mode,
        unmodified(key),
        key.code is Char,
        writes(key.code->Char_0, value),
    ensures
        doc.pressed(key).doc == doc.nibble_typed(value as u8),
        !doc.pressed(key).quit,
{
    lemma_writes(key.code->Char_0, value);
    reveal(DocView::normal_key);
    reveal(DocView::overwrite_key);
    reveal(DocView::edit_key);
}

proof fn lemma_undo_key(doc: DocView, key: KeyEvent)
    requires
        doc.mode is Normal,
        !doc.vim_g_pending,
        key.modifiers.control,
    ensures
        key.code == KeyCode::Char('u') ==> doc.pressed(key).doc == doc.undone(),
        key.code == KeyCode::Char('r') ==> doc.pressed(key).doc == doc.redone(),
{
    reveal(DocView::normal_key);
    reveal(DocView::overwrite_key);
    reveal(DocView::view_key);
    reveal(DocView::view_control_key);
}

proof fn lemma_installed(doc: DocView, bytes: Seq<u8>)
    ensures
        ({
            let after = doc.installed(bytes);
            &&& kept(doc, after)
            &&& after.bytes == bytes
            &&& after.fields == doc.fields
            &&& after.selected_field == doc.selected_field
            &&& after.selection == doc.selection
            &&& after.additional == doc.additional
            &&& after.insert_at_end == doc.insert_at_end
            &&& after.pending == doc.pending
            &&& after.edit_high_nibble == doc.edit_high_nibble
            &&& after.undo == doc.undo
            &&& after.redo == doc.redo
            &&& after.vim_g_pending == doc.vim_g_pending
        }),
{
    reveal(DocView::installed);
}

proof fn lemma_selecting(doc: DocView, offset: int)
    ensures
        ({
            let after = doc.selecting(offset);
            after == DocView {
                selection: Some(Selection::at(offset)),
                additional: Seq::empty(),
                scroll: after.scroll,
                ..doc
            }
        }),
{
    reveal(DocView::with_selection);
    reveal(DocView::scrolled);
}

proof fn lemma_overwritten_once(doc: DocView, value: u8, s: Selection)
    requires
        doc.edit_kind == EditKind::Overwrite,
        doc.edit_high_nibble,
        doc.selection == Some(s),
        s.cursor < doc.length(),
    ensures
        ({
            let at = s.cursor as int;
            let after = doc.nibble_typed(value);
            &&& kept(doc, after)
            &&& after.bytes == doc.bytes.update(at, (value * 16 + doc.bytes[at] % 16) as u8)
            &&& after.selection == doc.selection
            &&& after.fields == doc.fields
            &&& !after.edit_high_nibble
            &&& after.vim_g_pending == doc.vim_g_pending
        }),
{
    reveal(DocView::nibble_overwritten);
    reveal(DocView::typing);
    reveal(DocView::say);
    let at = s.cursor as int;
    let bytes = doc.bytes.update(at, doc.digit_replaced(at, value));
    let pending = Some(PendingEdit::Overwrite { offset: s.cursor, before: doc.bytes[at] });
    lemma_installed(doc.typing(pending, false), bytes);
}

proof fn lemma_overwritten_twice(doc: DocView, value: u8, s: Selection)
    requires
        doc.edit_kind == EditKind::Overwrite,
        !doc.edit_high_nibble,
        doc.selection == Some(s),
        s.cursor < doc.length(),
    ensures
        ({
            let at = s.cursor as int;
            let after = doc.nibble_typed(value);
            &&& kept(doc, after)
            &&& after.bytes == doc.bytes.update(at, ((doc.bytes[at] / 16) * 16 + value) as u8)
            &&& after.selection == Some(Selection::at(geometry::min(at + 1, doc.length() - 1)))
            &&& after.additional.len() == 0
            &&& after.fields == doc.fields
            &&& after.vim_g_pending == doc.vim_g_pending
        }),
{
    reveal(DocView::nibble_overwritten);
    reveal(DocView::committed);
    reveal(DocView::recorded);
    reveal(DocView::typing);
    reveal(DocView::say);
    let at = s.cursor as int;
    let bytes = doc.bytes.update(at, doc.digit_replaced(at, value));
    lemma_installed(doc, bytes);
    lemma_selecting(
        doc.installed(bytes).committed(),
        geometry::min(at + 1, doc.length() - 1),
    );
}

/// Two digits that are typed in Overwrite Mode put their byte in place of the one at the cursor and
/// change no other; the fields stay, and the next byte is selected, or the last one. One undo gives
/// the old byte back.
pub proof fn two_digits_overwrite_the_byte(
    doc: DocView,
    first: KeyEvent,
    second: KeyEvent,
    undo: KeyEvent,
    high: int,
    low: int,
    s: Selection,
)
    requires
        doc.wf(),
        edits(doc, EditKind::Overwrite),
        !doc.vim_g_pending,
        unmodified(first),
        unmodified(second),
        first.code is Char,
        second.code is Char,
        writes(first.code->Char_0, high),
        writes(second.code->Char_0, low),
        undo.modifiers.control,
        undo.code == KeyCode::Char('u'),
        doc.selection == Some(s),
    ensures
        ({
            let at = s.cursor as int;
            let after = doc.pressed(first).doc.pressed(second).doc;
            &&& after.bytes.len() == doc.bytes.len()
            &&& after.bytes[at] == 16 * high + low
            &&& forall|i: int|
                0 <= i < doc.bytes.len() && i != at ==> #[trigger] after.bytes[i] == doc.bytes[i]
            &&& doc.pressed(first).doc.bytes == doc.bytes.update(
                at,
                (16 * high + doc.bytes[at] % 16) as u8,
            )
            &&& doc.pressed(first).doc.selection == doc.selection
            &&& after.fields == doc.fields
            &&& after.selection == Some(
                Selection::at(if at + 1 < doc.bytes.len() {
                    at + 1
                } else {
                    at
                }),
            )
            &&& after.additional.len() == 0
            &&& edits(after, EditKind::Overwrite)
            &&& after.saved == doc.saved
            &&& doc.bytes[at] != 16 * high + low ==> {
                &&& after.pressed(undo).doc.bytes == doc.bytes
                &&& after.redo.len() == 0
            }
        }),
{
    reveal(app::selection_ok);
    let at = s.cursor as int;
    lemma_digit_key(doc, first, high);
    lemma_overwritten_once(doc, high as u8, s);
    let half = doc.pressed(first).doc;
    lemma_digit_key(half, second, low);
    lemma_overwritten_twice(half, low as u8, s);
    let after = half.pressed(second).doc;
    app::laws::typed_byte_is_taken_back(doc, high as u8, low as u8);
    lemma_undo_key(after, undo);
    assert(after.bytes[at] == 16 * high + low);
    lemma_overwriting_settles(doc, high as u8, low as u8, s);
}

proof fn lemma_overwriting_settles(doc: DocView, high: u8, low: u8, s: Selection)
    requires
        edits(doc, EditKind::Overwrite),
        doc.selection == Some(s),
        s.cursor < doc.length(),
        high < 16,
        low < 16,
    ensures
        ({
            let after = doc.nibble_typed(high).nibble_typed(low);
            &&& after.pending is None
            &&& after.edit_high_nibble
            &&& after.bytes != doc.bytes ==> after.redo.len() == 0
        }),
{
    let at = s.cursor as int;
    lemma_overwritten_once(doc, high, s);
    let half = doc.nibble_typed(high);
    lemma_overwritten_twice(half, low, s);
    reveal(DocView::nibble_overwritten);
    reveal(DocView::typing);
    reveal(DocView::say);
    reveal(DocView::recorded);
    reveal(DocView::committed);
    let old = doc.bytes[at];
    let pending = Some(PendingEdit::Overwrite { offset: s.cursor, before: old });
    lemma_installed(
        doc.typing(pending, false),
        doc.bytes.update(at, doc.digit_replaced(at, high)),
    );
    assert(half.pending == pending);
    let bytes = half.bytes.update(at, half.digit_replaced(at, low));
    lemma_installed(half, bytes);
    lemma_selecting(
        half.installed(bytes).committed(),
        geometry::min(at + 1, half.length() - 1),
    );
    if bytes[at] == old {
        assert(bytes =~= doc.bytes);
    }
}

/// Where bytes are inserted: before the one at the cursor, or at the end of the file.
pub open spec fn inserts_at(doc: DocView, at: int) -> bool {
    match doc.selection {
        Some(s) => at == if doc.insert_at_end {
            doc.bytes.len() as int
        } else {
            s.cursor as int
        },
        None => at == doc.bytes.len(),
    }
}

/// Whether bytes were inserted: they stand at an offset, all others keep their order around them,
/// and the fields moved along.
pub open spec fn were_inserted(before: DocView, after: DocView, at: int, new: Seq<u8>) -> bool {
    &&& after.bytes.len() == before.bytes.len() + new.len()
    &&& forall|n: int|
        0 <= n < after.bytes.len() ==> #[trigger] after.bytes[n] == if n < at {
            before.bytes[n]
        } else if n < at + new.len() {
            new[n - at]
        } else {
            before.bytes[n - new.len()]
        }
    &&& after.fields.len() == before.fields.len()
    &&& forall|i: int|
        0 <= i < before.fields.len() ==> editing::is_moved_from(
            #[trigger] after.fields[i],
            before.fields[i],
            at,
            new.len() as int,
        )
}

/// What follows inserted bytes is selected, or the last byte where they stand at the end, and then
/// more bytes are inserted behind it.
pub open spec fn went_behind(after: DocView, end: int) -> bool {
    &&& after.insert_at_end == (end == after.bytes.len())
    &&& after.selection == Some(
        Selection::at(if end < after.bytes.len() {
            end
        } else {
            end - 1
        }),
    )
    &&& after.additional.len() == 0
}

proof fn lemma_inserted(doc: DocView, at: int, new: Seq<u8>)
    requires
        doc.sound(),
        0 <= at <= doc.length(),
        new.len() > 0,
        doc.bytes.len() + new.len() <= usize::MAX,
    ensures
        ({
            let after = doc.bytes_inserted(at, new);
            &&& were_inserted(doc, after, at, new)
            &&& kept(doc, after)
            &&& after.vim_g_pending == doc.vim_g_pending
            &&& after.pending == doc.pending
            &&& after.edit_high_nibble == doc.edit_high_nibble
            &&& after.undo == doc.undo
            &&& after.redo == doc.redo
            &&& after.fields == editing::shifted_right(doc.fields, at, new.len() as int)
            &&& after.bytes == editing::inserted(doc.bytes, at, new)
        }),
{
    reveal(app::fields_ok);
    reveal(DocView::bytes_inserted);
    reveal(DocView::with_fields);
    let moved = doc.with_fields(
        editing::shifted_right(doc.fields, at, new.len() as int),
        doc.selected_field,
        doc.fields_scroll,
    );
    lemma_installed(moved, editing::inserted(doc.bytes, at, new));
    editing::insertion_moves_fields_along(doc.fields, doc.length(), at, new.len() as int);
}

proof fn lemma_after_insertion(doc: DocView, at: int, count: int)
    requires
        0 <= at,
        0 < count,
        at + count <= doc.length() <= usize::MAX,
    ensures
        ({
            let after = doc.after_insertion(at, count);
            &&& went_behind(after, at + count)
            &&& after == DocView {
                selection: after.selection,
                additional: after.additional,
                scroll: after.scroll,
                insert_at_end: after.insert_at_end,
                ..doc
            }
        }),
{
    reveal(DocView::after_insertion);
    reveal(DocView::appending);
    lemma_selecting(
        doc.appending(at + count == doc.length()),
        geometry::min(at + count, doc.length() - 1),
    );
}

/// Two digits that are typed in Insert Mode insert their byte before the one at the cursor, or at
/// the end: no other byte changes, the fields move along, and the cursor goes behind the new byte.
/// One undo gives the bytes and the fields back.
pub proof fn two_digits_insert_a_byte(
    doc: DocView,
    first: KeyEvent,
    second: KeyEvent,
    undo: KeyEvent,
    high: int,
    low: int,
    at: int,
)
    requires
        doc.wf(),
        edits(doc, EditKind::Insert),
        !doc.vim_g_pending,
        unmodified(first),
        unmodified(second),
        first.code is Char,
        second.code is Char,
        writes(first.code->Char_0, high),
        writes(second.code->Char_0, low),
        undo.modifiers.control,
        undo.code == KeyCode::Char('u'),
        inserts_at(doc, at),
        doc.bytes.len() < usize::MAX,
    ensures
        ({
            let half = doc.pressed(first).doc;
            let after = half.pressed(second).doc;
            &&& half.bytes == doc.bytes
            &&& half.fields == doc.fields
            &&& were_inserted(doc, after, at, seq![(16 * high + low) as u8])
            &&& went_behind(after, at + 1)
            &&& edits(after, EditKind::Insert)
            &&& after.redo.len() == 0
            &&& after.saved == doc.saved
            &&& after.pressed(undo).doc.bytes == doc.bytes
            &&& after.pressed(undo).doc.fields == doc.fields
        }),
{
    reveal(app::selection_ok);
    reveal(app::layout_ok);
    reveal(app::fields_ok);
    lemma_digit_key(doc, first, high);
    let half = doc.pressed(first).doc;
    reveal(DocView::nibble_inserted);
    reveal(DocView::typing);
    reveal(DocView::say);
    assert(doc.insertion_point() == at);
    assert(half.pending == Some(
        PendingEdit::Insert { offset: at as usize, high_nibble: high as u8 },
    ));
    lemma_digit_key(half, second, low);
    let after = half.pressed(second).doc;
    let byte = (high * 16 + low) as u8;
    let settled = half.typing(None, true);
    assert(settled.sound());
    lemma_inserted(settled, at, seq![byte]);
    reveal(DocView::recorded);
    let action = EditView::Insert { offset: at, byte };
    let grown = settled.bytes_inserted(at, seq![byte]).recorded(action);
    lemma_after_insertion(grown, at, 1);
    assert(grown.length() == doc.length() + 1);
    app::laws::typed_insertion_is_taken_back(doc, high as u8, low as u8);
    lemma_undo_key(after, undo);
    lemma_undone_insertion(after, action);
    editing::fields_return_after_insertion(doc.fields, doc.length(), at, 1);
}

proof fn lemma_undone_insertion(doc: DocView, action: EditView)
    requires
        doc.pending is None,
        doc.undo.len() > 0,
        doc.undo.last() == action,
    ensures
        action matches EditView::Insert { offset, .. } ==> doc.undone().fields
            == editing::shifted_left(doc.fields, offset, 1),
        action matches EditView::InsertMany { offset, bytes } ==> doc.undone().fields
            == editing::shifted_left(doc.fields, offset, bytes.len() as int),
        action matches EditView::Delete { offset, bytes } ==> doc.undone().fields
            == editing::shifted_right(doc.fields, offset, bytes.len() as int),
        action is Overwrite || action is OverwriteMany ==> doc.undone().fields == doc.fields,
{
    reveal(DocView::undone);
    reveal(DocView::committed);
    reveal(DocView::undo_popped);
    reveal(DocView::bytes_removed);
    reveal(DocView::bytes_inserted);
    reveal(DocView::with_fields);
    reveal(DocView::installed);
    reveal(DocView::redo_pushed);
    reveal(DocView::landed);
    reveal(DocView::appending);
    reveal(DocView::with_selection);
    reveal(DocView::scrolled);
    reveal(DocView::say);
}

/// Whether the bytes from one offset to another were removed: all others are still there, in order,
/// and the fields cover what is left of them.
pub open spec fn were_removed(before: DocView, after: DocView, first: int, last: int) -> bool {
    let count = last - first + 1;
    let left = before.fields.filter(|f: FieldView| f.start < first || f.end > last);
    &&& after.bytes.len() == before.bytes.len() - count
    &&& forall|n: int|
        0 <= n < after.bytes.len() ==> #[trigger] after.bytes[n] == if n < first {
            before.bytes[n]
        } else {
            before.bytes[n + count]
        }
    &&& after.fields.len() == left.len()
    &&& forall|i: int|
        0 <= i < left.len() ==> editing::is_rest_of(
            #[trigger] after.fields[i],
            left[i],
            first,
            count,
        )
}

proof fn lemma_removed(doc: DocView, first: int, last: int)
    requires
        doc.sound(),
        0 <= first <= last < doc.length(),
    ensures
        ({
            let count = last - first + 1;
            let after = doc.bytes_removed(first, count);
            &&& were_removed(doc, after, first, last)
            &&& kept(doc, after)
            &&& after.vim_g_pending == doc.vim_g_pending
            &&& after.pending == doc.pending
            &&& after.edit_high_nibble == doc.edit_high_nibble
            &&& after.undo == doc.undo
            &&& after.redo == doc.redo
            &&& after.fields == editing::shifted_left(doc.fields, first, count)
        }),
{
    reveal(app::fields_ok);
    reveal(app::layout_ok);
    reveal(DocView::bytes_removed);
    reveal(DocView::with_fields);
    let count = last - first + 1;
    let fields = editing::shifted_left(doc.fields, first, count);
    let cut = doc.with_fields(
        fields,
        geometry::min(doc.selected_field, geometry::minus(fields.len() as int, 1)),
        geometry::min(
            doc.fields_scroll,
            geometry::minus(fields.len() as int, doc.visible_fields),
        ),
    );
    lemma_installed(cut, editing::removed(doc.bytes, first, count));
    editing::removal_leaves_what_is_still_there(doc.fields, doc.length(), first, count);
    let here = |f: FieldView| f.start < first || f.end > last;
    let there = |f: FieldView| f.start < first || f.end >= first + count;
    assert(here =~= there);
}

proof fn lemma_landed(doc: DocView, offset: int)
    requires
        0 <= offset <= doc.length() <= usize::MAX,
    ensures
        ({
            let after = doc.landed(offset);
            &&& doc.bytes.len() == 0 ==> after.selection is None
            &&& doc.bytes.len() > 0 ==> after.selection == Some(
                Selection::at(if offset < doc.bytes.len() {
                    offset
                } else {
                    offset - 1
                }),
            )
            &&& after.additional.len() == 0
            &&& after == DocView {
                selection: after.selection,
                additional: after.additional,
                scroll: after.scroll,
                insert_at_end: false,
                ..doc
            }
        }),
{
    reveal(DocView::landed);
    reveal(DocView::appending);
    reveal(DocView::with_selection);
    if doc.bytes.len() > 0 {
        lemma_selecting(doc.appending(false), geometry::min(offset, doc.length() - 1));
    }
}

/// The keys that delete remove exactly the bytes from one end of the selection to the other: all
/// others are still there, and the fields cover what is left of them. The byte that follows is
/// selected, or the last one. One undo gives the bytes back, and the fields that were left whole.
pub proof fn deleting_removes_what_is_selected(
    doc: DocView,
    key: KeyEvent,
    undo: KeyEvent,
    s: Selection,
    first: int,
    last: int,
)
    requires
        doc.wf(),
        doc.mode is Normal,
        doc.edit_mode,
        doc.edit_high_nibble,
        doc.pending is None,
        !doc.vim_g_pending,
        unmodified(key),
        key.code == KeyCode::Backspace || key.code == KeyCode::Delete,
        undo.modifiers.control,
        undo.code == KeyCode::Char('u'),
        doc.selection == Some(s),
        (first == s.anchor && last == s.cursor) || (first == s.cursor && last == s.anchor),
        first <= last,
    ensures
        ({
            let after = doc.pressed(key).doc;
            &&& were_removed(doc, after, first, last)
            &&& after.bytes.len() == 0 ==> after.selection is None
            &&& after.bytes.len() > 0 ==> after.selection == Some(
                Selection::at(if first < after.bytes.len() {
                    first
                } else {
                    first - 1
                }),
            )
            &&& after.additional.len() == 0
            &&& after.redo.len() == 0
            &&& after.saved == doc.saved
            &&& edits(after, doc.edit_kind)
            &&& after.pressed(undo).doc.bytes == doc.bytes
            &&& (forall|i: int|
                0 <= i < doc.fields.len() ==> {
                    let f = #[trigger] doc.fields[i];
                    f.end < first || f.start > last || (f.start < first && f.end > last)
                }) ==> after.pressed(undo).doc.fields == doc.fields
        }),
{
    reveal(app::selection_ok);
    reveal(app::layout_ok);
    reveal(app::fields_ok);
    reveal(DocView::normal_key);
    reveal(DocView::overwrite_key);
    reveal(DocView::edit_key);
    let after = doc.pressed(key).doc;
    assert(after == doc.selection_deleted());
    reveal(DocView::selection_deleted);
    reveal(DocView::committed);
    reveal(DocView::recorded);
    reveal(DocView::say);
    let count = last - first + 1;
    lemma_removed(doc, first, last);
    let action = EditView::Delete { offset: first, bytes: doc.bytes.subrange(first, last + 1) };
    let cut = doc.bytes_removed(first, count).recorded(action);
    assert(cut.bytes.len() == doc.bytes.len() - count);
    lemma_landed(cut, first);
    app::laws::deletion_is_taken_back(doc);
    lemma_undo_key(after, undo);
    lemma_undone_insertion(after, action);
    if forall|i: int|
        0 <= i < doc.fields.len() ==> {
            let f = #[trigger] doc.fields[i];
            f.end < first || f.start > last || (f.start < first && f.end > last)
        } {
        assert forall|i: int| 0 <= i < doc.fields.len() implies editing::spared(
            #[trigger] doc.fields[i],
            first,
            count,
        ) by {}
        editing::fields_return_after_removal(doc.fields, doc.length(), first, count);
    }
}

/// Pasting hexadecimal digits in Insert Mode inserts their bytes before the one at the cursor, or at
/// the end: no other byte changes, the fields move along, and the cursor goes behind the new bytes.
/// One undo gives the bytes and the fields back.
pub proof fn pasting_inserts_the_bytes(
    doc: DocView,
    content: Seq<char>,
    undo: KeyEvent,
    new: Seq<u8>,
    at: int,
)
    requires
        doc.wf(),
        edits(doc, EditKind::Insert),
        !doc.vim_g_pending,
        codec::paired(codec::hex_digits(content)) == new,
        new.len() > 0,
        inserts_at(doc, at),
        doc.bytes.len() + new.len() <= usize::MAX,
        undo.modifiers.control,
        undo.code == KeyCode::Char('u'),
    ensures
        ({
            let after = doc.paste_finished(Ok(content));
            &&& were_inserted(doc, after, at, new)
            &&& went_behind(after, at + new.len())
            &&& edits(after, EditKind::Insert)
            &&& after.redo.len() == 0
            &&& after.saved == doc.saved
            &&& after.pressed(undo).doc.bytes == doc.bytes
            &&& after.pressed(undo).doc.fields == doc.fields
        }),
{
    lemma_pasted_in(doc, content, new, at);
    let after = doc.paste_finished(Ok(content));
    assert(codec::hex_digits(content).len() > 1);
    app::laws::paste_is_taken_back(doc, content);
    lemma_undo_key(after, undo);
    lemma_undone_insertion(after, EditView::InsertMany { offset: at, bytes: new });
    reveal(app::fields_ok);
    reveal(app::selection_ok);
    editing::fields_return_after_insertion(doc.fields, doc.length(), at, new.len() as int);
}

proof fn lemma_pasted_in(doc: DocView, content: Seq<char>, new: Seq<u8>, at: int)
    requires
        doc.wf(),
        edits(doc, EditKind::Insert),
        codec::paired(codec::hex_digits(content)) == new,
        new.len() > 0,
        inserts_at(doc, at),
        doc.bytes.len() + new.len() <= usize::MAX,
    ensures
        ({
            let after = doc.paste_finished(Ok(content));
            &&& were_inserted(doc, after, at, new)
            &&& went_behind(after, at + new.len())
            &&& kept(doc, after)
            &&& after.pending is None
            &&& after.edit_high_nibble
            &&& after.vim_g_pending == doc.vim_g_pending
            &&& after.redo.len() == 0
            &&& after.undo.len() > 0
            &&& after.undo.last() == (EditView::InsertMany { offset: at, bytes: new })
            &&& after.fields == editing::shifted_right(doc.fields, at, new.len() as int)
        }),
{
    reveal(app::selection_ok);
    reveal(app::layout_ok);
    let point = doc.insertion_point();
    assert(point == at);
    lemma_inserted(doc, at, new);
    let action = EditView::InsertMany { offset: at, bytes: new };
    let pasted = doc.bytes_inserted(at, new);
    let grown = pasted.recorded(action).typing(doc.pending, true);
    assert(grown == (DocView {
        undo: pasted.undo.push(action),
        redo: Seq::empty(),
        pending: None,
        edit_high_nibble: true,
        ..pasted
    })) by {
        reveal(DocView::recorded);
        reveal(DocView::typing);
    }
    lemma_after_insertion(grown, at, new.len() as int);
    let there = grown.after_insertion(at, new.len() as int);
    let after = doc.paste_finished(Ok(content));
    assert(after == (DocView { status: after.status, ..there })) by {
        reveal(DocView::hex_pasted);
        reveal(DocView::paste_inserted);
        reveal(DocView::committed);
        reveal(DocView::say);
    }
}

/// Pasting hexadecimal digits in Overwrite Mode puts their bytes in place of those from the cursor
/// on, as far as the file goes: no other byte changes, and the fields stay. The byte behind them is
/// selected, or the last one. One undo gives the old bytes back.
pub proof fn pasting_overwrites_the_bytes(
    doc: DocView,
    content: Seq<char>,
    undo: KeyEvent,
    new: Seq<u8>,
    s: Selection,
)
    requires
        doc.wf(),
        edits(doc, EditKind::Overwrite),
        !doc.vim_g_pending,
        codec::paired(codec::hex_digits(content)) == new,
        new.len() > 0,
        doc.selection == Some(s),
        undo.modifiers.control,
        undo.code == KeyCode::Char('u'),
    ensures
        ({
            let at = s.cursor as int;
            let after = doc.paste_finished(Ok(content));
            &&& after.bytes.len() == doc.bytes.len()
            &&& forall|n: int|
                0 <= n < doc.bytes.len() ==> #[trigger] after.bytes[n] == if at <= n < at
                    + new.len() {
                    new[n - at]
                } else {
                    doc.bytes[n]
                }
            &&& after.fields == doc.fields
            &&& after.selection == Some(
                Selection::at(if at + new.len() < doc.bytes.len() {
                    at + new.len()
                } else {
                    doc.bytes.len() - 1
                }),
            )
            &&& after.additional.len() == 0
            &&& edits(after, EditKind::Overwrite)
            &&& after.redo.len() == 0
            &&& after.saved == doc.saved
            &&& after.pressed(undo).doc.bytes == doc.bytes
        }),
{
    reveal(app::selection_ok);
    reveal(app::layout_ok);
    reveal(DocView::hex_pasted);
    reveal(DocView::paste_overwritten);
    reveal(DocView::committed);
    reveal(DocView::typing);
    reveal(DocView::recorded);
    reveal(DocView::say);
    let at = s.cursor as int;
    let count = geometry::min(new.len() as int, doc.length() - at);
    let used = new.take(count);
    let bytes = editing::overwritten(doc.bytes, at, used);
    lemma_installed(doc, bytes);
    let action = EditView::OverwriteMany {
        offset: at,
        before: doc.bytes.subrange(at, at + count),
        after: used,
    };
    lemma_selecting(
        doc.installed(bytes).recorded(action).typing(None, true),
        geometry::min(at + count, doc.length() - 1),
    );
    let after = doc.paste_finished(Ok(content));
    assert(codec::hex_digits(content).len() > 1);
    app::laws::paste_is_taken_back(doc, content);
    lemma_undo_key(after, undo);
}

/// A text without two hexadecimal digits pastes nothing.
pub proof fn pasting_nothing_changes_nothing(doc: DocView, content: Seq<char>)
    requires
        doc.pending is None,
        codec::paired(codec::hex_digits(content)).len() == 0,
    ensures
        doc.paste_finished(Ok(content)) == (DocView {
            status: doc.paste_finished(Ok(content)).status,
            ..doc
        }),
{
    reveal(DocView::hex_pasted);
    reveal(DocView::committed);
    reveal(DocView::say);
}

/// The keys for undo and redo take back each other, while bytes are edited and while they are viewed.
pub proof fn undo_and_redo_keys_are_inverse(doc: DocView, undo: KeyEvent, redo: KeyEvent)
    requires
        doc.wf(),
        doc.in_step(),
        doc.mode is Normal,
        !doc.vim_g_pending,
        doc.pending is None,
        undo.modifiers.control,
        undo.code == KeyCode::Char('u'),
        redo.modifiers.control,
        redo.code == KeyCode::Char('r'),
    ensures
        doc.undo.len() > 0 ==> doc.pressed(undo).doc.pressed(redo).doc.bytes == doc.bytes,
        doc.redo.len() > 0 ==> doc.pressed(redo).doc.pressed(undo).doc.bytes == doc.bytes,
        doc.undo.len() == 0 ==> doc.pressed(undo).doc.bytes == doc.bytes,
        doc.redo.len() == 0 ==> doc.pressed(redo).doc.bytes == doc.bytes,
{
    lemma_undo_key(doc, undo);
    lemma_undo_key(doc, redo);
    assert(doc.committed() == doc) by {
        reveal(DocView::committed);
    }
    app::steps::undo_and_redo_restore(doc);
    app::steps::nothing_to_undo_or_redo(doc);
    lemma_step_frame(doc);
    lemma_undo_key(doc.undone(), redo);
    lemma_undo_key(doc.redone(), undo);
}

proof fn lemma_step_frame(doc: DocView)
    requires
        doc.pending is None,
    ensures
        doc.undone().mode == doc.mode,
        doc.undone().vim_g_pending == doc.vim_g_pending,
        doc.undone().edit_mode == doc.edit_mode,
        doc.undone().focus == doc.focus,
        doc.redone().edit_mode == doc.edit_mode,
        doc.redone().focus == doc.focus,
        doc.redone().mode == doc.mode,
        doc.redone().vim_g_pending == doc.vim_g_pending,
{
    reveal(DocView::undone);
    reveal(DocView::redone);
    reveal(DocView::committed);
    reveal(DocView::undo_popped);
    reveal(DocView::redo_popped);
    reveal(DocView::bytes_removed);
    reveal(DocView::bytes_inserted);
    reveal(DocView::with_fields);
    reveal(DocView::installed);
    reveal(DocView::redo_pushed);
    reveal(DocView::undo_pushed);
    reveal(DocView::landed);
    reveal(DocView::appending);
    reveal(DocView::with_selection);
    reveal(DocView::scrolled);
    reveal(DocView::say);
}

/// The letter for editing starts Overwrite Mode, it or the insert key switches between that and
/// Insert Mode, and the escape key ends editing. None of them changes a byte, a field, or what is
/// selected.
pub proof fn editing_is_entered_and_left(doc: DocView, key: KeyEvent)
    requires
        doc.mode is Normal,
        !doc.vim_g_pending,
        unmodified(key),
        doc.focus == Focus::Viewer,
        doc.pending is None,
    ensures
        ({
            let after = doc.pressed(key).doc;
            let letter = key.code == KeyCode::Char('i');
            let switch = letter || key.code == KeyCode::Insert;
            &&& !doc.edit_mode && letter ==> after.edit_mode && after.edit_kind
                == EditKind::Overwrite
            &&& doc.edit_mode && switch ==> after.edit_mode && after.edit_kind != doc.edit_kind
            &&& doc.edit_mode && key.code == KeyCode::Esc ==> !after.edit_mode
            &&& (!doc.edit_mode && letter) || (doc.edit_mode && (switch || key.code
                == KeyCode::Esc)) ==> {
                &&& after.edit_high_nibble
                &&& !after.insert_at_end
                &&& after == DocView {
                    edit_mode: after.edit_mode,
                    edit_kind: after.edit_kind,
                    edit_high_nibble: true,
                    insert_at_end: false,
                    status: after.status,
                    quit_armed: after.quit_armed,
                    ..doc
                }
            }
        }),
{
    reveal(DocView::normal_key);
    reveal(DocView::view_key);
    reveal(DocView::view_plain_key);
    reveal(DocView::view_character);
    reveal(DocView::moved_by);
    reveal(DocView::overwrite_key);
    reveal(DocView::edit_key);
    reveal(DocView::kind_toggled);
    reveal(DocView::with_kind);
    reveal(DocView::committed);
    reveal(DocView::armed);
    reveal(DocView::say);
}

/// The clipboard is read only while bytes are edited.
pub proof fn pasting_needs_editing(doc: DocView, key: KeyEvent)
    requires
        doc.mode is Normal,
        !doc.vim_g_pending,
        key.modifiers.control || key.modifiers.command,
        key.code == KeyCode::Char('v') || key.code == KeyCode::Char('V'),
    ensures
        ({
            let after = doc.pressed(key).doc;
            &&& doc.edit_mode ==> after == DocView {
                effects: doc.effects.push(crate::effects::EffectView::Paste),
                ..doc
            }
            &&& !doc.edit_mode ==> after == DocView { status: after.status, ..doc }
        }),
{
    reveal(DocView::normal_key);
    reveal(DocView::overwrite_key);
    reveal(DocView::view_key);
    reveal(DocView::view_control_key);
    reveal(DocView::paste_requested);
    reveal(DocView::asking);
    reveal(DocView::say);
}

/// Other bytes end the search and drop the entropy of the old ones: no match is left, neither runs on,
/// and what runs outside is to be stopped. The lines that are shown are those of the new bytes.
pub proof fn other_bytes_end_searches(doc: DocView, bytes: Seq<u8>)
    ensures
        ({
            let after = doc.installed(bytes);
            let search = if doc.search.worker {
                doc.effects.push(crate::effects::EffectView::CancelSearch)
            } else {
                doc.effects
            };
            &&& after.search.results.len() == 0
            &&& !after.search.running
            &&& !after.search.worker
            &&& after.search.query == doc.search.query
            &&& !after.entropy_ready
            &&& !after.entropy_worker
            &&& after.effects == if doc.entropy_worker {
                search.push(crate::effects::EffectView::CancelEntropy)
            } else {
                search
            }
            &&& after.rows == crate::rows::rows_of(bytes, doc.settings)
        }),
{
    reveal(DocView::installed);
}

/// Typing, deleting, and pasting put other bytes in place of the old ones, and so end searches.
pub proof fn edits_end_searches(doc: DocView, at: int, count: int, new: Seq<u8>, value: u8)
    ensures
        doc.bytes_inserted(at, new).search.results.len() == 0,
        !doc.bytes_inserted(at, new).search.running,
        !doc.bytes_inserted(at, new).entropy_ready,
        doc.bytes_removed(at, count).search.results.len() == 0,
        !doc.bytes_removed(at, count).search.running,
        !doc.bytes_removed(at, count).entropy_ready,
        doc.edit_high_nibble && (doc.selection matches Some(s) && s.cursor < doc.length())
            ==> doc.nibble_overwritten(value).search.results.len() == 0 && !doc.nibble_overwritten(
            value,
        ).search.running && !doc.nibble_overwritten(value).entropy_ready,
{
    reveal(DocView::bytes_inserted);
    reveal(DocView::bytes_removed);
    reveal(DocView::nibble_overwritten);
    reveal(DocView::with_fields);
    reveal(DocView::installed);
    reveal(DocView::typing);
    reveal(DocView::say);
}

/// A byte of which one digit was typed over stays as it stands when the cursor moves on, and one undo
/// gives the old byte back.
pub proof fn half_typed_bytes_are_kept(
    doc: DocView,
    first: KeyEvent,
    arrow: KeyEvent,
    undo: KeyEvent,
    high: int,
    s: Selection,
)
    requires
        doc.wf(),
        edits(doc, EditKind::Overwrite),
        !doc.vim_g_pending,
        unmodified(first),
        first.code is Char,
        writes(first.code->Char_0, high),
        unmodified(arrow),
        moves(arrow.code),
        undo.modifiers.control,
        undo.code == KeyCode::Char('u'),
        doc.selection == Some(s),
    ensures
        ({
            let at = s.cursor as int;
            let half = (16 * high + doc.bytes[at] % 16) as u8;
            let left = doc.pressed(first).doc.pressed(arrow).doc;
            &&& left.bytes == doc.bytes.update(at, half)
            &&& left.pending is None
            &&& half != doc.bytes[at] ==> left.pressed(undo).doc.bytes == doc.bytes
        }),
{
    reveal(app::selection_ok);
    let at = s.cursor as int;
    let old = doc.bytes[at];
    lemma_digit_key(doc, first, high);
    lemma_overwritten_once(doc, high as u8, s);
    let typed = doc.pressed(first).doc;
    reveal(DocView::nibble_overwritten);
    reveal(DocView::typing);
    reveal(DocView::say);
    let pending = Some(PendingEdit::Overwrite { offset: s.cursor, before: old });
    let bytes = doc.bytes.update(at, doc.digit_replaced(at, high as u8));
    lemma_installed(doc.typing(pending, false), bytes);
    assert(typed.pending == pending);
    let half = (16 * high + old % 16) as u8;
    assert(typed.bytes == doc.bytes.update(at, half));
    reveal(DocView::normal_key);
    reveal(DocView::overwrite_key);
    reveal(DocView::edit_key);
    let kept_byte = typed.committed();
    let left = typed.pressed(arrow).doc;
    assert(left == kept_byte.moved_by(arrow.code, false));
    lemma_moved_frame(kept_byte, arrow.code);
    assert(kept_byte.pending is None && kept_byte.bytes == typed.bytes) by {
        app::edit::lemma_committed_frame(typed);
    }
    assert(kept_byte.mode == typed.mode && kept_byte.vim_g_pending == typed.vim_g_pending
        && kept_byte.undo == if half != old {
        typed.undo.push(EditView::Overwrite { offset: at, before: old, after: half })
    } else {
        typed.undo
    }) by {
        reveal(DocView::committed);
        reveal(DocView::recorded);
    }
    if half != old {
        lemma_undo_key(left, undo);
        lemma_undone_overwrite(left, at, old);
        assert(left.bytes.update(at, old) =~= doc.bytes);
    }
}

proof fn lemma_moved_frame(doc: DocView, code: KeyCode)
    ensures
        ({
            let after = doc.moved_by(code, false);
            &&& after.bytes == doc.bytes
            &&& after.pending == doc.pending
            &&& after.mode == doc.mode
            &&& after.vim_g_pending == doc.vim_g_pending
            &&& after.undo == doc.undo
        }),
{
    reveal(DocView::moved_by);
    reveal(DocView::cursor_moved);
    reveal(DocView::cursor_at);
    reveal(DocView::at_first_digit);
    reveal(DocView::scrolled);
}

proof fn lemma_undone_overwrite(doc: DocView, at: int, old: u8)
    requires
        doc.pending is None,
        doc.undo.len() > 0,
        doc.undo.last() is Overwrite,
        doc.undo.last()->Overwrite_offset == at,
        doc.undo.last()->Overwrite_before == old,
    ensures
        doc.undone().bytes == doc.bytes.update(at, old),
{
    reveal(DocView::undone);
    reveal(DocView::committed);
    reveal(DocView::undo_popped);
    reveal(DocView::installed);
    reveal(DocView::redo_pushed);
    reveal(DocView::landed);
    reveal(DocView::appending);
    reveal(DocView::with_selection);
    reveal(DocView::scrolled);
    reveal(DocView::say);
}

/// The first digit of a byte that is being inserted changes no byte, and is dropped when the cursor
/// moves on.
pub proof fn half_typed_insertions_are_dropped(
    doc: DocView,
    first: KeyEvent,
    arrow: KeyEvent,
    high: int,
)
    requires
        doc.wf(),
        edits(doc, EditKind::Insert),
        unmodified(first),
        first.code is Char,
        writes(first.code->Char_0, high),
        unmodified(arrow),
        moves(arrow.code),
        doc.bytes.len() > 0,
    ensures
        ({
            let left = doc.pressed(first).doc.pressed(arrow).doc;
            &&& left.bytes == doc.bytes
            &&& left.fields == doc.fields
            &&& left.pending is None
            &&& left.undo == doc.undo
        }),
{
    lemma_digit_key(doc, first, high);
    reveal(DocView::nibble_inserted);
    reveal(DocView::typing);
    reveal(DocView::say);
    reveal(DocView::normal_key);
    reveal(DocView::overwrite_key);
    reveal(DocView::edit_key);
    let typed = doc.pressed(first).doc;
    let base = typed.committed();
    assert(typed.pressed(arrow).doc == base.moved_by(arrow.code, false));
    assert(base == typed.typing(None, true)) by {
        reveal(DocView::committed);
    }
    lemma_moved_frame(base, arrow.code);
    reveal(DocView::moved_by);
    reveal(DocView::cursor_moved);
    reveal(DocView::cursor_at);
    reveal(DocView::at_first_digit);
    reveal(DocView::scrolled);
}

/// Undo and redo select the byte at which the change was made, or the last one, and hand the change
/// over to each other: what was taken back can be made again, and the other way around.
pub proof fn undo_and_redo_go_to_the_change(doc: DocView)
    requires
        doc.wf(),
        doc.pending is None,
        !(doc.mode is Field),
    ensures
        doc.undo.len() > 0 ==> {
            let after = doc.undone();
            let at = doc.undo.last().at();
            &&& after.bytes.len() == 0 ==> after.selection is None
            &&& after.bytes.len() > 0 ==> after.selection == Some(
                Selection::at(if at < after.bytes.len() {
                    at
                } else {
                    after.bytes.len() - 1
                }),
            )
            &&& after.additional.len() == 0
            &&& after.undo == doc.undo.drop_last()
            &&& after.redo == doc.redo.push(doc.undo.last())
        },
        doc.redo.len() > 0 ==> {
            let after = doc.redone();
            let at = doc.redo.last().at();
            &&& after.bytes.len() == 0 ==> after.selection is None
            &&& after.bytes.len() > 0 ==> after.selection == Some(
                Selection::at(if at < after.bytes.len() {
                    at
                } else {
                    after.bytes.len() - 1
                }),
            )
            &&& after.additional.len() == 0
            &&& after.redo == doc.redo.drop_last()
            &&& after.undo == doc.undo.push(doc.redo.last())
        },
{
    assert(doc.committed() == doc) by {
        reveal(DocView::committed);
    }
    reveal(DocView::undone);
    reveal(DocView::redone);
    reveal(DocView::undo_popped);
    reveal(DocView::redo_popped);
    reveal(DocView::redo_pushed);
    reveal(DocView::undo_pushed);
    reveal(DocView::say);
    if doc.undo.len() > 0 {
        let action = doc.undo.last();
        lemma_reverted_frame(doc.undo_popped(), action);
        let back = doc.undo_popped().reverted(action).redo_pushed(action);
        lemma_landed_at(back, action.at());
    }
    if doc.redo.len() > 0 {
        let action = doc.redo.last();
        lemma_reverted_frame(doc.redo_popped(), action);
        let on = doc.redo_popped().reapplied(action).undo_pushed(action);
        lemma_landed_at(on, action.at());
    }
}

proof fn lemma_reverted_frame(doc: DocView, action: EditView)
    ensures
        doc.reverted(action).undo == doc.undo,
        doc.reverted(action).redo == doc.redo,
        doc.reapplied(action).undo == doc.undo,
        doc.reapplied(action).redo == doc.redo,
{
    reveal(DocView::bytes_removed);
    reveal(DocView::bytes_inserted);
    reveal(DocView::with_fields);
    reveal(DocView::installed);
}

proof fn lemma_landed_at(doc: DocView, offset: int)
    ensures
        ({
            let after = doc.landed(offset);
            &&& doc.bytes.len() == 0 ==> after.selection is None
            &&& doc.bytes.len() > 0 ==> after.selection == Some(
                Selection::at(if offset < doc.bytes.len() {
                    offset
                } else {
                    doc.bytes.len() - 1
                }),
            )
            &&& after.additional.len() == 0
            &&& after.undo == doc.undo
            &&& after.redo == doc.redo
            &&& after.bytes == doc.bytes
        }),
{
    reveal(DocView::landed);
    reveal(DocView::appending);
    reveal(DocView::with_selection);
    reveal(DocView::scrolled);
}

/// An insertion or a deletion that is taken back and made again leaves the fields as it left them.
pub proof fn fields_follow_undo_and_redo(doc: DocView)
    requires
        doc.wf(),
        doc.pending is None,
        doc.undo.len() > 0,
        doc.bytes.len() < usize::MAX,
    ensures
        doc.undo.last() is Delete && doc.undo.last()->Delete_bytes.len() + doc.bytes.len()
            <= usize::MAX ==> doc.undone().redone().fields == doc.fields,
        doc.undo.last() is Overwrite || doc.undo.last() is OverwriteMany ==> doc.undone().fields
            == doc.fields,
{
    reveal(app::fields_ok);
    reveal(app::history_ok);
    let action = doc.undo.last();
    lemma_undone_insertion(doc, action);
    lemma_undo_hands_over(doc);
    lemma_redone_deletion(doc.undone());
    if let EditView::Delete { offset, bytes } = action {
        if bytes.len() + doc.bytes.len() <= usize::MAX {
            editing::fields_return_after_insertion(
                doc.fields,
                doc.length(),
                offset,
                bytes.len() as int,
            );
        }
    }
}

proof fn lemma_undo_hands_over(doc: DocView)
    requires
        doc.pending is None,
        doc.undo.len() > 0,
    ensures
        doc.undone().redo.len() > 0,
        doc.undone().redo.last() == doc.undo.last(),
        doc.undone().pending is None,
{
    reveal(DocView::undone);
    reveal(DocView::committed);
    reveal(DocView::undo_popped);
    reveal(DocView::bytes_removed);
    reveal(DocView::bytes_inserted);
    reveal(DocView::with_fields);
    reveal(DocView::installed);
    reveal(DocView::redo_pushed);
    reveal(DocView::landed);
    reveal(DocView::appending);
    reveal(DocView::with_selection);
    reveal(DocView::scrolled);
    reveal(DocView::say);
}

proof fn lemma_redone_deletion(doc: DocView)
    requires
        doc.pending is None,
        doc.redo.len() > 0,
    ensures
        doc.redo.last() matches EditView::Delete { offset, bytes } ==> doc.redone().fields
            == editing::shifted_left(doc.fields, offset, bytes.len() as int),
{
    reveal(DocView::redone);
    reveal(DocView::committed);
    reveal(DocView::redo_popped);
    reveal(DocView::bytes_removed);
    reveal(DocView::with_fields);
    reveal(DocView::installed);
    reveal(DocView::undo_pushed);
    reveal(DocView::landed);
    reveal(DocView::appending);
    reveal(DocView::with_selection);
    reveal(DocView::scrolled);
    reveal(DocView::say);
}

/// With nothing selected the keys that delete change nothing but the message, and so does pasting over
/// bytes.
pub proof fn nothing_selected_is_not_deleted(doc: DocView, key: KeyEvent, content: Seq<char>)
    requires
        doc.mode is Normal,
        doc.edit_mode,
        doc.pending is None,
        unmodified(key),
        key.code == KeyCode::Backspace || key.code == KeyCode::Delete,
        doc.selection is None,
    ensures
        doc.pressed(key).doc == (DocView { status: doc.pressed(key).doc.status, ..doc }),
        doc.edit_kind == EditKind::Overwrite ==> doc.paste_finished(Ok(content)) == (DocView {
            status: doc.paste_finished(Ok(content)).status,
            ..doc
        }),
{
    reveal(DocView::normal_key);
    reveal(DocView::overwrite_key);
    reveal(DocView::edit_key);
    reveal(DocView::selection_deleted);
    reveal(DocView::hex_pasted);
    reveal(DocView::paste_overwritten);
    reveal(DocView::committed);
    reveal(DocView::say);
}

/// In View Mode the keys that edit bytes change none.
pub proof fn viewing_changes_no_byte(doc: DocView, key: KeyEvent)
    requires
        at_rest(doc),
        !key.modifiers.control,
    ensures
        doc.pressed(key).doc.bytes == doc.bytes,
        doc.pressed(key).doc.saved == doc.saved,
{
    reveal(DocView::normal_key);
    reveal(DocView::view_key);
    reveal(DocView::view_plain_key);
    reveal(DocView::view_character);
    reveal(DocView::selection_copied);
    reveal(DocView::paste_requested);
    reveal(DocView::asking);
    reveal(DocView::say);
    reveal(DocView::armed);
    reveal(DocView::in_mode);
    reveal(DocView::focused);
    reveal(DocView::with_first_g);
    reveal(DocView::with_kind);
    reveal(DocView::with_settings);
    lemma_view_steps(doc, key);
}

proof fn lemma_view_steps(doc: DocView, key: KeyEvent)
    ensures
        doc.moved_by(key.code, key.modifiers.shift).bytes == doc.bytes,
        doc.moved_by(key.code, key.modifiers.shift).saved == doc.saved,
        doc.cursor_at(doc.length() - 1, false).bytes == doc.bytes,
        doc.cursor_at(doc.length() - 1, false).saved == doc.saved,
        doc.next_result().bytes == doc.bytes,
        doc.next_result().saved == doc.saved,
        doc.previous_result().bytes == doc.bytes,
        doc.previous_result().saved == doc.saved,
        doc.next_field().bytes == doc.bytes,
        doc.next_field().saved == doc.saved,
        doc.previous_field().bytes == doc.bytes,
        doc.previous_field().saved == doc.saved,
        doc.field_deleted().bytes == doc.bytes,
        doc.field_deleted().saved == doc.saved,
        doc.field_opened().bytes == doc.bytes,
        doc.field_opened().saved == doc.saved,
{
    assert(doc.moved_by(key.code, key.modifiers.shift).bytes == doc.bytes && doc.moved_by(
        key.code,
        key.modifiers.shift,
    ).saved == doc.saved && doc.cursor_at(doc.length() - 1, false).bytes == doc.bytes
        && doc.cursor_at(doc.length() - 1, false).saved == doc.saved) by {
        reveal(DocView::moved_by);
        reveal(DocView::cursor_moved);
        reveal(DocView::cursor_at);
        reveal(DocView::at_first_digit);
        reveal(DocView::scrolled);
    }
    assert(doc.next_result().bytes == doc.bytes && doc.next_result().saved == doc.saved
        && doc.previous_result().bytes == doc.bytes && doc.previous_result().saved == doc.saved) by {
        reveal(DocView::next_result);
        reveal(DocView::previous_result);
        reveal(DocView::with_search);
        reveal(DocView::result_shown);
        reveal(DocView::selecting_also);
        reveal(DocView::scrolled);
        reveal(DocView::say);
    }
    assert(doc.field_deleted().bytes == doc.bytes && doc.field_deleted().saved == doc.saved
        && doc.field_opened().bytes == doc.bytes && doc.field_opened().saved == doc.saved) by {
        reveal(DocView::field_deleted);
        reveal(DocView::field_opened);
        reveal(DocView::with_fields);
        reveal(DocView::fields_scrolled);
        reveal(DocView::say);
        reveal(DocView::asking);
        reveal(DocView::in_mode);
    }
    lemma_field_steps(doc);
}

proof fn lemma_field_steps(doc: DocView)
    ensures
        doc.next_field().bytes == doc.bytes,
        doc.next_field().saved == doc.saved,
        doc.previous_field().bytes == doc.bytes,
        doc.previous_field().saved == doc.saved,
{
    reveal(DocView::next_field);
    reveal(DocView::previous_field);
    reveal(DocView::field_chosen);
    reveal(DocView::field_activated);
    reveal(DocView::with_selection);
    reveal(DocView::scrolled);
    reveal(DocView::fields_scrolled);
    let back = doc.field_chosen(geometry::minus(doc.selected_field, 1));
    let on = doc.field_chosen(geometry::min(doc.selected_field + 1, doc.fields.len() - 1));
    app::edit::lemma_committed_frame(back);
    app::edit::lemma_committed_frame(on);
}

proof fn lemma_console_keys(doc: DocView, key: KeyEvent, value: int)
    requires
        doc.mode is Python,
        doc.focus == Focus::Viewer,
        doc.edit_mode,
    ensures
        unmodified(key) && key.code is Char && writes(key.code->Char_0, value) ==> doc.pressed(
            key,
        ).doc == doc.nibble_typed(value as u8),
        key.modifiers.control && key.code == KeyCode::Char('u') ==> doc.pressed(key).doc
            == doc.undone(),
        key.modifiers.control && key.code == KeyCode::Char('r') ==> doc.pressed(key).doc
            == doc.redone(),
{
    if key.code is Char && writes(key.code->Char_0, value) {
        lemma_writes(key.code->Char_0, value);
    }
    reveal(DocView::python_key);
    reveal(DocView::python_content_key);
    reveal(DocView::python_overwrite_key);
    reveal(DocView::edit_key);
}

/// Beside the console two digits put their byte in place of the one at the cursor, too, and one undo
/// gives the old byte back; the console stays as it is.
pub proof fn two_digits_overwrite_beside_the_console(
    doc: DocView,
    first: KeyEvent,
    second: KeyEvent,
    undo: KeyEvent,
    high: int,
    low: int,
    s: Selection,
)
    requires
        doc.wf(),
        doc.mode is Python,
        doc.focus == Focus::Viewer,
        doc.edit_mode,
        doc.edit_kind == EditKind::Overwrite,
        doc.edit_high_nibble,
        doc.pending is None,
        unmodified(first),
        unmodified(second),
        first.code is Char,
        second.code is Char,
        writes(first.code->Char_0, high),
        writes(second.code->Char_0, low),
        undo.modifiers.control,
        undo.code == KeyCode::Char('u'),
        doc.selection == Some(s),
    ensures
        ({
            let at = s.cursor as int;
            let after = doc.pressed(first).doc.pressed(second).doc;
            &&& after.bytes.len() == doc.bytes.len()
            &&& after.bytes[at] == 16 * high + low
            &&& forall|i: int|
                0 <= i < doc.bytes.len() && i != at ==> #[trigger] after.bytes[i] == doc.bytes[i]
            &&& after.fields == doc.fields
            &&& after.selection == Some(
                Selection::at(if at + 1 < doc.bytes.len() {
                    at + 1
                } else {
                    at
                }),
            )
            &&& after.mode == doc.mode
            &&& after.saved == doc.saved
            &&& doc.bytes[at] != 16 * high + low ==> after.pressed(undo).doc.bytes == doc.bytes
        }),
{
    reveal(app::selection_ok);
    let at = s.cursor as int;
    lemma_console_keys(doc, first, high);
    lemma_overwritten_once(doc, high as u8, s);
    let half = doc.pressed(first).doc;
    lemma_console_keys(half, second, low);
    lemma_overwritten_twice(half, low as u8, s);
    let after = half.pressed(second).doc;
    app::laws::typed_byte_is_taken_back(doc, high as u8, low as u8);
    lemma_console_keys(after, undo, 0);
    assert(after.bytes[at] == 16 * high + low);
}

/// Beside the console the letter for editing starts Overwrite Mode and the escape key ends it; the
/// console stays open, and the file is not saved. What is undone is redone.
pub proof fn editing_is_entered_and_left_beside_the_console(
    doc: DocView,
    key: KeyEvent,
    undo: KeyEvent,
    redo: KeyEvent,
)
    requires
        doc.wf(),
        doc.in_step(),
        doc.mode is Python,
        doc.focus == Focus::Viewer,
        doc.pending is None,
        undo.modifiers.control,
        undo.code == KeyCode::Char('u'),
        redo.modifiers.control,
        redo.code == KeyCode::Char('r'),
    ensures
        ({
            let after = doc.pressed(key).doc;
            let enters = !doc.edit_mode && unmodified(key) && key.code == KeyCode::Char('i');
            let leaves = doc.edit_mode && key.code == KeyCode::Esc;
            &&& enters || leaves ==> after == DocView {
                edit_mode: enters,
                edit_kind: EditKind::Overwrite,
                edit_high_nibble: true,
                insert_at_end: false,
                status: after.status,
                ..doc
            }
            &&& doc.edit_mode && key.modifiers.control && key.code == KeyCode::Char('s') ==> after
                == DocView { status: "Close the Python pane before saving the binary"@, ..doc }
            &&& doc.edit_mode && doc.undo.len() > 0 ==> doc.pressed(undo).doc.pressed(redo).doc.bytes
                == doc.bytes
            &&& doc.edit_mode && doc.redo.len() > 0 ==> doc.pressed(redo).doc.pressed(undo).doc.bytes
                == doc.bytes
        }),
{
    reveal(DocView::python_key);
    reveal(DocView::python_escape);
    reveal(DocView::python_content_key);
    reveal(DocView::with_kind);
    reveal(DocView::committed);
    reveal(DocView::say);
    if doc.edit_mode {
        assert(key.modifiers.control && key.code == KeyCode::Char('s') ==> doc.pressed(key).doc
            == doc.say("Close the Python pane before saving the binary"@)) by {
            reveal(DocView::python_overwrite_key);
        }
        lemma_undo_beside_the_console(doc, undo, redo);
    }
}

proof fn lemma_undo_beside_the_console(doc: DocView, undo: KeyEvent, redo: KeyEvent)
    requires
        doc.wf(),
        doc.in_step(),
        doc.mode is Python,
        doc.focus == Focus::Viewer,
        doc.edit_mode,
        doc.pending is None,
        undo.modifiers.control,
        undo.code == KeyCode::Char('u'),
        redo.modifiers.control,
        redo.code == KeyCode::Char('r'),
    ensures
        doc.undo.len() > 0 ==> doc.pressed(undo).doc.pressed(redo).doc.bytes == doc.bytes,
        doc.redo.len() > 0 ==> doc.pressed(redo).doc.pressed(undo).doc.bytes == doc.bytes,
{
    lemma_console_keys(doc, undo, 0);
    lemma_console_keys(doc, redo, 0);
    assert(doc.committed() == doc) by {
        reveal(DocView::committed);
    }
    app::steps::undo_and_redo_restore(doc);
    lemma_step_frame(doc);
    lemma_console_keys(doc.undone(), redo, 0);
    lemma_console_keys(doc.redone(), undo, 0);
}


} // verus!
