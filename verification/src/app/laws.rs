//! What holds of an open file whatever is done with it.

use vstd::prelude::*;

use crate::app;
use crate::app::edit;
use crate::app::keys;
use crate::app::DocView;
use crate::codec;
use crate::editing;
use crate::editing::{EditKind, EditView, PendingEdit};
use crate::effects::EffectView;
use crate::geometry;
use crate::input::{KeyCode, KeyEvent, MouseEvent};
use crate::model::Selection;
use crate::modes::{ModeView, ResetTarget};
use crate::python::{PaneView, SnapshotView};
use crate::selection;

verus! {

impl EditView {
    /// Whether the bytes are such as the change leaves behind.
    pub open spec fn wrote(self, bytes: Seq<u8>) -> bool {
        match self {
            EditView::Overwrite { offset, after, .. } => 0 <= offset < bytes.len() && bytes[offset]
                == after,
            EditView::OverwriteMany { offset, before, after } => {
                &&& 0 <= offset
                &&& offset + after.len() <= bytes.len()
                &&& before.len() == after.len()
                &&& after.len() > 0
                &&& bytes.subrange(offset, offset + after.len()) == after
            },
            EditView::Insert { offset, byte } => 0 <= offset < bytes.len() && bytes[offset] == byte,
            EditView::InsertMany { offset, bytes: new } => {
                &&& 0 <= offset
                &&& offset + new.len() <= bytes.len()
                &&& new.len() > 0
                &&& bytes.subrange(offset, offset + new.len()) == new
            },
            EditView::Delete { offset, bytes: old } => 0 <= offset <= bytes.len() && old.len() > 0,
        }
    }
}

/// Whether recorded changes lead, one after the other, to these bytes.
pub open spec fn leads_to(actions: Seq<EditView>, bytes: Seq<u8>) -> bool
    decreases actions.len(),
{
    actions.len() == 0 || {
        &&& actions.last().wrote(bytes)
        &&& leads_to(actions.drop_last(), actions.last().undone(bytes))
    }
}

/// Whether changes that were taken back lead, one after the other, on from these bytes.
pub open spec fn leads_on_from(actions: Seq<EditView>, bytes: Seq<u8>) -> bool
    decreases actions.len(),
{
    actions.len() == 0 || {
        &&& actions.last().records(bytes)
        &&& leads_on_from(actions.drop_last(), actions.last().redone(bytes))
    }
}

impl DocView {
    /// The bytes without the change that is being typed.
    pub open spec fn settled_bytes(self) -> Seq<u8> {
        match self.pending {
            Some(PendingEdit::Overwrite { offset, before }) => self.bytes.update(
                offset as int,
                before,
            ),
            _ => self.bytes,
        }
    }

    /// Whether the digit that is expected, the kind of editing, and the cursor fit the byte that
    /// is being typed.
    pub open spec fn typing_in_order(self) -> bool {
        match self.pending {
            None => self.edit_high_nibble,
            Some(PendingEdit::Overwrite { offset, .. }) => {
                &&& !self.edit_high_nibble
                &&& self.edit_kind == EditKind::Overwrite
                &&& self.selection matches Some(s) && s.cursor == offset
                &&& offset < self.length()
            },
            Some(PendingEdit::Insert { .. }) => !self.edit_high_nibble && self.edit_kind
                == EditKind::Insert,
        }
    }

    /// Whether what is recorded is what happened: the recorded changes lead to the bytes, those
    /// that were taken back lead on from them, and the offsets that are marked as changed are
    /// those at which the bytes differ from the saved ones.
    pub open spec fn traced(self) -> bool {
        &&& leads_to(self.undo, self.settled_bytes())
        &&& leads_on_from(self.redo, self.settled_bytes())
        &&& self.typing_in_order()
        &&& self.modified == editing::changes(self.bytes, self.saved)
    }
}

/// What the history of a file depends on is the same in two states.
spec fn same_record(a: DocView, b: DocView) -> bool {
    &&& a.bytes == b.bytes
    &&& a.saved == b.saved
    &&& a.modified == b.modified
    &&& a.undo == b.undo
    &&& a.redo == b.redo
    &&& a.pending == b.pending
    &&& a.edit_high_nibble == b.edit_high_nibble
    &&& a.edit_kind == b.edit_kind
}

/// A change that recorded what it replaced leads to the changed bytes.
proof fn lemma_made(action: EditView, bytes: Seq<u8>)
    requires
        action.records(bytes),
    ensures
        action.wrote(action.redone(bytes)),
        action.undone(action.redone(bytes)) == bytes,
{
    editing::undo_takes_back_an_edit(action, bytes);
    let after = action.redone(bytes);
    match action {
        EditView::OverwriteMany { offset, after: new, .. } => {
            assert(after.subrange(offset, offset + new.len()) =~= new);
        },
        EditView::InsertMany { offset, bytes: new } => {
            assert(after.subrange(offset, offset + new.len()) =~= new);
        },
        _ => {},
    }
}

/// A change that leads to some bytes can be taken back and made again.
proof fn lemma_unmade(action: EditView, bytes: Seq<u8>)
    requires
        action.wrote(bytes),
    ensures
        action.records(action.undone(bytes)),
        action.redone(action.undone(bytes)) == bytes,
{
    let before = action.undone(bytes);
    match action {
        EditView::Overwrite { offset, .. } => {
            assert(action.redone(before) =~= bytes);
        },
        EditView::OverwriteMany { offset, before: old, after } => {
            assert forall|i: int| offset <= i < offset + after.len() implies bytes[i] == after[i
                - offset] by {
                assert(bytes.subrange(offset, offset + after.len())[i - offset] == bytes[i]);
            }
            assert(before.subrange(offset, offset + old.len()) =~= old);
            assert(action.redone(before) =~= bytes);
        },
        EditView::Insert { offset, byte } => {
            assert(action.redone(before) =~= bytes);
        },
        EditView::InsertMany { offset, bytes: new } => {
            assert forall|i: int| offset <= i < offset + new.len() implies bytes[i] == new[i
                - offset] by {
                assert(bytes.subrange(offset, offset + new.len())[i - offset] == bytes[i]);
            }
            assert(action.redone(before) =~= bytes);
        },
        EditView::Delete { offset, bytes: old } => {
            assert(before.subrange(offset, offset + old.len()) =~= old);
            assert(action.redone(before) =~= bytes);
        },
    }
}

proof fn lemma_say_record(doc: DocView, message: Seq<char>)
    ensures
        same_record(doc.say(message), doc),
{
    reveal(DocView::say);
}

proof fn lemma_selecting_record(doc: DocView, offset: int)
    ensures
        same_record(doc.selecting(offset), doc),
{
    reveal(DocView::with_selection);
    reveal(DocView::scrolled);
}

proof fn lemma_appending_record(doc: DocView, at_end: bool)
    ensures
        same_record(doc.appending(at_end), doc),
{
    reveal(DocView::appending);
}

proof fn lemma_after_insertion_record(doc: DocView, offset: int, count: int)
    ensures
        same_record(doc.after_insertion(offset, count), doc),
{
    reveal(DocView::after_insertion);
    let at_end = offset + count == doc.length();
    lemma_appending_record(doc, at_end);
    lemma_selecting_record(
        doc.appending(at_end),
        geometry::min(offset + count, doc.length() - 1),
    );
    assert(doc.appending(at_end).length() == doc.length());
}

proof fn lemma_landed_record(doc: DocView, offset: int)
    ensures
        same_record(doc.landed(offset), doc),
{
    reveal(DocView::landed);
    lemma_appending_record(doc, false);
    if doc.bytes.len() == 0 {
        reveal(DocView::with_selection);
    } else {
        lemma_selecting_record(doc.appending(false), geometry::min(offset, doc.length() - 1));
    }
}

/// What other bytes leave as it is.
proof fn lemma_installed_record(doc: DocView, bytes: Seq<u8>)
    ensures
        ({
            let after = doc.installed(bytes);
            &&& after.bytes == bytes
            &&& after.saved == doc.saved
            &&& after.modified == editing::changes(bytes, doc.saved)
            &&& after.undo == doc.undo
            &&& after.redo == doc.redo
            &&& after.pending == doc.pending
            &&& after.edit_high_nibble == doc.edit_high_nibble
            &&& after.edit_kind == doc.edit_kind
            &&& after.selection == doc.selection
        }),
{
    reveal(DocView::installed);
}

proof fn lemma_inserted_record(doc: DocView, offset: int, new: Seq<u8>)
    ensures
        ({
            let bytes = editing::inserted(doc.bytes, offset, new);
            let after = doc.bytes_inserted(offset, new);
            &&& after.bytes == bytes
            &&& after.saved == doc.saved
            &&& after.modified == editing::changes(bytes, doc.saved)
            &&& after.undo == doc.undo
            &&& after.redo == doc.redo
            &&& after.pending == doc.pending
            &&& after.edit_high_nibble == doc.edit_high_nibble
            &&& after.edit_kind == doc.edit_kind
        }),
{
    reveal(DocView::bytes_inserted);
    reveal(DocView::with_fields);
    reveal(DocView::installed);
}

proof fn lemma_removed_record(doc: DocView, offset: int, count: int)
    ensures
        ({
            let bytes = editing::removed(doc.bytes, offset, count);
            let after = doc.bytes_removed(offset, count);
            &&& after.bytes == bytes
            &&& after.saved == doc.saved
            &&& after.modified == editing::changes(bytes, doc.saved)
            &&& after.undo == doc.undo
            &&& after.redo == doc.redo
            &&& after.pending == doc.pending
            &&& after.edit_high_nibble == doc.edit_high_nibble
            &&& after.edit_kind == doc.edit_kind
        }),
{
    reveal(DocView::bytes_removed);
    reveal(DocView::with_fields);
    reveal(DocView::installed);
}

/// Keeping the byte that is being typed as it stands keeps the history of the file true.
pub proof fn keeping_a_byte_is_traced(doc: DocView)
    requires
        doc.traced(),
    ensures
        doc.committed().traced(),
        doc.committed().bytes == doc.bytes,
        doc.committed().pending is None,
{
    reveal(DocView::committed);
    reveal(DocView::recorded);
    reveal(DocView::typing);
    let after = doc.committed();
    match doc.pending {
        Some(PendingEdit::Overwrite { offset, before }) => {
            let byte = doc.bytes[offset as int];
            if before != byte {
                let action = EditView::Overwrite { offset: offset as int, before, after: byte };
                assert(after.undo.drop_last() =~= doc.undo);
                assert(action.undone(doc.bytes) =~= doc.settled_bytes());
            } else {
                assert(doc.settled_bytes() =~= doc.bytes);
            }
        },
        _ => {},
    }
}

/// Whether a change was made and recorded, and nothing else happened to the bytes.
spec fn recorded_as(before: DocView, after: DocView, action: EditView) -> bool {
    &&& action.records(before.bytes)
    &&& after.bytes == action.redone(before.bytes)
    &&& after.undo == before.undo.push(action)
    &&& after.redo.len() == 0
    &&& after.pending is None
    &&& after.edit_high_nibble
    &&& after.saved == before.saved
    &&& after.modified == editing::changes(after.bytes, after.saved)
}

/// A change that is made and recorded keeps the history of a file true.
proof fn lemma_recorded(before: DocView, after: DocView, action: EditView)
    requires
        before.traced(),
        before.pending is None,
        recorded_as(before, after, action),
    ensures
        after.traced(),
{
    lemma_made(action, before.bytes);
    assert(after.undo.drop_last() =~= before.undo);
}

/// What taking back the last change does.
proof fn lemma_undone(doc: DocView)
    requires
        doc.committed().undo.len() > 0,
        doc.committed().pending is None,
        doc.committed().edit_high_nibble,
        doc.committed().bytes == doc.bytes,
    ensures
        ({
            let base = doc.committed();
            let action = base.undo.last();
            let after = doc.undone();
            &&& after.bytes == action.undone(doc.bytes)
            &&& after.saved == base.saved
            &&& after.modified == editing::changes(after.bytes, after.saved)
            &&& after.undo == base.undo.drop_last()
            &&& after.redo == base.redo.push(action)
            &&& after.pending is None
            &&& after.edit_high_nibble
        }),
{
    reveal(DocView::undone);
    reveal(DocView::undo_popped);
    reveal(DocView::redo_pushed);
    let base = doc.committed();
    let action = base.undo.last();
    let popped = base.undo_popped();
    let reverted = popped.reverted(action);
    match action {
        EditView::Overwrite { .. } | EditView::OverwriteMany { .. } => {
            lemma_installed_record(popped, action.undone(popped.bytes));
        },
        EditView::Insert { offset, .. } => {
            lemma_removed_record(popped, offset, 1);
        },
        EditView::InsertMany { offset, bytes } => {
            lemma_removed_record(popped, offset, bytes.len() as int);
        },
        EditView::Delete { offset, bytes } => {
            lemma_inserted_record(popped, offset, bytes);
        },
    }
    let pushed = reverted.redo_pushed(action);
    lemma_landed_record(pushed, action.at());
    lemma_say_record(
        pushed.landed(action.at()),
        "Undid "@ + action.description() + " at 0x"@ + crate::numbers::hex(action.at() as nat),
    );
}

/// What making the last change again does that was taken back.
proof fn lemma_redone(doc: DocView)
    requires
        doc.committed().redo.len() > 0,
        doc.committed().pending is None,
        doc.committed().edit_high_nibble,
        doc.committed().bytes == doc.bytes,
    ensures
        ({
            let base = doc.committed();
            let action = base.redo.last();
            let after = doc.redone();
            &&& after.bytes == action.redone(doc.bytes)
            &&& after.saved == base.saved
            &&& after.modified == editing::changes(after.bytes, after.saved)
            &&& after.redo == base.redo.drop_last()
            &&& after.undo == base.undo.push(action)
            &&& after.pending is None
            &&& after.edit_high_nibble
        }),
{
    reveal(DocView::redone);
    reveal(DocView::redo_popped);
    reveal(DocView::undo_pushed);
    let base = doc.committed();
    let action = base.redo.last();
    let popped = base.redo_popped();
    let reapplied = popped.reapplied(action);
    match action {
        EditView::Overwrite { .. } | EditView::OverwriteMany { .. } => {
            lemma_installed_record(popped, action.redone(popped.bytes));
        },
        EditView::Insert { offset, byte } => {
            lemma_inserted_record(popped, offset, seq![byte]);
        },
        EditView::InsertMany { offset, bytes } => {
            lemma_inserted_record(popped, offset, bytes);
        },
        EditView::Delete { offset, bytes } => {
            lemma_removed_record(popped, offset, bytes.len() as int);
        },
    }
    let pushed = reapplied.undo_pushed(action);
    lemma_landed_record(pushed, action.at());
    lemma_say_record(
        pushed.landed(action.at()),
        "Redid "@ + action.description() + " at 0x"@ + crate::numbers::hex(action.at() as nat),
    );
}

/// A file that was just opened has a true history: none.
pub proof fn opening_is_traced(path: Seq<char>, bytes: Seq<u8>)
    requires
        bytes.len() <= usize::MAX,
    ensures
        DocView::opened(path, bytes).traced(),
{
    editing::no_changes_means_equal(bytes, bytes);
    assert(editing::changes(bytes, bytes) =~= Set::<usize>::empty());
}

/// Taking back a change and making one again keep the history of a file true.
pub proof fn undo_and_redo_are_traced(doc: DocView)
    requires
        doc.traced(),
    ensures
        doc.undone().traced(),
        doc.redone().traced(),
{
    keeping_a_byte_is_traced(doc);
    let base = doc.committed();
    if base.undo.len() > 0 {
        lemma_undone(doc);
        let action = base.undo.last();
        lemma_unmade(action, doc.bytes);
        assert(doc.undone().redo.drop_last() =~= base.redo);
    } else {
        reveal(DocView::undone);
        reveal(DocView::say);
    }
    if base.redo.len() > 0 {
        lemma_redone(doc);
        let action = base.redo.last();
        lemma_made(action, doc.bytes);
        assert(doc.redone().undo.drop_last() =~= base.undo);
    } else {
        reveal(DocView::redone);
        reveal(DocView::say);
    }
}

/// A change that is taken back and made again leaves the bytes as they were, and so does one that
/// is made again and taken back.
pub proof fn undo_and_redo_are_inverse(doc: DocView)
    requires
        doc.traced(),
    ensures
        doc.committed().undo.len() > 0 ==> doc.undone().redone().bytes == doc.bytes,
        doc.committed().redo.len() > 0 ==> doc.redone().undone().bytes == doc.bytes,
{
    keeping_a_byte_is_traced(doc);
    undo_and_redo_are_traced(doc);
    let base = doc.committed();
    if base.undo.len() > 0 {
        lemma_undone(doc);
        let action = base.undo.last();
        lemma_unmade(action, doc.bytes);
        keeping_a_byte_is_traced(doc.undone());
        reveal(DocView::committed);
        assert(doc.undone().committed() == doc.undone());
        lemma_redone(doc.undone());
        assert(doc.undone().redo.last() == action);
    }
    if base.redo.len() > 0 {
        lemma_redone(doc);
        let action = base.redo.last();
        lemma_made(action, doc.bytes);
        keeping_a_byte_is_traced(doc.redone());
        reveal(DocView::committed);
        assert(doc.redone().committed() == doc.redone());
        lemma_undone(doc.redone());
        assert(doc.redone().undo.last() == action);
    }
}

/// Whether taking back the last change gives the bytes of an earlier state back, with the offsets
/// marked at which they differ from the saved ones.
pub open spec fn taken_back(before: DocView, after: DocView) -> bool {
    &&& after.undone().bytes == before.bytes
    &&& after.undone().modified == editing::changes(before.bytes, before.saved)
}

/// A recorded change is taken back to the bytes before it.
proof fn lemma_taken_back(before: DocView, after: DocView, action: EditView)
    requires
        recorded_as(before, after, action),
    ensures
        taken_back(before, after),
{
    reveal(DocView::committed);
    assert(after.committed() == after);
    lemma_undone(after);
    lemma_made(action, before.bytes);
    assert(after.undo.last() == action);
}

/// What deleting bytes records.
spec fn deletion_of(doc: DocView) -> EditView {
    let s = doc.selection->Some_0;
    let start = geometry::min(s.low(), doc.length() - 1);
    let end = geometry::min(s.high(), doc.length() - 1);
    EditView::Delete { offset: start, bytes: doc.bytes.subrange(start, end + 1) }
}

proof fn lemma_deletion_recorded(base: DocView)
    requires
        base.placed(),
        base.pending is None,
        base.edit_high_nibble,
        base.selection is Some,
        base.length() > 0,
    ensures
        recorded_as(base, base.selection_deleted(), deletion_of(base)),
{
    reveal(app::selection_ok);
    reveal(DocView::committed);
    reveal(DocView::selection_deleted);
    reveal(DocView::recorded);
    let s = base.selection->Some_0;
    let start = geometry::min(s.low(), base.length() - 1);
    let end = geometry::min(s.high(), base.length() - 1);
    let count = end - start + 1;
    lemma_removed_record(base, start, count);
    let recorded = base.bytes_removed(start, count).recorded(deletion_of(base));
    lemma_landed_record(recorded, start);
    lemma_say_record(
        recorded.landed(start),
        "Deleted "@ + crate::numbers::decimal(count as nat) + " byte(s); Ctrl+S saves"@,
    );
}

/// Deleting bytes keeps the history of a file true.
pub proof fn deleting_is_traced(doc: DocView)
    requires
        doc.wf(),
        doc.traced(),
    ensures
        doc.selection_deleted().traced(),
{
    keeping_a_byte_is_traced(doc);
    edit::lemma_committed_frame(doc);
    let base = doc.committed();
    assert(base.committed() == base) by {
        reveal(DocView::committed);
    }
    assert(doc.selection_deleted() == base.selection_deleted()) by {
        reveal(DocView::selection_deleted);
    }
    if base.selection is Some && base.bytes.len() > 0 {
        lemma_deletion_recorded(base);
        lemma_recorded(base, base.selection_deleted(), deletion_of(base));
    } else {
        reveal(DocView::selection_deleted);
        lemma_say_record(base, "No bytes selected to delete"@);
    }
}

/// Taking back a deletion gives the deleted bytes back.
pub proof fn deletion_is_taken_back(doc: DocView)
    requires
        doc.wf(),
        doc.pending is None,
        doc.edit_high_nibble,
        doc.selection is Some,
    ensures
        taken_back(doc, doc.selection_deleted()),
{
    reveal(app::selection_ok);
    lemma_deletion_recorded(doc);
    lemma_taken_back(doc, doc.selection_deleted(), deletion_of(doc));
}

/// Where bytes are inserted lies in the file.
proof fn lemma_insertion_point(doc: DocView)
    requires
        doc.placed(),
    ensures
        0 <= doc.insertion_point() <= doc.length(),
{
    reveal(app::selection_ok);
}

/// What pasting bytes records.
spec fn paste_of(doc: DocView, new: Seq<u8>) -> EditView {
    match doc.edit_kind {
        EditKind::Insert => EditView::InsertMany { offset: doc.insertion_point(), bytes: new },
        EditKind::Overwrite => {
            let offset = doc.selection->Some_0.cursor as int;
            let count = geometry::min(new.len() as int, doc.length() - offset);
            EditView::OverwriteMany {
                offset,
                before: doc.bytes.subrange(offset, offset + count),
                after: new.take(count),
            }
        },
    }
}

proof fn lemma_paste_inserted(base: DocView, new: Seq<u8>)
    requires
        base.placed(),
        base.pending is None,
        base.edit_kind == EditKind::Insert,
        new.len() > 0,
    ensures
        recorded_as(base, base.paste_inserted(new), paste_of(base, new)),
{
    reveal(DocView::paste_inserted);
    reveal(DocView::recorded);
    reveal(DocView::typing);
    lemma_insertion_point(base);
    let offset = base.insertion_point();
    lemma_inserted_record(base, offset, new);
    let recorded = base.bytes_inserted(offset, new).recorded(paste_of(base, new)).typing(
        base.pending,
        true,
    );
    lemma_after_insertion_record(recorded, offset, new.len() as int);
    lemma_say_record(
        recorded.after_insertion(offset, new.len() as int),
        "Inserted "@ + crate::numbers::decimal(new.len()) + " byte(s) at 0x"@ + crate::numbers::hex(
            offset as nat,
        ) + "; Ctrl+S saves"@,
    );
}

proof fn lemma_paste_overwritten(base: DocView, new: Seq<u8>)
    requires
        base.placed(),
        base.pending is None,
        base.edit_kind == EditKind::Overwrite,
        base.selection is Some,
        new.len() > 0,
    ensures
        recorded_as(base, base.paste_overwritten(new), paste_of(base, new)),
{
    reveal(app::selection_ok);
    reveal(DocView::paste_overwritten);
    reveal(DocView::recorded);
    reveal(DocView::typing);
    let offset = base.selection->Some_0.cursor as int;
    let count = geometry::min(new.len() as int, base.length() - offset);
    let used = new.take(count);
    let ending = if new.len() > count {
        " (truncated at end of file); Ctrl+S saves"@
    } else {
        "; Ctrl+S saves"@
    };
    let bytes = editing::overwritten(base.bytes, offset, used);
    lemma_installed_record(base, bytes);
    let recorded = base.installed(bytes).recorded(paste_of(base, new)).typing(base.pending, true);
    let target = geometry::min(offset + count, base.length() - 1);
    lemma_selecting_record(recorded, target);
    lemma_say_record(
        recorded.selecting(target),
        "Overwrote "@ + crate::numbers::decimal(count as nat) + " byte(s) at 0x"@
            + crate::numbers::hex(offset as nat) + ending,
    );
}

/// What pasting a text records, where bytes can be pasted.
proof fn lemma_paste_recorded(base: DocView, content: Seq<char>)
    requires
        base.placed(),
        base.pending is None,
        codec::hex_digits(content).len() > 1,
        base.edit_kind == EditKind::Insert || base.selection is Some,
    ensures
        recorded_as(
            base,
            base.hex_pasted(content),
            paste_of(base, codec::paired(codec::hex_digits(content))),
        ),
{
    reveal(DocView::committed);
    reveal(DocView::hex_pasted);
    let digits = codec::hex_digits(content);
    let new = codec::paired(digits);
    let pasted = match base.edit_kind {
        EditKind::Insert => base.paste_inserted(new),
        EditKind::Overwrite => base.paste_overwritten(new),
    };
    match base.edit_kind {
        EditKind::Insert => lemma_paste_inserted(base, new),
        EditKind::Overwrite => lemma_paste_overwritten(base, new),
    }
    lemma_say_record(pasted, pasted.status + " (trailing hex digit ignored)"@);
}

/// Pasting bytes keeps the history of a file true.
pub proof fn pasting_is_traced(doc: DocView, content: Seq<char>)
    requires
        doc.wf(),
        doc.traced(),
    ensures
        doc.hex_pasted(content).traced(),
{
    keeping_a_byte_is_traced(doc);
    edit::lemma_committed_frame(doc);
    let base = doc.committed();
    assert(base.committed() == base) by {
        reveal(DocView::committed);
    }
    assert(doc.hex_pasted(content) == base.hex_pasted(content)) by {
        reveal(DocView::hex_pasted);
    }
    let digits = codec::hex_digits(content);
    if digits.len() > 1 && (base.edit_kind == EditKind::Insert || base.selection is Some) {
        lemma_paste_recorded(base, content);
        lemma_recorded(base, base.hex_pasted(content), paste_of(base, codec::paired(digits)));
    } else {
        reveal(DocView::hex_pasted);
        reveal(DocView::paste_overwritten);
        reveal(DocView::say);
    }
}

/// Taking back what was pasted gives the bytes back that were there before.
pub proof fn paste_is_taken_back(doc: DocView, content: Seq<char>)
    requires
        doc.wf(),
        doc.pending is None,
        doc.edit_high_nibble,
        codec::hex_digits(content).len() > 1,
        doc.edit_kind == EditKind::Insert || doc.selection is Some,
    ensures
        taken_back(doc, doc.hex_pasted(content)),
{
    lemma_paste_recorded(doc, content);
    lemma_taken_back(
        doc,
        doc.hex_pasted(content),
        paste_of(doc, codec::paired(codec::hex_digits(content))),
    );
}

/// Typing a digit keeps the history of a file true.
pub proof fn typing_is_traced(doc: DocView, nibble: u8)
    requires
        doc.wf(),
        doc.traced(),
    ensures
        doc.nibble_typed(nibble).traced(),
{
    match doc.edit_kind {
        EditKind::Overwrite => lemma_digit_overwritten(doc, nibble),
        EditKind::Insert => lemma_digit_inserted(doc, nibble),
    }
}

proof fn lemma_digit_overwritten(doc: DocView, nibble: u8)
    requires
        doc.wf(),
        doc.traced(),
        doc.edit_kind == EditKind::Overwrite,
    ensures
        doc.nibble_overwritten(nibble).traced(),
{
    reveal(DocView::nibble_overwritten);
    if doc.selection matches Some(s) && s.cursor < doc.length() {
        let s = doc.selection->Some_0;
        let offset = s.cursor as int;
        let bytes = doc.bytes.update(offset, doc.digit_replaced(offset, nibble));
        let message = "Modified byte at 0x"@ + crate::numbers::hex(offset as nat)
            + "; Ctrl+S saves"@;
        if doc.edit_high_nibble {
            reveal(DocView::typing);
            let typed = doc.typing(
                Some(PendingEdit::Overwrite { offset: s.cursor, before: doc.bytes[offset] }),
                false,
            );
            lemma_installed_record(typed, bytes);
            assert(doc.pending is None);
            assert(typed.installed(bytes).settled_bytes() =~= doc.bytes);
            lemma_say_record(typed.installed(bytes), message);
            reveal(DocView::say);
        } else {
            lemma_installed_record(doc, bytes);
            let installed = doc.installed(bytes);
            assert(installed.settled_bytes() =~= doc.settled_bytes());
            keeping_a_byte_is_traced(installed);
            let next = geometry::min(offset + 1, doc.length() - 1);
            lemma_selecting_record(installed.committed(), next);
            lemma_say_record(installed.committed().selecting(next), message);
        }
    }
}

proof fn lemma_digit_inserted(doc: DocView, nibble: u8)
    requires
        doc.wf(),
        doc.traced(),
        doc.edit_kind == EditKind::Insert,
    ensures
        doc.nibble_inserted(nibble).traced(),
{
    reveal(DocView::nibble_inserted);
    reveal(DocView::typing);
    if doc.edit_high_nibble {
        let offset = doc.insertion_point();
        let typed = doc.typing(
            Some(PendingEdit::Insert { offset: offset as usize, high_nibble: nibble }),
            false,
        );
        lemma_say_record(
            typed,
            "Insert at 0x"@ + crate::numbers::hex(offset as nat)
                + ": enter the second hex digit"@,
        );
    } else {
        match doc.pending {
            Some(PendingEdit::Insert { offset, high_nibble }) => {
                let byte = (high_nibble * 16 + nibble) as u8;
                let action = EditView::Insert { offset: offset as int, byte };
                let settled = doc.typing(None, true);
                reveal(app::history_ok);
                lemma_inserted_record(settled, offset as int, seq![byte]);
                reveal(DocView::recorded);
                let recorded = settled.bytes_inserted(offset as int, seq![byte]).recorded(action);
                lemma_after_insertion_record(recorded, offset as int, 1);
                lemma_say_record(
                    recorded.after_insertion(offset as int, 1),
                    "Inserted "@ + crate::numbers::byte_hex(byte) + " at 0x"@ + crate::numbers::hex(
                        offset as nat,
                    ) + "; Ctrl+S saves"@,
                );
                lemma_recorded(settled, doc.nibble_inserted(nibble), action);
            },
            _ => {},
        }
    }
}

/// A byte that is typed over another with two digits holds both of them, all other bytes stay,
/// and taking the change back gives the old byte back.
pub proof fn typed_byte_is_taken_back(doc: DocView, first: u8, second: u8)
    requires
        doc.wf(),
        doc.pending is None,
        doc.edit_high_nibble,
        doc.edit_kind == EditKind::Overwrite,
        doc.selection is Some,
        first < 16,
        second < 16,
    ensures
        ({
            let offset = doc.selection->Some_0.cursor as int;
            let after = doc.nibble_typed(first).nibble_typed(second);
            &&& after.bytes == doc.bytes.update(offset, (first * 16 + second) as u8)
            &&& after.bytes != doc.bytes ==> taken_back(doc, after)
        }),
{
    reveal(app::selection_ok);
    reveal(DocView::nibble_overwritten);
    reveal(DocView::typing);
    let s = doc.selection->Some_0;
    let offset = s.cursor as int;
    let old = doc.bytes[offset];
    let message = "Modified byte at 0x"@ + crate::numbers::hex(offset as nat) + "; Ctrl+S saves"@;
    let pending = Some(PendingEdit::Overwrite { offset: s.cursor, before: old });
    let half = (first * 16 + old % 16) as u8;
    let byte = (first * 16 + second) as u8;
    let typed = doc.typing(pending, false);
    let bytes1 = doc.bytes.update(offset, half);
    lemma_installed_record(typed, bytes1);
    lemma_say_record(typed.installed(bytes1), message);
    let d1 = doc.nibble_typed(first);
    assert(d1.selection == doc.selection) by {
        reveal(DocView::say);
    }
    assert(d1.bytes == bytes1 && d1.pending == pending && !d1.edit_high_nibble);
    assert(half / 16 == first);
    assert(d1.digit_replaced(offset, second) == byte);
    let bytes2 = bytes1.update(offset, byte);
    assert(bytes2 =~= doc.bytes.update(offset, byte));
    lemma_installed_record(d1, bytes2);
    let installed = d1.installed(bytes2);
    reveal(DocView::committed);
    reveal(DocView::recorded);
    let next = geometry::min(offset + 1, d1.length() - 1);
    lemma_selecting_record(installed.committed(), next);
    lemma_say_record(installed.committed().selecting(next), message);
    let after = d1.nibble_typed(second);
    if after.bytes != doc.bytes {
        if byte == old {
            assert(after.bytes =~= doc.bytes);
        }
        let action = EditView::Overwrite { offset, before: old, after: byte };
        lemma_taken_back(doc, after, action);
    }
}

/// What is recorded is the same in two states, and in the second no byte is being typed.
pub open spec fn settled_as(a: DocView, b: DocView) -> bool {
    &&& a.bytes == b.bytes
    &&& a.saved == b.saved
    &&& a.modified == b.modified
    &&& a.undo == b.undo
    &&& a.redo == b.redo
    &&& b.pending is None
    &&& b.edit_high_nibble
}

proof fn lemma_cursor_at(doc: DocView, offset: int, extend: bool)
    requires
        doc.pending is None,
        doc.edit_high_nibble,
    ensures
        settled_as(doc, doc.cursor_at(offset, extend)),
{
    reveal(DocView::cursor_at);
    reveal(DocView::scrolled);
}

proof fn lemma_cursor_moved(doc: DocView, delta: int, extend: bool)
    requires
        doc.pending is None,
        doc.edit_high_nibble,
    ensures
        settled_as(doc, doc.cursor_moved(delta, extend)),
{
    reveal(DocView::cursor_moved);
    reveal(DocView::at_first_digit);
    let current = match doc.selection {
        Some(s) => s.cursor as int,
        None => 0,
    };
    lemma_cursor_at(
        doc,
        geometry::min(geometry::max(current + delta, 0), doc.length() - 1),
        extend,
    );
}

pub proof fn lemma_moved(doc: DocView, code: KeyCode, extend: bool)
    requires
        doc.pending is None,
        doc.edit_high_nibble,
    ensures
        settled_as(doc, doc.moved_by(code, extend)),
{
    reveal(DocView::moved_by);
    let width = doc.settings.bytes_per_row as int;
    match code {
        KeyCode::Left => lemma_cursor_moved(doc, -1, extend),
        KeyCode::Right => lemma_cursor_moved(doc, 1, extend),
        KeyCode::Up => lemma_cursor_moved(doc, -width, extend),
        KeyCode::Down => lemma_cursor_moved(doc, width, extend),
        KeyCode::PageUp => lemma_cursor_moved(doc, -doc.page(), extend),
        KeyCode::PageDown => lemma_cursor_moved(doc, doc.page(), extend),
        KeyCode::Home => lemma_cursor_at(doc, 0, extend),
        KeyCode::End => lemma_cursor_at(doc, doc.length() - 1, extend),
        _ => {},
    }
}

proof fn lemma_walked(doc: DocView)
    requires
        doc.pending is None,
        doc.edit_high_nibble,
    ensures
        settled_as(doc, doc.next_result()),
        settled_as(doc, doc.previous_result()),
        settled_as(doc, doc.next_field()),
        settled_as(doc, doc.previous_field()),
        settled_as(doc, doc.field_deleted()),
        settled_as(doc, doc.field_opened()),
{
    reveal(DocView::committed);
    reveal(DocView::next_result);
    reveal(DocView::previous_result);
    reveal(DocView::with_search);
    reveal(DocView::result_shown);
    reveal(DocView::selecting_also);
    reveal(DocView::scrolled);
    reveal(DocView::next_field);
    reveal(DocView::previous_field);
    reveal(DocView::field_chosen);
    reveal(DocView::field_activated);
    reveal(DocView::with_selection);
    reveal(DocView::fields_scrolled);
    reveal(DocView::field_deleted);
    reveal(DocView::field_opened);
    reveal(DocView::with_fields);
    reveal(DocView::in_mode);
    reveal(DocView::asking);
    reveal(DocView::say);
}

pub proof fn lemma_edit_key_traced(doc: DocView, code: KeyCode)
    requires
        doc.wf(),
        doc.traced(),
        doc.edit_mode,
    ensures
        doc.edit_key(code).traced(),
        doc.edit_key(code).edit_mode || doc.edit_key(code).pending is None,
{
    keeping_a_byte_is_traced(doc);
    let base = doc.committed();
    lemma_moved(base, code, false);
    deleting_is_traced(doc);
    reveal(DocView::edit_key);
    match code {
        KeyCode::Char(c) => if c != 'i' && crate::numbers::is_hex_digit(c) {
            let nibble = crate::numbers::digit_value(c) as u8;
            typing_is_traced(doc, nibble);
            lemma_typing_goes_on(doc, nibble);
        } else {
            lemma_kind_toggled(doc);
        },
        KeyCode::Insert => lemma_kind_toggled(doc),
        KeyCode::Backspace | KeyCode::Delete => lemma_deleting_settles(doc),
        _ => {},
    }
}

proof fn lemma_kind_toggled(doc: DocView)
    requires
        doc.traced(),
    ensures
        doc.kind_toggled().traced(),
        doc.kind_toggled().pending is None,
{
    keeping_a_byte_is_traced(doc);
    reveal(DocView::kind_toggled);
    reveal(DocView::with_kind);
    reveal(DocView::say);
}

proof fn lemma_typing_goes_on(doc: DocView, nibble: u8)
    requires
        doc.edit_mode,
    ensures
        doc.nibble_typed(nibble).edit_mode,
{
    reveal(DocView::nibble_overwritten);
    reveal(DocView::nibble_inserted);
    reveal(DocView::after_insertion);
    reveal(DocView::appending);
    reveal(DocView::bytes_inserted);
    reveal(DocView::with_fields);
    reveal(DocView::installed);
    reveal(DocView::committed);
    reveal(DocView::recorded);
    reveal(DocView::typing);
    reveal(DocView::with_selection);
    reveal(DocView::scrolled);
    reveal(DocView::say);
}

proof fn lemma_deleting_settles(doc: DocView)
    requires
        doc.traced(),
    ensures
        doc.selection_deleted().pending is None,
{
    keeping_a_byte_is_traced(doc);
    reveal(DocView::selection_deleted);
    reveal(DocView::recorded);
    reveal(DocView::landed);
    reveal(DocView::appending);
    reveal(DocView::bytes_removed);
    reveal(DocView::with_fields);
    reveal(DocView::installed);
    reveal(DocView::with_selection);
    reveal(DocView::scrolled);
    reveal(DocView::say);
}

pub proof fn lemma_undo_settles(doc: DocView)
    requires
        doc.traced(),
    ensures
        doc.undone().traced(),
        doc.redone().traced(),
        doc.undone().pending is None,
        doc.redone().pending is None,
{
    keeping_a_byte_is_traced(doc);
    undo_and_redo_are_traced(doc);
    if doc.committed().undo.len() > 0 {
        lemma_undone(doc);
    } else {
        reveal(DocView::undone);
        reveal(DocView::say);
    }
    if doc.committed().redo.len() > 0 {
        lemma_redone(doc);
    } else {
        reveal(DocView::redone);
        reveal(DocView::say);
    }
}

proof fn lemma_overwrite_key_traced(doc: DocView, key: KeyEvent)
    requires
        doc.wf(),
        doc.traced(),
        doc.edit_mode,
    ensures
        doc.overwrite_key(key).doc.traced(),
        doc.overwrite_key(key).doc.edit_mode || doc.overwrite_key(key).doc.pending is None,
{
    keeping_a_byte_is_traced(doc);
    lemma_undo_settles(doc);
    lemma_edit_key_traced(doc, key.code);
    reveal(DocView::overwrite_key);
    reveal(DocView::path_requested);
    reveal(DocView::in_mode);
    reveal(DocView::selection_copied);
    reveal(DocView::paste_requested);
    reveal(DocView::asking);
    reveal(DocView::with_kind);
    reveal(DocView::armed);
    reveal(DocView::say);
}

proof fn lemma_view_control_key(doc: DocView, code: KeyCode)
    requires
        doc.traced(),
        doc.pending is None,
    ensures
        doc.view_control_key(code).traced(),
        doc.view_control_key(code).pending is None,
{
    lemma_undo_settles(doc);
    lemma_walked(doc);
    reveal(DocView::view_control_key);
    reveal(DocView::path_requested);
    reveal(DocView::in_mode);
    reveal(DocView::selection_copied);
    reveal(DocView::paste_requested);
    reveal(DocView::asking);
    reveal(DocView::say);
}

proof fn lemma_view_character(doc: DocView, c: char)
    requires
        doc.pending is None,
        doc.edit_high_nibble,
    ensures
        settled_as(doc, doc.view_character(c)),
{
    lemma_walked(doc);
    lemma_cursor_at(doc, doc.length() - 1, false);
    reveal(DocView::view_character);
    reveal(DocView::with_kind);
    reveal(DocView::with_settings);
    reveal(DocView::with_first_g);
    reveal(DocView::in_mode);
    reveal(DocView::say);
}

proof fn lemma_view_plain_key(doc: DocView, key: KeyEvent)
    requires
        doc.pending is None,
        doc.edit_high_nibble,
    ensures
        settled_as(doc, doc.view_plain_key(key)),
{
    lemma_walked(doc);
    lemma_moved(doc, key.code, key.modifiers.shift);
    reveal(DocView::view_plain_key);
    reveal(DocView::focused);
    if let KeyCode::Char(c) = key.code {
        lemma_view_character(doc, c);
    }
}

proof fn lemma_view_key_traced(doc: DocView, key: KeyEvent)
    requires
        doc.traced(),
        doc.pending is None,
    ensures
        doc.view_key(key).doc.traced(),
        doc.view_key(key).doc.pending is None,
{
    let base = if doc.vim_g_pending {
        doc.with_first_g(false)
    } else {
        doc
    };
    assert(settled_as(doc, base)) by {
        reveal(DocView::with_first_g);
    }
    lemma_cursor_at(base, 0, false);
    lemma_view_control_key(base, key.code);
    lemma_view_plain_key(base, key);
    reveal(DocView::view_key);
    reveal(DocView::selection_copied);
    reveal(DocView::paste_requested);
    reveal(DocView::asking);
    reveal(DocView::armed);
    reveal(DocView::say);
}

/// Every key keeps the history of a file true while no dialog and no console is open, and leaves
/// no byte half typed outside of editing.
pub proof fn keys_are_traced(doc: DocView, key: KeyEvent)
    requires
        doc.wf(),
        doc.traced(),
        doc.mode is Normal,
        doc.edit_mode || doc.pending is None,
    ensures
        doc.pressed(key).doc.traced(),
        doc.pressed(key).doc.edit_mode || doc.pressed(key).doc.pending is None,
{
    reveal(DocView::normal_key);
    if key.code == KeyCode::Char('?') {
        reveal(DocView::in_mode);
    } else if doc.edit_mode {
        lemma_overwrite_key_traced(doc, key);
    } else {
        lemma_view_key_traced(doc, key);
    }
}

/// A key that edits bytes opens nothing.
pub proof fn lemma_edit_key_mode(doc: DocView, code: KeyCode)
    ensures
        doc.edit_key(code).mode == doc.mode,
{
    reveal(DocView::edit_key);
    lemma_edit_modes(doc);
    match code {
        KeyCode::Char(c) => if crate::numbers::is_hex_digit(c) {
            lemma_typing_mode(doc, crate::numbers::digit_value(c) as u8);
        },
        _ => {
            lemma_moving_mode(doc.committed(), code);
        },
    }
}

proof fn lemma_moving_mode(doc: DocView, code: KeyCode)
    ensures
        doc.moved_by(code, false).mode == doc.mode,
{
    reveal(DocView::moved_by);
    reveal(DocView::cursor_moved);
    reveal(DocView::cursor_at);
    reveal(DocView::scrolled);
    reveal(DocView::at_first_digit);
}

proof fn lemma_edit_modes(doc: DocView)
    ensures
        doc.committed().mode == doc.mode,
        doc.kind_toggled().mode == doc.mode,
        doc.selection_deleted().mode == doc.mode,
{
    reveal(DocView::committed);
    reveal(DocView::kind_toggled);
    reveal(DocView::with_kind);
    reveal(DocView::selection_deleted);
    reveal(DocView::recorded);
    reveal(DocView::typing);
    reveal(DocView::landed);
    reveal(DocView::appending);
    reveal(DocView::bytes_removed);
    reveal(DocView::with_fields);
    reveal(DocView::installed);
    reveal(DocView::with_selection);
    reveal(DocView::scrolled);
    reveal(DocView::say);
}

proof fn lemma_typing_mode(doc: DocView, nibble: u8)
    ensures
        doc.nibble_typed(nibble).mode == doc.mode,
{
    reveal(DocView::nibble_overwritten);
    reveal(DocView::nibble_inserted);
    reveal(DocView::after_insertion);
    reveal(DocView::appending);
    reveal(DocView::bytes_inserted);
    reveal(DocView::with_fields);
    reveal(DocView::installed);
    reveal(DocView::committed);
    reveal(DocView::recorded);
    reveal(DocView::typing);
    reveal(DocView::with_selection);
    reveal(DocView::scrolled);
    reveal(DocView::say);
}

/// Where a byte is being typed after a key, the key opened nothing but the list of keys.
pub proof fn lemma_half_typed_stays_open(doc: DocView, key: KeyEvent)
    requires
        doc.traced(),
        doc.mode is Normal,
        doc.edit_mode || doc.pending is None,
    ensures
        doc.pressed(key).doc.pending is Some ==> doc.pressed(key).doc.mode is Normal || doc.pressed(
            key,
        ).doc.mode is Help,
{
    reveal(DocView::normal_key);
    if key.code == KeyCode::Char('?') {
        reveal(DocView::in_mode);
    } else if doc.edit_mode {
        keeping_a_byte_is_traced(doc);
        lemma_undo_settles(doc);
        lemma_edit_modes(doc);
        lemma_edit_key_mode(doc, key.code);
        reveal(DocView::overwrite_key);
        reveal(DocView::path_requested);
        reveal(DocView::in_mode);
        reveal(DocView::selection_copied);
        reveal(DocView::paste_requested);
        reveal(DocView::asking);
        reveal(DocView::with_kind);
        reveal(DocView::armed);
        reveal(DocView::say);
    } else {
        lemma_view_key_traced(doc, key);
    }
}

/// After a text was pasted, no byte is being typed.
pub proof fn lemma_pasting_settles(doc: DocView, content: Seq<char>)
    requires
        doc.traced(),
    ensures
        doc.hex_pasted(content).pending is None,
{
    keeping_a_byte_is_traced(doc);
    reveal(DocView::hex_pasted);
    reveal(DocView::paste_inserted);
    reveal(DocView::paste_overwritten);
    reveal(DocView::recorded);
    reveal(DocView::typing);
    reveal(DocView::after_insertion);
    reveal(DocView::appending);
    reveal(DocView::bytes_inserted);
    reveal(DocView::with_fields);
    reveal(DocView::installed);
    reveal(DocView::with_selection);
    reveal(DocView::scrolled);
    reveal(DocView::say);
}

/// A byte that is inserted with two digits holds both of them and stands where it was typed, and
/// taking the change back gives the old bytes back.
pub proof fn typed_insertion_is_taken_back(doc: DocView, first: u8, second: u8)
    requires
        doc.wf(),
        doc.pending is None,
        doc.edit_high_nibble,
        doc.edit_kind == EditKind::Insert,
        first < 16,
        second < 16,
    ensures
        ({
            let byte = (first * 16 + second) as u8;
            let after = doc.nibble_typed(first).nibble_typed(second);
            &&& after.bytes == editing::inserted(doc.bytes, doc.insertion_point(), seq![byte])
            &&& taken_back(doc, after)
        }),
{
    reveal(DocView::nibble_inserted);
    reveal(DocView::typing);
    reveal(app::layout_ok);
    lemma_insertion_point(doc);
    let offset = doc.insertion_point();
    let half = doc.typing(
        Some(PendingEdit::Insert { offset: offset as usize, high_nibble: first }),
        false,
    );
    lemma_say_record(
        half,
        "Insert at 0x"@ + crate::numbers::hex(offset as nat) + ": enter the second hex digit"@,
    );
    let d1 = doc.nibble_typed(first);
    assert(d1.pending == half.pending && !d1.edit_high_nibble && d1.edit_kind == EditKind::Insert);
    let byte = (first * 16 + second) as u8;
    let action = EditView::Insert { offset, byte };
    let settled = d1.typing(None, true);
    lemma_inserted_record(settled, offset, seq![byte]);
    reveal(DocView::recorded);
    let recorded = settled.bytes_inserted(offset, seq![byte]).recorded(action);
    lemma_after_insertion_record(recorded, offset, 1);
    lemma_say_record(
        recorded.after_insertion(offset, 1),
        "Inserted "@ + crate::numbers::byte_hex(byte) + " at 0x"@ + crate::numbers::hex(
            offset as nat,
        ) + "; Ctrl+S saves"@,
    );
    let after = d1.nibble_typed(second);
    lemma_taken_back(doc, after, action);
}

/// Offsets are marked exactly while the bytes differ from the saved ones.
pub proof fn marks_tell_changes(doc: DocView)
    requires
        doc.wf(),
    ensures
        doc.modified.is_empty() <==> doc.bytes == doc.saved,
{
    reveal(app::marks_ok);
    reveal(app::layout_ok);
    editing::no_changes_means_equal(doc.bytes, doc.saved);
}

/// Only the key that quits ends the program, and while the bytes differ from the saved ones only
/// after it was pressed before.
pub proof fn quitting_needs_confirmation(doc: DocView, key: KeyEvent)
    requires
        doc.wf(),
    ensures
        doc.pressed(key).quit ==> key.code == KeyCode::Char('q') && doc.mode is Normal && (
        doc.bytes == doc.saved || doc.quit_armed),
{
    marks_tell_changes(doc);
    reveal(DocView::normal_key);
    reveal(DocView::overwrite_key);
    reveal(DocView::view_key);
    reveal(DocView::with_first_g);
    edit::lemma_committed_frame(doc);
}

/// With bytes that differ from the saved ones, the first press of the key that quits asks, changes no byte,
/// and the second press quits.
pub proof fn second_press_quits(doc: DocView, key: KeyEvent)
    requires
        doc.mode is Normal,
        !doc.edit_mode,
        !doc.vim_g_pending,
        key.code == KeyCode::Char('q'),
        !key.modifiers.control,
        !key.modifiers.command,
        doc.wf(),
        doc.bytes != doc.saved,
        !doc.quit_armed,
    ensures
        !doc.pressed(key).quit,
        doc.pressed(key).doc.bytes == doc.bytes,
        doc.pressed(key).doc.pressed(key).quit,
{
    marks_tell_changes(doc);
    reveal(DocView::normal_key);
    reveal(DocView::view_key);
    reveal(DocView::armed);
    reveal(DocView::say);
}

/// A reset is made only when it is confirmed: until then the theme and the settings stay as they
/// are.
pub proof fn resetting_needs_confirmation(doc: DocView, key: KeyEvent)
    requires
        doc.mode is ConfirmReset,
        !keys::is_letter(key.code, 'y', 'Y'),
    ensures
        doc.pressed(key).doc.theme == doc.theme,
        doc.pressed(key).doc.settings == doc.settings,
{
    reveal(DocView::reset_key);
    reveal(DocView::say);
    reveal(DocView::in_mode);
}

/// A confirmed reset restores the defaults of what it was asked for, and of nothing else.
pub proof fn confirmed_reset_restores_defaults(doc: DocView, key: KeyEvent)
    requires
        doc.mode is ConfirmReset,
        keys::is_letter(key.code, 'y', 'Y'),
    ensures
        doc.mode->ConfirmReset_0 == ResetTarget::Theme ==> {
            &&& doc.pressed(key).doc.theme == crate::model::default_theme()
            &&& doc.pressed(key).doc.settings == doc.settings
        },
        doc.mode->ConfirmReset_0 == ResetTarget::Settings ==> {
            &&& doc.pressed(key).doc.settings == crate::rows::ViewerSettings::initial()
            &&& doc.pressed(key).doc.theme == doc.theme
        },
{
    reveal(DocView::reset_key);
    reveal(DocView::reset);
    reveal(DocView::themed);
    reveal(DocView::with_settings);
    reveal(DocView::cursor_shown);
    reveal(DocView::scrolled);
    reveal(DocView::say);
    reveal(DocView::in_mode);
}

/// The fields that a file has come back unchanged when they are stored and loaded again.
pub proof fn stored_fields_come_back(doc: DocView)
    requires
        doc.wf(),
    ensures
        doc.with_overlay(doc.fields).fields == doc.fields,
{
    reveal(DocView::with_overlay);
    reveal(app::fields_ok);
    lemma_all_fit(doc, doc.fields);
}

proof fn lemma_all_fit(doc: DocView, fields: Seq<crate::model::FieldView>)
    requires
        editing::fields_inside(fields, doc.length()),
    ensures
        doc.fitting_fields(fields) == fields,
    decreases fields.len(),
{
    if fields.len() > 0 {
        let rest = fields.drop_last();
        assert forall|i: int| 0 <= i < rest.len() implies 0 <= (#[trigger] rest[i]).start
            <= rest[i].end < doc.length() by {
            assert(rest[i] == fields[i]);
        }
        lemma_all_fit(doc, rest);
        let last = fields[fields.len() - 1];
        assert(0 <= last.start <= last.end < doc.length());
        assert(fields =~= rest.push(last));
    }
}

/// Clicking a byte and dragging to another selects all from the one to the other.
pub proof fn dragging_selects_a_range(doc: DocView, first: int, mouse: MouseEvent, last: int)
    requires
        doc.byte_clicked(first, false).byte_under(mouse.column, mouse.row) == Some(last),
        0 <= first <= usize::MAX,
        0 <= last <= usize::MAX,
    ensures
        ({
            let after = doc.byte_clicked(first, false).selection_dragged(mouse);
            &&& after.all_selections() == seq![
                Selection { anchor: first as usize, cursor: last as usize },
            ]
            &&& after.bytes == doc.bytes
        }),
{
    lemma_byte_clicked(doc, first, false);
    edit::lemma_committed_frame(doc.byte_clicked(first, false));
    reveal(DocView::selection_dragged);
    reveal(DocView::selecting_also);
    let after = doc.byte_clicked(first, false).selection_dragged(mouse);
    assert(after.all_selections() =~= seq![
        Selection { anchor: first as usize, cursor: last as usize },
    ]);
}

proof fn lemma_byte_clicked(doc: DocView, offset: int, also: bool)
    ensures
        ({
            let after = doc.byte_clicked(offset, also);
            &&& after.bytes == doc.bytes
            &&& after.mouse_dragging
            &&& after.selection == Some(Selection::at(offset))
            &&& after.additional == if also {
                doc.all_selections()
            } else {
                Seq::empty()
            }
        }),
{
    edit::lemma_committed_frame(doc);
    reveal(DocView::byte_clicked);
    reveal(DocView::picked);
    reveal(DocView::focused);
    reveal(DocView::dragging);
    reveal(DocView::at_first_digit);
    reveal(DocView::appending);
}

/// A click with the control key adds the byte to what is selected, and takes nothing away.
pub proof fn adding_keeps_the_selection(doc: DocView, offset: int, other: int)
    requires
        0 <= offset <= usize::MAX,
    ensures
        selection::covered(doc.byte_clicked(offset, true).all_selections(), other)
            == (selection::covered(doc.all_selections(), other) || other == offset),
{
    lemma_byte_clicked(doc, offset, true);
    let before = doc.all_selections();
    let after = doc.byte_clicked(offset, true).all_selections();
    assert(after =~= before.push(Selection::at(offset)));
    if selection::covered(before, other) {
        let k = choose|k: int| 0 <= k < before.len() && (#[trigger] before[k]).covers(other);
        assert(after[k].covers(other));
    }
    if other == offset {
        assert(after[before.len() as int].covers(other));
    }
    if selection::covered(after, other) {
        let k = choose|k: int| 0 <= k < after.len() && (#[trigger] after[k]).covers(other);
        if k < before.len() {
            assert(before[k].covers(other));
        }
    }
}

/// The history of commands outlives the console that it was typed in.
pub proof fn commands_outlive_the_console(
    doc: DocView,
    pane: PaneView,
    snapshots: Seq<SnapshotView>,
)
    ensures
        ({
            let again = doc.python_closed(pane).python_opened(snapshots);
            again.mode matches ModeView::Python(opened) && opened.history == pane.history
        }),
{
    reveal(DocView::python_closed);
    reveal(DocView::python_opened);
    reveal(DocView::remembering);
    reveal(DocView::in_mode);
    reveal(DocView::focused);
    reveal(DocView::asking);
    reveal(DocView::say);
}

/// A buffer of another length is refused: nothing but the message changes.
pub proof fn buffers_of_another_length_are_refused(
    doc: DocView,
    snapshot: SnapshotView,
    python: Seq<u8>,
)
    requires
        python.len() != doc.bytes.len() || snapshot.baseline.len() != doc.bytes.len(),
    ensures
        doc.snapshot_applied(snapshot, Ok(python)) == doc.say(
            doc.snapshot_applied(snapshot, Ok(python)).status,
        ),
{
    reveal(DocView::snapshot_applied);
    reveal(DocView::say);
}

/// The selected bytes are those at the selected offsets, in the order of the file and each once.
pub proof fn selected_bytes_are_in_order(doc: DocView)
    requires
        doc.wf(),
    ensures
        doc.selected() == selection::picked(doc.bytes, doc.all_selections(), doc.length()),
{
    reveal(app::selection_ok);
    reveal(app::layout_ok);
    let all = doc.all_selections();
    let ranges = doc.ranges();
    assert(selection::inside(all, doc.length()));
    selection::lemma_merged_sound(all, doc.bytes.len());
    selection::lemma_merged_inside(all, ranges, doc.length());
    if doc.bytes.len() > 0 {
        selection::gathered_bytes_are_in_order(doc.bytes, ranges, doc.length());
        selection::lemma_picked_same(doc.bytes, ranges, all, doc.length());
    }
}

/// What is copied is what is selected: the text that is put on the clipboard reads back as the
/// selected bytes, in the order of the file.
pub proof fn copied_text_reads_back(doc: DocView)
    requires
        doc.selected().len() > 0,
    ensures
        ({
            let effects = doc.selection_copied().effects;
            &&& effects.len() == doc.effects.len() + 1
            &&& effects.last() matches EffectView::Copy(content) && codec::paired(
                codec::hex_digits(content),
            ) == doc.selected()
        }),
{
    reveal(DocView::selection_copied);
    reveal(DocView::asking);
    codec::hex_reads_back(doc.selected());
}

/// Pressing one letter twice leads to the start of the file, and its capital to the end.
pub proof fn letters_lead_to_the_ends(doc: DocView, lower: KeyEvent, upper: KeyEvent)
    requires
        doc.mode is Normal,
        !doc.edit_mode,
        !doc.vim_g_pending,
        doc.length() > 0,
        doc.length() <= usize::MAX,
        lower.code == KeyCode::Char('g'),
        upper.code == KeyCode::Char('G'),
        !lower.modifiers.control,
        !lower.modifiers.command,
        !upper.modifiers.control,
        !upper.modifiers.command,
    ensures
        doc.pressed(lower).doc.pressed(lower).doc.selection == Some(Selection::at(0)),
        doc.pressed(upper).doc.selection == Some(Selection::at(doc.length() - 1)),
{
    reveal(DocView::normal_key);
    reveal(DocView::view_key);
    reveal(DocView::view_plain_key);
    reveal(DocView::view_character);
    reveal(DocView::with_first_g);
    reveal(DocView::armed);
    reveal(DocView::cursor_at);
    reveal(DocView::scrolled);
}

} // verus!
