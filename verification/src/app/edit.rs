//! Editing the bytes of an open file: typing digits, inserting, deleting, pasting, and taking
//! changes back.

use std::sync::Arc;

use vstd::prelude::*;

use crate::app;
use crate::app::{App, DocView};
use crate::codec;
use crate::codec::read_hex;
use crate::editing;
use crate::editing::{
    bytes_between, changed_offsets, insert_into, overwrite_in, remove_from, shift_fields_left,
    shift_fields_right, EditAction, EditKind, EditView, PendingEdit,
};
use crate::effects::{Effect, EffectView};
use crate::geometry;
use crate::geometry::smaller;
use crate::model::{FieldView, SearchMatch};
use crate::app::SearchView;
use crate::modes::ModeView;
use crate::numbers;
use crate::numbers::{byte_text, decimal_text, hex_text};
use crate::rows;
use crate::rows::build_rows;
use crate::text;

verus! {

broadcast use crate::text::group_views;

impl DocView {
    /// What is to be done outside once the search and the calculation of the entropy no longer
    /// fit the bytes.
    pub open spec fn outdated(self) -> Seq<EffectView> {
        let first = if self.search.worker {
            self.effects.push(EffectView::CancelSearch)
        } else {
            self.effects
        };
        if self.entropy_worker {
            first.push(EffectView::CancelEntropy)
        } else {
            first
        }
    }

    /// With other bytes: the lines and the changed offsets follow them; search results and
    /// entropy are gone.
    #[verifier::opaque]
    pub open spec fn installed(self, bytes: Seq<u8>) -> DocView {
        DocView {
            bytes,
            rows: rows::rows_of(bytes, self.settings),
            modified: editing::changes(bytes, self.saved),
            search: SearchView {
                results: Seq::empty(),
                running: false,
                worker: false,
                ..self.search
            },
            entropy_ready: false,
            entropy_worker: false,
            entropy_scanned: 0,
            entropy_total: 0,
            effects: self.outdated(),
            ..self
        }
    }

    /// With other fields.
    #[verifier::opaque]
    pub open spec fn with_fields(
        self,
        fields: Seq<FieldView>,
        selected_field: int,
        fields_scroll: int,
    ) -> DocView {
        DocView { fields, selected_field, fields_scroll, ..self }
    }

    /// With bytes inserted at an offset; the fields move along.
    #[verifier::opaque]
    pub open spec fn bytes_inserted(self, offset: int, new: Seq<u8>) -> DocView {
        self.with_fields(
            editing::shifted_right(self.fields, offset, new.len() as int),
            self.selected_field,
            self.fields_scroll,
        ).installed(editing::inserted(self.bytes, offset, new))
    }

    /// With some bytes removed; the fields move along, and those that are gone are no longer
    /// selected or scrolled to.
    #[verifier::opaque]
    pub open spec fn bytes_removed(self, offset: int, count: int) -> DocView {
        let fields = editing::shifted_left(self.fields, offset, count);
        self.with_fields(
            fields,
            geometry::min(self.selected_field, geometry::minus(fields.len() as int, 1)),
            geometry::min(
                self.fields_scroll,
                geometry::minus(fields.len() as int, self.visible_fields),
            ),
        ).installed(editing::removed(self.bytes, offset, count))
    }

    /// With a change recorded; what was taken back before can no longer be made again.
    #[verifier::opaque]
    pub open spec fn recorded(self, action: EditView) -> DocView {
        DocView { undo: self.undo.push(action), redo: Seq::empty(), ..self }
    }

    /// With the first half of a byte typed, or not.
    #[verifier::opaque]
    pub open spec fn typing(self, pending: Option<PendingEdit>, high: bool) -> DocView {
        DocView { pending, edit_high_nibble: high, ..self }
    }

    /// With or without insertion after the last byte.
    #[verifier::opaque]
    pub open spec fn appending(self, at_end: bool) -> DocView {
        DocView { insert_at_end: at_end, ..self }
    }

    /// With the byte that is being typed as it stands: a changed byte is recorded.
    #[verifier::opaque]
    pub open spec fn committed(self) -> DocView {
        match self.pending {
            None => self,
            Some(PendingEdit::Overwrite { offset, before }) => {
                let after = self.bytes[offset as int];
                if before != after {
                    self.recorded(
                        EditView::Overwrite { offset: offset as int, before, after },
                    ).typing(None, true)
                } else {
                    self.typing(None, true)
                }
            },
            Some(PendingEdit::Insert { .. }) => self.typing(None, true),
        }
    }

    /// With the byte that is being typed kept as it stands, if the cursor leaves it for another.
    pub open spec fn leaving(self, target: int) -> DocView {
        match self.selection {
            Some(s) => if s.cursor == target {
                self
            } else {
                self.committed()
            },
            None => self.committed(),
        }
    }

    /// Where typed bytes are inserted.
    pub open spec fn insertion_point(self) -> int {
        if self.insert_at_end {
            self.length()
        } else {
            match self.selection {
                Some(s) => s.cursor as int,
                None => self.length(),
            }
        }
    }

    /// The byte at an offset with one of its two digits replaced.
    pub open spec fn digit_replaced(self, offset: int, nibble: u8) -> u8 {
        let original = self.bytes[offset];
        if self.edit_high_nibble {
            (nibble * 16 + original % 16) as u8
        } else {
            ((original / 16) * 16 + nibble) as u8
        }
    }

    /// With a digit typed over the byte at the cursor. The first digit starts a change, the
    /// second completes it and moves on to the next byte.
    #[verifier::opaque]
    pub open spec fn nibble_overwritten(self, nibble: u8) -> DocView {
        match self.selection {
            None => self,
            Some(s) => {
                let offset = s.cursor as int;
                let bytes = self.bytes.update(offset, self.digit_replaced(offset, nibble));
                let message = "Modified byte at 0x"@ + numbers::hex(offset as nat)
                    + "; Ctrl+S saves"@;
                if offset >= self.length() {
                    self
                } else if self.edit_high_nibble {
                    self.typing(
                        Some(
                            PendingEdit::Overwrite {
                                offset: s.cursor,
                                before: self.bytes[offset],
                            },
                        ),
                        false,
                    ).installed(bytes).say(message)
                } else {
                    self.installed(bytes).committed().selecting(
                        geometry::min(offset + 1, self.length() - 1),
                    ).say(message)
                }
            },
        }
    }

    /// With a digit typed to insert a byte. The second digit inserts it and moves on behind it.
    #[verifier::opaque]
    pub open spec fn nibble_inserted(self, nibble: u8) -> DocView {
        if self.edit_high_nibble {
            let offset = self.insertion_point();
            self.typing(
                Some(PendingEdit::Insert { offset: offset as usize, high_nibble: nibble }),
                false,
            ).say(
                "Insert at 0x"@ + numbers::hex(offset as nat) + ": enter the second hex digit"@,
            )
        } else {
            match self.pending {
                Some(PendingEdit::Insert { offset, high_nibble }) => {
                    let byte = (high_nibble * 16 + nibble) as u8;
                    self.typing(None, true).bytes_inserted(offset as int, seq![byte]).recorded(
                        EditView::Insert { offset: offset as int, byte },
                    ).after_insertion(offset as int, 1).say(
                        "Inserted "@ + numbers::byte_hex(byte) + " at 0x"@ + numbers::hex(
                            offset as nat,
                        ) + "; Ctrl+S saves"@,
                    )
                },
                _ => self.typing(None, true),
            }
        }
    }

    /// With the byte after some that were inserted selected, or the last one where they stand at
    /// the end.
    #[verifier::opaque]
    pub open spec fn after_insertion(self, offset: int, count: int) -> DocView {
        self.appending(offset + count == self.length()).selecting(
            geometry::min(offset + count, self.length() - 1),
        )
    }

    /// With the byte selected at which a change was made, if the file still has one there.
    #[verifier::opaque]
    pub open spec fn landed(self, offset: int) -> DocView {
        if self.bytes.len() == 0 {
            self.appending(false).with_selection(None)
        } else {
            self.appending(false).selecting(geometry::min(offset, self.length() - 1))
        }
    }

    /// With the selected bytes deleted.
    #[verifier::opaque]
    pub open spec fn selection_deleted(self) -> DocView {
        let base = self.committed();
        match base.selection {
            None => base.say("No bytes selected to delete"@),
            Some(s) => {
                if base.bytes.len() == 0 {
                    base.say("No bytes selected to delete"@)
                } else {
                    let start = geometry::min(s.low(), base.length() - 1);
                    let end = geometry::min(s.high(), base.length() - 1);
                    let count = end - start + 1;
                    base.bytes_removed(start, count).recorded(
                        EditView::Delete {
                            offset: start,
                            bytes: base.bytes.subrange(start, end + 1),
                        },
                    ).landed(start).say(
                        "Deleted "@ + numbers::decimal(count as nat) + " byte(s); Ctrl+S saves"@,
                    )
                }
            },
        }
    }

    /// With pasted bytes inserted.
    #[verifier::opaque]
    pub open spec fn paste_inserted(self, new: Seq<u8>) -> DocView {
        let offset = self.insertion_point();
        self.bytes_inserted(offset, new).recorded(
            EditView::InsertMany { offset, bytes: new },
        ).typing(self.pending, true).after_insertion(offset, new.len() as int).say(
            "Inserted "@ + numbers::decimal(new.len()) + " byte(s) at 0x"@ + numbers::hex(
                offset as nat,
            ) + "; Ctrl+S saves"@,
        )
    }

    /// With pasted bytes in place of those from the cursor on, as far as the file goes.
    #[verifier::opaque]
    pub open spec fn paste_overwritten(self, new: Seq<u8>) -> DocView {
        match self.selection {
            None => self.say("No bytes selected to overwrite"@),
            Some(s) => {
                let offset = s.cursor as int;
                if offset >= self.length() {
                    self.say("No bytes selected to overwrite"@)
                } else {
                    let count = geometry::min(new.len() as int, self.length() - offset);
                    let used = new.take(count);
                    let ending = if new.len() > count {
                        " (truncated at end of file); Ctrl+S saves"@
                    } else {
                        "; Ctrl+S saves"@
                    };
                    self.installed(editing::overwritten(self.bytes, offset, used)).recorded(
                        EditView::OverwriteMany {
                            offset,
                            before: self.bytes.subrange(offset, offset + count),
                            after: used,
                        },
                    ).typing(self.pending, true).selecting(
                        geometry::min(offset + count, self.length() - 1),
                    ).say(
                        "Overwrote "@ + numbers::decimal(count as nat) + " byte(s) at 0x"@
                            + numbers::hex(offset as nat) + ending,
                    )
                }
            },
        }
    }

    /// With the hexadecimal digits of a pasted text applied as bytes.
    #[verifier::opaque]
    pub open spec fn hex_pasted(self, content: Seq<char>) -> DocView {
        let base = self.committed();
        let digits = codec::hex_digits(content);
        let new = codec::paired(digits);
        if new.len() == 0 {
            base.say("Clipboard did not contain a full byte of hex digits"@)
        } else {
            let pasted = match base.edit_kind {
                EditKind::Insert => base.paste_inserted(new),
                EditKind::Overwrite => base.paste_overwritten(new),
            };
            if digits.len() % 2 == 1 {
                pasted.say(pasted.status + " (trailing hex digit ignored)"@)
            } else {
                pasted
            }
        }
    }

    /// Without the last recorded change.
    #[verifier::opaque]
    pub open spec fn undo_popped(self) -> DocView {
        DocView { undo: self.undo.drop_last(), ..self }
    }

    /// With one more recorded change.
    #[verifier::opaque]
    pub open spec fn undo_pushed(self, action: EditView) -> DocView {
        DocView { undo: self.undo.push(action), ..self }
    }

    /// Without the last change that was taken back.
    #[verifier::opaque]
    pub open spec fn redo_popped(self) -> DocView {
        DocView { redo: self.redo.drop_last(), ..self }
    }

    /// With one more change that was taken back.
    #[verifier::opaque]
    pub open spec fn redo_pushed(self, action: EditView) -> DocView {
        DocView { redo: self.redo.push(action), ..self }
    }

    /// With the bytes and fields as they are without a change.
    pub open spec fn reverted(self, action: EditView) -> DocView {
        match action {
            EditView::Overwrite { .. } | EditView::OverwriteMany { .. } => self.installed(
                action.undone(self.bytes),
            ),
            EditView::Insert { offset, .. } => self.bytes_removed(offset, 1),
            EditView::InsertMany { offset, bytes } => self.bytes_removed(
                offset,
                bytes.len() as int,
            ),
            EditView::Delete { offset, bytes } => self.bytes_inserted(offset, bytes),
        }
    }

    /// With the bytes and fields as they are with a change.
    pub open spec fn reapplied(self, action: EditView) -> DocView {
        match action {
            EditView::Overwrite { .. } | EditView::OverwriteMany { .. } => self.installed(
                action.redone(self.bytes),
            ),
            EditView::Insert { offset, byte } => self.bytes_inserted(offset, seq![byte]),
            EditView::InsertMany { offset, bytes } => self.bytes_inserted(offset, bytes),
            EditView::Delete { offset, bytes } => self.bytes_removed(offset, bytes.len() as int),
        }
    }

    /// With the last change taken back.
    #[verifier::opaque]
    pub open spec fn undone(self) -> DocView {
        let base = self.committed();
        if base.undo.len() == 0 {
            base.say("Nothing to undo"@)
        } else {
            let action = base.undo.last();
            base.undo_popped().reverted(action).redo_pushed(action).landed(action.at()).say(
                "Undid "@ + action.description() + " at 0x"@ + numbers::hex(action.at() as nat),
            )
        }
    }

    /// With the last change that was taken back made again.
    #[verifier::opaque]
    pub open spec fn redone(self) -> DocView {
        let base = self.committed();
        if base.redo.len() == 0 {
            base.say("Nothing to redo"@)
        } else {
            let action = base.redo.last();
            base.redo_popped().reapplied(action).undo_pushed(action).landed(action.at()).say(
                "Redid "@ + action.description() + " at 0x"@ + numbers::hex(action.at() as nat),
            )
        }
    }

    /// In the other kind of editing.
    #[verifier::opaque]
    pub open spec fn kind_toggled(self) -> DocView {
        let base = self.committed();
        let kind = base.edit_kind.other();
        base.with_kind(base.edit_mode, kind).say(
            match kind {
                EditKind::Overwrite => "Overwrite Mode: type two hex digits per byte"@,
                EditKind::Insert => "Insert Mode: type two hex digits to insert; Backspace/Delete removes selection"@,
            },
        )
    }

    /// In or out of editing, of some kind, at the first digit of a byte.
    #[verifier::opaque]
    pub open spec fn with_kind(self, edit_mode: bool, kind: EditKind) -> DocView {
        DocView {
            edit_mode,
            edit_kind: kind,
            edit_high_nibble: true,
            insert_at_end: false,
            ..self
        }
    }

    /// With a digit typed.
    pub open spec fn nibble_typed(self, nibble: u8) -> DocView {
        match self.edit_kind {
            EditKind::Overwrite => self.nibble_overwritten(nibble),
            EditKind::Insert => self.nibble_inserted(nibble),
        }
    }
}

/// Whether what is open stays in order whatever happens to bytes and fields.
pub open spec fn mode_is_free(mode: ModeView) -> bool {
    !(mode is Field)
}

proof fn lemma_free_mode(
    mode: ModeView,
    length: nat,
    fields: Seq<FieldView>,
    other_length: nat,
    other_fields: Seq<FieldView>,
)
    requires
        mode_is_free(mode),
        app::mode_ok(length, fields, mode),
    ensures
        app::mode_ok(other_length, other_fields, mode),
{
    reveal(app::mode_ok);
}

/// Other bytes keep what is shown in order, where the fields lie in them.
proof fn lemma_installed(doc: DocView, bytes: Seq<u8>)
    requires
        app::layout_ok(doc.bytes, doc.settings, doc.visible_rows, doc.rows),
        app::search_ok(doc.bytes.len(), doc.search.results, doc.search.current),
        app::areas_ok(doc.viewer_area, doc.fields_area, doc.python_area),
        app::marks_ok(doc.bytes, doc.saved, doc.modified),
        app::fields_ok(bytes.len(), doc.fields, doc.selected_field),
        app::mode_ok(bytes.len(), doc.fields, doc.mode),
        bytes.len() <= usize::MAX,
    ensures
        doc.installed(bytes).sound(),
{
    reveal(DocView::installed);
    reveal(app::layout_ok);
    reveal(app::search_ok);
    reveal(app::marks_ok);
}

pub proof fn lemma_installed_frame(doc: DocView, bytes: Seq<u8>)
    ensures
        doc.installed(bytes).bytes == bytes,
        doc.installed(bytes).undo == doc.undo,
        doc.installed(bytes).redo == doc.redo,
        doc.installed(bytes).pending == doc.pending,
        doc.installed(bytes).selection == doc.selection,
        doc.installed(bytes).additional == doc.additional,
        doc.installed(bytes).mode == doc.mode,
        doc.installed(bytes).fields == doc.fields,
        doc.installed(bytes).edit_kind == doc.edit_kind,
        doc.installed(bytes).saved == doc.saved,
        doc.installed(bytes).modified == editing::changes(bytes, doc.saved),
{
    reveal(DocView::installed);
}

/// Inserting bytes keeps what is shown in order.
proof fn lemma_bytes_inserted(doc: DocView, offset: int, new: Seq<u8>)
    requires
        doc.sound(),
        mode_is_free(doc.mode),
        0 <= offset <= doc.length(),
        0 < new.len(),
        doc.bytes.len() + new.len() <= usize::MAX,
    ensures
        doc.bytes_inserted(offset, new).sound(),
        doc.bytes_inserted(offset, new).bytes == editing::inserted(doc.bytes, offset, new),
        doc.bytes_inserted(offset, new).bytes.len() == doc.bytes.len() + new.len(),
        doc.bytes_inserted(offset, new).undo == doc.undo,
        doc.bytes_inserted(offset, new).redo == doc.redo,
        doc.bytes_inserted(offset, new).pending == doc.pending,
        doc.bytes_inserted(offset, new).mode == doc.mode,
        doc.bytes_inserted(offset, new).fields == editing::shifted_right(
            doc.fields,
            offset,
            new.len() as int,
        ),
        doc.bytes_inserted(offset, new).saved == doc.saved,
{
    reveal(DocView::bytes_inserted);
    let fields = editing::shifted_right(doc.fields, offset, new.len() as int);
    let moved = doc.with_fields(fields, doc.selected_field, doc.fields_scroll);
    let bytes = editing::inserted(doc.bytes, offset, new);
    assert(bytes.len() == doc.bytes.len() + new.len());
    assert(app::fields_ok(bytes.len(), fields, doc.selected_field)) by {
        reveal(app::fields_ok);
        editing::fields_stay_inside(doc.fields, doc.length(), offset, new.len() as int);
    }
    lemma_free_mode(doc.mode, doc.bytes.len(), doc.fields, bytes.len(), fields);
    reveal(DocView::with_fields);
    lemma_installed(moved, bytes);
    lemma_installed_frame(moved, bytes);
}

/// Removing bytes keeps what is shown in order.
proof fn lemma_bytes_removed(doc: DocView, offset: int, count: int)
    requires
        doc.sound(),
        mode_is_free(doc.mode),
        0 <= offset,
        0 < count,
        offset + count <= doc.length(),
    ensures
        doc.bytes_removed(offset, count).sound(),
        doc.bytes_removed(offset, count).bytes == editing::removed(doc.bytes, offset, count),
        doc.bytes_removed(offset, count).bytes.len() == doc.bytes.len() - count,
        doc.bytes_removed(offset, count).undo == doc.undo,
        doc.bytes_removed(offset, count).redo == doc.redo,
        doc.bytes_removed(offset, count).pending == doc.pending,
        doc.bytes_removed(offset, count).mode == doc.mode,
        doc.bytes_removed(offset, count).fields == editing::shifted_left(
            doc.fields,
            offset,
            count,
        ),
        doc.bytes_removed(offset, count).saved == doc.saved,
{
    reveal(DocView::bytes_removed);
    let fields = editing::shifted_left(doc.fields, offset, count);
    let selected = geometry::min(doc.selected_field, geometry::minus(fields.len() as int, 1));
    let scroll = geometry::min(
        doc.fields_scroll,
        geometry::minus(fields.len() as int, doc.visible_fields),
    );
    let moved = doc.with_fields(fields, selected, scroll);
    let bytes = editing::removed(doc.bytes, offset, count);
    assert(bytes.len() == doc.bytes.len() - count);
    assert(doc.bytes.len() <= usize::MAX) by {
        reveal(app::layout_ok);
    }
    assert(app::fields_ok(bytes.len(), fields, selected)) by {
        reveal(app::fields_ok);
        editing::lemma_fields_stay_inside(doc.fields, doc.length(), offset, count);
    }
    lemma_free_mode(doc.mode, doc.bytes.len(), doc.fields, bytes.len(), fields);
    reveal(DocView::with_fields);
    lemma_installed(moved, bytes);
    lemma_installed_frame(moved, bytes);
}

impl App {
    /// Puts other bytes in place of the current ones.
    pub fn install(&mut self, bytes: Vec<u8>)
        requires
            old(self)@.settings.wf(),
        ensures
            final(self)@ == old(self)@.installed(bytes@),
    {
        proof {
            reveal(DocView::installed);
        }
        if self.search.worker {
            self.effects.push(Effect::CancelSearch);
        }
        if self.entropy_worker {
            self.effects.push(Effect::CancelEntropy);
        }
        self.search.worker = false;
        self.search.running = false;
        self.search.results = Vec::new();
        assert(self.search.results@ =~= Seq::<SearchMatch>::empty());
        self.entropy_ready = false;
        self.entropy_worker = false;
        self.entropy_scanned = 0;
        self.entropy_total = 0;
        self.display_rows = build_rows(&bytes, self.settings);
        self.modified_offsets = changed_offsets(&bytes, &self.saved_bytes);
        self.bytes = Arc::new(bytes);
    }

    /// Inserts bytes at an offset, and moves the fields along.
    pub fn insert_bytes_at(&mut self, offset: usize, new: &Vec<u8>)
        requires
            old(self)@.sound(),
            mode_is_free(old(self)@.mode),
            offset <= old(self)@.length(),
            new.len() > 0,
        ensures
            final(self)@ == old(self)@.bytes_inserted(offset as int, new@),
            final(self)@.sound(),
            final(self)@.length() == old(self)@.length() + new@.len(),
    {
        let bytes = insert_into(&self.bytes, offset, new);
        proof {
            assert(bytes.len() == self@.bytes.len() + new@.len());
            lemma_bytes_inserted(self@, offset as int, new@);
            reveal(DocView::bytes_inserted);
            reveal(DocView::with_fields);
            reveal(app::layout_ok);
        }
        shift_fields_right(&mut self.fields, offset, new.len());
        self.install(bytes);
    }

    /// Removes some bytes and returns them; the fields move along.
    pub fn delete_bytes_at(&mut self, offset: usize, count: usize) -> (gone: Vec<u8>)
        requires
            old(self)@.sound(),
            mode_is_free(old(self)@.mode),
            count > 0,
            offset + count <= old(self)@.length(),
        ensures
            final(self)@ == old(self)@.bytes_removed(offset as int, count as int),
            final(self)@.sound(),
            final(self)@.length() == old(self)@.length() - count,
            gone@ == old(self)@.bytes.subrange(offset as int, offset + count),
    {
        let ghost length = self.bytes.len();
        let end: usize = offset + count;
        let gone = bytes_between(&self.bytes, offset, end);
        let bytes = remove_from(&self.bytes, offset, end);
        proof {
            lemma_bytes_removed(self@, offset as int, count as int);
            reveal(DocView::bytes_removed);
            reveal(DocView::with_fields);
            reveal(app::layout_ok);
        }
        shift_fields_left(&mut self.fields, offset, count);
        self.selected_field = smaller(self.selected_field, self.fields.len().saturating_sub(1));
        self.fields_scroll = smaller(self.fields_scroll, self.field_max_scroll());
        self.install(bytes);
        gone
    }

    /// Records a change.
    fn record(&mut self, action: EditAction)
        ensures
            final(self)@ == old(self)@.recorded(action@),
            old(self)@.sound() ==> final(self)@.sound(),
            old(self)@.placed() ==> final(self)@.placed(),
            final(self)@.undo == old(self)@.undo.push(action@),
            final(self)@.redo == Seq::<EditView>::empty(),
            final(self)@.bytes == old(self)@.bytes,
            final(self)@.pending == old(self)@.pending,
    {
        proof {
            reveal(DocView::recorded);
        }
        self.undo_stack.push(action);
        self.redo_stack = Vec::new();
    }

    /// Sets the first half of a byte that is being typed.
    fn set_typing(&mut self, pending: Option<PendingEdit>, high: bool)
        ensures
            final(self)@ == old(self)@.typing(pending, high),
            old(self)@.sound() ==> final(self)@.sound(),
            old(self)@.placed() ==> final(self)@.placed(),
            final(self)@.undo == old(self)@.undo,
            final(self)@.redo == old(self)@.redo,
            final(self)@.bytes == old(self)@.bytes,
            final(self)@.fields == old(self)@.fields,
            final(self)@.mode == old(self)@.mode,
            final(self)@.selection == old(self)@.selection,
            final(self)@.saved == old(self)@.saved,
            final(self)@.pending == pending,
    {
        proof {
            reveal(DocView::typing);
        }
        self.pending_edit = pending;
        self.edit_high_nibble = high;
    }

    /// Sets whether bytes are inserted after the last one.
    pub fn set_appending(&mut self, at_end: bool)
        ensures
            final(self)@ == old(self)@.appending(at_end),
            old(self)@.sound() ==> final(self)@.sound(),
            old(self)@.traceable() ==> final(self)@.traceable(),
            old(self)@.placed() ==> final(self)@.placed(),
            final(self)@.bytes == old(self)@.bytes,
    {
        proof {
            reveal(DocView::appending);
        }
        self.insert_at_end = at_end;
    }

    /// Keeps the byte that is being typed as it stands, if the cursor is about to leave it.
    pub fn leave_byte(&mut self, target: usize)
        requires
            old(self)@.wf(),
        ensures
            final(self)@ == old(self)@.leaving(target as int),
            final(self)@.wf(),
    {
        let stays = match self.selection {
            Some(selection) => selection.cursor == target,
            None => false,
        };
        if !stays {
            self.commit_pending_edit();
        }
    }

    /// Keeps the byte that is being typed as it stands, and records it if it changed.
    pub fn commit_pending_edit(&mut self)
        requires
            old(self)@.valid(),
        ensures
            final(self)@ == old(self)@.committed(),
            final(self)@.valid(),
            old(self)@.placed() ==> final(self)@.placed(),
    {
        proof {
            reveal(DocView::committed);
            reveal(app::history_ok);
        }
        match self.pending_edit {
            None => {},
            Some(PendingEdit::Overwrite { offset, before }) => {
                let after: u8 = self.bytes[offset];
                let ghost undo = self@.undo;
                if before != after {
                    self.record(EditAction::Overwrite { offset, before, after });
                    assert(self@.undo.drop_last() =~= undo);
                }
                self.set_typing(None, true);
            },
            Some(PendingEdit::Insert { .. }) => {
                self.set_typing(None, true);
            },
        }
    }

    /// Selects the byte after some that were inserted.
    fn settle_insertion(&mut self, offset: usize, count: usize)
        requires
            old(self)@.sound(),
            offset + count <= old(self)@.length(),
            old(self)@.length() > 0,
        ensures
            final(self)@ == old(self)@.after_insertion(offset as int, count as int),
            final(self)@.sound(),
            old(self)@.traceable() ==> final(self)@.traceable(),
            final(self)@.placed(),
    {
        proof {
            reveal(DocView::after_insertion);
        }
        let length: usize = self.bytes.len();
        let next: usize = offset + count;
        self.set_appending(next == length);
        self.select_byte(smaller(next, length - 1));
    }

    /// Selects the byte at which a change was made.
    fn land(&mut self, offset: usize)
        requires
            old(self)@.sound(),
        ensures
            final(self)@ == old(self)@.landed(offset as int),
            final(self)@.sound(),
            old(self)@.traceable() ==> final(self)@.traceable(),
            final(self)@.placed(),
    {
        proof {
            reveal(DocView::landed);
        }
        self.set_appending(false);
        if self.bytes.len() == 0 {
            self.set_selection(None);
        } else {
            let last: usize = self.bytes.len() - 1;
            self.select_byte(smaller(offset, last));
        }
    }

    /// Types a digit over the byte at the cursor.
    pub fn overwrite_nibble(&mut self, nibble: u8)
        requires
            old(self)@.wf(),
            nibble < 16,
        ensures
            final(self)@ == old(self)@.nibble_overwritten(nibble),
            final(self)@.wf(),
    {
        proof {
            reveal(DocView::nibble_overwritten);
        }
        let offset: usize = match self.selection {
            Some(selection) => selection.cursor,
            None => {
                return;
            },
        };
        let length: usize = self.bytes.len();
        if offset >= length {
            return;
        }
        let high = self.edit_high_nibble;
        let original: u8 = self.bytes[offset];
        let byte: u8 = if high {
            nibble * 16 + original % 16
        } else {
            (original / 16) * 16 + nibble
        };
        let mut bytes = bytes_between(&self.bytes, 0, length);
        bytes[offset] = byte;
        let ghost target = self@.bytes.update(offset as int, byte);
        assert(bytes@ =~= target);
        let mut message = "Modified byte at 0x".to_owned();
        message.append(&hex_text(offset));
        message.append("; Ctrl+S saves");
        let ghost before = self@;
        if high {
            self.set_typing(Some(PendingEdit::Overwrite { offset, before: original }), false);
        }
        proof {
            lemma_same_length(before, self@, target);
        }
        self.install(bytes);
        if !high {
            self.commit_pending_edit();
            proof {
                lemma_installed_frame(before, target);
                lemma_committed_frame(before.installed(target));
            }
            self.select_byte(if offset + 1 < length {
                offset + 1
            } else {
                length - 1
            });
        }
        self.say(message);
    }

    /// Types a digit to insert a byte.
    pub fn insert_nibble(&mut self, nibble: u8)
        requires
            old(self)@.wf(),
            mode_is_free(old(self)@.mode),
            nibble < 16,
        ensures
            final(self)@ == old(self)@.nibble_inserted(nibble),
            final(self)@.wf(),
    {
        proof {
            reveal(DocView::nibble_inserted);
            reveal(app::history_ok);
        }
        if self.edit_high_nibble {
            let offset: usize = self.insertion_offset();
            self.set_typing(Some(PendingEdit::Insert { offset, high_nibble: nibble }), false);
            let mut message = "Insert at 0x".to_owned();
            message.append(&hex_text(offset));
            message.append(": enter the second hex digit");
            self.say(message);
            return;
        }
        match self.pending_edit {
            Some(PendingEdit::Insert { offset, high_nibble }) => {
                let byte: u8 = high_nibble * 16 + nibble;
                let mut new: Vec<u8> = Vec::new();
                new.push(byte);
                assert(new@ =~= seq![byte]);
                let ghost before = self@;
                self.set_typing(None, true);
                let ghost base = self@;
                self.insert_bytes_at(offset, &new);
                proof {
                    assert(base.bytes.len() + new@.len() == self.bytes.len());
                    lemma_bytes_inserted(base, offset as int, new@);
                }
                self.record(EditAction::Insert { offset, byte });
                assert(self@.undo.drop_last() =~= before.undo);
                self.settle_insertion(offset, 1);
                let mut message = "Inserted ".to_owned();
                message.append(&byte_text(byte));
                message.append(" at 0x");
                message.append(&hex_text(offset));
                message.append("; Ctrl+S saves");
                self.say(message);
            },
            _ => {
                self.set_typing(None, true);
            },
        }
    }

    /// Where typed bytes are inserted.
    fn insertion_offset(&self) -> (offset: usize)
        requires
            self@.wf(),
        ensures
            offset == self@.insertion_point(),
            offset <= self@.length(),
    {
        proof {
            reveal(app::selection_ok);
        }
        if self.insert_at_end {
            self.bytes.len()
        } else {
            match self.selection {
                Some(selection) => selection.cursor,
                None => self.bytes.len(),
            }
        }
    }

    /// Types a digit.
    pub fn edit_nibble(&mut self, nibble: u8)
        requires
            old(self)@.wf(),
            mode_is_free(old(self)@.mode),
            nibble < 16,
        ensures
            final(self)@ == old(self)@.nibble_typed(nibble),
            final(self)@.wf(),
    {
        match self.edit_kind {
            EditKind::Overwrite => self.overwrite_nibble(nibble),
            EditKind::Insert => self.insert_nibble(nibble),
        }
    }

    /// Deletes the selected bytes.
    pub fn delete_selected_bytes(&mut self)
        requires
            old(self)@.wf(),
            mode_is_free(old(self)@.mode),
        ensures
            final(self)@ == old(self)@.selection_deleted(),
            final(self)@.wf(),
    {
        proof {
            reveal(DocView::selection_deleted);
            lemma_committed_frame(self@);
        }
        self.commit_pending_edit();
        let selection = match self.selection {
            Some(selection) => selection,
            None => {
                self.say("No bytes selected to delete".to_owned());
                return;
            },
        };
        if self.bytes.len() == 0 {
            self.say("No bytes selected to delete".to_owned());
            return;
        }
        let last: usize = self.bytes.len() - 1;
        let start: usize = smaller(selection.start(), last);
        let end: usize = smaller(selection.end(), last);
        let count: usize = end - start + 1;
        let ghost base = self@;
        let gone = self.delete_bytes_at(start, count);
        proof {
            lemma_bytes_removed(base, start as int, count as int);
            reveal(app::history_ok);
        }
        self.record(EditAction::Delete { offset: start, bytes: gone });
        assert(self@.undo.drop_last() =~= base.undo);
        self.land(start);
        let mut message = "Deleted ".to_owned();
        message.append(&decimal_text(count));
        message.append(" byte(s); Ctrl+S saves");
        self.say(message);
    }

    /// Inserts pasted bytes.
    fn paste_insert_bytes(&mut self, new: Vec<u8>)
        requires
            old(self)@.wf(),
            mode_is_free(old(self)@.mode),
            old(self)@.pending is None,
            new.len() > 0,
        ensures
            final(self)@ == old(self)@.paste_inserted(new@),
            final(self)@.wf(),
    {
        proof {
            reveal(DocView::paste_inserted);
            reveal(app::history_ok);
        }
        let offset: usize = self.insertion_offset();
        let count: usize = new.len();
        let ghost base = self@;
        self.insert_bytes_at(offset, &new);
        proof {
            assert(base.bytes.len() + new@.len() == self.bytes.len());
            lemma_bytes_inserted(base, offset as int, new@);
        }
        self.record(EditAction::InsertMany { offset, bytes: new });
        assert(self@.undo.drop_last() =~= base.undo);
        self.set_typing(None, true);
        self.settle_insertion(offset, count);
        let mut message = "Inserted ".to_owned();
        message.append(&decimal_text(count));
        message.append(" byte(s) at 0x");
        message.append(&hex_text(offset));
        message.append("; Ctrl+S saves");
        self.say(message);
    }

    /// Puts pasted bytes in place of those from the cursor on.
    fn paste_overwrite_bytes(&mut self, new: Vec<u8>)
        requires
            old(self)@.wf(),
            old(self)@.pending is None,
            new.len() > 0,
        ensures
            final(self)@ == old(self)@.paste_overwritten(new@),
            final(self)@.wf(),
    {
        proof {
            reveal(DocView::paste_overwritten);
        }
        let offset: usize = match self.selection {
            Some(selection) => selection.cursor,
            None => {
                self.say("No bytes selected to overwrite".to_owned());
                return;
            },
        };
        let length: usize = self.bytes.len();
        if offset >= length {
            self.say("No bytes selected to overwrite".to_owned());
            return;
        }
        let available: usize = length - offset;
        let truncated = new.len() > available;
        let count: usize = smaller(new.len(), available);
        let used = bytes_between(&new, 0, count);
        assert(used@ =~= new@.take(count as int));
        let before = bytes_between(&self.bytes, offset, offset + count);
        let bytes = overwrite_in(&self.bytes, offset, &used);
        let ghost base = self@;
        proof {
            assert(bytes@.len() == base.bytes.len());
            lemma_same_length(base, base, bytes@);
            lemma_installed_frame(base, bytes@);
            reveal(app::history_ok);
        }
        self.install(bytes);
        self.record(EditAction::OverwriteMany { offset, before, after: used });
        assert(self@.undo.drop_last() =~= base.undo);
        self.set_typing(None, true);
        self.select_byte(smaller(offset + count, length - 1));
        let mut message = "Overwrote ".to_owned();
        message.append(&decimal_text(count));
        message.append(" byte(s) at 0x");
        message.append(&hex_text(offset));
        if truncated {
            message.append(" (truncated at end of file); Ctrl+S saves");
        } else {
            message.append("; Ctrl+S saves");
        }
        self.say(message);
    }

    /// Applies the hexadecimal digits of a pasted text as one change.
    pub fn paste_hex_bytes(&mut self, content: &str)
        requires
            old(self)@.wf(),
            mode_is_free(old(self)@.mode),
        ensures
            final(self)@ == old(self)@.hex_pasted(content@),
            final(self)@.wf(),
    {
        proof {
            reveal(DocView::hex_pasted);
            lemma_committed_frame(self@);
        }
        self.commit_pending_edit();
        let (bytes, trailing) = read_hex(content);
        if bytes.len() == 0 {
            self.say("Clipboard did not contain a full byte of hex digits".to_owned());
            return;
        }
        match self.edit_kind {
            EditKind::Insert => self.paste_insert_bytes(bytes),
            EditKind::Overwrite => self.paste_overwrite_bytes(bytes),
        }
        if trailing {
            let mut message = self.status.clone();
            message.append(" (trailing hex digit ignored)");
            self.say(message);
        }
    }

    /// Sets the kind of editing.
    pub fn set_kind(&mut self, edit_mode: bool, kind: EditKind)
        ensures
            final(self)@ == old(self)@.with_kind(edit_mode, kind),
            old(self)@.sound() ==> final(self)@.sound(),
            old(self)@.traceable() ==> final(self)@.traceable(),
            old(self)@.placed() ==> final(self)@.placed(),
    {
        proof {
            reveal(DocView::with_kind);
        }
        self.edit_mode = edit_mode;
        self.edit_kind = kind;
        self.edit_high_nibble = true;
        self.insert_at_end = false;
    }

    /// Changes to the other kind of editing.
    pub fn toggle_edit_kind(&mut self)
        requires
            old(self)@.wf(),
        ensures
            final(self)@ == old(self)@.kind_toggled(),
            final(self)@.wf(),
    {
        proof {
            reveal(DocView::kind_toggled);
        }
        self.commit_pending_edit();
        let kind = self.edit_kind.toggle();
        self.set_kind(self.edit_mode, kind);
        match kind {
            EditKind::Overwrite => {
                self.say("Overwrite Mode: type two hex digits per byte".to_owned());
            },
            EditKind::Insert => {
                self.say(
                    "Insert Mode: type two hex digits to insert; Backspace/Delete removes selection".to_owned(),
                );
            },
        }
    }

    /// Takes a change out of the bytes and fields.
    fn revert(&mut self, action: &EditAction)
        requires
            old(self)@.sound(),
            mode_is_free(old(self)@.mode),
            action@.applies_to(old(self)@.length() - action@.growth()),
        ensures
            final(self)@ == old(self)@.reverted(action@),
            final(self)@.sound(),
            final(self)@.length() == old(self)@.length() - action@.growth(),
            final(self)@.undo == old(self)@.undo,
            final(self)@.redo == old(self)@.redo,
            final(self)@.pending == old(self)@.pending,
    {
        let ghost base = self@;
        let length: usize = self.bytes.len();
        match action {
            EditAction::Overwrite { offset, before, .. } => {
                let mut bytes = bytes_between(&self.bytes, 0, length);
                bytes[*offset] = *before;
                assert(bytes@ =~= action@.undone(base.bytes));
                proof {
                    reveal(app::layout_ok);
                    lemma_installed(base, bytes@);
                    lemma_installed_frame(base, bytes@);
                }
                self.install(bytes);
            },
            EditAction::OverwriteMany { offset, before, .. } => {
                let bytes = overwrite_in(&self.bytes, *offset, before);
                proof {
                    reveal(app::layout_ok);
                    lemma_installed(base, bytes@);
                    lemma_installed_frame(base, bytes@);
                }
                self.install(bytes);
            },
            EditAction::Insert { offset, .. } => {
                proof {
                    lemma_bytes_removed(base, *offset as int, 1);
                }
                self.delete_bytes_at(*offset, 1);
            },
            EditAction::InsertMany { offset, bytes } => {
                proof {
                    lemma_bytes_removed(base, *offset as int, bytes@.len() as int);
                }
                self.delete_bytes_at(*offset, bytes.len());
            },
            EditAction::Delete { offset, bytes } => {
                self.insert_bytes_at(*offset, bytes);
                proof {
                    assert(base.bytes.len() + bytes@.len() == self.bytes.len());
                    lemma_bytes_inserted(base, *offset as int, bytes@);
                }
            },
        }
    }

    /// Makes a change to the bytes and fields.
    fn reapply(&mut self, action: &EditAction)
        requires
            old(self)@.sound(),
            mode_is_free(old(self)@.mode),
            action@.applies_to(old(self)@.length()),
        ensures
            final(self)@ == old(self)@.reapplied(action@),
            final(self)@.sound(),
            final(self)@.length() == old(self)@.length() + action@.growth(),
            final(self)@.undo == old(self)@.undo,
            final(self)@.redo == old(self)@.redo,
            final(self)@.pending == old(self)@.pending,
    {
        let ghost base = self@;
        let length: usize = self.bytes.len();
        match action {
            EditAction::Overwrite { offset, after, .. } => {
                let mut bytes = bytes_between(&self.bytes, 0, length);
                bytes[*offset] = *after;
                assert(bytes@ =~= action@.redone(base.bytes));
                proof {
                    reveal(app::layout_ok);
                    lemma_installed(base, bytes@);
                    lemma_installed_frame(base, bytes@);
                }
                self.install(bytes);
            },
            EditAction::OverwriteMany { offset, after, .. } => {
                let bytes = overwrite_in(&self.bytes, *offset, after);
                proof {
                    reveal(app::layout_ok);
                    lemma_installed(base, bytes@);
                    lemma_installed_frame(base, bytes@);
                }
                self.install(bytes);
            },
            EditAction::Insert { offset, byte } => {
                let mut new: Vec<u8> = Vec::new();
                new.push(*byte);
                assert(new@ =~= seq![*byte]);
                self.insert_bytes_at(*offset, &new);
                proof {
                    assert(base.bytes.len() + new@.len() == self.bytes.len());
                    lemma_bytes_inserted(base, *offset as int, new@);
                }
            },
            EditAction::InsertMany { offset, bytes } => {
                self.insert_bytes_at(*offset, bytes);
                proof {
                    assert(base.bytes.len() + bytes@.len() == self.bytes.len());
                    lemma_bytes_inserted(base, *offset as int, bytes@);
                }
            },
            EditAction::Delete { offset, bytes } => {
                proof {
                    lemma_bytes_removed(base, *offset as int, bytes@.len() as int);
                }
                self.delete_bytes_at(*offset, bytes.len());
            },
        }
    }

    /// Takes the last recorded change off the list.
    fn pop_undo(&mut self) -> (action: Option<EditAction>)
        ensures
            match action {
                Some(a) => {
                    &&& old(self)@.undo.len() > 0
                    &&& a@ == old(self)@.undo.last()
                    &&& final(self)@ == old(self)@.undo_popped()
                },
                None => old(self)@.undo.len() == 0 && final(self)@ == old(self)@,
            },
            old(self)@.sound() ==> final(self)@.sound(),
            final(self)@.bytes == old(self)@.bytes,
            final(self)@.mode == old(self)@.mode,
            final(self)@.redo == old(self)@.redo,
            final(self)@.pending == old(self)@.pending,
            old(self)@.undo.len() > 0 ==> final(self)@.undo == old(self)@.undo.drop_last(),
    {
        proof {
            reveal(DocView::undo_popped);
        }
        let ghost before = self@;
        let action = self.undo_stack.pop();
        assert(before.undo.len() > 0 ==> self@.undo =~= before.undo.drop_last());
        action
    }

    /// Takes the last change that was taken back off the list.
    fn pop_redo(&mut self) -> (action: Option<EditAction>)
        ensures
            match action {
                Some(a) => {
                    &&& old(self)@.redo.len() > 0
                    &&& a@ == old(self)@.redo.last()
                    &&& final(self)@ == old(self)@.redo_popped()
                },
                None => old(self)@.redo.len() == 0 && final(self)@ == old(self)@,
            },
            old(self)@.sound() ==> final(self)@.sound(),
            final(self)@.bytes == old(self)@.bytes,
            final(self)@.mode == old(self)@.mode,
            final(self)@.undo == old(self)@.undo,
            final(self)@.pending == old(self)@.pending,
            old(self)@.redo.len() > 0 ==> final(self)@.redo == old(self)@.redo.drop_last(),
    {
        proof {
            reveal(DocView::redo_popped);
        }
        let ghost before = self@;
        let action = self.redo_stack.pop();
        assert(before.redo.len() > 0 ==> self@.redo =~= before.redo.drop_last());
        action
    }

    /// Puts a change on the list of recorded ones.
    fn push_undo(&mut self, action: EditAction)
        ensures
            final(self)@ == old(self)@.undo_pushed(action@),
            old(self)@.sound() ==> final(self)@.sound(),
            final(self)@.bytes == old(self)@.bytes,
            final(self)@.undo == old(self)@.undo.push(action@),
            final(self)@.redo == old(self)@.redo,
            final(self)@.pending == old(self)@.pending,
    {
        proof {
            reveal(DocView::undo_pushed);
        }
        self.undo_stack.push(action);
    }

    /// Puts a change on the list of those that were taken back.
    fn push_redo(&mut self, action: EditAction)
        ensures
            final(self)@ == old(self)@.redo_pushed(action@),
            old(self)@.sound() ==> final(self)@.sound(),
            final(self)@.bytes == old(self)@.bytes,
            final(self)@.redo == old(self)@.redo.push(action@),
            final(self)@.undo == old(self)@.undo,
            final(self)@.pending == old(self)@.pending,
    {
        proof {
            reveal(DocView::redo_pushed);
        }
        self.redo_stack.push(action);
    }

    /// Takes back the last change.
    pub fn undo_overwrite(&mut self)
        requires
            old(self)@.wf(),
            mode_is_free(old(self)@.mode),
        ensures
            final(self)@ == old(self)@.undone(),
            final(self)@.wf(),
    {
        proof {
            reveal(DocView::undone);
            lemma_committed_frame(self@);
        }
        self.commit_pending_edit();
        let ghost base = self@;
        let action = match self.pop_undo() {
            Some(action) => action,
            None => {
                self.say("Nothing to undo".to_owned());
                return;
            },
        };
        proof {
            lemma_undo_history(base);
        }
        self.revert(&action);
        let offset: usize = action_offset(&action);
        let mut message = "Undid ".to_owned();
        message.append(action_description(&action));
        message.append(" at 0x");
        message.append(&hex_text(offset));
        self.push_redo(action);
        self.land(offset);
        self.say(message);
    }

    /// Makes the last change again that was taken back.
    pub fn redo_overwrite(&mut self)
        requires
            old(self)@.wf(),
            mode_is_free(old(self)@.mode),
        ensures
            final(self)@ == old(self)@.redone(),
            final(self)@.wf(),
    {
        proof {
            reveal(DocView::redone);
            lemma_committed_frame(self@);
        }
        self.commit_pending_edit();
        let ghost base = self@;
        let action = match self.pop_redo() {
            Some(action) => action,
            None => {
                self.say("Nothing to redo".to_owned());
                return;
            },
        };
        proof {
            lemma_redo_history(base);
        }
        self.reapply(&action);
        let offset: usize = action_offset(&action);
        let mut message = "Redid ".to_owned();
        message.append(action_description(&action));
        message.append(" at 0x");
        message.append(&hex_text(offset));
        self.push_undo(action);
        self.land(offset);
        self.say(message);
    }
}

/// The last change can be taken back, and then be made again.
proof fn lemma_undo_history(doc: DocView)
    requires
        doc.traceable(),
        doc.pending is None,
        doc.undo.len() > 0,
    ensures
        doc.undo.last().applies_to(doc.length() - doc.undo.last().growth()),
        app::history_ok(
            (doc.length() - doc.undo.last().growth()) as nat,
            doc.undo.drop_last(),
            doc.redo.push(doc.undo.last()),
            None,
        ),
{
    reveal(app::history_ok);
    let action = doc.undo.last();
    assert(doc.redo.push(action).drop_last() =~= doc.redo);
}

/// The last change that was taken back can be made again, and then be taken back.
proof fn lemma_redo_history(doc: DocView)
    requires
        doc.traceable(),
        doc.pending is None,
        doc.redo.len() > 0,
    ensures
        doc.redo.last().applies_to(doc.length()),
        app::history_ok(
            (doc.length() + doc.redo.last().growth()) as nat,
            doc.undo.push(doc.redo.last()),
            doc.redo.drop_last(),
            None,
        ),
{
    reveal(app::history_ok);
    let action = doc.redo.last();
    assert(doc.undo.push(action).drop_last() =~= doc.undo);
}

/// Where a change was made.
fn action_offset(action: &EditAction) -> (offset: usize)
    ensures
        offset == action@.at(),
{
    match action {
        EditAction::Overwrite { offset, .. } => *offset,
        EditAction::OverwriteMany { offset, .. } => *offset,
        EditAction::Insert { offset, .. } => *offset,
        EditAction::InsertMany { offset, .. } => *offset,
        EditAction::Delete { offset, .. } => *offset,
    }
}

/// What a change is called.
fn action_description(action: &EditAction) -> (name: &'static str)
    ensures
        name@ == action@.description(),
{
    match action {
        EditAction::Overwrite { .. } => "overwrite",
        EditAction::OverwriteMany { .. } => "overwrite",
        EditAction::Insert { .. } => "insertion",
        EditAction::InsertMany { .. } => "insertion",
        EditAction::Delete { .. } => "deletion",
    }
}

/// Bytes of the same length keep everything in order.
pub proof fn lemma_same_length(before: DocView, doc: DocView, bytes: Seq<u8>)
    requires
        before.wf(),
        doc.sound(),
        doc.placed(),
        doc.bytes == before.bytes,
        doc.undo == before.undo,
        doc.redo == before.redo,
        doc.pending == before.pending || match doc.pending {
            Some(PendingEdit::Overwrite { offset, .. }) => offset < before.length(),
            _ => false,
        },
        bytes.len() == before.bytes.len(),
    ensures
        doc.installed(bytes).wf(),
        doc.settings.wf(),
{
    reveal(app::layout_ok);
    reveal(app::history_ok);
    lemma_installed(doc, bytes);
    lemma_installed_frame(doc, bytes);
}

/// What keeping a typed byte leaves as it is.
pub proof fn lemma_committed_frame(doc: DocView)
    ensures
        doc.committed().bytes == doc.bytes,
        doc.committed().mode == doc.mode,
        doc.committed().selection == doc.selection,
        doc.committed().additional == doc.additional,
        doc.committed().fields == doc.fields,
        doc.committed().saved == doc.saved,
        doc.committed().modified == doc.modified,
        doc.committed().edit_kind == doc.edit_kind,
        doc.committed().edit_mode == doc.edit_mode,
        doc.committed().insert_at_end == doc.insert_at_end,
        doc.committed().focus == doc.focus,
        doc.committed().quit_armed == doc.quit_armed,
        doc.committed().pending is None,
{
    reveal(DocView::committed);
    reveal(DocView::typing);
    reveal(DocView::recorded);
}

} // verus!
