//! Changes to the bytes of a file: what they do, how they are undone, and what they do to the
//! fields that annotate the file.

use std::collections::BTreeSet;

use vstd::prelude::*;

use crate::geometry;
use crate::model::Field;
use crate::model::FieldView;
use crate::text;

verus! {

broadcast use {crate::text::group_views, vstd::std_specs::btree::group_btree_axioms};

/// Whether typed bytes take the place of others or stand before them.
#[derive(Clone, Copy, Debug, PartialEq, Eq, Structural)]
pub enum EditKind {
    Overwrite,
    Insert,
}

impl Default for EditKind {
    fn default() -> (kind: Self)
        ensures
            kind == EditKind::Overwrite,
    {
        EditKind::Overwrite
    }
}

impl EditKind {
    /// The name shown to the user.
    pub fn name(self) -> (name: &'static str)
        ensures
            name@ == match self {
                EditKind::Overwrite => "Overwrite"@,
                EditKind::Insert => "Insert"@,
            },
    {
        match self {
            EditKind::Overwrite => "Overwrite",
            EditKind::Insert => "Insert",
        }
    }

    /// The other kind.
    pub open spec fn other(self) -> EditKind {
        match self {
            EditKind::Overwrite => EditKind::Insert,
            EditKind::Insert => EditKind::Overwrite,
        }
    }

    /// The other kind.
    pub fn toggle(self) -> (kind: Self)
        ensures
            kind == self.other(),
    {
        match self {
            EditKind::Overwrite => EditKind::Insert,
            EditKind::Insert => EditKind::Overwrite,
        }
    }
}

/// The first half of a byte that is being typed.
#[derive(Clone, Copy, Debug, PartialEq, Eq, Structural)]
pub enum PendingEdit {
    Overwrite { offset: usize, before: u8 },
    Insert { offset: usize, high_nibble: u8 },
}

/// A change to the bytes of a file, with what it takes to undo it.
#[derive(Debug)]
pub enum EditAction {
    Overwrite { offset: usize, before: u8, after: u8 },
    OverwriteMany { offset: usize, before: Vec<u8>, after: Vec<u8> },
    Insert { offset: usize, byte: u8 },
    InsertMany { offset: usize, bytes: Vec<u8> },
    Delete { offset: usize, bytes: Vec<u8> },
}

/// The contents of an [`EditAction`].
pub enum EditView {
    Overwrite { offset: int, before: u8, after: u8 },
    OverwriteMany { offset: int, before: Seq<u8>, after: Seq<u8> },
    Insert { offset: int, byte: u8 },
    InsertMany { offset: int, bytes: Seq<u8> },
    Delete { offset: int, bytes: Seq<u8> },
}

impl View for EditAction {
    type V = EditView;

    open spec fn view(&self) -> EditView {
        match self {
            EditAction::Overwrite { offset, before, after } => EditView::Overwrite {
                offset: *offset as int,
                before: *before,
                after: *after,
            },
            EditAction::OverwriteMany { offset, before, after } => EditView::OverwriteMany {
                offset: *offset as int,
                before: before@,
                after: after@,
            },
            EditAction::Insert { offset, byte } => EditView::Insert {
                offset: *offset as int,
                byte: *byte,
            },
            EditAction::InsertMany { offset, bytes } => EditView::InsertMany {
                offset: *offset as int,
                bytes: bytes@,
            },
            EditAction::Delete { offset, bytes } => EditView::Delete {
                offset: *offset as int,
                bytes: bytes@,
            },
        }
    }
}

/// `bytes` with `new` standing before the byte at `offset`.
pub open spec fn inserted(bytes: Seq<u8>, offset: int, new: Seq<u8>) -> Seq<u8> {
    bytes.take(offset) + new + bytes.skip(offset)
}

/// `bytes` without the `count` bytes from `offset` on.
pub open spec fn removed(bytes: Seq<u8>, offset: int, count: int) -> Seq<u8> {
    bytes.take(offset) + bytes.skip(offset + count)
}

/// `bytes` with `new` in place of as many bytes from `offset` on.
pub open spec fn overwritten(bytes: Seq<u8>, offset: int, new: Seq<u8>) -> Seq<u8> {
    bytes.take(offset) + new + bytes.skip(offset + new.len())
}

impl EditView {
    /// Where the change was made.
    pub open spec fn at(self) -> int {
        match self {
            EditView::Overwrite { offset, .. } => offset,
            EditView::OverwriteMany { offset, .. } => offset,
            EditView::Insert { offset, .. } => offset,
            EditView::InsertMany { offset, .. } => offset,
            EditView::Delete { offset, .. } => offset,
        }
    }

    /// What the change is called.
    pub open spec fn description(self) -> Seq<char> {
        match self {
            EditView::Overwrite { .. } | EditView::OverwriteMany { .. } => "overwrite"@,
            EditView::Insert { .. } | EditView::InsertMany { .. } => "insertion"@,
            EditView::Delete { .. } => "deletion"@,
        }
    }

    /// By how many bytes the change makes a file longer.
    pub open spec fn growth(self) -> int {
        match self {
            EditView::Overwrite { .. } | EditView::OverwriteMany { .. } => 0,
            EditView::Insert { .. } => 1,
            EditView::InsertMany { bytes, .. } => bytes.len() as int,
            EditView::Delete { bytes, .. } => -bytes.len(),
        }
    }

    /// Whether the change can be made to a file of `length` bytes.
    pub open spec fn applies_to(self, length: int) -> bool {
        match self {
            EditView::Overwrite { offset, .. } => 0 <= offset < length,
            EditView::OverwriteMany { offset, before, after } => {
                0 <= offset && offset + after.len() <= length && before.len() == after.len()
                    && after.len() > 0
            },
            EditView::Insert { offset, .. } => 0 <= offset <= length,
            EditView::InsertMany { offset, bytes } => 0 <= offset <= length && bytes.len() > 0,
            EditView::Delete { offset, bytes } => 0 <= offset && offset + bytes.len() <= length
                && bytes.len() > 0,
        }
    }

    /// The bytes after the change is made.
    pub open spec fn redone(self, bytes: Seq<u8>) -> Seq<u8> {
        match self {
            EditView::Overwrite { offset, after, .. } => bytes.update(offset, after),
            EditView::OverwriteMany { offset, after, .. } => overwritten(bytes, offset, after),
            EditView::Insert { offset, byte } => inserted(bytes, offset, seq![byte]),
            EditView::InsertMany { offset, bytes: new } => inserted(bytes, offset, new),
            EditView::Delete { offset, bytes: old } => removed(bytes, offset, old.len() as int),
        }
    }

    /// The bytes after the change is taken back.
    pub open spec fn undone(self, bytes: Seq<u8>) -> Seq<u8> {
        match self {
            EditView::Overwrite { offset, before, .. } => bytes.update(offset, before),
            EditView::OverwriteMany { offset, before, .. } => overwritten(bytes, offset, before),
            EditView::Insert { offset, .. } => removed(bytes, offset, 1),
            EditView::InsertMany { offset, bytes: new } => removed(bytes, offset, new.len() as int),
            EditView::Delete { offset, bytes: old } => inserted(bytes, offset, old),
        }
    }

    /// Whether the change records what stands in `bytes` where it is made.
    pub open spec fn records(self, bytes: Seq<u8>) -> bool {
        self.applies_to(bytes.len() as int) && match self {
            EditView::Overwrite { offset, before, .. } => bytes[offset] == before,
            EditView::OverwriteMany { offset, before, .. } => bytes.subrange(
                offset,
                offset + before.len(),
            ) == before,
            EditView::Insert { .. } | EditView::InsertMany { .. } => true,
            EditView::Delete { offset, bytes: old } => bytes.subrange(offset, offset + old.len())
                == old,
        }
    }
}

/// Taking back a change that recorded what it replaced gives back the bytes, and making it again
/// gives the changed bytes again.
pub proof fn undo_takes_back_an_edit(action: EditView, bytes: Seq<u8>)
    requires
        action.records(bytes),
    ensures
        action.undone(action.redone(bytes)) == bytes,
        action.redone(action.undone(action.redone(bytes))) == action.redone(bytes),
        action.redone(bytes).len() == bytes.len() + action.growth(),
{
    match action {
        EditView::Overwrite { offset, before, .. } => {
            assert(action.undone(action.redone(bytes)) =~= bytes);
        },
        EditView::OverwriteMany { offset, before, after } => {
            assert forall|i: int| offset <= i < offset + before.len() implies bytes[i] == before[i
                - offset] by {
                assert(bytes.subrange(offset, offset + before.len())[i - offset] == bytes[i]);
            }
            assert(action.undone(action.redone(bytes)) =~= bytes);
        },
        EditView::Insert { .. } => {
            assert(action.undone(action.redone(bytes)) =~= bytes);
        },
        EditView::InsertMany { .. } => {
            assert(action.undone(action.redone(bytes)) =~= bytes);
        },
        EditView::Delete { offset, bytes: old } => {
            assert forall|i: int| offset <= i < offset + old.len() implies bytes[i] == old[i
                - offset] by {
                assert(bytes.subrange(offset, offset + old.len())[i - offset] == bytes[i]);
            }
            assert(action.undone(action.redone(bytes)) =~= bytes);
        },
    }
}

/// Whether the changes in a list, the last one first, can all be taken back in a file that now
/// has `length` bytes.
pub open spec fn can_undo(actions: Seq<EditView>, length: int) -> bool
    decreases actions.len(),
{
    actions.len() == 0 || {
        let before = length - actions.last().growth();
        actions.last().applies_to(before) && can_undo(actions.drop_last(), before)
    }
}

/// Whether the changes in a list, the last one first, can all be made again in a file that now
/// has `length` bytes.
pub open spec fn can_redo(actions: Seq<EditView>, length: int) -> bool
    decreases actions.len(),
{
    actions.len() == 0 || {
        actions.last().applies_to(length) && can_redo(
            actions.drop_last(),
            length + actions.last().growth(),
        )
    }
}

/// Appends the bytes of `from` between two offsets.
fn append_range(out: &mut Vec<u8>, from: &Vec<u8>, start: usize, end: usize)
    requires
        start <= end <= from.len(),
    ensures
        final(out)@ == old(out)@ + from@.subrange(start as int, end as int),
{
    let ghost before = out@;
    let mut i: usize = start;
    assert(out@ =~= before + from@.subrange(start as int, i as int));
    while i < end
        invariant
            start <= i <= end <= from.len(),
            out@ == before + from@.subrange(start as int, i as int),
        decreases end - i,
    {
        out.push(from[i]);
        i = i + 1;
        assert(out@ =~= before + from@.subrange(start as int, i as int));
    }
}

/// The bytes between two offsets.
pub fn bytes_between(from: &Vec<u8>, start: usize, end: usize) -> (out: Vec<u8>)
    requires
        start <= end <= from.len(),
    ensures
        out@ == from@.subrange(start as int, end as int),
{
    let mut out: Vec<u8> = Vec::new();
    append_range(&mut out, from, start, end);
    assert(out@ =~= from@.subrange(start as int, end as int));
    out
}

/// `bytes` with `new` standing before the byte at `offset`.
pub fn insert_into(bytes: &Vec<u8>, offset: usize, new: &Vec<u8>) -> (out: Vec<u8>)
    requires
        offset <= bytes.len(),
    ensures
        out@ == inserted(bytes@, offset as int, new@),
{
    let mut out: Vec<u8> = Vec::new();
    append_range(&mut out, bytes, 0, offset);
    append_range(&mut out, new, 0, new.len());
    append_range(&mut out, bytes, offset, bytes.len());
    assert(out@ =~= inserted(bytes@, offset as int, new@));
    out
}

/// `bytes` without those from `start` up to `end`.
pub fn remove_from(bytes: &Vec<u8>, start: usize, end: usize) -> (out: Vec<u8>)
    requires
        start <= end <= bytes.len(),
    ensures
        out@ == removed(bytes@, start as int, end - start),
{
    let mut out: Vec<u8> = Vec::new();
    append_range(&mut out, bytes, 0, start);
    append_range(&mut out, bytes, end, bytes.len());
    assert(out@ =~= removed(bytes@, start as int, end - start));
    out
}

/// `bytes` with the first `count` of `new` in place of as many bytes from `offset` on.
pub fn overwrite_in(bytes: &Vec<u8>, offset: usize, new: &Vec<u8>) -> (out: Vec<u8>)
    requires
        offset + new.len() <= bytes.len(),
    ensures
        out@ == overwritten(bytes@, offset as int, new@),
{
    let mut out: Vec<u8> = Vec::new();
    append_range(&mut out, bytes, 0, offset);
    append_range(&mut out, new, 0, new.len());
    append_range(&mut out, bytes, offset + new.len(), bytes.len());
    assert(out@ =~= overwritten(bytes@, offset as int, new@));
    out
}

/// A copy of `bytes`.
pub fn copy_bytes(bytes: &Vec<u8>) -> (out: Vec<u8>)
    ensures
        out@ == bytes@,
{
    bytes_between(bytes, 0, bytes.len())
}

/// A field after `count` bytes were inserted at `offset`: it moves if it starts there or later,
/// and grows if it starts before and reaches there.
pub open spec fn moved_right(field: FieldView, offset: int, count: int) -> FieldView {
    if field.start >= offset {
        FieldView {
            start: geometry::plus(field.start, count),
            end: geometry::plus(field.end, count),
            ..field
        }
    } else if field.end >= offset {
        FieldView { end: geometry::plus(field.end, count), ..field }
    } else {
        field
    }
}

/// The fields after `count` bytes were inserted at `offset`.
pub open spec fn shifted_right(fields: Seq<FieldView>, offset: int, count: int) -> Seq<FieldView> {
    Seq::new(fields.len(), |i: int| moved_right(fields[i], offset, count))
}

/// A field after the `count` bytes from `offset` on were removed: the part of it that remains,
/// or nothing where none of it does.
pub open spec fn moved_left(field: FieldView, offset: int, count: int) -> Option<FieldView> {
    let last = geometry::plus(offset, count - 1);
    if field.end < offset {
        Some(field)
    } else if field.start > last {
        Some(
            FieldView {
                start: geometry::minus(field.start, count),
                end: geometry::minus(field.end, count),
                ..field
            },
        )
    } else if field.start < offset {
        Some(
            FieldView {
                end: if field.end > last {
                    geometry::minus(field.end, count)
                } else {
                    offset - 1
                },
                ..field
            },
        )
    } else if field.end > last {
        Some(FieldView { start: offset, end: geometry::minus(field.end, count), ..field })
    } else {
        None
    }
}

/// The fields after the `count` bytes from `offset` on were removed.
pub open spec fn shifted_left(fields: Seq<FieldView>, offset: int, count: int) -> Seq<FieldView>
    decreases fields.len(),
{
    if fields.len() == 0 {
        fields
    } else {
        let rest = shifted_left(fields.drop_last(), offset, count);
        match moved_left(fields.last(), offset, count) {
            Some(field) => rest.push(field),
            None => rest,
        }
    }
}

/// Whether every field is ordered and lies in a file of `length` bytes.
pub open spec fn fields_inside(fields: Seq<FieldView>, length: int) -> bool {
    forall|i: int|
        0 <= i < fields.len() ==> 0 <= (#[trigger] fields[i]).start <= fields[i].end < length
}

/// Moves the fields for `count` bytes inserted at `offset`.
pub fn shift_fields_right(fields: &mut Vec<Field>, offset: usize, count: usize)
    ensures
        text::views(final(fields)@) == shifted_right(
            text::views(old(fields)@),
            offset as int,
            count as int,
        ),
{
    let ghost before = text::views(fields@);
    let mut i: usize = 0;
    while i < fields.len()
        invariant
            i <= fields.len() == before.len(),
            forall|k: int|
                0 <= k < i ==> (#[trigger] fields@[k])@ == moved_right(
                    before[k],
                    offset as int,
                    count as int,
                ),
            forall|k: int| i <= k < before.len() ==> (#[trigger] fields@[k])@ == before[k],
        decreases fields.len() - i,
    {
        if fields[i].start >= offset {
            fields[i].start = fields[i].start.saturating_add(count);
            fields[i].end = fields[i].end.saturating_add(count);
        } else if fields[i].end >= offset {
            fields[i].end = fields[i].end.saturating_add(count);
        }
        i = i + 1;
    }
    assert(text::views(fields@) =~= shifted_right(before, offset as int, count as int));
}

/// Moves, cuts, or drops the fields for `count` bytes removed at `offset`.
pub fn shift_fields_left(fields: &mut Vec<Field>, offset: usize, count: usize)
    requires
        count > 0,
    ensures
        text::views(final(fields)@) == shifted_left(
            text::views(old(fields)@),
            offset as int,
            count as int,
        ),
{
    let ghost before = text::views(fields@);
    let last: usize = offset.saturating_add(count - 1);
    let mut kept: Vec<Field> = Vec::new();
    let mut i: usize = 0;
    assert(text::views(kept@) =~= shifted_left(before.take(0), offset as int, count as int));
    while i < fields.len()
        invariant
            i <= fields.len() == before.len(),
            count > 0,
            before == text::views(fields@),
            last == geometry::plus(offset as int, count - 1),
            text::views(kept@) == shifted_left(
                before.take(i as int),
                offset as int,
                count as int,
            ),
        decreases fields.len() - i,
    {
        let mut field = fields[i].copy();
        assert(field@ == before[i as int]);
        assert(before.take(i + 1).drop_last() =~= before.take(i as int));
        if field.end < offset {
            kept.push(field);
        } else if field.start > last {
            field.start = field.start.saturating_sub(count);
            field.end = field.end.saturating_sub(count);
            kept.push(field);
        } else if field.start < offset {
            field.end = if field.end > last {
                field.end.saturating_sub(count)
            } else {
                offset - 1
            };
            kept.push(field);
        } else if field.end > last {
            field.start = offset;
            field.end = field.end.saturating_sub(count);
            kept.push(field);
        }
        i = i + 1;
    }
    assert(before.take(i as int) =~= before);
    *fields = kept;
}

/// Insertion and removal keep the fields ordered and inside the file.
pub proof fn fields_stay_inside(fields: Seq<FieldView>, length: int, offset: int, count: int)
    requires
        fields_inside(fields, length),
        0 <= offset <= length,
        0 < count,
        length + count <= usize::MAX,
    ensures
        fields_inside(shifted_right(fields, offset, count), length + count),
        offset + count <= length ==> fields_inside(
            shifted_left(fields, offset, count),
            length - count,
        ),
        shifted_left(fields, offset, count).len() <= fields.len(),
{
    if offset + count <= length {
        lemma_fields_stay_inside(fields, length, offset, count);
    }
    lemma_fewer_fields(fields, offset, count);
}

/// Removal never adds a field.
pub proof fn lemma_fewer_fields(fields: Seq<FieldView>, offset: int, count: int)
    ensures
        shifted_left(fields, offset, count).len() <= fields.len(),
    decreases fields.len(),
{
    if fields.len() > 0 {
        lemma_fewer_fields(fields.drop_last(), offset, count);
    }
}

/// Removal keeps the fields ordered and inside the file.
pub proof fn lemma_fields_stay_inside(fields: Seq<FieldView>, length: int, offset: int, count: int)
    requires
        fields_inside(fields, length),
        0 <= offset,
        0 < count,
        offset + count <= length <= usize::MAX,
    ensures
        fields_inside(shifted_left(fields, offset, count), length - count),
    decreases fields.len(),
{
    if fields.len() > 0 {
        assert forall|i: int| 0 <= i < fields.drop_last().len() implies 0 <= (
        #[trigger] fields.drop_last()[i]).start <= fields.drop_last()[i].end < length by {
            assert(fields.drop_last()[i] == fields[i]);
        }
        lemma_fields_stay_inside(fields.drop_last(), length, offset, count);
        let f = fields[fields.len() - 1];
        assert(0 <= f.start <= f.end < length);
    }
}

/// Removing bytes that were just inserted gives the fields back.
pub proof fn fields_return_after_insertion(
    fields: Seq<FieldView>,
    length: int,
    offset: int,
    count: int,
)
    requires
        fields_inside(fields, length),
        0 <= offset <= length,
        0 < count,
        length + count <= usize::MAX,
    ensures
        shifted_left(shifted_right(fields, offset, count), offset, count) == fields,
    decreases fields.len(),
{
    let shifted = shifted_right(fields, offset, count);
    if fields.len() == 0 {
        assert(shifted_left(shifted, offset, count) =~= fields);
    } else {
        let rest = fields.drop_last();
        assert forall|i: int| 0 <= i < rest.len() implies 0 <= (#[trigger] rest[i]).start
            <= rest[i].end < length by {
            assert(rest[i] == fields[i]);
        }
        fields_return_after_insertion(rest, length, offset, count);
        assert(shifted.drop_last() =~= shifted_right(rest, offset, count));
        let f = fields[fields.len() - 1];
        assert(0 <= f.start <= f.end < length);
        assert(moved_left(moved_right(f, offset, count), offset, count) == Some(f));
        assert(fields =~= rest.push(f));
    }
}

/// Whether a removal leaves a field whole: the field lies apart from the removed bytes, or
/// reaches beyond them on both sides.
pub open spec fn spared(field: FieldView, offset: int, count: int) -> bool {
    field.end < offset || field.start >= offset + count || (field.start < offset && field.end
        >= offset + count)
}

/// Putting removed bytes back gives back the fields that the removal left whole.
pub proof fn fields_return_after_removal(
    fields: Seq<FieldView>,
    length: int,
    offset: int,
    count: int,
)
    requires
        fields_inside(fields, length),
        forall|i: int| 0 <= i < fields.len() ==> spared(#[trigger] fields[i], offset, count),
        0 <= offset,
        0 < count,
        offset + count <= length <= usize::MAX,
    ensures
        shifted_right(shifted_left(fields, offset, count), offset, count) == fields,
    decreases fields.len(),
{
    if fields.len() == 0 {
        assert(shifted_right(shifted_left(fields, offset, count), offset, count) =~= fields);
    } else {
        let rest = fields.drop_last();
        assert forall|i: int| 0 <= i < rest.len() implies 0 <= (#[trigger] rest[i]).start
            <= rest[i].end < length && spared(rest[i], offset, count) by {
            assert(rest[i] == fields[i]);
        }
        fields_return_after_removal(rest, length, offset, count);
        let f = fields[fields.len() - 1];
        assert(0 <= f.start <= f.end < length);
        assert(spared(f, offset, count));
        let moved = moved_left(f, offset, count);
        assert(moved is Some && moved_right(moved->0, offset, count) == f);
        let cut = shifted_left(fields, offset, count);
        assert(shifted_right(cut, offset, count) =~= shifted_right(
            shifted_left(rest, offset, count),
            offset,
            count,
        ).push(f));
        assert(fields =~= rest.push(f));
    }
}

/// Whether two versions of a file differ at an offset, or only one of them has it.
pub open spec fn differs(bytes: Seq<u8>, saved: Seq<u8>, offset: int) -> bool {
    0 <= offset < geometry::max(bytes.len() as int, saved.len() as int) && !(offset < bytes.len()
        && offset < saved.len() && bytes[offset] == saved[offset])
}

/// The offsets at which two versions of a file differ.
pub open spec fn changes(bytes: Seq<u8>, saved: Seq<u8>) -> Set<usize> {
    Set::new(|offset: usize| differs(bytes, saved, offset as int))
}

/// The offsets at which two versions of a file differ.
pub fn changed_offsets(bytes: &Vec<u8>, saved: &Vec<u8>) -> (offsets: BTreeSet<usize>)
    ensures
        offsets@ == changes(bytes@, saved@),
{
    let mut offsets: BTreeSet<usize> = BTreeSet::new();
    let end: usize = if bytes.len() >= saved.len() {
        bytes.len()
    } else {
        saved.len()
    };
    let mut i: usize = 0;
    while i < end
        invariant
            i <= end == geometry::max(bytes.len() as int, saved.len() as int),
            forall|k: usize| #[trigger]
                offsets@.contains(k) == (k < i && differs(bytes@, saved@, k as int)),
        decreases end - i,
    {
        if !(i < bytes.len() && i < saved.len() && bytes[i] == saved[i]) {
            offsets.insert(i);
        }
        i = i + 1;
    }
    assert(offsets@ =~= changes(bytes@, saved@));
    offsets
}

/// No offset differs exactly where the two versions are the same.
pub proof fn no_changes_means_equal(bytes: Seq<u8>, saved: Seq<u8>)
    requires
        bytes.len() <= usize::MAX,
        saved.len() <= usize::MAX,
    ensures
        changes(bytes, saved).is_empty() <==> bytes == saved,
{
    let set = changes(bytes, saved);
    if bytes == saved {
        assert(set =~= Set::<usize>::empty());
    } else {
        if forall|i: int| 0 <= i < bytes.len() && i < saved.len() ==> bytes[i] == saved[i] {
            if bytes.len() == saved.len() {
                assert(bytes =~= saved);
            }
            let at = geometry::min(bytes.len() as int, saved.len() as int);
            assert(differs(bytes, saved, at));
            assert(set.contains(at as usize));
        } else {
            let i = choose|i: int|
                0 <= i < bytes.len() && i < saved.len() && bytes[i] != saved[i];
            assert(differs(bytes, saved, i));
            assert(set.contains(i as usize));
        }
    }
}

/// Whether a field is the rest of another one, from which the `count` bytes from `offset` on were
/// removed: it covers the bytes that the other one covered and that are still there, and no others,
/// and is called, described, and colored as before.
pub open spec fn is_rest_of(rest: FieldView, field: FieldView, offset: int, count: int) -> bool {
    &&& rest.name == field.name
    &&& rest.description == field.description
    &&& rest.color == field.color
    &&& rest.start <= rest.end
    &&& forall|n: int|
        #![trigger geometry::between(rest.start, n, rest.end)]
        geometry::between(rest.start, n, rest.end) <==> geometry::between(
            field.start,
            if n < offset {
                n
            } else {
                n + count
            },
            field.end,
        )
}

/// After a removal every field of which a byte is still there covers exactly what is left of it,
/// and no other field is left; the fields stay in order.
pub proof fn removal_leaves_what_is_still_there(
    fields: Seq<FieldView>,
    length: int,
    offset: int,
    count: int,
)
    requires
        fields_inside(fields, length),
        0 <= offset,
        0 < count,
        offset + count <= length <= usize::MAX,
    ensures
        ({
            let kept = fields.filter(
                |f: FieldView| f.start < offset || f.end >= offset + count,
            );
            let after = shifted_left(fields, offset, count);
            &&& after.len() == kept.len()
            &&& forall|i: int|
                0 <= i < after.len() ==> is_rest_of(#[trigger] after[i], kept[i], offset, count)
        }),
    decreases fields.len(),
{
    let stays = |f: FieldView| f.start < offset || f.end >= offset + count;
    let kept = fields.filter(stays);
    let after = shifted_left(fields, offset, count);
    reveal(Seq::filter);
    if fields.len() > 0 {
        let rest = fields.drop_last();
        assert forall|i: int| 0 <= i < rest.len() implies 0 <= (#[trigger] rest[i]).start
            <= rest[i].end < length by {
            assert(rest[i] == fields[i]);
        }
        removal_leaves_what_is_still_there(rest, length, offset, count);
        let f = fields[fields.len() - 1];
        assert(0 <= f.start <= f.end < length);
        let moved = moved_left(f, offset, count);
        assert(moved is Some <==> stays(f));
        if stays(f) {
            assert(is_rest_of(moved->0, f, offset, count));
            let kept_rest = rest.filter(stays);
            assert(kept == kept_rest.push(f));
            assert(after == shifted_left(rest, offset, count).push(moved->0));
            assert forall|i: int| 0 <= i < after.len() implies is_rest_of(
                #[trigger] after[i],
                kept[i],
                offset,
                count,
            ) by {
                if i < after.len() - 1 {
                    assert(after[i] == shifted_left(rest, offset, count)[i]);
                    assert(kept[i] == kept_rest[i]);
                }
            }
        }
    }
}

/// Whether a field is another one after `count` bytes were inserted at `offset`: it covers the
/// bytes that the other one covered, and the new ones exactly where they stand between two of
/// these, and is called, described, and colored as before.
pub open spec fn is_moved_from(moved: FieldView, field: FieldView, offset: int, count: int) -> bool {
    &&& moved.name == field.name
    &&& moved.description == field.description
    &&& moved.color == field.color
    &&& forall|n: int|
        #![trigger geometry::between(moved.start, n, moved.end)]
        geometry::between(moved.start, n, moved.end) <==> if n < offset {
            geometry::between(field.start, n, field.end)
        } else if n < offset + count {
            geometry::between(field.start, offset - 1, field.end) && geometry::between(
                field.start,
                offset,
                field.end,
            )
        } else {
            geometry::between(field.start, n - count, field.end)
        }
}

/// After an insertion every field covers the bytes that it covered before, and the new ones only
/// where they stand inside it; the fields stay in order.
pub proof fn insertion_moves_fields_along(
    fields: Seq<FieldView>,
    length: int,
    offset: int,
    count: int,
)
    requires
        fields_inside(fields, length),
        0 <= offset <= length,
        0 < count,
        length + count <= usize::MAX,
    ensures
        ({
            let after = shifted_right(fields, offset, count);
            &&& after.len() == fields.len()
            &&& forall|i: int|
                0 <= i < after.len() ==> is_moved_from(#[trigger] after[i], fields[i], offset, count)
        }),
{
    let after = shifted_right(fields, offset, count);
    assert forall|i: int| 0 <= i < after.len() implies is_moved_from(
        #[trigger] after[i],
        fields[i],
        offset,
        count,
    ) by {
        let f = fields[i];
        assert(0 <= f.start <= f.end < length);
    }
}

/// Inserted bytes stand where they were put, and all others keep their order around them.
pub proof fn insertion_keeps_the_other_bytes(bytes: Seq<u8>, offset: int, new: Seq<u8>, n: int)
    requires
        0 <= offset <= bytes.len(),
        0 <= n < bytes.len() + new.len(),
    ensures
        inserted(bytes, offset, new).len() == bytes.len() + new.len(),
        inserted(bytes, offset, new)[n] == if n < offset {
            bytes[n]
        } else if n < offset + new.len() {
            new[n - offset]
        } else {
            bytes[n - new.len()]
        },
{
}

/// After a removal all other bytes are still there, in order.
pub proof fn removal_keeps_the_other_bytes(bytes: Seq<u8>, offset: int, count: int, n: int)
    requires
        0 <= offset,
        0 <= count,
        offset + count <= bytes.len(),
        0 <= n < bytes.len() - count,
    ensures
        removed(bytes, offset, count).len() == bytes.len() - count,
        removed(bytes, offset, count)[n] == if n < offset {
            bytes[n]
        } else {
            bytes[n + count]
        },
{
}

/// Overwriting changes no byte but those that are written over.
pub proof fn overwriting_keeps_the_other_bytes(bytes: Seq<u8>, offset: int, new: Seq<u8>, n: int)
    requires
        0 <= offset,
        offset + new.len() <= bytes.len(),
        0 <= n < bytes.len(),
    ensures
        overwritten(bytes, offset, new).len() == bytes.len(),
        overwritten(bytes, offset, new)[n] == if offset <= n < offset + new.len() {
            new[n - offset]
        } else {
            bytes[n]
        },
{
}

/// An offset is marked as changed exactly where the two versions do not hold the same byte.
pub proof fn marks_are_where_bytes_differ(bytes: Seq<u8>, saved: Seq<u8>, offset: usize)
    ensures
        offset < bytes.len() && offset < saved.len() ==> (changes(bytes, saved).contains(offset)
            <==> bytes[offset as int] != saved[offset as int]),
        offset < bytes.len() && offset >= saved.len() ==> changes(bytes, saved).contains(offset),
        offset >= bytes.len() && offset < saved.len() ==> changes(bytes, saved).contains(offset),
        offset >= bytes.len() && offset >= saved.len() ==> !changes(bytes, saved).contains(offset),
{
}

} // verus!
