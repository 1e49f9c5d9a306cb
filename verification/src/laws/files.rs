//! What happens to the open files as a whole.

use vstd::prelude::*;

use crate::app::DocView;
use crate::dialog::{CompletionView, OpenFileView};
use crate::effects::EffectView;
use crate::geometry::Rect;
use crate::input::{KeyCode, KeyEvent, MouseEvent};
use crate::laws::finding::follows_around;
use crate::laws::selecting::{at_rest, unmodified};
use crate::modes::Focus;
use crate::numbers;
use crate::python::SnapshotView;
use crate::selection;
use crate::text;
use crate::workspace;
use crate::workspace::{TaskView, WorkspaceView};

verus! {

/// Whether a file is as it was, but for its entropy, which may have been asked for.
pub open spec fn as_before(before: DocView, after: DocView) -> bool {
    after == DocView {
        entropy_ready: after.entropy_ready,
        entropy_worker: after.entropy_worker,
        entropy_scanned: after.entropy_scanned,
        entropy_total: after.entropy_total,
        effects: after.effects,
        status: after.status,
        ..before
    }
}

/// Whether all files are as they were, in the same order.
pub open spec fn all_as_before(before: Seq<DocView>, after: Seq<DocView>) -> bool {
    after.len() == before.len() && forall|i: int|
        0 <= i < before.len() ==> as_before(before[i], #[trigger] after[i])
}

proof fn lemma_requested(ws: WorkspaceView)
    requires
        ws.documents.len() > 0,
        0 <= ws.active < ws.documents.len(),
    ensures
        all_as_before(ws.documents, ws.entropy_requested().documents),
        all_as_before(ws.documents, ws.entropy_kept().documents),
        ws.entropy_requested() == (WorkspaceView {
            documents: ws.entropy_requested().documents,
            ..ws
        }),
        ws.entropy_kept() == (WorkspaceView { documents: ws.entropy_kept().documents, ..ws }),
        !ws.show_entropy ==> ws.entropy_kept() == ws,
{
    reveal(WorkspaceView::entropy_requested);
    reveal(DocView::entropy_requested);
    reveal(DocView::asking);
    reveal(DocView::say);
}

/// Closing removes exactly the active file: all others stay as they are and in order, whichever
/// file is active. The file that takes its place is the active one, or the last one where there
/// is none; with a single file left nothing is shown side by side.
pub proof fn closing_removes_the_active_file(ws: WorkspaceView)
    requires
        ws.wf(),
        ws.documents.len() > 0,
    ensures
        ({
            let after = ws.close_finished(Ok(()));
            let count = ws.documents.len() as int;
            let closed = ws.documents[ws.active];
            &&& after.documents.len() == count - 1
            &&& forall|i: int|
                0 <= i < count - 1 ==> #[trigger] after.documents[i] == if i < ws.active {
                    ws.documents[i]
                } else {
                    ws.documents[i + 1]
                }
            &&& after.active == if ws.active < count - 1 {
                ws.active
            } else if count >= 2 {
                count - 2
            } else {
                0
            }
            &&& count > 1 ==> after.status == "Closed "@ + closed.path
            &&& count == 1 ==> after.status == "Closed "@ + closed.path + "; Ctrl+N opens a file"@
            &&& after.side_by_side == (ws.side_by_side && count > 2)
            &&& after.diff_mode == (ws.diff_mode && count > 2)
            &&& after == WorkspaceView {
                documents: after.documents,
                active: after.active,
                status: after.status,
                side_by_side: after.side_by_side,
                diff_mode: after.diff_mode,
                panes: after.panes,
                ..ws
            }
        }),
{
    reveal(WorkspaceView::close_finished);
}

/// A file without unsaved changes is closed at the first request, and what is closed is asked for
/// outside; while a console is open no file is.
#[verifier::spinoff_prover]
#[verifier::rlimit(60)]
pub proof fn saved_files_close_at_once(ws: WorkspaceView)
    requires
        ws.wf(),
        ws.documents.len() > 0,
        ws.documents[ws.active].bytes == ws.documents[ws.active].saved,
    ensures
        ({
            let after = ws.close_requested();
            &&& (forall|i: int|
                0 <= i < ws.documents.len() ==> !((#[trigger] ws.documents[i]).mode is Python))
                ==> after.tasks == ws.tasks.push(TaskView::StoreAndClose)
            &&& (exists|i: int|
                0 <= i < ws.documents.len() && (#[trigger] ws.documents[i]).mode is Python)
                ==> after == WorkspaceView { status: after.status, ..ws }
            &&& all_as_before(ws.documents, after.documents)
            &&& after.active == ws.active
        }),
{
    let doc = ws.documents[ws.active];
    lemma_document(ws, ws.active);
    crate::app::laws::marks_tell_changes(doc);
    lemma_dropped(doc);
    reveal(WorkspaceView::close_requested);
    let after = ws.close_requested();
    assert forall|i: int| 0 <= i < ws.documents.len() implies as_before(
        ws.documents[i],
        #[trigger] after.documents[i],
    ) by {}
}

proof fn lemma_document(ws: WorkspaceView, i: int)
    requires
        ws.wf(),
        0 <= i < ws.documents.len(),
    ensures
        ws.documents[i].wf(),
{
    reveal(workspace::documents_ok);
}

proof fn lemma_dropped(doc: DocView)
    ensures
        as_before(doc, doc.entropy_dropped()),
{
    reveal(DocView::entropy_dropped);
    reveal(DocView::asking);
}

/// A file that was read is added behind the others, which stay as they are, and is the active one;
/// a file that could not be read changes nothing but the message.
pub proof fn opening_adds_the_file(ws: WorkspaceView, path: Seq<char>, doc: DocView, error: Seq<char>)
    requires
        ws.wf(),
    ensures
        ({
            let after = ws.open_finished(path, Ok(doc));
            let count = ws.documents.len() as int;
            &&& after.documents.len() == count + 1
            &&& forall|i: int|
                0 <= i < count ==> as_before(ws.documents[i], #[trigger] after.documents[i])
            &&& as_before(doc, after.documents[count])
            &&& after.active == count
            &&& after.status == "Opened "@ + path
            &&& after.dialog is None
            &&& after == WorkspaceView {
                documents: after.documents,
                active: count,
                status: after.status,
                dialog: None,
                ..ws
            }
        }),
        ({
            let after = ws.open_finished(path, Err(error));
            &&& after == WorkspaceView { status: after.status, ..ws }
            &&& after.status == "Could not open "@ + path + ": "@ + error
        }),
{
    reveal(WorkspaceView::open_finished);
    let added = WorkspaceView {
        documents: ws.documents.push(doc),
        active: ws.documents.len() as int,
        ..ws
    };
    lemma_requested(added);
    let after = ws.open_finished(path, Ok(doc));
    let count = ws.documents.len() as int;
    assert forall|i: int| 0 <= i < count implies as_before(
        ws.documents[i],
        #[trigger] after.documents[i],
    ) by {
        assert(as_before(added.documents[i], added.entropy_kept().documents[i]));
    }
    assert(as_before(added.documents[count], added.entropy_kept().documents[count]));
}

/// Whether the files take a key of the workspace: no dialog is open, and no switch has begun.
pub open spec fn listening(ws: WorkspaceView) -> bool {
    ws.dialog is None && !ws.switching && ws.documents.len() > 0
}

proof fn lemma_selected(ws: WorkspaceView, index: int)
    requires
        ws.wf(),
        0 <= index < ws.documents.len(),
    ensures
        ({
            let after = ws.document_selected(index);
            &&& after.active == index
            &&& all_as_before(ws.documents, after.documents)
            &&& after.status == "Active binary: "@ + ws.documents[index].path
            &&& after == WorkspaceView {
                active: index,
                documents: after.documents,
                status: after.status,
                ..ws
            }
        }),
{
    reveal(WorkspaceView::document_selected);
    lemma_requested(WorkspaceView { active: index, ..ws });
}

proof fn lemma_switched(ws: WorkspaceView, key: KeyEvent)
    requires
        listening(ws),
        key.modifiers.control,
        key.code == KeyCode::Char('b'),
    ensures
        ({
            let begun = ws.pressed(key).workspace;
            &&& !ws.pressed(key).quit
            &&& begun == WorkspaceView { switching: true, status: begun.status, ..ws }
        }),
{
    reveal(WorkspaceView::pressed);
    reveal(WorkspaceView::own_key);
}

/// The key for switching and an arrow go to the next file, the first one after the last, or to the
/// previous one, the last one before the first. No file changes, and the message names the file.
pub proof fn arrows_switch_to_the_neighbours(ws: WorkspaceView, first: KeyEvent, arrow: KeyEvent)
    requires
        ws.wf(),
        listening(ws),
        first.modifiers.control,
        first.code == KeyCode::Char('b'),
        arrow.code == KeyCode::Left || arrow.code == KeyCode::Right,
    ensures
        ({
            let after = ws.pressed(first).workspace.pressed(arrow).workspace;
            let count = ws.documents.len() as int;
            &&& arrow.code == KeyCode::Right ==> follows_around(ws.active, after.active, count)
            &&& arrow.code == KeyCode::Left ==> follows_around(after.active, ws.active, count)
            &&& all_as_before(ws.documents, after.documents)
            &&& after.status == "Active binary: "@ + ws.documents[after.active].path
            &&& after == WorkspaceView {
                active: after.active,
                documents: after.documents,
                status: after.status,
                ..ws
            }
            &&& !ws.pressed(first).quit
            &&& !ws.pressed(first).workspace.pressed(arrow).quit
        }),
{
    lemma_switched(ws, first);
    let begun = ws.pressed(first).workspace;
    let calm = WorkspaceView { switching: false, ..begun };
    reveal(WorkspaceView::pressed);
    reveal(WorkspaceView::switch_key);
    let count = ws.documents.len() as int;
    let next = (ws.active + 1) % count;
    if ws.active + 1 < count {
        vstd::arithmetic::div_mod::lemma_small_mod((ws.active + 1) as nat, count as nat);
    } else {
        vstd::arithmetic::div_mod::lemma_mod_self_0(count);
    }
    let previous = if ws.active == 0 {
        count - 1
    } else {
        ws.active - 1
    };
    assert(calm.wf());
    lemma_selected(calm, next);
    lemma_selected(calm, previous);
}

/// The key for switching and any other key that does nothing there leave all as it was.
pub proof fn other_keys_cancel_the_switch(ws: WorkspaceView, first: KeyEvent, other: KeyEvent)
    requires
        listening(ws),
        first.modifiers.control,
        first.code == KeyCode::Char('b'),
        other.code != KeyCode::Left,
        other.code != KeyCode::Right,
        other.code != KeyCode::Char('s'),
    ensures
        ({
            let after = ws.pressed(first).workspace.pressed(other).workspace;
            after == WorkspaceView { status: after.status, ..ws }
        }),
        !ws.pressed(first).workspace.pressed(other).quit,
{
    lemma_switched(ws, first);
    reveal(WorkspaceView::pressed);
    reveal(WorkspaceView::switch_key);
}

/// The key for switching and the letter for it show the files side by side, and the same again
/// no longer does; differences are then no longer shown either. With a single file nothing
/// changes but the message.
pub proof fn files_are_shown_side_by_side(ws: WorkspaceView, first: KeyEvent, letter: KeyEvent)
    requires
        listening(ws),
        first.modifiers.control,
        first.code == KeyCode::Char('b'),
        letter.code == KeyCode::Char('s'),
        0 <= ws.active < ws.documents.len(),
        !ws.documents[ws.active].edit_mode,
    ensures
        ({
            let after = ws.pressed(first).workspace.pressed(letter).workspace;
            &&& after.documents == ws.documents
            &&& after.active == ws.active
            &&& ws.documents.len() > 1 ==> after.side_by_side == !ws.side_by_side
            &&& ws.documents.len() > 1 && !ws.side_by_side ==> after.diff_mode == ws.diff_mode
            &&& ws.documents.len() > 1 && ws.side_by_side ==> !after.diff_mode
            &&& ws.documents.len() == 1 ==> after == WorkspaceView { status: after.status, ..ws }
        }),
{
    lemma_switched(ws, first);
    reveal(WorkspaceView::pressed);
    reveal(WorkspaceView::switch_key);
    reveal(WorkspaceView::side_by_side_toggled);
}

/// Whether the active file is viewed.
pub open spec fn viewed(ws: WorkspaceView) -> bool {
    &&& listening(ws)
    &&& 0 <= ws.active < ws.documents.len()
    &&& !ws.documents[ws.active].edit_mode
    &&& ws.documents[ws.active].mode is Normal
}

/// The key for differences shows them, side by side, or shows them no longer, and then leaves the
/// files side by side. No file changes, and with a single one nothing changes but the message.
pub proof fn differences_are_shown_and_hidden(ws: WorkspaceView, key: KeyEvent)
    requires
        viewed(ws),
        key.modifiers.control,
        key.code == KeyCode::Char('d'),
    ensures
        ({
            let after = ws.pressed(key).workspace;
            &&& !ws.pressed(key).quit
            &&& ws.documents.len() > 1 ==> {
                &&& after.diff_mode == !ws.diff_mode
                &&& after.side_by_side == (ws.side_by_side || after.diff_mode)
                &&& after == WorkspaceView {
                    diff_mode: after.diff_mode,
                    side_by_side: after.side_by_side,
                    ..ws
                }
            }
            &&& ws.documents.len() == 1 ==> after == WorkspaceView { status: after.status, ..ws }
        }),
{
    reveal(WorkspaceView::pressed);
    reveal(WorkspaceView::own_key);
    reveal(WorkspaceView::diff_toggled);
}

/// The key for the entropy shows it, and asks for it where it is not there yet: for the active
/// file, or for all files where they are shown side by side. The same key hides it again, and so
/// does the escape key.
pub proof fn entropy_is_shown_and_hidden(ws: WorkspaceView, key: KeyEvent, i: int)
    requires
        ws.wf(),
        viewed(ws),
        key.code == KeyCode::Char('e') && !key.modifiers.control || (key.code == KeyCode::Esc
            && ws.show_entropy),
        0 <= i < ws.documents.len(),
    ensures
        ({
            let after = ws.pressed(key).workspace;
            let due = !ws.documents[i].entropy_ready && !ws.documents[i].entropy_worker;
            &&& after.show_entropy == !ws.show_entropy
            &&& all_as_before(ws.documents, after.documents)
            &&& after == WorkspaceView {
                show_entropy: after.show_entropy,
                documents: after.documents,
                status: after.status,
                ..ws
            }
            &&& ws.show_entropy ==> after.documents == ws.documents
            &&& !ws.show_entropy && due && (ws.side_by_side || i == ws.active)
                ==> after.documents[i].entropy_worker && after.documents[i].entropy_total
                == ws.documents[i].bytes.len() && after.documents[i].entropy_scanned == 0
                && after.documents[i].effects == ws.documents[i].effects.push(
                EffectView::StartEntropy,
            )
            &&& !ws.show_entropy && !due ==> after.documents[i] == ws.documents[i]
            &&& !ws.show_entropy && !ws.side_by_side && i != ws.active ==> after.documents[i]
                == ws.documents[i]
        }),
{
    reveal(WorkspaceView::pressed);
    reveal(WorkspaceView::own_key);
    reveal(WorkspaceView::entropy_toggled);
    reveal(WorkspaceView::entropy_requested);
    reveal(DocView::entropy_requested);
    reveal(DocView::asking);
    reveal(DocView::say);
    lemma_requested(WorkspaceView { show_entropy: true, ..ws });
}

/// The active file is compared with the one after it, the first one after the last.
pub proof fn neighbours_are_compared(ws: WorkspaceView)
    requires
        ws.wf(),
        ws.documents.len() > 1,
    ensures
        ws.compared() is Some,
        follows_around(ws.active, ws.compared()->Some_0, ws.documents.len() as int),
{
    let count = ws.documents.len() as int;
    if ws.active + 1 < count {
        vstd::arithmetic::div_mod::lemma_small_mod((ws.active + 1) as nat, count as nat);
    } else {
        vstd::arithmetic::div_mod::lemma_mod_self_0(count);
    }
}

proof fn lemma_tab_under(tabs: Seq<(u16, u16)>, column: u16, from: int)
    requires
        0 <= from,
    ensures
        match workspace::tab_under(tabs, column, from) {
            Some(k) => {
                &&& from <= k < tabs.len()
                &&& tabs[k].0 <= column < tabs[k].1
                &&& forall|j: int| from <= j < k ==> !((#[trigger] tabs[j]).0 <= column < tabs[j].1)
            },
            None => forall|j: int|
                from <= j < tabs.len() ==> !((#[trigger] tabs[j]).0 <= column < tabs[j].1),
        },
    decreases tabs.len() - from,
{
    if from < tabs.len() && !(tabs[from].0 <= column < tabs[from].1) {
        lemma_tab_under(tabs, column, from + 1);
    }
}

proof fn lemma_pane_under(panes: Seq<Rect>, column: u16, row: u16, from: int)
    requires
        0 <= from,
    ensures
        match workspace::pane_under(panes, column, row, from) {
            Some(k) => {
                &&& from <= k < panes.len()
                &&& panes[k].covers(column, row)
                &&& forall|j: int| from <= j < k ==> !(#[trigger] panes[j]).covers(column, row)
            },
            None => forall|j: int|
                from <= j < panes.len() ==> !(#[trigger] panes[j]).covers(column, row),
        },
    decreases panes.len() - from,
{
    if from < panes.len() && !panes[from].covers(column, row) {
        lemma_pane_under(panes, column, row, from + 1);
    }
}

/// A click on a tab makes its file the active one and changes no file.
pub proof fn clicks_on_tabs_select_their_files(ws: WorkspaceView, mouse: MouseEvent, k: int)
    requires
        ws.wf(),
        ws.dialog is None,
        mouse.is_click(),
        mouse.row == ws.tab_row,
        0 <= k < ws.tabs.len(),
        k < ws.documents.len(),
        ws.tabs[k].0 <= mouse.column < ws.tabs[k].1,
        forall|j: int|
            0 <= j < k ==> !((#[trigger] ws.tabs[j]).0 <= mouse.column < ws.tabs[j].1),
    ensures
        ({
            let after = ws.mouse_used(mouse);
            &&& after.active == k
            &&& all_as_before(ws.documents, after.documents)
        }),
{
    lemma_tab_under(ws.tabs, mouse.column, 0);
    let found = workspace::tab_under(ws.tabs, mouse.column, 0);
    assert(ws.tabs[k].0 <= mouse.column < ws.tabs[k].1);
    assert(found == Some(k));
    reveal(WorkspaceView::mouse_used);
    reveal(WorkspaceView::files_mouse);
    lemma_selected(ws, k);
}

/// A mouse event changes no file but the one that is then active, and opens and closes none; a
/// click on a pane makes its file the active one.
pub proof fn the_mouse_changes_the_active_file_only(ws: WorkspaceView, mouse: MouseEvent)
    requires
        ws.wf(),
        ws.panes.len() <= ws.documents.len(),
        ws.tabs.len() <= ws.documents.len(),
    ensures
        ({
            let after = ws.mouse_used(mouse);
            &&& after.documents.len() == ws.documents.len()
            &&& forall|i: int|
                0 <= i < ws.documents.len() && i != after.active ==> as_before(
                    ws.documents[i],
                    #[trigger] after.documents[i],
                )
            &&& ws.dialog is Some ==> after.documents == ws.documents && after.active == ws.active
            &&& !mouse.is_click() ==> after.active == ws.active
            &&& ws.dialog is None && ws.documents.len() > 0 && mouse.is_click() && ws.side_by_side && (
            mouse.row != ws.tab_row || (forall|j: int|
                0 <= j < ws.tabs.len() ==> !((#[trigger] ws.tabs[j]).0 <= mouse.column
                    < ws.tabs[j].1))) ==> forall|k: int|
                #![trigger ws.panes[k]]
                0 <= k < ws.panes.len() && ws.panes[k].covers(mouse.column, mouse.row) && (forall|
                    j: int,
                |
                    0 <= j < k ==> !(#[trigger] ws.panes[j]).covers(mouse.column, mouse.row))
                    ==> after.active == k
        }),
{
    lemma_tab_under(ws.tabs, mouse.column, 0);
    lemma_pane_under(ws.panes, mouse.column, mouse.row, 0);
    reveal(WorkspaceView::mouse_used);
    reveal(WorkspaceView::files_mouse);
    let tab = workspace::tab_under(ws.tabs, mouse.column, 0);
    let pane = workspace::pane_under(ws.panes, mouse.column, mouse.row, 0);
    if ws.dialog is None && ws.documents.len() > 0 {
        if tab is Some {
            lemma_selected(ws, tab->Some_0);
        }
        if pane is Some {
            lemma_selected(ws, pane->Some_0);
        }
        assert forall|i: int| 0 <= i < ws.documents.len() implies as_before(
            ws.documents[i],
            #[trigger] ws.documents[i],
        ) by {}
    }
}

/// Whether some ranges hold exactly the offsets that are selected in a file.
pub open spec fn lists_what_is_selected(doc: DocView, listed: Seq<(usize, usize)>) -> bool {
    forall|offset: int|
        #![trigger selection::covered(doc.all_selections(), offset)]
        selection::covered(doc.all_selections(), offset) <==> exists|k: int|
            0 <= k < listed.len() && (#[trigger] listed[k]).0 <= offset <= listed[k].1
}

/// The interpreter is asked for with all files in order, each with its bytes and what is selected
/// in it; with nothing selected in the active file nothing changes but the message.
pub proof fn the_interpreter_gets_all_files(ws: WorkspaceView, key: KeyEvent, i: int)
    requires
        ws.wf(),
        viewed(ws),
        key.code == KeyCode::Char('p'),
        !key.modifiers.control,
        0 <= i < ws.documents.len(),
    ensures
        ({
            let after = ws.pressed(key).workspace;
            let doc = ws.documents[i];
            &&& ws.documents[ws.active].selection is None ==> after == WorkspaceView {
                status: after.status,
                ..ws
            }
            &&& ws.documents[ws.active].selection is Some ==> {
                &&& after == WorkspaceView { tasks: after.tasks, ..ws }
                &&& after.tasks.len() == ws.tasks.len() + 1
                &&& after.tasks.drop_last() == ws.tasks
                &&& after.tasks.last() matches TaskView::StartPython(documents, active) && {
                    &&& active == ws.active
                    &&& documents.len() == ws.documents.len()
                    &&& documents[i].index == i
                    &&& documents[i].bytes == doc.bytes
                    &&& doc.selection matches Some(s) ==> {
                        &&& documents[i].selection_start <= documents[i].selection_end
                        &&& documents[i].selection_start == s.anchor || documents[i].selection_start
                            == s.cursor
                        &&& documents[i].selection_end == s.anchor || documents[i].selection_end
                            == s.cursor
                        &&& documents[i].selection_start <= s.anchor <= documents[i].selection_end
                        &&& documents[i].selection_start <= s.cursor <= documents[i].selection_end
                    }
                    &&& lists_what_is_selected(doc, documents[i].selections)
                }
            }
        }),
{
    reveal(WorkspaceView::pressed);
    reveal(WorkspaceView::own_key);
    reveal(WorkspaceView::python_requested);
    lemma_document(ws, i);
    lemma_handed_over(ws.documents, i);
    let documents = workspace::python_documents(ws.documents);
    assert(ws.tasks.push(TaskView::StartPython(documents, ws.active)).drop_last() =~= ws.tasks);
}

proof fn lemma_handed_over(files: Seq<DocView>, i: int)
    requires
        0 <= i < files.len(),
        files[i].wf(),
    ensures
        ({
            let documents = workspace::python_documents(files);
            let doc = files[i];
            &&& documents.len() == files.len()
            &&& documents[i].index == i
            &&& documents[i].bytes == doc.bytes
            &&& doc.selection matches Some(s) ==> {
                &&& documents[i].selection_start == s.low()
                &&& documents[i].selection_end == s.high()
            }
            &&& lists_what_is_selected(doc, documents[i].selections)
        }),
{
    reveal(workspace::python_documents);
    reveal(crate::app::selection_ok);
    reveal(crate::app::layout_ok);
    let doc = files[i];
    let all = doc.all_selections();
    let ranges = doc.ranges();
    selection::lemma_merged_sound(all, doc.bytes.len());
    let listed = workspace::python_documents(files)[i].selections;
    assert(listed.len() == ranges.len());
    assert forall|offset: int|
        #![trigger selection::covered(all, offset)]
        selection::covered(all, offset) <==> exists|k: int|
            0 <= k < listed.len() && (#[trigger] listed[k]).0 <= offset <= listed[k].1 by {
        assert(selection::covered(ranges, offset) == selection::covered(all, offset));
        if selection::covered(ranges, offset) {
            let k = choose|k: int| 0 <= k < ranges.len() && (#[trigger] ranges[k]).covers(offset);
            assert(listed[k].0 == ranges[k].low() && listed[k].1 == ranges[k].high());
        }
        if exists|k: int| 0 <= k < listed.len() && (#[trigger] listed[k]).0 <= offset <= listed[k].1 {
            let k = choose|k: int|
                0 <= k < listed.len() && (#[trigger] listed[k]).0 <= offset <= listed[k].1;
            assert(ranges[k].covers(offset));
        }
    }
}

/// The key for opening a file offers to pick one or to type its path; picking is asked for
/// outside, and the escape key closes the dialog. No file changes.
pub proof fn opening_starts_with_a_choice(ws: WorkspaceView, key: KeyEvent, second: KeyEvent)
    requires
        ws.dialog is None,
        !ws.switching,
        ws.documents.len() == 0 || viewed(ws),
        key.modifiers.control,
        key.code == KeyCode::Char('n'),
    ensures
        ({
            let asked = ws.pressed(key).workspace;
            let after = asked.pressed(second).workspace;
            &&& asked == WorkspaceView { dialog: asked.dialog, ..ws }
            &&& asked.dialog == Some(OpenFileView::Choice(0))
            &&& second.code == KeyCode::Enter ==> after.tasks == ws.tasks.push(TaskView::PickFile)
            &&& second.code == KeyCode::Esc ==> after == ws
            &&& second.code == KeyCode::Down || second.code == KeyCode::Up || second.code
                == KeyCode::Tab ==> after.dialog == Some(OpenFileView::Choice(1)) && after.tasks
                == ws.tasks
            &&& after.documents == ws.documents
            &&& !ws.pressed(key).quit
            &&& !asked.pressed(second).quit
        }),
{
    reveal(WorkspaceView::pressed);
    reveal(WorkspaceView::own_key);
    reveal(WorkspaceView::empty_key);
    reveal(WorkspaceView::choice_key);
}

/// Confirming a path that was typed asks for that file, without the spaces around its path; an
/// empty path is refused, and the escape key gives the path up.
pub proof fn typed_paths_are_opened(ws: WorkspaceView, key: KeyEvent, path: CompletionView)
    requires
        ws.dialog == Some(OpenFileView::ManualPath(path)),
        path.active is None,
    ensures
        ({
            let after = ws.pressed(key).workspace;
            let typed = text::trim(path.input.value);
            &&& after.documents == ws.documents
            &&& !ws.pressed(key).quit
            &&& key.code == KeyCode::Enter && typed.len() > 0 ==> after == WorkspaceView {
                tasks: ws.tasks.push(TaskView::Open(typed)),
                ..ws
            }
            &&& key.code == KeyCode::Enter && typed.len() == 0 ==> after == WorkspaceView {
                status: after.status,
                ..ws
            }
            &&& key.code == KeyCode::Esc ==> after == WorkspaceView { dialog: None, ..ws }
        }),
{
    reveal(WorkspaceView::pressed);
    reveal(WorkspaceView::manual_key);
}

/// A file that was picked is opened, picking none is only told, and where no file can be picked a
/// path is typed.
pub proof fn picked_files_are_opened(ws: WorkspaceView, path: Seq<char>, error: Seq<char>)
    ensures
        ws.pick_finished(Ok(Some(path))) == (WorkspaceView {
            tasks: ws.tasks.push(TaskView::Open(path)),
            ..ws
        }),
        ws.pick_finished(Ok(None)) == (WorkspaceView {
            status: ws.pick_finished(Ok(None)).status,
            ..ws
        }),
        ({
            let after = ws.pick_finished(Err(error));
            &&& after == WorkspaceView { status: after.status, dialog: after.dialog, ..ws }
            &&& after.dialog matches Some(OpenFileView::ManualPath(typed)) && typed.input.value.len()
                == 0 && typed.suggestions.len() == 0
        }),
{
    reveal(WorkspaceView::pick_finished);
}

/// The number of files whose entropy is being calculated is that of those that say so.
pub proof fn running_calculations_are_counted(documents: Seq<DocView>)
    ensures
        workspace::running_count(documents) == documents.filter(
            |doc: DocView| doc.entropy_worker,
        ).len(),
    decreases documents.len(),
{
    reveal(Seq::filter);
    if documents.len() > 0 {
        running_calculations_are_counted(documents.drop_last());
    }
}

/// The key for closing closes the active file where it has no unsaved changes, asks first where it has,
/// and closes it then at the second press. No other file is touched.
pub proof fn the_key_for_closing_asks_first(ws: WorkspaceView, key: KeyEvent)
    requires
        ws.wf(),
        viewed(ws),
        key.modifiers.control,
        key.code == KeyCode::Char('w') || key.code == KeyCode::Char('W'),
        forall|i: int|
            0 <= i < ws.documents.len() ==> !((#[trigger] ws.documents[i]).mode is Python),
    ensures
        ({
            let once = ws.pressed(key).workspace;
            let doc = ws.documents[ws.active];
            let twice = once.pressed(key).workspace;
            &&& !ws.pressed(key).quit
            &&& once.documents.len() == ws.documents.len()
            &&& once.active == ws.active
            &&& doc.bytes == doc.saved ==> once.tasks == ws.tasks.push(TaskView::StoreAndClose)
            &&& doc.bytes != doc.saved && !doc.quit_armed ==> {
                &&& once.tasks == ws.tasks
                &&& once.documents[ws.active].bytes == doc.bytes
                &&& twice.tasks == ws.tasks.push(TaskView::StoreAndClose)
            }
            &&& forall|i: int|
                0 <= i < ws.documents.len() && i != ws.active ==> #[trigger] once.documents[i]
                    == ws.documents[i]
        }),
{
    let doc = ws.documents[ws.active];
    lemma_document(ws, ws.active);
    crate::app::laws::marks_tell_changes(doc);
    assert(!ws.python_is_open());
    lemma_close_key(ws, key);
    let once = ws.pressed(key).workspace;
    reveal(WorkspaceView::close_requested);
    reveal(DocView::armed);
    if doc.bytes != doc.saved && !doc.quit_armed {
        workspace::closing_needs_confirmation(ws);
        assert(viewed(once));
        lemma_close_key(once, key);
    }
}

proof fn lemma_close_key(ws: WorkspaceView, key: KeyEvent)
    requires
        viewed(ws),
        key.modifiers.control,
        key.code == KeyCode::Char('w') || key.code == KeyCode::Char('W'),
    ensures
        ws.pressed(key).workspace == ws.close_requested(),
        !ws.pressed(key).quit,
{
    reveal(WorkspaceView::pressed);
    reveal(WorkspaceView::own_key);
}

/// A buffer of the interpreter is taken over into the file that it belongs to and into no other; where
/// that file is no longer open nothing changes.
pub proof fn buffers_go_to_their_files(
    ws: WorkspaceView,
    snapshot: SnapshotView,
    python: Seq<u8>,
    i: int,
    n: int,
)
    requires
        0 <= snapshot.index,
    ensures
        ({
            let after = ws.snapshot_applied(snapshot, Ok(python));
            let doc = ws.documents[snapshot.index];
            let base = snapshot.baseline;
            &&& snapshot.index >= ws.documents.len() ==> after == ws
            &&& after.documents.len() == ws.documents.len()
            &&& 0 <= i < ws.documents.len() && i != snapshot.index ==> after.documents[i]
                == ws.documents[i]
            &&& snapshot.index < ws.documents.len() && python.len() == doc.bytes.len() && base.len()
                == doc.bytes.len() && 0 <= n < doc.bytes.len() ==> {
                let bytes = after.documents[snapshot.index].bytes;
                &&& bytes.len() == doc.bytes.len()
                &&& bytes[n] == if doc.bytes[n] == base[n] {
                    python[n]
                } else {
                    doc.bytes[n]
                }
            }
        }),
{
    reveal(WorkspaceView::snapshot_applied);
    let doc = ws.documents[snapshot.index];
    if python.len() == doc.bytes.len() && snapshot.baseline.len() == doc.bytes.len() && 0 <= n
        < doc.bytes.len() {
        crate::app::console::snapshots_keep_direct_edits(doc, snapshot, python, n);
    }
}

/// A workspace starts with the files it was given, the first one active, and nothing else shown.
pub proof fn workspaces_start_with_the_first_file(documents: Seq<DocView>)
    ensures
        ({
            let ws = WorkspaceView::opened(documents);
            &&& ws.documents == documents
            &&& ws.active == 0
            &&& !ws.side_by_side && !ws.diff_mode && !ws.show_entropy && !ws.switching
            &&& ws.dialog is None
            &&& ws.tasks.len() == 0
        }),
{
}

/// While the path of a file is typed the tabulator asks for the paths that start with it, or goes to the
/// next suggestion, and the enter key enters a directory that is chosen; other keys edit the path. No
/// file changes.
pub proof fn typed_paths_are_completed(ws: WorkspaceView, key: KeyEvent, path: CompletionView)
    requires
        ws.dialog == Some(OpenFileView::ManualPath(path)),
    ensures
        ({
            let after = ws.pressed(key).workspace;
            let some = path.suggestions.len() > 0;
            &&& after.documents == ws.documents
            &&& key.code == KeyCode::Tab && !some ==> after == WorkspaceView {
                tasks: ws.tasks.push(TaskView::ListPaths(path.input.value)),
                ..ws
            }
            &&& key.code == KeyCode::Tab && some ==> after == WorkspaceView {
                dialog: Some(OpenFileView::ManualPath(path.cycled())),
                ..ws
            }
            &&& key.code == KeyCode::Enter && path.at_directory() ==> after == WorkspaceView {
                dialog: Some(OpenFileView::ManualPath(path.descended())),
                ..ws
            }
            &&& key.code != KeyCode::Tab && key.code != KeyCode::Enter && key.code != KeyCode::Esc
                ==> after == WorkspaceView {
                dialog: Some(OpenFileView::ManualPath(path.after_key(key))),
                ..ws
            }
        }),
{
    reveal(WorkspaceView::pressed);
    reveal(WorkspaceView::manual_key);
}

/// Without a file only two keys do anything: the one for opening a file, and the one that quits.
pub proof fn empty_workspaces_wait(ws: WorkspaceView, key: KeyEvent)
    requires
        ws.dialog is None,
        ws.documents.len() == 0,
        !(key.modifiers.control && key.code == KeyCode::Char('n')),
    ensures
        ws.pressed(key).quit <==> key.code == KeyCode::Char('q'),
        ws.pressed(key).workspace == (WorkspaceView {
            status: ws.pressed(key).workspace.status,
            ..ws
        }),
{
    reveal(WorkspaceView::pressed);
    reveal(WorkspaceView::empty_key);
}

/// The console opens over the active file and over no other, with the buffers that were handed out; an
/// interpreter that could not be started is only told.
pub proof fn the_console_opens_over_the_active_file(
    ws: WorkspaceView,
    snapshots: Seq<SnapshotView>,
    error: Seq<char>,
    i: int,
)
    requires
        ws.wf(),
        0 <= i < ws.documents.len(),
    ensures
        ({
            let after = ws.python_started(Ok(snapshots));
            &&& after.documents.len() == ws.documents.len()
            &&& after.active == ws.active
            &&& i != ws.active ==> after.documents[i] == ws.documents[i]
            &&& i == ws.active ==> after.documents[i].bytes == ws.documents[i].bytes
                && after.documents[i].mode is Python && after.documents[i].mode->Python_0.snapshots
                == snapshots
        }),
        ws.python_started(Err(error)) == (WorkspaceView { status: error, ..ws }),
{
    reveal(WorkspaceView::python_started);
    reveal(DocView::python_opened);
    reveal(DocView::in_mode);
    reveal(DocView::focused);
    reveal(DocView::say);
}

/// Pasted text changes bytes only where the active file is edited and its viewer has the keys, and no
/// dialog is over it.
pub proof fn text_is_pasted_into_edited_bytes(ws: WorkspaceView)
    requires
        0 <= ws.active < ws.documents.len(),
    ensures
        ({
            let doc = ws.documents[ws.active];
            &&& ws.dialog is Some ==> !ws.pastes_bytes()
            &&& !doc.edit_mode ==> !ws.pastes_bytes()
            &&& doc.focus != Focus::Viewer ==> !ws.pastes_bytes()
            &&& !(doc.mode is Normal) && !(doc.mode is Python) ==> !ws.pastes_bytes()
            &&& ws.dialog is None && doc.edit_mode && doc.focus == Focus::Viewer && (doc.mode is Normal
                || doc.mode is Python) ==> ws.pastes_bytes()
        }),
{
}

/// While the entropy is shown the message tells of how many files it is being calculated and which share
/// of their bytes is done, and that it is done once some file has it and none is left; otherwise the
/// message stays.
pub proof fn messages_tell_how_far_the_entropy_is(ws: WorkspaceView)
    ensures
        ({
            let after = ws.entropy_status_updated();
            let running = ws.documents.filter(|doc: DocView| doc.entropy_worker).len();
            let ready = exists|i: int|
                0 <= i < ws.documents.len() && (#[trigger] ws.documents[i]).entropy_ready;
            &&& after == WorkspaceView { status: after.status, ..ws }
            &&& !ws.show_entropy ==> after == ws
            &&& ws.show_entropy && running == 0 && !ready ==> after == ws
            &&& ws.show_entropy && running == 0 && ready && ws.side_by_side && ws.diff_mode
                ==> after.status
                == "Entropy profiles ready; showing absolute entropy differences"@
            &&& ws.show_entropy && running == 0 && ready && !(ws.side_by_side && ws.diff_mode)
                ==> after.status == "Entropy calculation complete"@
            &&& ws.show_entropy && running > 0 ==> after.status == "Calculating entropy for "@
                + numbers::decimal(running) + "/"@ + numbers::decimal(ws.documents.len())
                + " binary files: "@ + numbers::decimal(
                crate::entropy::percent_of(
                    workspace::running_scanned(ws.documents),
                    workspace::running_total(ws.documents),
                ) as nat,
            ) + "%"@
        }),
{
    running_calculations_are_counted(ws.documents);
    reveal(WorkspaceView::entropy_status_updated);
}

/// Files whose entropy is calculated are counted with what is done of them and what there is to do, and
/// no others.
pub proof fn running_calculations_add_up(documents: Seq<DocView>, doc: DocView)
    ensures
        workspace::running_scanned(documents.push(doc)) == workspace::running_scanned(documents)
            + if doc.entropy_worker {
            doc.entropy_scanned
        } else {
            0
        },
        workspace::running_total(documents.push(doc)) == workspace::running_total(documents)
            + if doc.entropy_worker {
            doc.entropy_total
        } else {
            0
        },
        workspace::running_total(Seq::empty()) == 0,
        workspace::running_scanned(Seq::empty()) == 0,
{
    assert(documents.push(doc).drop_last() =~= documents);
}

/// With all files as they were saved, one press of the key that quits is enough, whether bytes are
/// edited or not.
pub proof fn saved_files_are_left_at_once(ws: WorkspaceView, key: KeyEvent)
    requires
        ws.wf(),
        ws.dialog is None,
        !ws.switching,
        ws.documents.len() > 0,
        ws.active_document().mode is Normal,
        ws.active_document().pending is None,
        unmodified(key),
        key.code == KeyCode::Char('q'),
        forall|i: int|
            0 <= i < ws.documents.len() ==> (#[trigger] ws.documents[i]).bytes
                == ws.documents[i].saved,
    ensures
        ws.active_document().pressed(key).quit,
        ws.pressed(key).quit,
{
    reveal(WorkspaceView::pressed);
    reveal(WorkspaceView::own_key);
    assert forall|i: int| 0 <= i < ws.documents.len() implies (
    #[trigger] ws.documents[i]).modified.is_empty() by {
        lemma_document(ws, i);
        crate::app::laws::marks_tell_changes(ws.documents[i]);
    }
    reveal(DocView::normal_key);
    reveal(DocView::view_key);
    reveal(DocView::overwrite_key);
    reveal(DocView::with_first_g);
    reveal(DocView::committed);
}

/// A question that was asked before quitting is forgotten at the next other key, so that it is asked
/// again.
pub proof fn questions_are_asked_again(doc: DocView, key: KeyEvent)
    requires
        doc.wf(),
        at_rest(doc),
        unmodified(key),
        key.code != KeyCode::Char('q'),
        key.code != KeyCode::Char('?'),
    ensures
        !doc.pressed(key).quit,
        !doc.pressed(key).doc.quit_armed,
{
    reveal(DocView::normal_key);
    reveal(DocView::view_key);
    reveal(DocView::armed);
}


} // verus!
