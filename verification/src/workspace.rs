//! Several open files side by side: which one is active, how they are compared, and how files are
//! opened and closed.

use vstd::prelude::*;

use crate::app::laws;
use crate::app::steps;
use crate::app::{App, DocView};
use crate::dialog;
use crate::dialog::{
    completion_key, completion_wheel, cycle_suggestion, descend, offer_candidates, recheck_suggestions, CompletionView,
    OpenFileDialog, OpenFileView, Suggestion, SuggestionView,
};
use crate::editing::copy_bytes;
use crate::entropy;
use crate::entropy::percent;
use crate::geometry;
use crate::geometry::{smaller, Rect};
use crate::input::{KeyCode, KeyEvent, KeyModifiers, MouseEvent};
use crate::model::Selection;
use crate::modes;
use crate::modes::{Focus, Mode};
use crate::numbers;
use crate::numbers::decimal_text;
use crate::python::{DocumentView, PythonDocument, PythonSnapshot, SnapshotView};
use crate::selection;
use crate::text;
use crate::text::{chars_of, trimmed};

verus! {

broadcast use crate::text::group_views;

/// Something that the workspace asks to be done outside. Each is answered by a call of the
/// workspace.
#[derive(Debug)]
pub enum Task {
    /// Let the user pick a file.
    PickFile,
    /// Read the file at a path.
    Open(String),
    /// Find the paths that may complete what was typed.
    ListPaths(String),
    /// Start an interpreter with some files, one of which is the active one.
    StartPython(Vec<PythonDocument>, usize),
    /// Store the fields of the active file, which is then closed.
    StoreAndClose,
}

/// The contents of a [`Task`].
pub enum TaskView {
    PickFile,
    Open(Seq<char>),
    ListPaths(Seq<char>),
    StartPython(Seq<DocumentView>, int),
    StoreAndClose,
}

impl View for Task {
    type V = TaskView;

    open spec fn view(&self) -> TaskView {
        match self {
            Task::PickFile => TaskView::PickFile,
            Task::Open(path) => TaskView::Open(path@),
            Task::ListPaths(input) => TaskView::ListPaths(input@),
            Task::StartPython(documents, active) => TaskView::StartPython(
                text::views(documents@),
                *active as int,
            ),
            Task::StoreAndClose => TaskView::StoreAndClose,
        }
    }
}

/// The open files and how they are shown.
#[derive(Debug)]
pub struct Workspace {
    pub documents: Vec<App>,
    pub active: usize,
    pub side_by_side: bool,
    pub diff_mode: bool,
    pub show_entropy: bool,
    pub status: String,
    pub tab_hitboxes: Vec<(u16, u16)>,
    pub tab_row: u16,
    pub comparison_panes: Vec<Rect>,
    pub open_file_dialog: Option<OpenFileDialog>,
    pub tab_switch_pending: bool,
    pub tasks: Vec<Task>,
}

/// The contents of a [`Workspace`].
pub struct WorkspaceView {
    pub documents: Seq<DocView>,
    pub active: int,
    pub side_by_side: bool,
    pub diff_mode: bool,
    pub show_entropy: bool,
    pub status: Seq<char>,
    pub tabs: Seq<(u16, u16)>,
    pub tab_row: u16,
    pub panes: Seq<Rect>,
    pub dialog: Option<OpenFileView>,
    pub switching: bool,
    pub tasks: Seq<TaskView>,
}

impl View for Workspace {
    type V = WorkspaceView;

    open spec fn view(&self) -> WorkspaceView {
        WorkspaceView {
            documents: text::views(self.documents@),
            active: self.active as int,
            side_by_side: self.side_by_side,
            diff_mode: self.diff_mode,
            show_entropy: self.show_entropy,
            status: self.status@,
            tabs: self.tab_hitboxes@,
            tab_row: self.tab_row,
            panes: self.comparison_panes@,
            dialog: match self.open_file_dialog {
                Some(dialog) => Some(dialog@),
                None => None,
            },
            switching: self.tab_switch_pending,
            tasks: text::views(self.tasks@),
        }
    }
}

/// What comes of a key: the workspace after it, and whether it quits.
pub struct PressView {
    pub workspace: WorkspaceView,
    pub quit: bool,
}

/// A key that does not quit.
pub open spec fn staying(workspace: WorkspaceView) -> PressView {
    PressView { workspace, quit: false }
}

/// All files are in order.
#[verifier::opaque]
pub open spec fn documents_ok(documents: Seq<DocView>) -> bool {
    forall|i: int| 0 <= i < documents.len() ==> (#[trigger] documents[i]).wf()
}

/// A file as the interpreter gets to see it.
pub open spec fn python_document(index: int, doc: DocView) -> DocumentView {
    let s = match doc.selection {
        Some(s) => s,
        None => Selection::at(0),
    };
    let last = geometry::minus(doc.length(), 1);
    DocumentView {
        index,
        bytes: doc.bytes,
        selection_start: geometry::min(s.low(), last),
        selection_end: geometry::min(s.high(), last),
        selections: Seq::new(
            doc.ranges().len(),
            |i: int| (doc.ranges()[i].low() as usize, doc.ranges()[i].high() as usize),
        ),
    }
}

/// All files as the interpreter gets to see them.
#[verifier::opaque]
pub open spec fn python_documents(documents: Seq<DocView>) -> Seq<DocumentView> {
    Seq::new(documents.len(), |i: int| python_document(i, documents[i]))
}

/// The first tab, from an index on, that lies under a column.
pub open spec fn tab_under(tabs: Seq<(u16, u16)>, column: u16, from: int) -> Option<int>
    decreases tabs.len() - from,
{
    if from >= tabs.len() {
        None
    } else if tabs[from].0 <= column < tabs[from].1 {
        Some(from)
    } else {
        tab_under(tabs, column, from + 1)
    }
}

/// The first pane, from an index on, that lies under a cell.
pub open spec fn pane_under(panes: Seq<Rect>, column: u16, row: u16, from: int) -> Option<int>
    decreases panes.len() - from,
{
    if from >= panes.len() {
        None
    } else if panes[from].covers(column, row) {
        Some(from)
    } else {
        pane_under(panes, column, row, from + 1)
    }
}

/// The number of files whose entropy is being calculated.
pub open spec fn running_count(documents: Seq<DocView>) -> int
    decreases documents.len(),
{
    if documents.len() == 0 {
        0
    } else {
        running_count(documents.drop_last()) + if documents.last().entropy_worker {
            1int
        } else {
            0
        }
    }
}

/// How many bytes have been looked at for the entropy that is being calculated.
pub open spec fn running_scanned(documents: Seq<DocView>) -> int
    decreases documents.len(),
{
    if documents.len() == 0 {
        0
    } else {
        running_scanned(documents.drop_last()) + if documents.last().entropy_worker {
            documents.last().entropy_scanned
        } else {
            0
        }
    }
}

/// How many bytes there are to look at for the entropy that is being calculated.
pub open spec fn running_total(documents: Seq<DocView>) -> int
    decreases documents.len(),
{
    if documents.len() == 0 {
        0
    } else {
        running_total(documents.drop_last()) + if documents.last().entropy_worker {
            documents.last().entropy_total
        } else {
            0
        }
    }
}

/// The keys that type a text, without its line breaks.
pub open spec fn typing_keys(content: Seq<char>) -> Seq<KeyEvent>
    decreases content.len(),
{
    if content.len() == 0 {
        Seq::empty()
    } else {
        let rest = typing_keys(content.drop_last());
        if content.last() == '\n' || content.last() == '\r' {
            rest
        } else {
            rest.push(
                KeyEvent {
                    code: KeyCode::Char(content.last()),
                    modifiers: KeyModifiers::bare(),
                },
            )
        }
    }
}

impl WorkspaceView {
    /// Some files that were just opened.
    pub open spec fn opened(documents: Seq<DocView>) -> WorkspaceView {
        WorkspaceView {
            documents,
            active: 0,
            side_by_side: false,
            diff_mode: false,
            show_entropy: false,
            status: Seq::empty(),
            tabs: Seq::empty(),
            tab_row: 0,
            panes: Seq::empty(),
            dialog: None,
            switching: false,
            tasks: Seq::empty(),
        }
    }

    /// All files are in order, one of them is active unless there is none, only two or more are
    /// shown side by side, and differences are shown only there.
    pub open spec fn wf(self) -> bool {
        &&& documents_ok(self.documents)
        &&& self.documents.len() <= usize::MAX
        &&& 0 <= self.active
        &&& self.documents.len() == 0 || self.active < self.documents.len()
        &&& self.side_by_side ==> self.documents.len() > 1
        &&& self.diff_mode ==> self.side_by_side
        &&& self.dialog matches Some(dialog) ==> dialog.wf()
    }

    /// The active file.
    pub open spec fn active_document(self) -> DocView {
        self.documents[self.active]
    }

    /// With the active file changed.
    pub open spec fn with_active(self, doc: DocView) -> WorkspaceView {
        WorkspaceView { documents: self.documents.update(self.active, doc), ..self }
    }

    /// With a message to the user.
    pub open spec fn say(self, message: Seq<char>) -> WorkspaceView {
        WorkspaceView { status: message, ..self }
    }

    /// With something more to be done outside.
    pub open spec fn asking(self, task: TaskView) -> WorkspaceView {
        WorkspaceView { tasks: self.tasks.push(task), ..self }
    }

    /// With the dialog that opens a file in some state, or closed.
    pub open spec fn in_dialog(self, dialog: Option<OpenFileView>) -> WorkspaceView {
        WorkspaceView { dialog, ..self }
    }

    /// Whether the active file takes keys as a viewer: nothing is open and nothing is edited.
    pub open spec fn viewing(self) -> bool {
        !self.active_document().edit_mode && self.active_document().mode is Normal
    }

    /// The file that the active one is compared with, if there is one.
    pub open spec fn compared(self) -> Option<int> {
        if self.documents.len() > 1 {
            Some((self.active + 1) % self.documents.len() as int)
        } else {
            None
        }
    }

    /// With the calculation of the entropy started for all files that are shown.
    #[verifier::opaque]
    pub open spec fn entropy_requested(self) -> WorkspaceView {
        if self.side_by_side {
            WorkspaceView {
                documents: Seq::new(
                    self.documents.len(),
                    |i: int| self.documents[i].entropy_requested(),
                ),
                ..self
            }
        } else {
            self.with_active(self.active_document().entropy_requested())
        }
    }

    /// The same, if the entropy is shown.
    pub open spec fn entropy_kept(self) -> WorkspaceView {
        if self.show_entropy {
            self.entropy_requested()
        } else {
            self
        }
    }

    /// With another file active, if there is one with this index.
    #[verifier::opaque]
    pub open spec fn document_selected(self, index: int) -> WorkspaceView {
        if index >= self.documents.len() {
            self
        } else {
            WorkspaceView { active: index, ..self }.entropy_kept().say(
                "Active binary: "@ + self.documents[index].path,
            )
        }
    }

    /// With the next file active, the first one after the last.
    pub open spec fn next_document(self) -> WorkspaceView {
        self.document_selected((self.active + 1) % self.documents.len() as int)
    }

    /// With the previous file active, the last one before the first.
    pub open spec fn previous_document(self) -> WorkspaceView {
        self.document_selected(
            if self.active == 0 {
                self.documents.len() - 1
            } else {
                self.active - 1
            },
        )
    }

    /// With the files shown side by side, or no longer.
    #[verifier::opaque]
    pub open spec fn side_by_side_toggled(self) -> WorkspaceView {
        if self.documents.len() < 2 {
            self.say("Open at least two binaries for side-by-side view"@)
        } else if self.side_by_side {
            WorkspaceView {
                side_by_side: false,
                diff_mode: false,
                panes: Seq::empty(),
                ..self
            }.say("Side-by-side comparison disabled"@)
        } else {
            WorkspaceView { side_by_side: true, ..self }.say("Side-by-side comparison enabled"@)
        }
    }

    /// With differences shown, or no longer.
    #[verifier::opaque]
    pub open spec fn diff_toggled(self) -> WorkspaceView {
        if self.documents.len() < 2 {
            self.say("Open at least two binaries to diff"@)
        } else {
            WorkspaceView {
                diff_mode: !self.diff_mode,
                side_by_side: self.side_by_side || !self.diff_mode,
                ..self
            }
        }
    }

    /// With the entropy shown, or no longer.
    #[verifier::opaque]
    pub open spec fn entropy_toggled(self) -> WorkspaceView {
        if self.show_entropy {
            self.entropy_hidden()
        } else {
            WorkspaceView { show_entropy: true, ..self }.entropy_requested().say(
                "Calculating entropy in the background…"@,
            )
        }
    }

    /// With the entropy no longer shown.
    pub open spec fn entropy_hidden(self) -> WorkspaceView {
        WorkspaceView { show_entropy: false, ..self }.say("Entropy panel hidden"@)
    }

    /// With an interpreter asked for, for all files.
    #[verifier::opaque]
    pub open spec fn python_requested(self) -> WorkspaceView {
        match self.active_document().selection {
            None => self.say("Select at least one byte before opening Python"@),
            Some(_) => self.asking(
                TaskView::StartPython(python_documents(self.documents), self.active),
            ),
        }
    }

    /// After an interpreter was started, or could not be.
    #[verifier::opaque]
    pub open spec fn python_started(
        self,
        outcome: Result<Seq<SnapshotView>, Seq<char>>,
    ) -> WorkspaceView {
        match outcome {
            Ok(snapshots) => if self.documents.len() == 0 {
                self
            } else {
                self.with_active(self.active_document().python_opened(snapshots))
            },
            Err(error) => self.say(error),
        }
    }

    /// After the buffer of the interpreter for one of the files was read back.
    #[verifier::opaque]
    pub open spec fn snapshot_applied(
        self,
        snapshot: SnapshotView,
        read: Result<Seq<u8>, Seq<char>>,
    ) -> WorkspaceView {
        if snapshot.index < self.documents.len() {
            WorkspaceView {
                documents: self.documents.update(
                    snapshot.index,
                    self.documents[snapshot.index].snapshot_applied(snapshot, read),
                ),
                ..self
            }
        } else {
            self
        }
    }

    /// Whether a console is open.
    pub open spec fn python_is_open(self) -> bool {
        exists|i: int| 0 <= i < self.documents.len() && (#[trigger] self.documents[i]).mode is Python
    }

    /// Whether one of the files has changes that were not saved.
    pub open spec fn unsaved(self) -> bool {
        exists|i: int|
            0 <= i < self.documents.len() && !(#[trigger] self.documents[i]).modified.is_empty()
    }

    /// With the active file about to be closed. Changes that were not saved take a second press.
    #[verifier::opaque]
    pub open spec fn close_requested(self) -> WorkspaceView {
        let doc = self.active_document();
        if self.documents.len() == 0 {
            self
        } else if self.python_is_open() {
            self.say("Close the Python console before closing binaries"@)
        } else if !doc.modified.is_empty() && !doc.quit_armed {
            self.with_active(doc.armed(true)).say(
                "Unsaved byte changes: press Ctrl+W again to close without saving"@,
            )
        } else {
            self.with_active(doc.entropy_dropped()).asking(TaskView::StoreAndClose)
        }
    }

    /// After the fields of the active file were stored, or could not be: it is closed only if
    /// they were.
    #[verifier::opaque]
    pub open spec fn close_finished(self, outcome: Result<(), Seq<char>>) -> WorkspaceView {
        match outcome {
            Err(error) => self.say(error),
            Ok(_) => if self.documents.len() == 0 {
                self
            } else {
                let documents = self.documents.remove(self.active);
                let single = documents.len() < 2;
                WorkspaceView {
                    documents,
                    active: geometry::min(self.active, geometry::minus(documents.len() as int, 1)),
                    side_by_side: self.side_by_side && !single,
                    diff_mode: self.diff_mode && !single,
                    panes: if single {
                        Seq::empty()
                    } else {
                        self.panes
                    },
                    ..self
                }.say(
                    if documents.len() == 0 {
                        "Closed "@ + self.active_document().path + "; Ctrl+N opens a file"@
                    } else {
                        "Closed "@ + self.active_document().path
                    },
                )
            },
        }
    }

    /// After a file was read, or could not be.
    #[verifier::opaque]
    pub open spec fn open_finished(
        self,
        path: Seq<char>,
        outcome: Result<DocView, Seq<char>>,
    ) -> WorkspaceView {
        match outcome {
            Err(error) => self.say("Could not open "@ + path + ": "@ + error),
            Ok(doc) => WorkspaceView {
                documents: self.documents.push(doc),
                active: self.documents.len() as int,
                ..self
            }.entropy_kept().say("Opened "@ + path).in_dialog(None),
        }
    }

    /// After a file was picked, or not.
    #[verifier::opaque]
    pub open spec fn pick_finished(
        self,
        outcome: Result<Option<Seq<char>>, Seq<char>>,
    ) -> WorkspaceView {
        match outcome {
            Ok(Some(path)) => self.asking(TaskView::Open(path)),
            Ok(None) => self.say("Open cancelled"@),
            Err(error) => self.say(error + " Type a path manually instead."@).in_dialog(
                Some(OpenFileView::ManualPath(CompletionView::blank())),
            ),
        }
    }

    /// After the paths that may complete what was typed were found.
    #[verifier::opaque]
    pub open spec fn paths_listed(self, candidates: Seq<SuggestionView>) -> WorkspaceView {
        match self.dialog {
            Some(OpenFileView::ManualPath(path)) => self.in_dialog(
                Some(OpenFileView::ManualPath(path.offered(candidates))),
            ),
            _ => self,
        }
    }

    /// With it found out anew whether the suggested paths lead to a directory.
    #[verifier::opaque]
    pub open spec fn paths_rechecked(self, leads: Seq<bool>, separator: char) -> WorkspaceView {
        match self.dialog {
            Some(OpenFileView::ManualPath(path)) => self.in_dialog(
                Some(OpenFileView::ManualPath(path.rechecked(leads, separator))),
            ),
            _ => self,
        }
    }

    /// After a key in the choice between picking a file and typing its path.
    #[verifier::opaque]
    pub open spec fn choice_key(self, active: int, key: KeyEvent) -> WorkspaceView {
        match key.code {
            KeyCode::Esc => self.in_dialog(None),
            KeyCode::Tab | KeyCode::Up | KeyCode::Down => self.in_dialog(
                Some(OpenFileView::Choice((active + 1) % 2)),
            ),
            KeyCode::Enter => if active == 0 {
                self.asking(TaskView::PickFile)
            } else {
                self.in_dialog(Some(OpenFileView::ManualPath(CompletionView::blank())))
            },
            _ => self,
        }
    }

    /// After a key while the path of a file is typed.
    #[verifier::opaque]
    pub open spec fn manual_key(self, path: CompletionView, key: KeyEvent) -> WorkspaceView {
        match key.code {
            KeyCode::Esc => self.in_dialog(None),
            KeyCode::Tab => if path.suggestions.len() == 0 {
                self.asking(TaskView::ListPaths(path.input.value))
            } else {
                self.in_dialog(Some(OpenFileView::ManualPath(path.cycled())))
            },
            KeyCode::Enter => if path.at_directory() {
                self.in_dialog(Some(OpenFileView::ManualPath(path.descended())))
            } else if text::trim(path.input.value).len() == 0 {
                self.say("Enter a full or relative file path"@)
            } else {
                self.asking(TaskView::Open(text::trim(path.input.value)))
            },
            _ => self.in_dialog(Some(OpenFileView::ManualPath(path.after_key(key)))),
        }
    }

    /// After a key in the dialog that opens a file.
    pub open spec fn dialog_key(self, key: KeyEvent) -> WorkspaceView {
        match self.dialog {
            Some(OpenFileView::Choice(active)) => self.choice_key(active, key),
            Some(OpenFileView::ManualPath(path)) => self.manual_key(path, key),
            None => self,
        }
    }

    /// After a key while no file is open.
    #[verifier::opaque]
    pub open spec fn empty_key(self, key: KeyEvent) -> PressView {
        if key.is_control('n') {
            staying(self.in_dialog(Some(OpenFileView::Choice(0))))
        } else if key.code == KeyCode::Char('q') {
            PressView { workspace: self, quit: true }
        } else {
            staying(self.say("No binary open — Ctrl+N opens a file; q quits"@))
        }
    }

    /// After the key that follows the one for switching files.
    #[verifier::opaque]
    pub open spec fn switch_key(self, key: KeyEvent) -> WorkspaceView {
        let ws = WorkspaceView { switching: false, ..self };
        match key.code {
            KeyCode::Left => ws.previous_document(),
            KeyCode::Right => ws.next_document(),
            KeyCode::Char('s') => if self.active_document().edit_mode {
                ws.say("Side-by-side comparison is available in View Mode"@)
            } else {
                ws.side_by_side_toggled()
            },
            _ => ws.say("Tab switch cancelled"@),
        }
    }

    /// After a key that is the workspace's own, if it is one.
    #[verifier::opaque]
    pub open spec fn own_key(self, key: KeyEvent) -> Option<WorkspaceView> {
        if key.is_control('b') {
            Some(
                WorkspaceView { switching: true, ..self }.say(
                    "Ctrl+B: press Left or Right to switch binary"@,
                ),
            )
        } else if key.is_control('n') && self.viewing() {
            Some(self.in_dialog(Some(OpenFileView::Choice(0))))
        } else if (key.is_control('w') || key.is_control('W')) && self.viewing() {
            Some(self.close_requested())
        } else if key.is_control('d') && self.viewing() {
            Some(self.diff_toggled())
        } else if key.code == KeyCode::Char('e') && self.viewing() {
            Some(self.entropy_toggled())
        } else if key.code == KeyCode::Esc && self.show_entropy
            && self.active_document().mode is Normal {
            Some(self.entropy_hidden())
        } else if key.code == KeyCode::Char('p') && self.viewing() {
            Some(self.python_requested())
        } else {
            None
        }
    }

    /// After a key. Changes that were not saved, in whichever file, take a second press of the key
    /// that quits.
    #[verifier::opaque]
    pub open spec fn pressed(self, key: KeyEvent) -> PressView {
        if self.dialog is Some {
            staying(self.dialog_key(key))
        } else if self.documents.len() == 0 {
            self.empty_key(key)
        } else if self.switching {
            staying(self.switch_key(key))
        } else {
            match self.own_key(key) {
                Some(workspace) => staying(workspace),
                None => {
                    let press = self.active_document().pressed(key);
                    if press.quit && self.unsaved() && !self.active_document().quit_armed {
                        staying(self.with_active(press.doc.asking_to_quit()))
                    } else {
                        PressView { workspace: self.with_active(press.doc), quit: press.quit }
                    }
                },
            }
        }
    }

    /// Whether a text that is pasted changes bytes: the active file is edited in its viewer.
    pub open spec fn pastes_bytes(self) -> bool {
        let doc = self.active_document();
        &&& self.documents.len() > 0
        &&& self.dialog is None
        &&& doc.edit_mode
        &&& doc.focus == Focus::Viewer
        &&& doc.mode is Normal || doc.mode is Python
    }

    /// After a mouse event while the path of a file is typed.
    pub open spec fn manual_mouse(self, path: CompletionView, mouse: MouseEvent) -> WorkspaceView {
        self.in_dialog(
            Some(
                OpenFileView::ManualPath(
                    if mouse.is_click() {
                        CompletionView { input: path.input.unselected(), ..path }
                    } else {
                        path.after_wheel(mouse.kind)
                    },
                ),
            ),
        )
    }

    /// After a mouse event on the active file.
    pub open spec fn active_mouse(self, mouse: MouseEvent) -> WorkspaceView {
        self.with_active(self.active_document().mouse_used(mouse))
    }

    /// After a mouse event on the files: a click on a tab or a pane makes its file the active
    /// one.
    #[verifier::opaque]
    pub open spec fn files_mouse(self, mouse: MouseEvent) -> WorkspaceView {
        let tab = tab_under(self.tabs, mouse.column, 0);
        let pane = pane_under(self.panes, mouse.column, mouse.row, 0);
        if mouse.is_click() && mouse.row == self.tab_row && tab is Some {
            self.document_selected(tab->Some_0)
        } else if mouse.is_click() && self.side_by_side && pane is Some {
            self.document_selected(pane->Some_0).active_mouse(mouse)
        } else {
            self.active_mouse(mouse)
        }
    }

    /// After a mouse event.
    #[verifier::opaque]
    pub open spec fn mouse_used(self, mouse: MouseEvent) -> WorkspaceView {
        match self.dialog {
            Some(OpenFileView::ManualPath(path)) => self.manual_mouse(path, mouse),
            Some(OpenFileView::Choice(_)) => self,
            None => if self.documents.len() == 0 {
                self
            } else {
                self.files_mouse(mouse)
            },
        }
    }

    /// With the message on how far the calculation of the entropy has come.
    #[verifier::opaque]
    pub open spec fn entropy_status_updated(self) -> WorkspaceView {
        if !self.show_entropy {
            self
        } else if running_count(self.documents) == 0 {
            if exists|i: int|
                0 <= i < self.documents.len() && (#[trigger] self.documents[i]).entropy_ready {
                self.say(
                    if self.side_by_side && self.diff_mode {
                        "Entropy profiles ready; showing absolute entropy differences"@
                    } else {
                        "Entropy calculation complete"@
                    },
                )
            } else {
                self
            }
        } else {
            self.say(
                "Calculating entropy for "@ + numbers::decimal(
                    running_count(self.documents) as nat,
                ) + "/"@ + numbers::decimal(self.documents.len()) + " binary files: "@
                    + numbers::decimal(
                    entropy::percent_of(
                        running_scanned(self.documents),
                        running_total(self.documents),
                    ) as nat,
                ) + "%"@,
            )
        }
    }
}

/// Changing one file keeps the others in order.
proof fn lemma_documents_updated(documents: Seq<DocView>, index: int, doc: DocView)
    requires
        documents_ok(documents),
        0 <= index < documents.len(),
        doc.wf(),
    ensures
        documents_ok(documents.update(index, doc)),
{
    reveal(documents_ok);
}

proof fn lemma_document(documents: Seq<DocView>, index: int)
    requires
        documents_ok(documents),
        0 <= index < documents.len(),
    ensures
        documents[index].wf(),
{
    reveal(documents_ok);
}

/// Starts the calculation of the entropy for all files.
fn request_entropy_for_all(documents: &mut Vec<App>)
    requires
        documents_ok(text::views(old(documents)@)),
    ensures
        text::views(final(documents)@) == Seq::new(
            text::views(old(documents)@).len(),
            |i: int| text::views(old(documents)@)[i].entropy_requested(),
        ),
        documents_ok(text::views(final(documents)@)),
{
    proof {
        reveal(documents_ok);
    }
    let ghost before = text::views(documents@);
    let mut i: usize = 0;
    while i < documents.len()
        invariant
            i <= documents.len(),
            documents.len() == before.len(),
            documents_ok(text::views(documents@)),
            forall|k: int|
                0 <= k < documents.len() ==> (#[trigger] text::views(documents@)[k]) == if k < i {
                    before[k].entropy_requested()
                } else {
                    before[k]
                },
        decreases documents.len() - i,
    {
        let ghost held = text::views(documents@);
        proof {
            lemma_document(held, i as int);
            assert(held[i as int] == before[i as int]);
        }
        documents[i].request_entropy();
        proof {
            assert(text::views(documents@) =~= held.update(
                i as int,
                before[i as int].entropy_requested(),
            ));
            lemma_documents_updated(held, i as int, before[i as int].entropy_requested());
        }
        i = i + 1;
    }
    assert(text::views(documents@) =~= Seq::new(
        before.len(),
        |i: int| before[i].entropy_requested(),
    ));
}

/// The first tab that lies under a column.
fn find_tab(tabs: &Vec<(u16, u16)>, column: u16) -> (index: Option<usize>)
    ensures
        match index {
            Some(index) => tab_under(tabs@, column, 0) == Some(index as int),
            None => tab_under(tabs@, column, 0) is None,
        },
{
    let mut i: usize = 0;
    while i < tabs.len()
        invariant
            i <= tabs.len(),
            tab_under(tabs@, column, 0) == tab_under(tabs@, column, i as int),
        decreases tabs.len() - i,
    {
        if tabs[i].0 <= column && column < tabs[i].1 {
            return Some(i);
        }
        i = i + 1;
    }
    None
}

/// The first pane that lies under a cell.
fn find_pane(panes: &Vec<Rect>, column: u16, row: u16) -> (index: Option<usize>)
    ensures
        match index {
            Some(index) => pane_under(panes@, column, row, 0) == Some(index as int),
            None => pane_under(panes@, column, row, 0) is None,
        },
{
    let mut i: usize = 0;
    while i < panes.len()
        invariant
            i <= panes.len(),
            pane_under(panes@, column, row, 0) == pane_under(panes@, column, row, i as int),
        decreases panes.len() - i,
    {
        if panes[i].contains(column, row) {
            return Some(i);
        }
        i = i + 1;
    }
    None
}

/// A file as the interpreter gets to see it.
fn describe(index: usize, document: &App) -> (out: PythonDocument)
    ensures
        out@ == python_document(index as int, document@),
{
    let s = match document.selection {
        Some(s) => s,
        None => Selection::new(0),
    };
    let ranges = document.selected_ranges();
    let mut selections: Vec<(usize, usize)> = Vec::new();
    let mut i: usize = 0;
    while i < ranges.len()
        invariant
            i <= ranges.len(),
            selections@.len() == i,
            forall|k: int|
                0 <= k < i ==> (#[trigger] selections@[k]) == (
                    ranges@[k].low() as usize,
                    ranges@[k].high() as usize,
                ),
        decreases ranges.len() - i,
    {
        selections.push((ranges[i].start(), ranges[i].end()));
        i = i + 1;
    }
    let last: usize = document.bytes.len().saturating_sub(1);
    let out = PythonDocument {
        index,
        bytes: copy_bytes(&document.bytes),
        selection_start: smaller(s.start(), last),
        selection_end: smaller(s.end(), last),
        selections,
    };
    assert(out.selections@ =~= python_document(index as int, document@).selections);
    out
}

/// All files as the interpreter gets to see them.
fn describe_all(documents: &Vec<App>) -> (out: Vec<PythonDocument>)
    ensures
        text::views(out@) == python_documents(text::views(documents@)),
{
    proof {
        reveal(python_documents);
    }
    let mut out: Vec<PythonDocument> = Vec::new();
    let mut i: usize = 0;
    while i < documents.len()
        invariant
            i <= documents.len(),
            out@.len() == i,
            forall|k: int|
                0 <= k < i ==> (#[trigger] out@[k])@ == python_document(k, documents@[k]@),
        decreases documents.len() - i,
    {
        out.push(describe(i, &documents[i]));
        i = i + 1;
    }
    assert(text::views(out@) =~= python_documents(text::views(documents@)));
    out
}

/// Whether a console is open in one of the files.
fn any_python(documents: &Vec<App>) -> (open: bool)
    ensures
        open == exists|i: int|
            0 <= i < documents@.len() && (#[trigger] text::views(documents@)[i]).mode is Python,
{
    let ghost all = text::views(documents@);
    let mut i: usize = 0;
    while i < documents.len()
        invariant
            i <= documents.len(),
            all == text::views(documents@),
            forall|k: int| 0 <= k < i ==> !((#[trigger] all[k]).mode is Python),
        decreases documents.len() - i,
    {
        if documents[i].in_python() {
            assert(all[i as int].mode is Python);
            return true;
        }
        assert(!(all[i as int].mode is Python));
        i = i + 1;
    }
    false
}

/// Whether one of the files has changes that were not saved.
fn any_unsaved(documents: &Vec<App>) -> (unsaved: bool)
    ensures
        unsaved == exists|i: int|
            0 <= i < documents@.len() && !(#[trigger] text::views(
                documents@,
            )[i]).modified.is_empty(),
{
    let ghost all = text::views(documents@);
    let mut i: usize = 0;
    while i < documents.len()
        invariant
            i <= documents.len(),
            all == text::views(documents@),
            forall|k: int| 0 <= k < i ==> (#[trigger] all[k]).modified.is_empty(),
        decreases documents.len() - i,
    {
        let clean = documents[i].modified_offsets.is_empty();
        if !clean {
            assert(!all[i as int].modified.is_empty());
            return true;
        }
        assert(all[i as int].modified.is_empty());
        i = i + 1;
    }
    false
}

/// Whether the entropy of one of the files is known.
fn any_entropy(documents: &Vec<App>) -> (known: bool)
    ensures
        known == exists|i: int|
            0 <= i < documents@.len() && (#[trigger] text::views(documents@)[i]).entropy_ready,
{
    let ghost all = text::views(documents@);
    let mut i: usize = 0;
    while i < documents.len()
        invariant
            i <= documents.len(),
            all == text::views(documents@),
            forall|k: int| 0 <= k < i ==> !(#[trigger] all[k]).entropy_ready,
        decreases documents.len() - i,
    {
        if documents[i].entropy_ready {
            assert(all[i as int].entropy_ready);
            return true;
        }
        assert(!all[i as int].entropy_ready);
        i = i + 1;
    }
    false
}

/// Fewer files have fewer bytes to look at.
proof fn lemma_running_grows(documents: Seq<DocView>, count: int)
    requires
        0 <= count <= documents.len(),
        forall|i: int|
            0 <= i < documents.len() ==> 0 <= (#[trigger] documents[i]).entropy_scanned && 0
                <= documents[i].entropy_total,
    ensures
        0 <= running_count(documents.take(count)) <= count,
        0 <= running_scanned(documents.take(count)) <= running_scanned(documents),
        0 <= running_total(documents.take(count)) <= running_total(documents),
    decreases documents.len(), count,
{
    if count < documents.len() {
        let rest = documents.drop_last();
        assert(rest.take(count) =~= documents.take(count));
        assert forall|i: int| 0 <= i < rest.len() implies 0 <= (#[trigger] rest[i]).entropy_scanned
            && 0 <= rest[i].entropy_total by {
            assert(rest[i] == documents[i]);
        }
        lemma_running_grows(rest, count);
        assert(0 <= documents[documents.len() - 1].entropy_scanned);
    } else {
        assert(documents.take(count) =~= documents);
        if count > 0 {
            let rest = documents.drop_last();
            assert forall|i: int| 0 <= i < rest.len() implies 0 <= (
            #[trigger] rest[i]).entropy_scanned && 0 <= rest[i].entropy_total by {
                assert(rest[i] == documents[i]);
            }
            lemma_running_grows(rest, count - 1);
            assert(rest.take(count - 1) =~= rest);
            assert(0 <= documents[documents.len() - 1].entropy_scanned);
        }
    }
}

/// The number of files whose entropy is being calculated, the bytes that have been looked at, and
/// the bytes that there are.
fn running_sums(documents: &Vec<App>) -> (sums: (usize, usize, usize))
    requires
        running_scanned(text::views(documents@)) <= usize::MAX,
        running_total(text::views(documents@)) <= usize::MAX,
    ensures
        sums.0 == running_count(text::views(documents@)),
        sums.1 == running_scanned(text::views(documents@)),
        sums.2 == running_total(text::views(documents@)),
{
    let ghost all = text::views(documents@);
    let mut count: usize = 0;
    let mut scanned: usize = 0;
    let mut total: usize = 0;
    let mut i: usize = 0;
    while i < documents.len()
        invariant
            i <= documents.len(),
            all == text::views(documents@),
            running_scanned(all) <= usize::MAX,
            running_total(all) <= usize::MAX,
            count <= i,
            count == running_count(all.take(i as int)),
            scanned == running_scanned(all.take(i as int)),
            total == running_total(all.take(i as int)),
        decreases documents.len() - i,
    {
        proof {
            assert(all.take(i + 1).drop_last() =~= all.take(i as int));
            assert(all.take(i + 1).last() == documents@[i as int]@);
            assert forall|k: int| 0 <= k < all.len() implies 0 <= (
            #[trigger] all[k]).entropy_scanned && 0 <= all[k].entropy_total by {
                assert(all[k] == documents@[k]@);
            }
            lemma_running_grows(all, i + 1);
        }
        if documents[i].entropy_running() {
            count = count + 1;
            scanned = scanned + documents[i].entropy_scanned;
            total = total + documents[i].entropy_total;
        }
        i = i + 1;
    }
    assert(all.take(i as int) =~= all);
    (count, scanned, total)
}

/// The keys that type a text, without its line breaks.
fn keys_for(content: &str) -> (keys: Vec<KeyEvent>)
    ensures
        keys@ == typing_keys(content@),
{
    let chars = chars_of(content);
    let mut keys: Vec<KeyEvent> = Vec::new();
    let mut i: usize = 0;
    while i < chars.len()
        invariant
            i <= chars.len(),
            keys@ == typing_keys(chars@.take(i as int)),
        decreases chars.len() - i,
    {
        assert(chars@.take(i + 1).drop_last() =~= chars@.take(i as int));
        let c = chars[i];
        if c != '\n' && c != '\r' {
            keys.push(KeyEvent::new(KeyCode::Char(c), KeyModifiers::none()));
        }
        i = i + 1;
    }
    assert(chars@.take(i as int) =~= chars@);
    keys
}

impl Workspace {
    /// A workspace with some files.
    pub fn new(documents: Vec<App>) -> (workspace: Self)
        ensures
            workspace@ == WorkspaceView::opened(text::views(documents@)),
            documents_ok(text::views(documents@)) ==> workspace@.wf(),
    {
        let workspace = Workspace {
            documents,
            active: 0,
            side_by_side: false,
            diff_mode: false,
            show_entropy: false,
            status: String::new(),
            tab_hitboxes: Vec::new(),
            tab_row: 0,
            comparison_panes: Vec::new(),
            open_file_dialog: None,
            tab_switch_pending: false,
            tasks: Vec::new(),
        };
        assert(workspace.status@ =~= Seq::<char>::empty());
        assert(workspace.tab_hitboxes@ =~= Seq::<(u16, u16)>::empty());
        assert(workspace.comparison_panes@ =~= Seq::<Rect>::empty());
        assert(workspace@.documents.len() == workspace.documents.len());
        workspace
    }

    /// The active file.
    pub fn active(&self) -> (document: &App)
        requires
            self@.active < self@.documents.len(),
        ensures
            document@ == self@.active_document(),
    {
        &self.documents[self.active]
    }

    /// The active file, to be changed.
    pub fn active_mut(&mut self) -> (document: &mut App)
        requires
            old(self)@.active < old(self)@.documents.len(),
        ensures
            document@ == old(self)@.active_document(),
            final(self)@ == old(self)@.with_active(final(document)@),
    {
        &mut self.documents[self.active]
    }

    /// The file that the active one is compared with.
    pub fn comparison_index(&self) -> (index: Option<usize>)
        requires
            self@.wf(),
        ensures
            match index {
                Some(index) => self@.compared() == Some(index as int) && index
                    < self@.documents.len() && index != self@.active,
                None => self@.compared() is None,
            },
    {
        if self.documents.len() > 1 {
            Some(self.following())
        } else {
            None
        }
    }

    /// The index of the next file, the first one after the last.
    fn following(&self) -> (index: usize)
        requires
            self@.wf(),
            self@.documents.len() > 0,
        ensures
            index == (self@.active + 1) % self@.documents.len() as int,
            index < self@.documents.len(),
            self@.documents.len() > 1 ==> index != self@.active,
    {
        let count: usize = self.documents.len();
        if self.active == count - 1 {
            proof {
                vstd::arithmetic::div_mod::lemma_mod_self_0(count as int);
            }
            0
        } else {
            proof {
                vstd::arithmetic::div_mod::lemma_small_mod((self.active + 1) as nat, count as nat);
            }
            self.active + 1
        }
    }

    /// Hands over what is to be done outside, in order.
    pub fn take_tasks(&mut self) -> (tasks: Vec<Task>)
        ensures
            text::views(tasks@) == old(self)@.tasks,
            final(self)@ == (WorkspaceView { tasks: Seq::empty(), ..old(self)@ }),
            old(self)@.wf() ==> final(self)@.wf(),
    {
        let mut tasks: Vec<Task> = Vec::new();
        std::mem::swap(&mut tasks, &mut self.tasks);
        tasks
    }

    /// Shows a message to the user.
    pub fn say(&mut self, message: String)
        ensures
            final(self)@ == old(self)@.say(message@),
            old(self)@.wf() ==> final(self)@.wf(),
    {
        self.status = message;
    }

    /// Asks for something to be done outside.
    fn ask(&mut self, task: Task)
        ensures
            final(self)@ == old(self)@.asking(task@),
            old(self)@.wf() ==> final(self)@.wf(),
    {
        self.tasks.push(task);
    }

    /// Puts the dialog that opens a file in some state, or closes it.
    fn set_dialog(&mut self, dialog: Option<OpenFileDialog>)
        requires
            old(self)@.wf(),
            dialog matches Some(dialog) ==> dialog@.wf(),
        ensures
            final(self)@ == old(self)@.in_dialog(
                match dialog {
                    Some(dialog) => Some(dialog@),
                    None => None,
                },
            ),
            final(self)@.wf(),
    {
        self.open_file_dialog = dialog;
    }

    /// Starts the calculation of the entropy for all files that are shown.
    pub fn request_entropy_for_visible_documents(&mut self)
        requires
            old(self)@.wf(),
            old(self)@.documents.len() > 0,
        ensures
            final(self)@ == old(self)@.entropy_requested(),
            final(self)@.wf(),
            final(self)@.documents.len() == old(self)@.documents.len(),
    {
        proof {
            reveal(WorkspaceView::entropy_requested);
            lemma_document(self@.documents, self@.active);
        }
        if self.side_by_side {
            request_entropy_for_all(&mut self.documents);
        } else {
            let ghost documents = self@.documents;
            let ghost active = self@.active;
            self.documents[self.active].request_entropy();
            proof {
                lemma_documents_updated(documents, active, documents[active].entropy_requested());
            }
        }
    }

    /// Makes another file the active one, if there is one with this index.
    pub fn select_document(&mut self, index: usize)
        requires
            old(self)@.wf(),
        ensures
            final(self)@ == old(self)@.document_selected(index as int),
            final(self)@.wf(),
            final(self)@.documents.len() == old(self)@.documents.len(),
    {
        proof {
            reveal(WorkspaceView::document_selected);
        }
        if index >= self.documents.len() {
            return;
        }
        let mut message = "Active binary: ".to_owned();
        message.append(&self.documents[index].path);
        self.active = index;
        if self.show_entropy {
            self.request_entropy_for_visible_documents();
        }
        self.say(message);
    }

    /// Makes the next file the active one.
    pub fn select_next_document(&mut self)
        requires
            old(self)@.wf(),
            old(self)@.documents.len() > 0,
        ensures
            final(self)@ == old(self)@.next_document(),
            final(self)@.wf(),
    {
        let index: usize = self.following();
        self.select_document(index);
    }

    /// Makes the previous file the active one.
    pub fn select_previous_document(&mut self)
        requires
            old(self)@.wf(),
            old(self)@.documents.len() > 0,
        ensures
            final(self)@ == old(self)@.previous_document(),
            final(self)@.wf(),
    {
        let index: usize = if self.active == 0 {
            self.documents.len() - 1
        } else {
            self.active - 1
        };
        self.select_document(index);
    }

    /// Shows the files side by side, or no longer.
    pub fn toggle_side_by_side(&mut self)
        requires
            old(self)@.wf(),
        ensures
            final(self)@ == old(self)@.side_by_side_toggled(),
            final(self)@.wf(),
    {
        proof {
            reveal(WorkspaceView::side_by_side_toggled);
        }
        if self.documents.len() < 2 {
            self.say("Open at least two binaries for side-by-side view".to_owned());
        } else if self.side_by_side {
            self.side_by_side = false;
            self.diff_mode = false;
            self.comparison_panes = Vec::new();
            assert(self.comparison_panes@ =~= Seq::<Rect>::empty());
            self.say("Side-by-side comparison disabled".to_owned());
        } else {
            self.side_by_side = true;
            self.say("Side-by-side comparison enabled".to_owned());
        }
    }

    /// Shows differences, or no longer.
    fn toggle_diff(&mut self)
        requires
            old(self)@.wf(),
        ensures
            final(self)@ == old(self)@.diff_toggled(),
            final(self)@.wf(),
    {
        proof {
            reveal(WorkspaceView::diff_toggled);
        }
        if self.documents.len() < 2 {
            self.say("Open at least two binaries to diff".to_owned());
        } else {
            self.diff_mode = !self.diff_mode;
            if self.diff_mode {
                self.side_by_side = true;
            }
        }
    }

    /// No longer shows the entropy.
    fn hide_entropy(&mut self)
        requires
            old(self)@.wf(),
        ensures
            final(self)@ == old(self)@.entropy_hidden(),
            final(self)@.wf(),
    {
        self.show_entropy = false;
        self.say("Entropy panel hidden".to_owned());
    }

    /// Shows the entropy, or no longer.
    fn toggle_entropy(&mut self)
        requires
            old(self)@.wf(),
            old(self)@.documents.len() > 0,
        ensures
            final(self)@ == old(self)@.entropy_toggled(),
            final(self)@.wf(),
    {
        proof {
            reveal(WorkspaceView::entropy_toggled);
        }
        if self.show_entropy {
            self.hide_entropy();
        } else {
            self.show_entropy = true;
            self.request_entropy_for_visible_documents();
            self.say("Calculating entropy in the background…".to_owned());
        }
    }

    /// Asks for an interpreter for all files.
    pub fn open_python_pane(&mut self)
        requires
            old(self)@.wf(),
            old(self)@.documents.len() > 0,
        ensures
            final(self)@ == old(self)@.python_requested(),
            final(self)@.wf(),
    {
        proof {
            reveal(WorkspaceView::python_requested);
        }
        if self.documents[self.active].selection.is_none() {
            self.say("Select at least one byte before opening Python".to_owned());
        } else {
            let documents = describe_all(&self.documents);
            let active: usize = self.active;
            self.ask(Task::StartPython(documents, active));
        }
    }

    /// Takes up an interpreter that was started, or what went wrong.
    pub fn finish_start_python(&mut self, outcome: Result<Vec<PythonSnapshot>, String>)
        requires
            old(self)@.wf(),
        ensures
            final(self)@ == old(self)@.python_started(
                match outcome {
                    Ok(snapshots) => Ok(text::views(snapshots@)),
                    Err(error) => Err(error@),
                },
            ),
            final(self)@.wf(),
    {
        proof {
            reveal(WorkspaceView::python_started);
        }
        match outcome {
            Ok(snapshots) => {
                if self.documents.len() > 0 {
                    let ghost before = self@;
                    proof {
                        lemma_document(before.documents, before.active);
                    }
                    let ghost views = text::views(snapshots@);
                    self.documents[self.active].open_python_pane_with_session(snapshots);
                    proof {
                        lemma_documents_updated(
                            before.documents,
                            before.active,
                            before.active_document().python_opened(views),
                        );
                    }
                }
            },
            Err(error) => self.say(error),
        }
    }

    /// Takes over the buffer of the interpreter for one of the files.
    pub fn apply_python_snapshot(
        &mut self,
        snapshot: &PythonSnapshot,
        read: Result<Vec<u8>, String>,
    )
        requires
            old(self)@.wf(),
        ensures
            final(self)@ == old(self)@.snapshot_applied(
                snapshot@,
                match read {
                    Ok(bytes) => Ok(bytes@),
                    Err(error) => Err(error@),
                },
            ),
            final(self)@.wf(),
    {
        proof {
            reveal(WorkspaceView::snapshot_applied);
        }
        let index: usize = snapshot.index;
        if index < self.documents.len() {
            let ghost before = self@;
            proof {
                lemma_document(before.documents, index as int);
            }
            self.documents[index].apply_python_snapshot(snapshot, read);
            proof {
                lemma_documents_updated(
                    before.documents,
                    index as int,
                    text::views(self.documents@)[index as int],
                );
            }
        }
    }

    /// Closes the active file once its fields are stored. Changes that were not saved take a
    /// second call.
    pub fn close_active_document(&mut self)
        requires
            old(self)@.wf(),
        ensures
            final(self)@ == old(self)@.close_requested(),
            final(self)@.wf(),
    {
        proof {
            reveal(WorkspaceView::close_requested);
        }
        if self.documents.len() == 0 {
            return;
        }
        if any_python(&self.documents) {
            self.say("Close the Python console before closing binaries".to_owned());
            return;
        }
        let ghost before = self@;
        proof {
            lemma_document(before.documents, before.active);
        }
        let document = &self.documents[self.active];
        let clean = document.modified_offsets.is_empty();
        if !clean && !document.quit_armed {
            self.documents[self.active].arm_quit(true);
            proof {
                lemma_documents_updated(
                    before.documents,
                    before.active,
                    before.active_document().armed(true),
                );
            }
            self.say(
                "Unsaved byte changes: press Ctrl+W again to close without saving".to_owned(),
            );
            return;
        }
        self.documents[self.active].invalidate_entropy();
        proof {
            lemma_documents_updated(
                before.documents,
                before.active,
                before.active_document().entropy_dropped(),
            );
        }
        self.ask(Task::StoreAndClose);
    }

    /// Closes the active file after its fields were stored, or says why not.
    pub fn finish_close(&mut self, outcome: Result<(), String>)
        requires
            old(self)@.wf(),
        ensures
            final(self)@ == old(self)@.close_finished(
                match outcome {
                    Ok(_) => Ok(()),
                    Err(error) => Err(error@),
                },
            ),
            final(self)@.wf(),
    {
        proof {
            reveal(WorkspaceView::close_finished);
            reveal(documents_ok);
        }
        match outcome {
            Err(error) => self.say(error),
            Ok(_) => {
                if self.documents.len() == 0 {
                    return;
                }
                let document = self.documents.remove(self.active);
                let mut message = "Closed ".to_owned();
                message.append(&document.path);
                let count: usize = self.documents.len();
                if self.active >= count {
                    self.active = count.saturating_sub(1);
                }
                if count < 2 {
                    self.side_by_side = false;
                    self.diff_mode = false;
                    self.comparison_panes = Vec::new();
                    assert(self.comparison_panes@ =~= Seq::<Rect>::empty());
                }
                if count == 0 {
                    message.append("; Ctrl+N opens a file");
                }
                self.say(message);
            },
        }
    }

    /// Takes up a file that was read, or what went wrong.
    pub fn finish_open(&mut self, path: &str, outcome: Result<App, String>)
        requires
            old(self)@.wf(),
            old(self)@.documents.len() < usize::MAX,
            outcome matches Ok(document) ==> document@.wf(),
        ensures
            final(self)@ == old(self)@.open_finished(
                path@,
                match outcome {
                    Ok(document) => Ok(document@),
                    Err(error) => Err(error@),
                },
            ),
            final(self)@.wf(),
    {
        proof {
            reveal(WorkspaceView::open_finished);
            reveal(documents_ok);
        }
        match outcome {
            Err(error) => {
                let mut message = "Could not open ".to_owned();
                message.append(path);
                message.append(": ");
                message.append(&error);
                self.say(message);
            },
            Ok(document) => {
                self.documents.push(document);
                self.active = self.documents.len() - 1;
                if self.show_entropy {
                    self.request_entropy_for_visible_documents();
                }
                let mut message = "Opened ".to_owned();
                message.append(path);
                self.say(message);
                self.set_dialog(None);
            },
        }
    }

    /// Takes up a file that was picked, or what went wrong.
    pub fn finish_pick(&mut self, outcome: Result<Option<String>, String>)
        requires
            old(self)@.wf(),
        ensures
            final(self)@ == old(self)@.pick_finished(
                match outcome {
                    Ok(Some(path)) => Ok(Some(path@)),
                    Ok(None) => Ok(None),
                    Err(error) => Err(error@),
                },
            ),
            final(self)@.wf(),
    {
        proof {
            reveal(WorkspaceView::pick_finished);
        }
        match outcome {
            Ok(Some(path)) => self.ask(Task::Open(path)),
            Ok(None) => self.say("Open cancelled".to_owned()),
            Err(error) => {
                let mut message = error;
                message.append(" Type a path manually instead.");
                self.say(message);
                self.set_dialog(Some(OpenFileDialog::manual()));
            },
        }
    }

    /// Takes up the paths that may complete what was typed.
    pub fn offer_paths(&mut self, candidates: Vec<Suggestion>)
        requires
            old(self)@.wf(),
        ensures
            final(self)@ == old(self)@.paths_listed(text::views(candidates@)),
            final(self)@.wf(),
    {
        proof {
            reveal(WorkspaceView::paths_listed);
        }
        match &mut self.open_file_dialog {
            Some(
                OpenFileDialog::ManualPath {
                    input,
                    suggestions,
                    active_suggestion,
                    suggestion_scroll,
                },
            ) => {
                offer_candidates(
                    input,
                    suggestions,
                    active_suggestion,
                    suggestion_scroll,
                    candidates,
                );
            },
            _ => {},
        }
    }

    /// Takes up whether the suggested paths lead to a directory by now. What the disk says may have
    /// changed since they were found, so it is asked before each key.
    pub fn recheck_paths(&mut self, leads: &Vec<bool>, separator: char)
        requires
            old(self)@.wf(),
        ensures
            final(self)@ == old(self)@.paths_rechecked(leads@, separator),
            final(self)@.wf(),
    {
        proof {
            reveal(WorkspaceView::paths_rechecked);
        }
        match &mut self.open_file_dialog {
            Some(OpenFileDialog::ManualPath { suggestions, .. }) => {
                recheck_suggestions(suggestions, leads, separator);
            },
            _ => {},
        }
    }

    /// Applies a key in the choice between picking a file and typing its path.
    fn handle_choice_key(&mut self, active: usize, key: KeyEvent)
        requires
            old(self)@.wf(),
            active < 2,
        ensures
            final(self)@ == old(self)@.choice_key(active as int, key),
            final(self)@.wf(),
    {
        proof {
            reveal(WorkspaceView::choice_key);
        }
        match key.code {
            KeyCode::Esc => self.set_dialog(None),
            KeyCode::Tab | KeyCode::Up | KeyCode::Down => {
                self.set_dialog(Some(OpenFileDialog::Choice { active: (active + 1) % 2 }));
            },
            KeyCode::Enter => {
                if active == 0 {
                    self.ask(Task::PickFile);
                } else {
                    self.set_dialog(Some(OpenFileDialog::manual()));
                }
            },
            _ => {},
        }
    }

    /// Applies a key to the path that is typed.
    fn edit_manual_path(&mut self, key: KeyEvent)
        requires
            old(self)@.wf(),
            old(self)@.dialog matches Some(OpenFileView::ManualPath(_)),
        ensures
            final(self)@ == old(self)@.in_dialog(
                Some(OpenFileView::ManualPath(old(self)@.dialog->Some_0->ManualPath_0.after_key(key))),
            ),
            final(self)@.wf(),
    {
        match &mut self.open_file_dialog {
            Some(
                OpenFileDialog::ManualPath {
                    input,
                    suggestions,
                    active_suggestion,
                    suggestion_scroll,
                },
            ) => {
                completion_key(input, suggestions, active_suggestion, suggestion_scroll, key);
            },
            _ => {},
        }
    }

    /// Chooses the next of the suggested paths, or asks for suggestions.
    pub fn complete_manual_path(&mut self)
        requires
            old(self)@.wf(),
            old(self)@.dialog matches Some(OpenFileView::ManualPath(_)),
        ensures
            final(self)@ == ({
                let path = old(self)@.dialog->Some_0->ManualPath_0;
                if path.suggestions.len() == 0 {
                    old(self)@.asking(TaskView::ListPaths(path.input.value))
                } else {
                    old(self)@.in_dialog(Some(OpenFileView::ManualPath(path.cycled())))
                }
            }),
            final(self)@.wf(),
    {
        let typed = match &mut self.open_file_dialog {
            Some(
                OpenFileDialog::ManualPath {
                    input,
                    suggestions,
                    active_suggestion,
                    suggestion_scroll,
                },
            ) => {
                if suggestions.len() > 0 {
                    cycle_suggestion(input, suggestions, active_suggestion, suggestion_scroll);
                    None
                } else {
                    Some(input.value.clone())
                }
            },
            _ => None,
        };
        match typed {
            Some(input) => self.ask(Task::ListPaths(input)),
            None => {},
        }
    }

    /// Enters the directory that the chosen suggestion leads to, or asks for the file at the path
    /// that was typed.
    fn enter_manual_path(&mut self)
        requires
            old(self)@.wf(),
            old(self)@.dialog matches Some(OpenFileView::ManualPath(_)),
        ensures
            final(self)@ == ({
                let path = old(self)@.dialog->Some_0->ManualPath_0;
                let trimmed = text::trim(path.input.value);
                if path.at_directory() {
                    old(self)@.in_dialog(Some(OpenFileView::ManualPath(path.descended())))
                } else if trimmed.len() == 0 {
                    old(self)@.say("Enter a full or relative file path"@)
                } else {
                    old(self)@.asking(TaskView::Open(trimmed))
                }
            }),
            final(self)@.wf(),
    {
        let typed = match &mut self.open_file_dialog {
            Some(
                OpenFileDialog::ManualPath {
                    input,
                    suggestions,
                    active_suggestion,
                    suggestion_scroll,
                },
            ) => {
                if descend(input, suggestions, active_suggestion, suggestion_scroll) {
                    None
                } else {
                    Some(trimmed(&input.value))
                }
            },
            _ => None,
        };
        match typed {
            Some(path) => {
                if path.as_str().is_empty() {
                    self.say("Enter a full or relative file path".to_owned());
                } else {
                    self.ask(Task::Open(path));
                }
            },
            None => {},
        }
    }

    /// Applies a key while the path of a file is typed.
    fn handle_manual_key(&mut self, key: KeyEvent)
        requires
            old(self)@.wf(),
            old(self)@.dialog matches Some(OpenFileView::ManualPath(_)),
        ensures
            final(self)@ == old(self)@.manual_key(old(self)@.dialog->Some_0->ManualPath_0, key),
            final(self)@.wf(),
    {
        proof {
            reveal(WorkspaceView::manual_key);
        }
        match key.code {
            KeyCode::Esc => self.set_dialog(None),
            KeyCode::Tab => self.complete_manual_path(),
            KeyCode::Enter => self.enter_manual_path(),
            _ => self.edit_manual_path(key),
        }
    }

    /// Applies a key in the dialog that opens a file.
    pub fn handle_open_file_dialog_key(&mut self, key: KeyEvent)
        requires
            old(self)@.wf(),
        ensures
            final(self)@ == old(self)@.dialog_key(key),
            final(self)@.wf(),
    {
        match &self.open_file_dialog {
            Some(OpenFileDialog::Choice { active }) => {
                let active: usize = *active;
                self.handle_choice_key(active, key);
            },
            Some(OpenFileDialog::ManualPath { .. }) => self.handle_manual_key(key),
            None => {},
        }
    }

    /// Applies a key while no file is open, and returns whether it quits.
    fn handle_empty_key(&mut self, key: KeyEvent) -> (quit: bool)
        requires
            old(self)@.wf(),
        ensures
            (PressView { workspace: final(self)@, quit }) == old(self)@.empty_key(key),
            final(self)@.wf(),
    {
        proof {
            reveal(WorkspaceView::empty_key);
        }
        if key.control('n') {
            self.set_dialog(Some(OpenFileDialog::Choice { active: 0 }));
        } else if key.types('q') {
            return true;
        } else {
            self.say("No binary open — Ctrl+N opens a file; q quits".to_owned());
        }
        false
    }

    /// Applies the key that follows the one for switching files.
    fn handle_switch_key(&mut self, key: KeyEvent)
        requires
            old(self)@.wf(),
            old(self)@.documents.len() > 0,
        ensures
            final(self)@ == old(self)@.switch_key(key),
            final(self)@.wf(),
    {
        proof {
            reveal(WorkspaceView::switch_key);
        }
        self.tab_switch_pending = false;
        match key.code {
            KeyCode::Left => self.select_previous_document(),
            KeyCode::Right => self.select_next_document(),
            KeyCode::Char('s') => {
                if self.documents[self.active].edit_mode {
                    self.say("Side-by-side comparison is available in View Mode".to_owned());
                } else {
                    self.toggle_side_by_side();
                }
            },
            _ => self.say("Tab switch cancelled".to_owned()),
        }
    }

    /// Whether nothing is open in the active file.
    fn is_plain(&self) -> (plain: bool)
        requires
            self@.wf(),
            self@.documents.len() > 0,
        ensures
            plain == self@.active_document().mode is Normal,
    {
        proof {
            reveal(modes::mode_view);
        }
        matches!(self.documents[self.active].mode, Mode::Normal)
    }

    /// Whether the active file takes keys as a viewer.
    fn is_viewing(&self) -> (viewing: bool)
        requires
            self@.wf(),
            self@.documents.len() > 0,
        ensures
            viewing == self@.viewing(),
    {
        !self.documents[self.active].edit_mode && self.is_plain()
    }

    /// Applies a key that is the workspace's own, and returns whether it is one.
    fn handle_own_key(&mut self, key: KeyEvent) -> (own: bool)
        requires
            old(self)@.wf(),
            old(self)@.documents.len() > 0,
        ensures
            own == old(self)@.own_key(key) is Some,
            final(self)@ == match old(self)@.own_key(key) {
                Some(workspace) => workspace,
                None => old(self)@,
            },
            final(self)@.wf(),
    {
        proof {
            reveal(WorkspaceView::own_key);
        }
        let viewing = self.is_viewing();
        if key.control('b') {
            self.tab_switch_pending = true;
            self.say("Ctrl+B: press Left or Right to switch binary".to_owned());
        } else if key.control('n') && viewing {
            self.set_dialog(Some(OpenFileDialog::Choice { active: 0 }));
        } else if (key.control('w') || key.control('W')) && viewing {
            self.close_active_document();
        } else if key.control('d') && viewing {
            self.toggle_diff();
        } else if key.types('e') && viewing {
            self.toggle_entropy();
        } else if key.code == KeyCode::Esc && self.show_entropy && self.is_plain() {
            self.hide_entropy();
        } else if key.types('p') && viewing {
            self.open_python_pane();
        } else {
            return false;
        }
        true
    }

    /// Applies a key, and returns whether it quits.
    pub fn handle_workspace_key(&mut self, key: KeyEvent) -> (quit: bool)
        requires
            old(self)@.wf(),
        ensures
            (PressView { workspace: final(self)@, quit }) == old(self)@.pressed(key),
            final(self)@.wf(),
    {
        proof {
            reveal(WorkspaceView::pressed);
        }
        if self.open_file_dialog.is_some() {
            self.handle_open_file_dialog_key(key);
            return false;
        }
        if self.documents.len() == 0 {
            return self.handle_empty_key(key);
        }
        if self.tab_switch_pending {
            self.handle_switch_key(key);
            return false;
        }
        if self.handle_own_key(key) {
            return false;
        }
        let ghost before = self@;
        proof {
            lemma_document(before.documents, before.active);
        }
        let unconfirmed = !self.documents[self.active].quit_armed && any_unsaved(&self.documents);
        let quit = self.documents[self.active].handle_key(key);
        let ghost doc = before.active_document().pressed(key).doc;
        proof {
            lemma_documents_updated(before.documents, before.active, doc);
        }
        if quit && unconfirmed {
            self.documents[self.active].ask_to_quit();
            proof {
                lemma_documents_updated(before.documents, before.active, doc.asking_to_quit());
                assert(self@.documents =~= before.documents.update(
                    before.active,
                    doc.asking_to_quit(),
                ));
            }
            return false;
        }
        quit
    }

    /// Applies a text that was pasted. While bytes are edited it is one change; everywhere else it
    /// counts as the keys that are returned, each of which is to be applied in turn until one
    /// quits.
    pub fn handle_workspace_paste(&mut self, content: &str) -> (keys: Vec<KeyEvent>)
        requires
            old(self)@.wf(),
        ensures
            old(self)@.pastes_bytes() ==> keys@.len() == 0 && final(self)@
                == old(self)@.with_active(old(self)@.active_document().hex_pasted(content@)),
            !old(self)@.pastes_bytes() ==> keys@ == typing_keys(content@) && final(self)@
                == old(self)@,
            final(self)@.wf(),
    {
        if self.documents.len() > 0 && self.open_file_dialog.is_none() {
            proof {
                reveal(modes::mode_view);
            }
            let document = &self.documents[self.active];
            let free = matches!(document.mode, Mode::Normal | Mode::Python(_));
            if document.edit_mode && document.focus == Focus::Viewer && free {
                let ghost before = self@;
                proof {
                    lemma_document(before.documents, before.active);
                }
                self.documents[self.active].paste_hex_bytes(content);
                proof {
                    lemma_documents_updated(
                        before.documents,
                        before.active,
                        before.active_document().hex_pasted(content@),
                    );
                }
                return Vec::new();
            }
        }
        keys_for(content)
    }

    /// Applies a mouse event on the active file.
    fn handle_active_mouse(&mut self, mouse: MouseEvent)
        requires
            old(self)@.wf(),
            old(self)@.documents.len() > 0,
        ensures
            final(self)@ == old(self)@.active_mouse(mouse),
            final(self)@.wf(),
    {
        let ghost before = self@;
        proof {
            lemma_document(before.documents, before.active);
        }
        self.documents[self.active].handle_mouse(mouse);
        proof {
            lemma_documents_updated(
                before.documents,
                before.active,
                before.active_document().mouse_used(mouse),
            );
        }
    }

    /// Applies a mouse event on the files.
    fn handle_files_mouse(&mut self, mouse: MouseEvent)
        requires
            old(self)@.wf(),
            old(self)@.documents.len() > 0,
        ensures
            final(self)@ == old(self)@.files_mouse(mouse),
            final(self)@.wf(),
    {
        proof {
            reveal(WorkspaceView::files_mouse);
        }
        if mouse.click() {
            if mouse.row == self.tab_row {
                match find_tab(&self.tab_hitboxes, mouse.column) {
                    Some(index) => {
                        self.select_document(index);
                        return;
                    },
                    None => {},
                }
            }
            if self.side_by_side {
                match find_pane(&self.comparison_panes, mouse.column, mouse.row) {
                    Some(index) => self.select_document(index),
                    None => {},
                }
            }
        }
        self.handle_active_mouse(mouse);
    }

    /// Applies a mouse event while the path of a file is typed.
    fn handle_manual_mouse(&mut self, mouse: MouseEvent)
        requires
            old(self)@.wf(),
            old(self)@.dialog matches Some(OpenFileView::ManualPath(_)),
        ensures
            final(self)@ == old(self)@.manual_mouse(
                old(self)@.dialog->Some_0->ManualPath_0,
                mouse,
            ),
            final(self)@.wf(),
    {
        match &mut self.open_file_dialog {
            Some(
                OpenFileDialog::ManualPath { input, suggestions, suggestion_scroll, .. },
            ) => {
                if mouse.click() {
                    input.clear_selection();
                } else {
                    completion_wheel(suggestions.len(), suggestion_scroll, mouse.kind);
                }
            },
            _ => {},
        }
    }

    /// Applies a mouse event.
    pub fn handle_workspace_mouse(&mut self, mouse: MouseEvent)
        requires
            old(self)@.wf(),
        ensures
            final(self)@ == old(self)@.mouse_used(mouse),
            final(self)@.wf(),
    {
        proof {
            reveal(WorkspaceView::mouse_used);
        }
        match &self.open_file_dialog {
            Some(OpenFileDialog::ManualPath { .. }) => self.handle_manual_mouse(mouse),
            Some(OpenFileDialog::Choice { .. }) => {},
            None => {
                if self.documents.len() > 0 {
                    self.handle_files_mouse(mouse);
                }
            },
        }
    }

    /// Updates the message on how far the calculation of the entropy has come.
    pub fn update_entropy_status(&mut self)
        requires
            running_scanned(old(self)@.documents) <= usize::MAX,
            running_total(old(self)@.documents) <= usize::MAX,
        ensures
            final(self)@ == old(self)@.entropy_status_updated(),
            old(self)@.wf() ==> final(self)@.wf(),
    {
        proof {
            reveal(WorkspaceView::entropy_status_updated);
        }
        if !self.show_entropy {
            return;
        }
        let (running, scanned, total) = running_sums(&self.documents);
        if running == 0 {
            if any_entropy(&self.documents) {
                if self.side_by_side && self.diff_mode {
                    self.say(
                        "Entropy profiles ready; showing absolute entropy differences".to_owned(),
                    );
                } else {
                    self.say("Entropy calculation complete".to_owned());
                }
            }
            return;
        }
        let mut message = "Calculating entropy for ".to_owned();
        message.append(&decimal_text(running));
        message.append("/");
        message.append(&decimal_text(self.documents.len()));
        message.append(" binary files: ");
        message.append(&decimal_text(percent(scanned, total)));
        message.append("%");
        self.say(message);
    }
}

/// Requesting the entropy keeps the number of files, and changes at most what is known of their
/// entropy.
proof fn lemma_entropy_requested(workspace: WorkspaceView, i: int)
    requires
        workspace.wf(),
        workspace.documents.len() > 0,
        0 <= i < workspace.documents.len(),
    ensures
        ({
            let after = workspace.entropy_requested();
            &&& after.documents.len() == workspace.documents.len()
            &&& after.documents[i] == workspace.documents[i] || after.documents[i]
                == workspace.documents[i].entropy_requested()
            &&& after.active == workspace.active
            &&& after.show_entropy == workspace.show_entropy
            &&& after.side_by_side == workspace.side_by_side
            &&& after.diff_mode == workspace.diff_mode
            &&& after.dialog == workspace.dialog
        }),
{
    reveal(WorkspaceView::entropy_requested);
}

/// What making another file the active one leaves as it is.
proof fn lemma_document_selected(workspace: WorkspaceView, index: int, i: int)
    requires
        workspace.wf(),
        0 <= index,
        0 <= i < workspace.documents.len(),
    ensures
        ({
            let after = workspace.document_selected(index);
            &&& after.documents.len() == workspace.documents.len()
            &&& after.documents[i] == workspace.documents[i] || after.documents[i]
                == workspace.documents[i].entropy_requested()
            &&& after.active == if index < workspace.documents.len() {
                index
            } else {
                workspace.active
            }
        }),
{
    reveal(WorkspaceView::document_selected);
    if index < workspace.documents.len() {
        let moved = WorkspaceView { active: index, ..workspace };
        lemma_entropy_requested(moved, i);
    }
}

/// Going to the next file and back, or to the previous one and on again, leads to the same file.
pub proof fn next_and_previous_document(workspace: WorkspaceView)
    requires
        workspace.wf(),
        workspace.documents.len() > 0,
    ensures
        workspace.next_document().previous_document().active == workspace.active,
        workspace.previous_document().next_document().active == workspace.active,
{
    let count = workspace.documents.len() as int;
    let active = workspace.active;
    let next = (active + 1) % count;
    let previous = if active == 0 {
        count - 1
    } else {
        active - 1
    };
    if active == count - 1 {
        vstd::arithmetic::div_mod::lemma_mod_self_0(count);
    } else {
        vstd::arithmetic::div_mod::lemma_small_mod((active + 1) as nat, count as nat);
    }
    if previous == count - 1 {
        vstd::arithmetic::div_mod::lemma_mod_self_0(count);
    } else {
        vstd::arithmetic::div_mod::lemma_small_mod((previous + 1) as nat, count as nat);
    }
    lemma_document_selected(workspace, next, 0);
    lemma_document_selected(workspace, previous, 0);
    lemma_selected_wf(workspace, next);
    lemma_selected_wf(workspace, previous);
    lemma_document_selected(workspace.next_document(), active, 0);
    lemma_document_selected(workspace.previous_document(), active, 0);
}

/// Making another file the active one keeps the workspace in order.
proof fn lemma_selected_wf(workspace: WorkspaceView, index: int)
    requires
        workspace.wf(),
        0 <= index,
    ensures
        workspace.document_selected(index).wf(),
{
    reveal(WorkspaceView::document_selected);
    if index < workspace.documents.len() {
        let moved = WorkspaceView { active: index, ..workspace };
        let after = moved.entropy_requested();
        lemma_entropy_requested(moved, 0);
        assert(documents_ok(after.documents)) by {
            reveal(documents_ok);
            assert forall|i: int| 0 <= i < after.documents.len() implies (
            #[trigger] after.documents[i]).wf() by {
                lemma_entropy_requested(moved, i);
                assert(moved.documents[i].wf());
                lemma_entropy_wf(moved.documents[i]);
            }
        }
    }
}

/// Starting the calculation of the entropy keeps a file in order.
proof fn lemma_entropy_wf(doc: DocView)
    requires
        doc.wf(),
    ensures
        doc.entropy_requested().wf(),
{
    reveal(DocView::entropy_requested);
    reveal(DocView::asking);
    reveal(DocView::say);
}

/// No longer showing the files side by side also ends showing their differences.
pub proof fn comparison_ends_with_its_view(workspace: WorkspaceView)
    requires
        workspace.wf(),
        workspace.side_by_side,
    ensures
        !workspace.side_by_side_toggled().side_by_side,
        !workspace.side_by_side_toggled().diff_mode,
{
    reveal(WorkspaceView::side_by_side_toggled);
}

/// A file with changes that were not saved is not closed by the first request, which changes
/// nothing but that the second one will close it.
pub proof fn closing_needs_confirmation(workspace: WorkspaceView)
    requires
        workspace.wf(),
        workspace.documents.len() > 0,
        !workspace.python_is_open(),
        workspace.active_document().bytes != workspace.active_document().saved,
        !workspace.active_document().quit_armed,
    ensures
        workspace.close_requested().tasks == workspace.tasks,
        workspace.close_requested().documents.len() == workspace.documents.len(),
        workspace.close_requested().active_document().bytes == workspace.active_document().bytes,
        workspace.close_requested().close_requested().tasks == workspace.tasks.push(
            TaskView::StoreAndClose,
        ),
{
    reveal(WorkspaceView::close_requested);
    reveal(DocView::armed);
    lemma_document(workspace.documents, workspace.active);
    laws::marks_tell_changes(workspace.active_document());
    let once = workspace.close_requested();
    assert(!once.python_is_open()) by {
        if once.python_is_open() {
            let i = choose|i: int|
                0 <= i < once.documents.len() && (#[trigger] once.documents[i]).mode is Python;
            assert(workspace.documents[i].mode is Python);
        }
    }
}

/// Only the key that quits ends the program, and while any open file differs from what was saved
/// only after it was pressed before.
pub proof fn quitting_all_files_needs_confirmation(workspace: WorkspaceView, key: KeyEvent)
    requires
        workspace.wf(),
        workspace.pressed(key).quit,
    ensures
        key.code == KeyCode::Char('q'),
        (exists|i: int|
            0 <= i < workspace.documents.len() && (#[trigger] workspace.documents[i]).bytes
                != workspace.documents[i].saved) ==> workspace.active_document().quit_armed,
{
    reveal(WorkspaceView::pressed);
    reveal(WorkspaceView::empty_key);
    if workspace.documents.len() > 0 {
        lemma_document(workspace.documents, workspace.active);
        laws::quitting_needs_confirmation(workspace.active_document(), key);
    }
    if exists|i: int|
        0 <= i < workspace.documents.len() && (#[trigger] workspace.documents[i]).bytes
            != workspace.documents[i].saved {
        let i = choose|i: int|
            0 <= i < workspace.documents.len() && (#[trigger] workspace.documents[i]).bytes
                != workspace.documents[i].saved;
        lemma_document(workspace.documents, i);
        laws::marks_tell_changes(workspace.documents[i]);
        assert(workspace.unsaved());
    }
}

/// While some open file differs from what was saved, the first press of the key that quits asks,
/// changes no byte of any file, and the second press quits.
pub proof fn second_press_quits_all_files(workspace: WorkspaceView, key: KeyEvent, i: int)
    requires
        workspace.wf(),
        workspace.dialog is None,
        !workspace.switching,
        0 <= i < workspace.documents.len(),
        workspace.documents[i].bytes != workspace.documents[i].saved,
        workspace.active_document().mode is Normal,
        !workspace.active_document().edit_mode,
        !workspace.active_document().vim_g_pending,
        !workspace.active_document().quit_armed,
        key.code == KeyCode::Char('q'),
        !key.modifiers.control,
        !key.modifiers.command,
    ensures
        ({
            let once = workspace.pressed(key);
            &&& !once.quit
            &&& once.workspace.documents.len() == workspace.documents.len()
            &&& forall|k: int|
                0 <= k < workspace.documents.len() ==> (#[trigger] once.workspace.documents[k]).bytes
                    == workspace.documents[k].bytes
            &&& once.workspace.pressed(key).quit
        }),
{
    reveal(WorkspaceView::pressed);
    reveal(WorkspaceView::own_key);
    reveal(DocView::normal_key);
    reveal(DocView::view_key);
    reveal(DocView::armed);
    reveal(DocView::say);
    lemma_document(workspace.documents, i);
    laws::marks_tell_changes(workspace.documents[i]);
    assert(workspace.unsaved());
}

/// A file that could not be stored is not closed.
pub proof fn files_that_were_not_stored_stay(workspace: WorkspaceView, error: Seq<char>)
    ensures
        workspace.close_finished(Err(error)).documents == workspace.documents,
        workspace.close_finished(Err(error)).status == error,
{
    reveal(WorkspaceView::close_finished);
}

/// Opening a file and closing it again leaves the files that were open before.
pub proof fn opening_and_closing(workspace: WorkspaceView, path: Seq<char>, doc: DocView)
    requires
        workspace.wf(),
        !workspace.show_entropy,
    ensures
        workspace.open_finished(path, Ok(doc)).active_document() == doc,
        workspace.open_finished(path, Ok(doc)).close_finished(Ok(())).documents
            == workspace.documents,
{
    reveal(WorkspaceView::open_finished);
    reveal(WorkspaceView::close_finished);
    let opened = workspace.open_finished(path, Ok(doc));
    assert(opened.documents == workspace.documents.push(doc));
    assert(opened.documents.remove(opened.active) =~= workspace.documents);
}

/// A key opens and closes no file by itself, and all files but the active one stay as they are,
/// except that their entropy may be asked for.
pub proof fn files_are_independent(workspace: WorkspaceView, key: KeyEvent, i: int)
    requires
        workspace.wf(),
        0 <= i < workspace.documents.len(),
        i != workspace.active,
    ensures
        ({
            let after = workspace.pressed(key).workspace;
            &&& after.documents.len() == workspace.documents.len()
            &&& after.documents[i] == workspace.documents[i] || after.documents[i]
                == workspace.documents[i].entropy_requested()
        }),
{
    reveal(WorkspaceView::pressed);
    if workspace.dialog is Some {
        reveal(WorkspaceView::choice_key);
        reveal(WorkspaceView::manual_key);
    } else if workspace.switching {
        reveal(WorkspaceView::switch_key);
        reveal(WorkspaceView::side_by_side_toggled);
        let ws = WorkspaceView { switching: false, ..workspace };
        let count = workspace.documents.len() as int;
        vstd::arithmetic::div_mod::lemma_mod_bound(ws.active + 1, count);
        lemma_document_selected(ws, (ws.active + 1) % count, i);
        lemma_document_selected(
            ws,
            if ws.active == 0 {
                count - 1
            } else {
                ws.active - 1
            },
            i,
        );
    } else {
        reveal(WorkspaceView::own_key);
        reveal(WorkspaceView::close_requested);
        reveal(WorkspaceView::diff_toggled);
        reveal(WorkspaceView::entropy_toggled);
        reveal(WorkspaceView::python_requested);
        lemma_entropy_requested(WorkspaceView { show_entropy: true, ..workspace }, i);
    }
}

/// The file that the active one is compared with is another one, and there is one as soon as two
/// files are open.
pub proof fn comparison_is_with_another(workspace: WorkspaceView)
    requires
        workspace.wf(),
    ensures
        workspace.compared() is Some <==> workspace.documents.len() > 1,
        workspace.compared() matches Some(index) ==> 0 <= index < workspace.documents.len() && index
            != workspace.active,
{
    let count = workspace.documents.len() as int;
    if count > 1 {
        if workspace.active == count - 1 {
            vstd::arithmetic::div_mod::lemma_mod_self_0(count);
        } else {
            vstd::arithmetic::div_mod::lemma_small_mod(
                (workspace.active + 1) as nat,
                count as nat,
            );
        }
    }
}

/// A message and a confirmation that is asked for keep a file in step.
proof fn lemma_armed_in_step(doc: DocView)
    requires
        doc.in_step(),
    ensures
        doc.armed(true).in_step(),
        doc.asking_to_quit().in_step(),
{
    reveal(DocView::armed);
    reveal(DocView::say);
}

/// What a key that is the workspace's own makes of the active file keeps it in step.
proof fn lemma_active_in_step(workspace: WorkspaceView, key: KeyEvent)
    requires
        workspace.wf(),
        workspace.documents.len() > 0,
        workspace.active_document().in_step(),
        workspace.dialog is None,
        !workspace.switching,
        workspace.own_key(key) is Some,
    ensures
        workspace.own_key(key)->Some_0.documents[workspace.active].in_step(),
{
    let doc = workspace.active_document();
    steps::reports_keep_in_step(doc, Seq::empty(), Seq::empty());
    lemma_armed_in_step(doc);
    reveal(WorkspaceView::own_key);
    reveal(WorkspaceView::close_requested);
    reveal(WorkspaceView::diff_toggled);
    reveal(WorkspaceView::entropy_toggled);
    reveal(WorkspaceView::python_requested);
    lemma_entropy_requested(WorkspaceView { show_entropy: true, ..workspace }, workspace.active);
}

/// Every key keeps all files in step.
pub proof fn keys_keep_files_in_step(workspace: WorkspaceView, key: KeyEvent, i: int)
    requires
        workspace.wf(),
        0 <= i < workspace.documents.len(),
        workspace.documents[i].in_step(),
    ensures
        workspace.pressed(key).workspace.documents[i].in_step(),
{
    let doc = workspace.documents[i];
    steps::reports_keep_in_step(doc, Seq::empty(), Seq::empty());
    if i != workspace.active {
        files_are_independent(workspace, key, i);
    } else {
        reveal(WorkspaceView::pressed);
        if workspace.dialog is Some {
            reveal(WorkspaceView::choice_key);
            reveal(WorkspaceView::manual_key);
        } else if workspace.switching {
            reveal(WorkspaceView::switch_key);
            reveal(WorkspaceView::side_by_side_toggled);
            let ws = WorkspaceView { switching: false, ..workspace };
            let count = workspace.documents.len() as int;
            vstd::arithmetic::div_mod::lemma_mod_bound(ws.active + 1, count);
            lemma_document_selected(ws, (ws.active + 1) % count, i);
            lemma_document_selected(
                ws,
                if ws.active == 0 {
                    count - 1
                } else {
                    ws.active - 1
                },
                i,
            );
        } else if workspace.own_key(key) is Some {
            lemma_active_in_step(workspace, key);
        } else {
            lemma_document(workspace.documents, workspace.active);
            steps::keys_keep_in_step(doc, key);
            lemma_armed_in_step(doc.pressed(key).doc);
        }
    }
}

} // verus!
