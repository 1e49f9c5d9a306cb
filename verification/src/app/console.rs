//! The Python console of an open file.

use vstd::prelude::*;

use crate::app;
use crate::app::edit::mode_is_free;
use crate::app::edit;
use crate::app::{App, DocView};
use crate::editing::{EditKind, EditView, PendingEdit};
use crate::effects::{Effect, EffectView};
use crate::input::{KeyCode, KeyEvent};
use crate::modes;
use crate::modes::{Focus, Mode, ModeView};
use crate::numbers;
use crate::numbers::decimal_text;
use crate::python;
use crate::python::{
    copy_snapshots, merge, PaneView, PythonCommand, PythonPane, PythonResponse, PythonSnapshot,
    ResponseView, SnapshotView,
};
use crate::text;
use crate::text::copy_texts;

verus! {

broadcast use crate::text::group_views;

impl DocView {
    /// With the console in another state.
    pub open spec fn with_pane(self, pane: PaneView) -> DocView {
        self.in_mode(ModeView::Python(pane))
    }

    /// With the history of commands kept for the next console.
    #[verifier::opaque]
    pub open spec fn remembering(self, history: Seq<Seq<char>>) -> DocView {
        DocView { python_history: history, ..self }
    }

    /// With the console open.
    #[verifier::opaque]
    pub open spec fn python_opened(self, snapshots: Seq<SnapshotView>) -> DocView {
        self.with_pane(PaneView::opened(snapshots, self.python_history)).focused(
            Focus::Python,
        ).say("Python pane opened"@)
    }

    /// With the console closed.
    #[verifier::opaque]
    pub open spec fn python_closed(self, pane: PaneView) -> DocView {
        self.remembering(pane.history).in_mode(ModeView::Normal).focused(Focus::Viewer).asking(
            EffectView::ClosePython,
        ).say("Python pane closed"@)
    }

    /// The pane that takes the keys after the next, or before, around the ends. The list of
    /// fields is passed over while it is hidden, except backwards from itself.
    pub open spec fn next_focus(self, forward: bool) -> Focus {
        match self.focus {
            Focus::Viewer => if !forward || !self.settings.show_sidebar {
                Focus::Python
            } else {
                Focus::Fields
            },
            Focus::Fields => if forward {
                Focus::Python
            } else {
                Focus::Viewer
            },
            Focus::Python => if forward || !self.settings.show_sidebar {
                Focus::Viewer
            } else {
                Focus::Fields
            },
        }
    }

    /// With the keys given to the next pane, or to the previous one.
    #[verifier::opaque]
    pub open spec fn focus_cycled(self, forward: bool) -> DocView {
        let focus = self.next_focus(forward);
        self.focused(focus).say(
            match focus {
                Focus::Viewer => "Python mode: hex viewer focused"@,
                Focus::Fields => "Python mode: fields pane focused"@,
                Focus::Python => "Python mode: console focused"@,
            },
        )
    }

    /// With the editing of bytes beside the console ended.
    pub open spec fn python_editing_left(self) -> DocView {
        self.committed().with_kind(false, EditKind::Overwrite).say("Python mode: hex View Mode"@)
    }

    /// After the escape key in the console: it ends editing, or drops an unfinished block, or
    /// closes the console.
    #[verifier::opaque]
    pub open spec fn python_escape(self, pane: PaneView) -> DocView {
        if self.focus == Focus::Viewer && self.edit_mode {
            self.python_editing_left()
        } else if self.focus == Focus::Python && (pane.repl_lines.len() > 0
            || pane.input.value.len() > 0) {
            self.with_pane(pane.discarded()).say("Discarded the unfinished Python block"@)
        } else {
            self.python_closed(pane)
        }
    }

    /// After the enter key in the console.
    #[verifier::opaque]
    pub open spec fn python_entered(self, pane: PaneView) -> DocView {
        let entry = pane.entered();
        match entry.command {
            Some(command) => self.with_pane(entry.pane).remembering(entry.pane.history).asking(
                EffectView::Command(command),
            ),
            None => self.with_pane(entry.pane),
        }
    }

    /// After a key while bytes are edited beside the console.
    #[verifier::opaque]
    pub open spec fn python_overwrite_key(self, key: KeyEvent) -> DocView {
        if key.modifiers.control {
            if key.code == KeyCode::Char('u') {
                self.undone()
            } else if key.code == KeyCode::Char('r') {
                self.redone()
            } else if key.code == KeyCode::Char('s') {
                self.say("Close the Python pane before saving the binary"@)
            } else {
                self
            }
        } else {
            self.edit_key(key.code)
        }
    }

    /// After a key for the viewer or the list of fields beside the console.
    #[verifier::opaque]
    pub open spec fn python_content_key(self, key: KeyEvent) -> DocView {
        if self.focus == Focus::Viewer {
            if self.edit_mode {
                self.python_overwrite_key(key)
            } else if key.code == KeyCode::Char('i') {
                self.with_kind(true, EditKind::Overwrite).say(
                    "Python mode: hex Overwrite Mode (Esc returns to View Mode)"@,
                )
            } else {
                self.moved_by(key.code, key.modifiers.shift)
            }
        } else if self.focus == Focus::Fields {
            match key.code {
                KeyCode::Up => self.previous_field(),
                KeyCode::Down => self.next_field(),
                KeyCode::Delete => self.field_deleted(),
                KeyCode::Char(c) => if c == '[' {
                    self.previous_field()
                } else if c == ']' {
                    self.next_field()
                } else if c == 'd' {
                    self.field_deleted()
                } else {
                    self
                },
                _ => self,
            }
        } else {
            self
        }
    }

    /// After a key for the console itself.
    #[verifier::opaque]
    pub open spec fn python_pane_key(self, pane: PaneView, key: KeyEvent) -> DocView {
        let control = key.modifiers.control;
        if key.is_control('l') {
            self.with_pane(pane.cleared())
        } else if key.code == KeyCode::Enter {
            self.python_entered(pane)
        } else {
            self.with_pane(
                match key.code {
                    KeyCode::Up => pane.recalled(true),
                    KeyCode::Down => pane.recalled(false),
                    KeyCode::PageUp => pane.scrolled_back(10),
                    KeyCode::PageDown => pane.scrolled_forward(10),
                    KeyCode::Home => if control {
                        pane.scrolled(pane.max_scroll())
                    } else {
                        pane.typed(key)
                    },
                    KeyCode::End => if control {
                        pane.scrolled(0)
                    } else {
                        pane.typed(key)
                    },
                    _ => pane.typed(key),
                },
            )
        }
    }

    /// After the escape key where no console is open.
    #[verifier::opaque]
    pub open spec fn escaped(self) -> DocView {
        if self.focus == Focus::Viewer && self.edit_mode {
            self.python_editing_left()
        } else {
            self.in_mode(ModeView::Normal).focused(Focus::Viewer).say("Python pane closed"@)
        }
    }

    /// After a key while the console is open. The keys that are not for the console itself act
    /// in any other mode too.
    #[verifier::opaque]
    pub open spec fn python_key(self, key: KeyEvent) -> DocView {
        match self.mode {
            ModeView::Python(pane) => if key.code == KeyCode::Esc {
                self.python_escape(pane)
            } else if key.code == KeyCode::Tab || key.code == KeyCode::BackTab {
                self.focus_cycled(key.code == KeyCode::Tab)
            } else if key.is_control('c') {
                if pane.pending > 0 {
                    self.asking(EffectView::Interrupt)
                } else {
                    self.say("No Python command is currently running"@)
                }
            } else if self.focus != Focus::Python {
                self.python_content_key(key)
            } else {
                self.python_pane_key(pane, key)
            },
            _ => if key.code == KeyCode::Esc {
                self.escaped()
            } else if key.code == KeyCode::Tab || key.code == KeyCode::BackTab {
                self.focus_cycled(key.code == KeyCode::Tab)
            } else if key.is_control('c') || self.focus == Focus::Python {
                self
            } else {
                self.python_content_key(key)
            },
        }
    }

    /// After the interpreter was interrupted, or could not be.
    pub open spec fn interrupted(self, outcome: Result<(), Seq<char>>) -> DocView {
        self.say(
            match outcome {
                Ok(_) => "Interrupt sent to Python"@,
                Err(error) => error,
            },
        )
    }

    /// After a command was handed to the interpreter, or could not be.
    #[verifier::opaque]
    pub open spec fn command_sent(self, outcome: Result<(), Seq<char>>) -> DocView {
        match outcome {
            Ok(_) => match self.mode {
                ModeView::Python(pane) => self.with_pane(pane.awaiting()),
                _ => self,
            },
            Err(error) => self.say(error),
        }
    }

    /// After an answer of the interpreter.
    #[verifier::opaque]
    pub open spec fn python_answered(self, response: ResponseView) -> DocView {
        match self.mode {
            ModeView::Python(pane) => self.with_pane(pane.answered(response)),
            _ => self,
        }
    }

    /// The buffers to take over after an answer of the interpreter.
    pub open spec fn answered_snapshots(self, response: ResponseView) -> Seq<SnapshotView> {
        match self.mode {
            ModeView::Python(pane) => if response.applied {
                pane.snapshots
            } else {
                Seq::empty()
            },
            _ => Seq::empty(),
        }
    }

    /// After several answers of the interpreter.
    pub open spec fn python_drained(self, responses: Seq<ResponseView>) -> DocView
        decreases responses.len(),
    {
        if responses.len() == 0 {
            self
        } else {
            self.python_drained(responses.drop_last()).python_answered(responses.last())
        }
    }

    /// The buffers to take over after several answers of the interpreter.
    pub open spec fn drained_snapshots(self, responses: Seq<ResponseView>) -> Seq<SnapshotView>
        decreases responses.len(),
    {
        if responses.len() == 0 {
            Seq::empty()
        } else {
            self.drained_snapshots(responses.drop_last()) + self.python_drained(
                responses.drop_last(),
            ).answered_snapshots(responses.last())
        }
    }

    /// With nothing to take back or to make again, and at the first digit of a byte.
    #[verifier::opaque]
    pub open spec fn forgetting(self) -> DocView {
        DocView {
            undo: Seq::<EditView>::empty(),
            redo: Seq::<EditView>::empty(),
            pending: None::<PendingEdit>,
            edit_high_nibble: true,
            ..self
        }
    }

    /// The message for changes of the interpreter that were taken over or kept back.
    pub open spec fn merge_message(applied: int, conflicts: int) -> Seq<char> {
        if applied == 0 {
            "Python apply kept "@ + numbers::decimal(conflicts as nat)
                + " direct hex edit conflict(s); no changes applied"@
        } else if conflicts == 0 {
            "Applied "@ + numbers::decimal(applied as nat)
                + " Python byte change(s); Ctrl+S saves"@
        } else {
            "Applied "@ + numbers::decimal(applied as nat) + " Python byte change(s); kept "@
                + numbers::decimal(conflicts as nat) + " direct hex edit conflict(s)"@
        }
    }

    /// With the changes of the interpreter merged in that are in no conflict with direct edits.
    #[verifier::opaque]
    pub open spec fn buffer_merged(self, baseline: Seq<u8>, python: Seq<u8>) -> DocView {
        let bytes = python::merged(baseline, python, self.bytes);
        let applied = python::taken_count(baseline, python, self.bytes, self.length());
        let conflicts = python::conflict_count(baseline, python, self.bytes, self.length());
        if applied == 0 && conflicts == 0 {
            self.say("Python apply found no buffer changes"@)
        } else {
            self.installed(bytes).forgetting().say(
                DocView::merge_message(applied, conflicts),
            )
        }
    }

    /// After the buffer of the interpreter was read back.
    #[verifier::opaque]
    pub open spec fn snapshot_applied(
        self,
        snapshot: SnapshotView,
        read: Result<Seq<u8>, Seq<char>>,
    ) -> DocView {
        match read {
            Err(error) => self.say("Could not read Python buffer: "@ + error),
            Ok(python) => if python.len() != self.bytes.len() || snapshot.baseline.len()
                != self.bytes.len() {
                self.say(
                    "Python buffer length changed from "@ + numbers::decimal(self.bytes.len())
                        + " to "@ + numbers::decimal(python.len())
                        + "; only same-length edits can be applied"@,
                )
            } else {
                self.buffer_merged(snapshot.baseline, python)
            },
        }
    }
}

impl App {
    /// Puts the console in another state.
    fn set_pane(&mut self, pane: PythonPane)
        requires
            old(self)@.wf(),
            pane@.wf(),
        ensures
            final(self)@ == old(self)@.with_pane(pane@),
            final(self)@.wf(),
    {
        proof {
            reveal(app::mode_ok);
            reveal(modes::mode_view);
        }
        self.set_mode(Mode::Python(pane));
    }

    /// Opens the console of a new session.
    pub fn open_python_pane_with_session(&mut self, snapshots: Vec<PythonSnapshot>)
        requires
            old(self)@.wf(),
        ensures
            final(self)@ == old(self)@.python_opened(text::views(snapshots@)),
            final(self)@.wf(),
    {
        proof {
            reveal(DocView::python_opened);
        }
        let history = copy_texts(&self.python_history);
        let pane = PythonPane::open(snapshots, history);
        self.set_pane(pane);
        self.set_focus(Focus::Python);
        self.say("Python pane opened".to_owned());
    }

    /// Keeps the history of commands for the next console.
    fn remember(&mut self, history: Vec<String>)
        ensures
            final(self)@ == old(self)@.remembering(text::views(history@)),
            old(self)@.wf() ==> final(self)@.wf(),
    {
        proof {
            reveal(DocView::remembering);
        }
        self.python_history = history;
    }

    /// Closes the console.
    fn close_python(&mut self, history: Vec<String>)
        requires
            old(self)@.wf(),
            old(self)@.mode matches ModeView::Python(pane) && pane.history == text::views(history@),
        ensures
            final(self)@ == old(self)@.python_closed(old(self)@.mode->Python_0),
            final(self)@.wf(),
    {
        proof {
            reveal(DocView::python_closed);
        }
        self.remember(history);
        self.leave_mode();
        self.set_focus(Focus::Viewer);
        self.ask(Effect::ClosePython);
        self.say("Python pane closed".to_owned());
    }

    /// Applies the escape key in the console.
    fn escape_python(&mut self)
        requires
            old(self)@.wf(),
            old(self)@.mode is Python,
        ensures
            final(self)@ == old(self)@.python_escape(old(self)@.mode->Python_0),
            final(self)@.wf(),
    {
        proof {
            reveal(DocView::python_escape);
            reveal(modes::mode_view);
        }
        if self.focus == Focus::Viewer && self.edit_mode {
            self.commit_pending_edit();
            self.set_kind(false, EditKind::Overwrite);
            self.say("Python mode: hex View Mode".to_owned());
            return;
        }
        let (unfinished, history) = match &self.mode {
            Mode::Python(pane) => (
                pane.repl_lines.len() > 0 || !pane.input.value.as_str().is_empty(),
                copy_texts(&pane.history),
            ),
            _ => (false, Vec::new()),
        };
        if self.focus == Focus::Python && unfinished {
            self.discard_block();
            self.say("Discarded the unfinished Python block".to_owned());
            return;
        }
        self.close_python(history);
    }

    /// Drops the unfinished block in the console.
    fn discard_block(&mut self)
        requires
            old(self)@.wf(),
            old(self)@.mode is Python,
        ensures
            final(self)@ == old(self)@.with_pane(old(self)@.mode->Python_0.discarded()),
            final(self)@.wf(),
    {
        proof {
            reveal(DocView::in_mode);
            reveal(app::mode_ok);
            reveal(modes::mode_view);
        }
        match &mut self.mode {
            Mode::Python(pane) => pane.discard(),
            _ => {},
        }
    }

    /// Gives the keys to the next pane, or to the previous one.
    pub fn cycle_python_focus(&mut self, forward: bool)
        requires
            old(self)@.wf(),
        ensures
            final(self)@ == old(self)@.focus_cycled(forward),
            final(self)@.wf(),
    {
        proof {
            reveal(DocView::focus_cycled);
        }
        let sidebar = self.settings.show_sidebar;
        let focus = match self.focus {
            Focus::Viewer => if !forward || !sidebar {
                Focus::Python
            } else {
                Focus::Fields
            },
            Focus::Fields => if forward {
                Focus::Python
            } else {
                Focus::Viewer
            },
            Focus::Python => if forward || !sidebar {
                Focus::Viewer
            } else {
                Focus::Fields
            },
        };
        self.set_focus(focus);
        match focus {
            Focus::Viewer => self.say("Python mode: hex viewer focused".to_owned()),
            Focus::Fields => self.say("Python mode: fields pane focused".to_owned()),
            Focus::Python => self.say("Python mode: console focused".to_owned()),
        }
    }

    /// Applies a key while bytes are edited beside the console.
    pub fn handle_python_overwrite_key(&mut self, key: KeyEvent)
        requires
            old(self)@.wf(),
            mode_is_free(old(self)@.mode),
        ensures
            final(self)@ == old(self)@.python_overwrite_key(key),
            final(self)@.wf(),
    {
        proof {
            reveal(DocView::python_overwrite_key);
        }
        if key.modifiers.control {
            if key.types('u') {
                self.undo_overwrite();
            } else if key.types('r') {
                self.redo_overwrite();
            } else if key.types('s') {
                self.say("Close the Python pane before saving the binary".to_owned());
            }
            return;
        }
        self.handle_edit_key(key.code);
    }

    /// Applies a key for the viewer or the list of fields beside the console.
    pub fn handle_python_content_key(&mut self, key: KeyEvent)
        requires
            old(self)@.wf(),
            mode_is_free(old(self)@.mode),
        ensures
            final(self)@ == old(self)@.python_content_key(key),
            final(self)@.wf(),
    {
        proof {
            reveal(DocView::python_content_key);
        }
        if self.focus == Focus::Viewer {
            if self.edit_mode {
                self.handle_python_overwrite_key(key);
            } else if key.types('i') {
                self.set_kind(true, EditKind::Overwrite);
                self.say("Python mode: hex Overwrite Mode (Esc returns to View Mode)".to_owned());
            } else {
                self.move_by(key.code, key.modifiers.shift);
            }
        } else if self.focus == Focus::Fields {
            match key.code {
                KeyCode::Up => self.select_previous_field(),
                KeyCode::Down => self.select_next_field(),
                KeyCode::Delete => self.delete_selected_field(),
                KeyCode::Char(c) => {
                    if c == '[' {
                        self.select_previous_field();
                    } else if c == ']' {
                        self.select_next_field();
                    } else if c == 'd' {
                        self.delete_selected_field();
                    }
                },
                _ => {},
            }
        }
    }

    /// Applies the enter key to the console itself.
    fn enter_in_pane(&mut self) -> (request: Option<PythonCommand>)
        requires
            old(self)@.wf(),
            old(self)@.mode is Python,
        ensures
            final(self)@ == old(self)@.with_pane(old(self)@.mode->Python_0.entered().pane),
            final(self)@.wf(),
            match request {
                Some(command) => old(self)@.mode->Python_0.entered().command == Some(command@),
                None => old(self)@.mode->Python_0.entered().command is None,
            },
    {
        proof {
            reveal(DocView::in_mode);
            reveal(app::mode_ok);
            reveal(modes::mode_view);
        }
        match &mut self.mode {
            Mode::Python(pane) => pane.enter(),
            _ => None,
        }
    }

    /// Applies the enter key in the console.
    fn enter_command(&mut self)
        requires
            old(self)@.wf(),
            old(self)@.mode is Python,
        ensures
            final(self)@ == old(self)@.python_entered(old(self)@.mode->Python_0),
            final(self)@.wf(),
    {
        proof {
            reveal(DocView::python_entered);
            reveal(modes::mode_view);
        }
        let ghost entry = self@.mode->Python_0.entered();
        match self.enter_in_pane() {
            Some(command) => {
                assert(self@.mode == ModeView::Python(entry.pane)) by {
                    reveal(DocView::in_mode);
                }
                let history = match &self.mode {
                    Mode::Python(pane) => copy_texts(&pane.history),
                    _ => Vec::new(),
                };
                self.remember(history);
                self.ask(Effect::Command(command));
            },
            None => {},
        }
    }

    /// Applies a key that stays in the console.
    fn edit_pane(&mut self, key: KeyEvent)
        requires
            old(self)@.wf(),
            old(self)@.mode is Python,
            key.code != KeyCode::Enter,
        ensures
            final(self)@ == old(self)@.python_pane_key(old(self)@.mode->Python_0, key),
            final(self)@.wf(),
    {
        proof {
            reveal(DocView::python_pane_key);
            reveal(DocView::in_mode);
            reveal(app::mode_ok);
            reveal(modes::mode_view);
        }
        let control = key.modifiers.control;
        match &mut self.mode {
            Mode::Python(pane) => {
                if key.control('l') {
                    pane.clear();
                } else {
                    match key.code {
                        KeyCode::Up => pane.navigate_python_history(true),
                        KeyCode::Down => pane.navigate_python_history(false),
                        KeyCode::PageUp => pane.scroll_back(10),
                        KeyCode::PageDown => pane.scroll_forward(10),
                        KeyCode::Home => {
                            if control {
                                pane.scroll = pane.max_scroll();
                            } else {
                                pane.type_key(key);
                            }
                        },
                        KeyCode::End => {
                            if control {
                                pane.scroll = 0;
                            } else {
                                pane.type_key(key);
                            }
                        },
                        _ => pane.type_key(key),
                    }
                }
            },
            _ => {},
        }
    }

    /// Applies a key for the console itself.
    fn handle_python_pane_key(&mut self, key: KeyEvent)
        requires
            old(self)@.wf(),
            old(self)@.mode is Python,
        ensures
            final(self)@ == old(self)@.python_pane_key(old(self)@.mode->Python_0, key),
            final(self)@.wf(),
    {
        if key.code == KeyCode::Enter {
            proof {
                reveal(DocView::python_pane_key);
            }
            self.enter_command();
        } else {
            self.edit_pane(key);
        }
    }

    /// Applies the escape key where no console is open.
    fn escape_without_pane(&mut self)
        requires
            old(self)@.wf(),
        ensures
            final(self)@ == old(self)@.escaped(),
            final(self)@.wf(),
    {
        proof {
            reveal(DocView::escaped);
        }
        if self.focus == Focus::Viewer && self.edit_mode {
            self.commit_pending_edit();
            self.set_kind(false, EditKind::Overwrite);
            self.say("Python mode: hex View Mode".to_owned());
        } else {
            self.leave_mode();
            self.set_focus(Focus::Viewer);
            self.say("Python pane closed".to_owned());
        }
    }

    /// Applies a key while the console is open.
    pub fn handle_python_key(&mut self, key: KeyEvent)
        requires
            old(self)@.wf(),
            mode_is_free(old(self)@.mode),
        ensures
            final(self)@ == old(self)@.python_key(key),
            final(self)@.wf(),
    {
        proof {
            reveal(DocView::python_key);
            reveal(modes::mode_view);
        }
        let pending: usize = match &self.mode {
            Mode::Python(pane) => pane.pending,
            _ => {
                if key.code == KeyCode::Esc {
                    self.escape_without_pane();
                } else if key.code == KeyCode::Tab || key.code == KeyCode::BackTab {
                    self.cycle_python_focus(key.code == KeyCode::Tab);
                } else if !key.control('c') && self.focus != Focus::Python {
                    self.handle_python_content_key(key);
                }
                return;
            },
        };
        if key.code == KeyCode::Esc {
            self.escape_python();
        } else if key.code == KeyCode::Tab || key.code == KeyCode::BackTab {
            self.cycle_python_focus(key.code == KeyCode::Tab);
        } else if key.control('c') {
            if pending > 0 {
                self.ask(Effect::Interrupt);
            } else {
                self.say("No Python command is currently running".to_owned());
            }
        } else if self.focus != Focus::Python {
            self.handle_python_content_key(key);
        } else {
            self.handle_python_pane_key(key);
        }
    }

    /// Takes up what came of interrupting the interpreter.
    pub fn finish_interrupt(&mut self, outcome: Result<(), String>)
        requires
            old(self)@.wf(),
        ensures
            final(self)@ == old(self)@.interrupted(
                match outcome {
                    Ok(_) => Ok(()),
                    Err(error) => Err(error@),
                },
            ),
            final(self)@.wf(),
    {
        match outcome {
            Ok(_) => self.say("Interrupt sent to Python".to_owned()),
            Err(error) => self.say(error),
        }
    }

    /// Takes up what came of handing a command to the interpreter.
    pub fn finish_command(&mut self, outcome: Result<(), String>)
        requires
            old(self)@.wf(),
            old(self)@.mode matches ModeView::Python(pane) ==> pane.pending < usize::MAX,
        ensures
            final(self)@ == old(self)@.command_sent(
                match outcome {
                    Ok(_) => Ok(()),
                    Err(error) => Err(error@),
                },
            ),
            final(self)@.wf(),
    {
        proof {
            reveal(DocView::command_sent);
            reveal(DocView::in_mode);
            reveal(app::mode_ok);
            reveal(modes::mode_view);
        }
        match outcome {
            Ok(_) => match &mut self.mode {
                Mode::Python(pane) => {
                    pane.pending = pane.pending + 1;
                },
                _ => {},
            },
            Err(error) => self.say(error),
        }
    }

    /// Takes up an answer of the interpreter, and returns the buffers to take over.
    pub fn receive_python(&mut self, response: &PythonResponse) -> (snapshots: Vec<PythonSnapshot>)
        requires
            old(self)@.wf(),
        ensures
            final(self)@ == old(self)@.python_answered(response@),
            text::views(snapshots@) == old(self)@.answered_snapshots(response@),
            final(self)@.wf(),
    {
        proof {
            reveal(DocView::python_answered);
            reveal(DocView::in_mode);
            reveal(app::mode_ok);
            reveal(modes::mode_view);
        }
        match &mut self.mode {
            Mode::Python(pane) => {
                pane.receive(response);
                if response.applied {
                    copy_snapshots(&pane.snapshots)
                } else {
                    Vec::new()
                }
            },
            _ => Vec::new(),
        }
    }

    /// Takes up the answers of the interpreter that have come in, in order, and returns the
    /// buffers to take over.
    pub fn drain_python_messages(&mut self, responses: &Vec<PythonResponse>) -> (snapshots: Vec<
        PythonSnapshot,
    >)
        requires
            old(self)@.wf(),
        ensures
            final(self)@ == old(self)@.python_drained(text::views(responses@)),
            text::views(snapshots@) == old(self)@.drained_snapshots(text::views(responses@)),
            final(self)@.wf(),
    {
        let ghost before = self@;
        let ghost all = text::views(responses@);
        let mut snapshots: Vec<PythonSnapshot> = Vec::new();
        let mut i: usize = 0;
        while i < responses.len()
            invariant
                i <= responses.len(),
                all == text::views(responses@),
                self@ == before.python_drained(all.take(i as int)),
                text::views(snapshots@) == before.drained_snapshots(all.take(i as int)),
                self@.wf(),
            decreases responses.len() - i,
        {
            assert(all.take(i + 1).drop_last() =~= all.take(i as int));
            assert(all.take(i + 1).last() == responses@[i as int]@);
            let mut applied = self.receive_python(&responses[i]);
            snapshots.append(&mut applied);
            i = i + 1;
        }
        assert(all.take(i as int) =~= all);
        snapshots
    }

    /// Forgets the recorded changes and the byte that is being typed.
    fn forget_history(&mut self)
        requires
            old(self)@.wf(),
        ensures
            final(self)@ == old(self)@.forgetting(),
            final(self)@.wf(),
    {
        proof {
            reveal(DocView::forgetting);
            reveal(app::history_ok);
        }
        self.undo_stack = Vec::new();
        self.redo_stack = Vec::new();
        self.pending_edit = None;
        self.edit_high_nibble = true;
    }

    /// Merges the changes of the interpreter in.
    fn merge_buffer(&mut self, baseline: &Vec<u8>, python: &Vec<u8>)
        requires
            old(self)@.wf(),
            baseline.len() == old(self)@.length(),
            python.len() == old(self)@.length(),
        ensures
            final(self)@ == old(self)@.buffer_merged(baseline@, python@),
            final(self)@.wf(),
    {
        proof {
            reveal(DocView::buffer_merged);
        }
        let merged = merge(baseline, python, &self.bytes);
        if merged.applied == 0 && merged.conflicts == 0 {
            self.say("Python apply found no buffer changes".to_owned());
            return;
        }
        proof {
            edit::lemma_same_length(self@, self@, merged.bytes@);
        }
        self.install(merged.bytes);
        self.forget_history();
        let message = merge_text(merged.applied, merged.conflicts);
        self.say(message);
    }

    /// Takes over the buffer of the interpreter.
    pub fn apply_python_snapshot(
        &mut self,
        snapshot: &PythonSnapshot,
        read: Result<Vec<u8>, String>,
    )
        requires
            old(self)@.wf(),
        ensures
            final(self)@ == old(self)@.snapshot_applied(
                snapshot@,
                match read {
                    Ok(bytes) => Ok(bytes@),
                    Err(error) => Err(error@),
                },
            ),
            final(self)@.wf(),
    {
        proof {
            reveal(DocView::snapshot_applied);
        }
        match read {
            Err(error) => {
                let mut message = "Could not read Python buffer: ".to_owned();
                message.append(&error);
                self.say(message);
            },
            Ok(python) => {
                if python.len() != self.bytes.len() || snapshot.baseline.len()
                    != self.bytes.len() {
                    let mut message = "Python buffer length changed from ".to_owned();
                    message.append(&decimal_text(self.bytes.len()));
                    message.append(" to ");
                    message.append(&decimal_text(python.len()));
                    message.append("; only same-length edits can be applied");
                    self.say(message);
                } else {
                    self.merge_buffer(&snapshot.baseline, &python);
                }
            },
        }
    }
}

/// The message for changes of the interpreter that were taken over or kept back.
fn merge_text(applied: usize, conflicts: usize) -> (message: String)
    ensures
        message@ == DocView::merge_message(applied as int, conflicts as int),
{
    if applied == 0 {
        let mut message = "Python apply kept ".to_owned();
        message.append(&decimal_text(conflicts));
        message.append(" direct hex edit conflict(s); no changes applied");
        message
    } else if conflicts == 0 {
        let mut message = "Applied ".to_owned();
        message.append(&decimal_text(applied));
        message.append(" Python byte change(s); Ctrl+S saves");
        message
    } else {
        let mut message = "Applied ".to_owned();
        message.append(&decimal_text(applied));
        message.append(" Python byte change(s); kept ");
        message.append(&decimal_text(conflicts));
        message.append(" direct hex edit conflict(s)");
        message
    }
}

/// With the list of fields shown, the keys go around all panes, and back again the same way.
pub proof fn focus_goes_around(doc: DocView, forward: bool)
    requires
        doc.settings.show_sidebar,
    ensures
        doc.focus_cycled(forward).focus_cycled(!forward).focus == doc.focus,
        doc.focus_cycled(forward).focus_cycled(forward).focus_cycled(forward).focus == doc.focus,
        doc.focus_cycled(forward).focus != doc.focus,
{
    reveal(DocView::focus_cycled);
    reveal(DocView::focused);
    reveal(DocView::say);
}

/// Taking over a buffer keeps the length of the file and every byte that was edited directly.
pub proof fn snapshots_keep_direct_edits(
    doc: DocView,
    snapshot: SnapshotView,
    python: Seq<u8>,
    i: int,
)
    requires
        python.len() == doc.bytes.len(),
        snapshot.baseline.len() == doc.bytes.len(),
        0 <= i < doc.bytes.len(),
    ensures
        ({
            let after = doc.snapshot_applied(snapshot, Ok(python));
            &&& after.bytes.len() == doc.bytes.len()
            &&& doc.bytes[i] != snapshot.baseline[i] ==> after.bytes[i] == doc.bytes[i]
            &&& doc.bytes[i] == snapshot.baseline[i] ==> after.bytes[i] == python[i]
        }),
{
    reveal(DocView::snapshot_applied);
    reveal(DocView::buffer_merged);
    reveal(DocView::installed);
    reveal(DocView::forgetting);
    reveal(DocView::say);
    let baseline = snapshot.baseline;
    if python::taken_count(baseline, python, doc.bytes, doc.length()) == 0 {
        lemma_nothing_taken(baseline, python, doc.bytes, doc.length(), i);
    }
}

/// Where nothing is taken over, no byte changed in the interpreter alone.
proof fn lemma_nothing_taken(
    baseline: Seq<u8>,
    python: Seq<u8>,
    editor: Seq<u8>,
    end: int,
    i: int,
)
    requires
        0 <= i < end,
        python::taken_count(baseline, python, editor, end) == 0,
    ensures
        !python::taken(baseline, python, editor, i),
    decreases end,
{
    lemma_taken_count(baseline, python, editor, end - 1);
    if i < end - 1 {
        lemma_nothing_taken(baseline, python, editor, end - 1, i);
    }
}

proof fn lemma_taken_count(baseline: Seq<u8>, python: Seq<u8>, editor: Seq<u8>, end: int)
    ensures
        python::taken_count(baseline, python, editor, end) >= 0,
    decreases end,
{
    if end > 0 {
        lemma_taken_count(baseline, python, editor, end - 1);
    }
}

} // verus!
