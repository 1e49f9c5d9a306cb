//! Reading and writing files for an open file: asking for a path, and taking up what came of it.

use std::collections::BTreeSet;
use std::sync::Arc;

use vstd::prelude::*;

use crate::app;
use crate::app::{App, DocView};
use crate::codec;
use crate::codec::{join_path, overlay_name, safe_name};
use crate::dialog::{CompletionView, PathAction, PathDialog, PathDialogView, Suggestion, SuggestionView};
use crate::editing;
use crate::editing::copy_bytes;
use crate::effects::{Effect, EffectView};
use crate::input::{KeyCode, KeyEvent};
use crate::model::{FieldView, Overlay, Theme, ThemeView};
use crate::modes;
use crate::modes::{Mode, ModeView};
use crate::numbers;
use crate::numbers::decimal_text;
use crate::text;
use crate::text::trimmed;

verus! {

broadcast use crate::text::group_views;

/// What went wrong with a file.
#[derive(Debug)]
pub enum FileProblem {
    /// A directory could not be made.
    Directory(String, String),
    /// The contents could not be put into text.
    Encode(String),
    /// The file could not be written.
    Write(String),
    /// The file could not be read.
    Read(String),
    /// The text of the file does not stand for contents.
    Decode(String),
}

/// The contents of a [`FileProblem`].
pub enum ProblemView {
    Directory(Seq<char>, Seq<char>),
    Encode(Seq<char>),
    Write(Seq<char>),
    Read(Seq<char>),
    Decode(Seq<char>),
}

impl View for FileProblem {
    type V = ProblemView;

    open spec fn view(&self) -> ProblemView {
        match self {
            FileProblem::Directory(path, error) => ProblemView::Directory(path@, error@),
            FileProblem::Encode(error) => ProblemView::Encode(error@),
            FileProblem::Write(error) => ProblemView::Write(error@),
            FileProblem::Read(error) => ProblemView::Read(error@),
            FileProblem::Decode(error) => ProblemView::Decode(error@),
        }
    }
}

/// What a file holds.
pub open spec fn noun_of(action: PathAction) -> Seq<char> {
    match action {
        PathAction::SaveOverlay | PathAction::LoadOverlay => "overlay"@,
        PathAction::SaveBinary => "binary"@,
        PathAction::SaveTheme | PathAction::LoadTheme => "theme"@,
    }
}

/// The message for something that went wrong with a file.
pub open spec fn problem_of(action: PathAction, path: Seq<char>, problem: ProblemView) -> Seq<char> {
    let noun = noun_of(action);
    match problem {
        ProblemView::Directory(directory, error) => "Could not create overlay storage directory "@
            + directory + ": "@ + error,
        ProblemView::Encode(error) => "Could not serialize "@ + noun + ": "@ + error,
        ProblemView::Write(error) => "Could not save "@ + noun + " to "@ + path + ": "@ + error,
        ProblemView::Read(error) => "Could not read "@ + noun + " "@ + path + ": "@ + error,
        ProblemView::Decode(error) => "Invalid "@ + noun + " JSON: "@ + error,
    }
}

/// What a file holds.
fn noun(action: PathAction) -> (name: &'static str)
    ensures
        name@ == noun_of(action),
{
    match action {
        PathAction::SaveOverlay => "overlay",
        PathAction::LoadOverlay => "overlay",
        PathAction::SaveBinary => "binary",
        PathAction::SaveTheme => "theme",
        PathAction::LoadTheme => "theme",
    }
}

/// The message for something that went wrong with a file.
pub fn problem_text(action: PathAction, path: &str, problem: &FileProblem) -> (message: String)
    ensures
        message@ == problem_of(action, path@, problem@),
{
    match problem {
        FileProblem::Directory(directory, error) => {
            let mut message = "Could not create overlay storage directory ".to_owned();
            message.append(directory);
            message.append(": ");
            message.append(error);
            message
        },
        FileProblem::Encode(error) => {
            let mut message = "Could not serialize ".to_owned();
            message.append(noun(action));
            message.append(": ");
            message.append(error);
            message
        },
        FileProblem::Write(error) => {
            let mut message = "Could not save ".to_owned();
            message.append(noun(action));
            message.append(" to ");
            message.append(path);
            message.append(": ");
            message.append(error);
            message
        },
        FileProblem::Read(error) => {
            let mut message = "Could not read ".to_owned();
            message.append(noun(action));
            message.append(" ");
            message.append(path);
            message.append(": ");
            message.append(error);
            message
        },
        FileProblem::Decode(error) => {
            let mut message = "Invalid ".to_owned();
            message.append(noun(action));
            message.append(" JSON: ");
            message.append(error);
            message
        },
    }
}

impl DocView {
    /// With a path asked for. For the binary the current one is put up; for the rest a
    /// suggestion is needed first.
    #[verifier::opaque]
    pub open spec fn path_requested(self, action: PathAction) -> DocView {
        match action {
            PathAction::SaveOverlay | PathAction::LoadOverlay => self.asking(
                EffectView::SuggestOverlay(action),
            ),
            PathAction::SaveBinary => self.path_suggested(action, self.path),
            PathAction::SaveTheme | PathAction::LoadTheme => self.asking(
                EffectView::SuggestPath(
                    action,
                    codec::plain_name(self.theme.name) + ".rexedit-theme.json"@,
                ),
            ),
        }
    }

    /// With a path put up to be changed.
    pub open spec fn path_suggested(self, action: PathAction, path: Seq<char>) -> DocView {
        self.in_mode(
            ModeView::Path(PathDialogView { action, path: CompletionView::suggesting(path) }),
        )
    }

    /// With the path of an overlay of the file put up to be changed.
    pub open spec fn overlay_suggested(
        self,
        action: PathAction,
        directory: Seq<char>,
        separator: char,
    ) -> DocView {
        self.path_suggested(
            action,
            codec::joined(directory, codec::overlay_name_of(self.path, separator), separator),
        )
    }

    /// With what a path was asked for about to be done.
    #[verifier::opaque]
    pub open spec fn path_confirmed(self, action: PathAction, path: Seq<char>) -> DocView {
        if path.len() == 0 {
            self.say("A file path is required"@)
        } else if action == PathAction::SaveBinary {
            self.committed().asking(EffectView::Perform(action, path))
        } else {
            self.asking(EffectView::Perform(action, path))
        }
    }

    /// With the dialog for a path in another state.
    pub open spec fn in_path(self, action: PathAction, path: CompletionView) -> DocView {
        self.in_mode(ModeView::Path(PathDialogView { action, path }))
    }

    /// After a key in the dialog for a path. The escape key leaves any other mode too.
    #[verifier::opaque]
    pub open spec fn path_key(self, key: KeyEvent) -> DocView {
        match self.mode {
            ModeView::Path(dialog) => match key.code {
                KeyCode::Esc => self.in_mode(ModeView::Normal),
                KeyCode::Tab => if dialog.path.suggestions.len() > 0 {
                    self.in_path(dialog.action, dialog.path.cycled())
                } else {
                    self.asking(EffectView::ListPaths(dialog.path.input.value))
                },
                KeyCode::Enter => if dialog.path.at_directory() {
                    self.in_path(dialog.action, dialog.path.descended())
                } else {
                    self.path_confirmed(dialog.action, text::trim(dialog.path.input.value))
                },
                _ => self.in_path(dialog.action, dialog.path.after_key(key)),
            },
            _ => if key.code == KeyCode::Esc {
                self.in_mode(ModeView::Normal)
            } else {
                self
            },
        }
    }

    /// With it found out anew whether the suggested paths lead to a directory.
    #[verifier::opaque]
    pub open spec fn paths_rechecked(self, leads: Seq<bool>, separator: char) -> DocView {
        match self.mode {
            ModeView::Path(dialog) => self.in_path(
                dialog.action,
                dialog.path.rechecked(leads, separator),
            ),
            _ => self,
        }
    }

    /// After the paths were found that may complete the input of the dialog.
    #[verifier::opaque]
    pub open spec fn paths_listed(self, candidates: Seq<SuggestionView>) -> DocView {
        match self.mode {
            ModeView::Path(dialog) => self.in_path(dialog.action, dialog.path.offered(candidates)),
            _ => self,
        }
    }

    /// Back from the dialog with a message.
    pub open spec fn done(self, message: Seq<char>) -> DocView {
        self.say(message).in_mode(ModeView::Normal)
    }

    /// With the bytes saved to a path.
    #[verifier::opaque]
    pub open spec fn stored_at(self, path: Seq<char>) -> DocView {
        DocView {
            path,
            saved: self.bytes,
            modified: Set::empty(),
            undo: Seq::empty(),
            redo: Seq::empty(),
            quit_armed: false,
            ..self
        }
    }

    /// After the bytes were saved to a path: nothing is modified and nothing can be taken back.
    pub open spec fn binary_saved(self, path: Seq<char>) -> DocView {
        self.stored_at(path).asking(EffectView::PersistSaved(path))
    }

    /// After the fields were stored along with the saved bytes.
    pub open spec fn save_finished(
        self,
        path: Seq<char>,
        outcome: Result<Option<Seq<char>>, Seq<char>>,
    ) -> DocView {
        let message = "Saved binary to "@ + path;
        self.done(
            match outcome {
                Ok(Some(overlay)) => message + "; overlay saved to "@ + overlay,
                Ok(None) => message,
                Err(error) => message + "; "@ + error,
            },
        )
    }

    /// After fields were loaded from a path.
    #[verifier::opaque]
    pub open spec fn overlay_loaded(self, path: Seq<char>, fields: Seq<FieldView>) -> DocView {
        let loaded = self.in_mode(ModeView::Normal).with_overlay(fields);
        loaded.say(
            "Loaded "@ + numbers::decimal(loaded.fields.len()) + " fields from "@ + path,
        )
    }

    /// With another theme.
    #[verifier::opaque]
    pub open spec fn themed(self, theme: ThemeView) -> DocView {
        DocView { theme, ..self }
    }
}

impl App {
    /// Asks for a path.
    pub fn open_path_dialog(&mut self, action: PathAction)
        requires
            old(self)@.wf(),
        ensures
            final(self)@ == old(self)@.path_requested(action),
            final(self)@.wf(),
    {
        proof {
            reveal(DocView::path_requested);
        }
        match action {
            PathAction::SaveOverlay | PathAction::LoadOverlay => {
                self.ask(Effect::SuggestOverlay(action));
            },
            PathAction::SaveBinary => {
                let path = self.path.clone();
                self.suggest_path(action, path);
            },
            PathAction::SaveTheme | PathAction::LoadTheme => {
                let mut name = safe_name(&self.theme.name);
                name.append(".rexedit-theme.json");
                self.ask(Effect::SuggestPath(action, name));
            },
        }
    }

    /// Puts up the path of a file with this name in a directory.
    pub fn suggest_in(
        &mut self,
        action: PathAction,
        directory: String,
        name: &str,
        separator: char,
    )
        requires
            old(self)@.wf(),
        ensures
            final(self)@ == old(self)@.path_suggested(
                action,
                codec::joined(directory@, name@, separator),
            ),
            final(self)@.wf(),
    {
        let path = join_path(directory, name, separator);
        self.suggest_path(action, path);
    }

    /// Puts up the path of an overlay of the file in a directory: the name of the overlay is made
    /// from that of the file.
    pub fn suggest_overlay(&mut self, action: PathAction, directory: String, separator: char)
        requires
            old(self)@.wf(),
        ensures
            final(self)@ == old(self)@.overlay_suggested(action, directory@, separator),
            final(self)@.wf(),
    {
        let name = overlay_name(&self.path, separator);
        self.suggest_in(action, directory, &name, separator);
    }

    /// Puts a path up to be changed.
    pub fn suggest_path(&mut self, action: PathAction, path: String)
        requires
            old(self)@.wf(),
        ensures
            final(self)@ == old(self)@.path_suggested(action, path@),
            final(self)@.wf(),
    {
        proof {
            reveal(app::mode_ok);
            reveal(modes::mode_view);
        }
        let dialog = PathDialog::new(action, path);
        self.set_mode(Mode::Path(dialog));
    }

    /// Has done what a path was asked for.
    pub fn perform_path_action(&mut self, action: PathAction, path: String)
        requires
            old(self)@.wf(),
        ensures
            final(self)@ == old(self)@.path_confirmed(action, path@),
            final(self)@.wf(),
    {
        proof {
            reveal(DocView::path_confirmed);
        }
        if path.as_str().is_empty() {
            self.say("A file path is required".to_owned());
            return;
        }
        if action == PathAction::SaveBinary {
            self.commit_pending_edit();
        }
        self.ask(Effect::Perform(action, path));
    }

    /// Chooses the next suggestion in the dialog for a path.
    fn cycle_path(&mut self)
        requires
            old(self)@.wf(),
            old(self)@.mode matches ModeView::Path(dialog) && dialog.path.suggestions.len() > 0,
        ensures
            final(self)@ == old(self)@.in_path(
                old(self)@.mode->Path_0.action,
                old(self)@.mode->Path_0.path.cycled(),
            ),
            final(self)@.wf(),
    {
        proof {
            reveal(DocView::in_mode);
            reveal(app::mode_ok);
            reveal(modes::mode_view);
        }
        match &mut self.mode {
            Mode::Path(dialog) => dialog.cycle(),
            _ => {},
        }
    }

    /// Enters the directory that is chosen in the dialog for a path.
    fn enter_path_directory(&mut self) -> (entered: bool)
        requires
            old(self)@.wf(),
            old(self)@.mode is Path,
        ensures
            entered == old(self)@.mode->Path_0.path.at_directory(),
            entered ==> final(self)@ == old(self)@.in_path(
                old(self)@.mode->Path_0.action,
                old(self)@.mode->Path_0.path.descended(),
            ),
            !entered ==> final(self)@ == old(self)@,
            final(self)@.wf(),
    {
        proof {
            reveal(DocView::in_mode);
            reveal(app::mode_ok);
            reveal(modes::mode_view);
        }
        match &mut self.mode {
            Mode::Path(dialog) => dialog.enter_directory(),
            _ => false,
        }
    }

    /// Applies a key that moves among the suggestions or edits the path.
    fn edit_path(&mut self, key: KeyEvent)
        requires
            old(self)@.wf(),
            old(self)@.mode is Path,
        ensures
            final(self)@ == old(self)@.in_path(
                old(self)@.mode->Path_0.action,
                old(self)@.mode->Path_0.path.after_key(key),
            ),
            final(self)@.wf(),
    {
        proof {
            reveal(DocView::in_mode);
            reveal(app::mode_ok);
            reveal(modes::mode_view);
        }
        match &mut self.mode {
            Mode::Path(dialog) => dialog.handle_key(key),
            _ => {},
        }
    }

    /// Applies a key in the dialog for a path.
    pub fn handle_path_key(&mut self, key: KeyEvent)
        requires
            old(self)@.wf(),
        ensures
            final(self)@ == old(self)@.path_key(key),
            final(self)@.wf(),
    {
        proof {
            reveal(DocView::path_key);
            reveal(modes::mode_view);
        }
        let (action, listed, value) = match &self.mode {
            Mode::Path(dialog) => (
                dialog.action,
                dialog.suggestions.len() > 0,
                dialog.input.value.clone(),
            ),
            _ => {
                if key.code == KeyCode::Esc {
                    self.leave_mode();
                }
                return;
            },
        };
        match key.code {
            KeyCode::Esc => self.leave_mode(),
            KeyCode::Tab => {
                if listed {
                    self.cycle_path();
                } else {
                    self.ask(Effect::ListPaths(value));
                }
            },
            KeyCode::Enter => {
                if !self.enter_path_directory() {
                    self.perform_path_action(action, trimmed(&value));
                }
            },
            _ => self.edit_path(key),
        }
    }

    /// Takes up the paths that may complete the input of the dialog.
    pub fn offer_paths(&mut self, candidates: Vec<Suggestion>)
        requires
            old(self)@.wf(),
        ensures
            final(self)@ == old(self)@.paths_listed(text::views(candidates@)),
            final(self)@.wf(),
    {
        proof {
            reveal(DocView::paths_listed);
            reveal(DocView::in_mode);
            reveal(app::mode_ok);
            reveal(modes::mode_view);
        }
        match &mut self.mode {
            Mode::Path(dialog) => dialog.offer(candidates),
            _ => {},
        }
    }

    /// Takes up whether the suggested paths lead to a directory by now. What the disk says may have
    /// changed since they were found, so it is asked before each key.
    pub fn recheck_paths(&mut self, leads: &Vec<bool>, separator: char)
        requires
            old(self)@.wf(),
        ensures
            final(self)@ == old(self)@.paths_rechecked(leads@, separator),
            final(self)@.wf(),
    {
        proof {
            reveal(DocView::paths_rechecked);
            reveal(DocView::in_mode);
            reveal(app::mode_ok);
            reveal(modes::mode_view);
        }
        match &mut self.mode {
            Mode::Path(dialog) => dialog.recheck(leads, separator),
            _ => {},
        }
    }

    /// Goes back from the dialog with a message.
    fn close_dialog(&mut self, message: String)
        requires
            old(self)@.wf(),
        ensures
            final(self)@ == old(self)@.done(message@),
            final(self)@.wf(),
    {
        self.say(message);
        proof {
            reveal(app::mode_ok);
            reveal(modes::mode_view);
        }
        self.set_mode(Mode::Normal);
    }

    /// Takes up that something went wrong with a file.
    pub fn finish_failed(&mut self, action: PathAction, path: &str, problem: &FileProblem)
        requires
            old(self)@.wf(),
        ensures
            final(self)@ == old(self)@.say(problem_of(action, path@, problem@)),
            final(self)@.wf(),
    {
        let message = problem_text(action, path, problem);
        self.say(message);
    }

    /// Takes up that the fields or the theme were saved to a path.
    pub fn finish_saved(&mut self, action: PathAction, path: &str)
        requires
            old(self)@.wf(),
        ensures
            final(self)@ == old(self)@.done("Saved "@ + noun_of(action) + " to "@ + path@),
            final(self)@.wf(),
    {
        let mut message = "Saved ".to_owned();
        message.append(noun(action));
        message.append(" to ");
        message.append(path);
        self.close_dialog(message);
    }

    /// Takes up that the bytes were saved to a path.
    pub fn finish_save_binary(&mut self, path: String)
        requires
            old(self)@.wf(),
            old(self)@.pending is None,
        ensures
            final(self)@ == old(self)@.binary_saved(path@),
            final(self)@.wf(),
    {
        let effect = Effect::PersistSaved(path.clone());
        self.mark_stored(path);
        self.ask(effect);
    }

    /// Records that the bytes stand in the file at a path.
    fn mark_stored(&mut self, path: String)
        requires
            old(self)@.wf(),
            old(self)@.pending is None,
        ensures
            final(self)@ == old(self)@.stored_at(path@),
            final(self)@.wf(),
    {
        proof {
            reveal(DocView::stored_at);
            reveal(app::history_ok);
        }
        self.path = path;
        self.saved_bytes = Arc::new(copy_bytes(&self.bytes));
        self.modified_offsets = BTreeSet::new();
        self.undo_stack = Vec::new();
        self.redo_stack = Vec::new();
        self.quit_armed = false;
        assert(app::marks_ok(self@.bytes, self@.saved, self@.modified)) by {
            reveal(app::layout_ok);
            reveal(app::marks_ok);
            editing::no_changes_means_equal(self@.bytes, self@.saved);
            assert(self@.modified =~= editing::changes(self@.bytes, self@.saved));
        }
    }

    /// Takes up what came of storing the fields along with the saved bytes.
    pub fn finish_save(&mut self, path: &str, outcome: Result<Option<String>, String>)
        requires
            old(self)@.wf(),
        ensures
            final(self)@ == old(self)@.save_finished(
                path@,
                match outcome {
                    Ok(Some(overlay)) => Ok(Some(overlay@)),
                    Ok(None) => Ok(None),
                    Err(error) => Err(error@),
                },
            ),
            final(self)@.wf(),
    {
        let mut message = "Saved binary to ".to_owned();
        message.append(path);
        match outcome {
            Ok(Some(overlay)) => {
                message.append("; overlay saved to ");
                message.append(&overlay);
            },
            Ok(None) => {},
            Err(error) => {
                message.append("; ");
                message.append(&error);
            },
        }
        self.close_dialog(message);
    }

    /// Takes up fields that were loaded from a path.
    pub fn finish_load_overlay(&mut self, path: &str, overlay: Overlay)
        requires
            old(self)@.wf(),
        ensures
            final(self)@ == old(self)@.overlay_loaded(path@, text::views(overlay.fields@)),
            final(self)@.wf(),
    {
        proof {
            reveal(DocView::overlay_loaded);
            reveal(modes::mode_view);
        }
        assert(app::mode_ok(self@.bytes.len(), self@.fields, ModeView::Normal)) by {
            reveal(app::mode_ok);
        }
        self.set_mode(Mode::Normal);
        assert(self@.mode is Normal) by {
            reveal(DocView::in_mode);
        }
        self.load_overlay(overlay);
        let mut message = "Loaded ".to_owned();
        message.append(&decimal_text(self.fields.len()));
        message.append(" fields from ");
        message.append(path);
        self.say(message);
    }

    /// Changes the theme.
    pub fn set_theme(&mut self, theme: Theme)
        ensures
            final(self)@ == old(self)@.themed(theme@),
            old(self)@.wf() ==> final(self)@.wf(),
    {
        proof {
            reveal(DocView::themed);
        }
        self.theme = theme;
    }

    /// Takes up a theme that was loaded.
    pub fn finish_load_theme(&mut self, theme: Theme)
        requires
            old(self)@.wf(),
        ensures
            final(self)@ == old(self)@.themed(theme@).done("Loaded theme '"@ + theme@.name + "'"@),
            final(self)@.wf(),
    {
        let mut message = "Loaded theme '".to_owned();
        message.append(&theme.name);
        message.append("'");
        self.set_theme(theme);
        self.close_dialog(message);
    }
}

/// After a file was saved nothing differs from what is stored, there is nothing to take back,
/// and no confirmation is needed to quit.
pub proof fn saving_leaves_nothing_modified(doc: DocView, path: Seq<char>)
    ensures
        doc.binary_saved(path).modified == editing::changes(
            doc.binary_saved(path).bytes,
            doc.binary_saved(path).saved,
        ),
        doc.binary_saved(path).modified.is_empty(),
        doc.binary_saved(path).undo.len() == 0,
        doc.binary_saved(path).redo.len() == 0,
        doc.binary_saved(path).bytes == doc.bytes,
{
    reveal(DocView::stored_at);
    reveal(DocView::asking);
    assert(editing::changes(doc.bytes, doc.bytes) =~= Set::<usize>::empty());
}

} // verus!
