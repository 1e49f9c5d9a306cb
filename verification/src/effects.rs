//! What the viewer asks its surroundings to do: reading and writing files, running background
//! work, and using the clipboard.

use vstd::prelude::*;

use crate::dialog::PathAction;
use crate::python::{CommandView, PythonCommand};

verus! {

/// Something to be done outside the viewer. The ones that have an outcome are answered by a call
/// of the viewer.
#[derive(Debug)]
pub enum Effect {
    /// Start the search for a query in the current bytes.
    StartSearch(String),
    /// Stop the running search.
    CancelSearch,
    /// Start calculating the entropy of the current bytes.
    StartEntropy,
    /// Stop the running calculation.
    CancelEntropy,
    /// Put a text on the clipboard.
    Copy(String),
    /// Read the clipboard.
    Paste,
    /// Store the fields under the name that stands for the saved bytes.
    PersistOverlay,
    /// Do the same after the file was saved to a path.
    PersistSaved(String),
    /// Find the directory in which a file of this name is suggested.
    SuggestPath(PathAction, String),
    /// Find the directory in which overlays are stored.
    SuggestOverlay(PathAction),
    /// Find the paths that may complete what was typed.
    ListPaths(String),
    /// Read or write the file at a path.
    Perform(PathAction, String),
    /// Hand a command to the interpreter.
    Command(PythonCommand),
    /// Interrupt the interpreter.
    Interrupt,
    /// End the interpreter.
    ClosePython,
}

/// The contents of an [`Effect`].
pub enum EffectView {
    StartSearch(Seq<char>),
    CancelSearch,
    StartEntropy,
    CancelEntropy,
    Copy(Seq<char>),
    Paste,
    PersistOverlay,
    PersistSaved(Seq<char>),
    SuggestPath(PathAction, Seq<char>),
    SuggestOverlay(PathAction),
    ListPaths(Seq<char>),
    Perform(PathAction, Seq<char>),
    Command(CommandView),
    Interrupt,
    ClosePython,
}

impl View for Effect {
    type V = EffectView;

    open spec fn view(&self) -> EffectView {
        match self {
            Effect::StartSearch(query) => EffectView::StartSearch(query@),
            Effect::CancelSearch => EffectView::CancelSearch,
            Effect::StartEntropy => EffectView::StartEntropy,
            Effect::CancelEntropy => EffectView::CancelEntropy,
            Effect::Copy(content) => EffectView::Copy(content@),
            Effect::Paste => EffectView::Paste,
            Effect::PersistOverlay => EffectView::PersistOverlay,
            Effect::PersistSaved(path) => EffectView::PersistSaved(path@),
            Effect::SuggestPath(action, name) => EffectView::SuggestPath(*action, name@),
            Effect::SuggestOverlay(action) => EffectView::SuggestOverlay(*action),
            Effect::ListPaths(input) => EffectView::ListPaths(input@),
            Effect::Perform(action, path) => EffectView::Perform(*action, path@),
            Effect::Command(command) => EffectView::Command(command@),
            Effect::Interrupt => EffectView::Interrupt,
            Effect::ClosePython => EffectView::ClosePython,
        }
    }
}

} // verus!
