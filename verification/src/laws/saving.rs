//! What is saved and loaded, and where.

use vstd::prelude::*;

use crate::app::DocView;
use crate::codec;
use crate::dialog::{PathAction, PathDialogView, SuggestionView};
use crate::effects::EffectView;
use crate::input::{KeyCode, KeyEvent, MouseEvent, MouseEventKind};
use crate::model::ThemeView;
use crate::modes::ModeView;
use crate::text;

verus! {

/// Confirming a path asks for what it was typed for, at that path without the spaces around it; a byte
/// that is being typed is kept first where the binary is saved. An empty path is refused, and the
/// escape key gives the path up.
pub proof fn confirmed_paths_are_used(doc: DocView, key: KeyEvent, dialog: PathDialogView)
    requires
        doc.mode == ModeView::Path(dialog),
        dialog.path.active is None,
        doc.pending is None,
    ensures
        ({
            let after = doc.pressed(key).doc;
            let path = text::trim(dialog.path.input.value);
            &&& key.code == KeyCode::Enter && path.len() > 0 ==> after == (DocView {
                effects: doc.effects.push(EffectView::Perform(dialog.action, path)),
                ..doc
            })
            &&& key.code == KeyCode::Enter && path.len() == 0 ==> after == (DocView {
                status: after.status,
                ..doc
            })
            &&& key.code == KeyCode::Esc ==> after == (DocView { mode: ModeView::Normal, ..doc })
        }),
{
    reveal(DocView::path_key);
    reveal(DocView::path_confirmed);
    reveal(DocView::committed);
    reveal(DocView::asking);
    reveal(DocView::say);
    reveal(DocView::in_mode);
}

/// Once the bytes were saved to a path the file is the one at that path, its saved bytes are those it
/// has, nothing is marked, and nothing can be taken back or made again; the bytes, the fields, and
/// what is selected stay, and the fields are to be stored with it.
pub proof fn saved_files_are_at_their_path(doc: DocView, path: Seq<char>)
    ensures
        ({
            let after = doc.binary_saved(path);
            &&& after.path == path
            &&& after.saved == doc.bytes
            &&& after.modified.is_empty()
            &&& after.undo.len() == 0
            &&& after.redo.len() == 0
            &&& !after.quit_armed
            &&& after.effects == doc.effects.push(EffectView::PersistSaved(path))
            &&& after == DocView {
                path: after.path,
                saved: after.saved,
                modified: after.modified,
                undo: after.undo,
                redo: after.redo,
                quit_armed: false,
                effects: after.effects,
                ..doc
            }
        }),
        ({
            let done = doc.save_finished(path, Ok(None));
            &&& done.mode is Normal
            &&& done.status == "Saved binary to "@ + path
            &&& done == DocView { mode: ModeView::Normal, status: done.status, ..doc }
        }),
{
    reveal(DocView::stored_at);
    reveal(DocView::asking);
    reveal(DocView::say);
    reveal(DocView::in_mode);
}

/// An overlay is suggested in a directory under the name of the file, which ends the path.
pub proof fn overlays_are_suggested_by_name(
    doc: DocView,
    action: PathAction,
    directory: Seq<char>,
    separator: char,
)
    ensures
        ({
            let after = doc.overlay_suggested(action, directory, separator);
            let name = codec::last_component(doc.path, separator) + ".rexedit-overlay.json"@;
            &&& after == DocView { mode: after.mode, ..doc }
            &&& after.mode matches ModeView::Path(dialog) && {
                let path = dialog.path.input.value;
                &&& dialog.action == action
                &&& dialog.path.input.selected
                &&& path.len() >= directory.len() + name.len()
                &&& path.take(directory.len() as int) == directory
                &&& path.skip(path.len() - name.len()) == name
            }
        }),
{
    reveal(DocView::in_mode);
    let name = codec::overlay_name_of(doc.path, separator);
    let path = codec::joined(directory, name, separator);
    assert(path.take(directory.len() as int) =~= directory);
    assert(path.skip(path.len() - name.len()) =~= name);
}

/// The keys for overlays and themes ask for the place that is suggested for them: overlays are stored
/// with the data of the user, and a theme under its name.
pub proof fn places_are_asked_for(doc: DocView, key: KeyEvent, active: int)
    requires
        key.modifiers.control,
        !doc.edit_mode,
        !doc.vim_g_pending,
    ensures
        ({
            let after = doc.pressed(key).doc;
            let theme = codec::plain_name(doc.theme.name) + ".rexedit-theme.json"@;
            &&& doc.mode is Normal && key.code == KeyCode::Char('o') ==> after == (DocView {
                effects: doc.effects.push(EffectView::SuggestOverlay(PathAction::SaveOverlay)),
                ..doc
            })
            &&& doc.mode is Normal && key.code == KeyCode::Char('l') ==> after == (DocView {
                effects: doc.effects.push(EffectView::SuggestOverlay(PathAction::LoadOverlay)),
                ..doc
            })
            &&& doc.mode == ModeView::Theme(active) && key.code == KeyCode::Char('s') ==> after == (
            DocView {
                effects: doc.effects.push(EffectView::SuggestPath(PathAction::SaveTheme, theme)),
                ..doc
            })
            &&& doc.mode == ModeView::Theme(active) && key.code == KeyCode::Char('l') ==> after == (
            DocView {
                effects: doc.effects.push(EffectView::SuggestPath(PathAction::LoadTheme, theme)),
                ..doc
            })
        }),
{
    reveal(DocView::normal_key);
    reveal(DocView::view_key);
    reveal(DocView::view_control_key);
    reveal(DocView::theme_key);
    reveal(DocView::path_requested);
    reveal(DocView::asking);
}

/// A theme that was loaded is the one in use, and nothing else of the file changes.
pub proof fn loaded_themes_are_used(doc: DocView, theme: ThemeView, message: Seq<char>)
    ensures
        doc.themed(theme).done(message) == (DocView {
            theme,
            status: message,
            mode: ModeView::Normal,
            ..doc
        }),
{
    reveal(DocView::themed);
    reveal(DocView::say);
    reveal(DocView::in_mode);
}

/// The tabulator asks for the paths that start with what was typed, and with suggestions there it goes
/// to the next of them; the enter key on one that leads to a directory enters it, and nothing is saved
/// or loaded yet. Other keys edit what is typed.
pub proof fn paths_are_completed(doc: DocView, key: KeyEvent, dialog: PathDialogView)
    requires
        doc.mode == ModeView::Path(dialog),
    ensures
        ({
            let after = doc.pressed(key).doc;
            let now = after.mode->Path_0;
            let some = dialog.path.suggestions.len() > 0;
            &&& key.code == KeyCode::Tab && !some ==> after == DocView {
                effects: doc.effects.push(EffectView::ListPaths(dialog.path.input.value)),
                ..doc
            }
            &&& key.code == KeyCode::Tab && some ==> after == (DocView {
                mode: after.mode,
                ..doc
            }) && after.mode is Path && now.action == dialog.action && now.path
                == dialog.path.cycled()
            &&& key.code == KeyCode::Enter && dialog.path.at_directory() ==> after == (DocView {
                mode: after.mode,
                ..doc
            }) && after.mode is Path && now.action == dialog.action && now.path
                == dialog.path.descended()
            &&& key.code != KeyCode::Tab && key.code != KeyCode::Enter && key.code != KeyCode::Esc
                ==> after == (DocView { mode: after.mode, ..doc }) && after.mode is Path && now.action
                == dialog.action && now.path == dialog.path.after_key(key)
        }),
{
    reveal(DocView::path_key);
    reveal(DocView::asking);
    reveal(DocView::in_mode);
}

/// Where the fields were stored is told behind the message that is there, as is why they could not be;
/// without fields to store nothing changes.
pub proof fn stored_fields_are_told(doc: DocView, path: Seq<char>, error: Seq<char>)
    ensures
        doc.overlay_persisted(Ok(Some(path))) == (DocView {
            status: doc.status + "; overlay saved to "@ + path,
            ..doc
        }),
        doc.overlay_persisted(Ok(None)) == doc,
        doc.overlay_persisted(Err(error)) == (DocView { status: doc.status + "; "@ + error, ..doc }),
{
    reveal(DocView::overlay_persisted);
    reveal(DocView::say);
}

/// Paths that were looked up are offered in the dialog that asked for them, and what was found of the
/// offered ones is taken up there; without such a dialog nothing changes.
pub proof fn found_paths_reach_the_dialog(
    doc: DocView,
    candidates: Seq<SuggestionView>,
    leads: Seq<bool>,
    separator: char,
)
    ensures
        ({
            let listed = doc.paths_listed(candidates);
            let checked = doc.paths_rechecked(leads, separator);
            &&& !(doc.mode is Path) ==> listed == doc && checked == doc
            &&& doc.mode is Path ==> {
                let before = doc.mode->Path_0;
                let shown = listed.mode->Path_0;
                let after = checked.mode->Path_0;
                &&& listed == DocView { mode: listed.mode, ..doc }
                &&& checked == DocView { mode: checked.mode, ..doc }
                &&& listed.mode is Path
                &&& checked.mode is Path
                &&& shown.action == before.action
                &&& after.action == before.action
                &&& candidates.len() > 1 ==> shown.path.suggestions == candidates
                    && shown.path.active is None && shown.path.input == before.path.input
                &&& candidates.len() == 1 ==> shown.path.input.value == candidates[0].shown
                &&& candidates.len() == 0 ==> shown.path.input == before.path.input
                    && shown.path.active is None
                &&& after.path.input == before.path.input
                &&& after.path.active == before.path.active
                &&& after.path.suggestions.len() == before.path.suggestions.len()
                &&& forall|i: int|
                    0 <= i < leads.len() && i < before.path.suggestions.len()
                        ==> (#[trigger] after.path.suggestions[i]).path
                        == before.path.suggestions[i].path
            }
        }),
{
    reveal(DocView::paths_listed);
    reveal(DocView::paths_rechecked);
    reveal(DocView::in_mode);
}


/// The wheel scrolls the suggestions of a dialog by three, from the first to the last page of them, and
/// changes nothing else.
pub proof fn the_wheel_scrolls_the_suggestions(doc: DocView, mouse: MouseEvent, dialog: PathDialogView)
    requires
        doc.mode == ModeView::Path(dialog),
        mouse.kind == MouseEventKind::ScrollUp || mouse.kind == MouseEventKind::ScrollDown,
        dialog.path.scroll >= 0,
        dialog.path.scroll + 3 <= usize::MAX,
    ensures
        ({
            let after = doc.mouse_used(mouse);
            let shown = after.mode->Path_0;
            let last = if dialog.path.suggestions.len() > 12 {
                dialog.path.suggestions.len() - 12
            } else {
                0
            };
            &&& after.mode is Path
            &&& after == DocView { mode: after.mode, ..doc }
            &&& shown.action == dialog.action
            &&& shown.path.input == dialog.path.input
            &&& shown.path.suggestions == dialog.path.suggestions
            &&& shown.path.active == dialog.path.active
            &&& mouse.kind == MouseEventKind::ScrollUp ==> shown.path.scroll == if dialog.path.scroll
                > 3 {
                dialog.path.scroll - 3
            } else {
                0
            }
            &&& mouse.kind == MouseEventKind::ScrollDown ==> shown.path.scroll
                == if dialog.path.scroll + 3 < last {
                dialog.path.scroll + 3
            } else {
                last
            }
        }),
{
    reveal(DocView::mouse_used);
    reveal(DocView::in_mode);
}


} // verus!
