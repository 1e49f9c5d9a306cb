//! The keys of an open file outside the Python console.

use vstd::prelude::*;

use crate::app;
use crate::app::edit::mode_is_free;
use crate::app::{App, DocView};
use crate::codec;
use crate::codec::{hex_string, parse_offset};
use crate::dialog::PathAction;
use crate::editing::EditKind;
use crate::effects::{Effect, EffectView};
use crate::geometry;
use crate::input::{KeyCode, KeyEvent, TextInput, TextView};
use crate::model;
use crate::model::{Theme, ThemeView};
use crate::modes;
use crate::modes::{
    step_row, FieldEditor, FieldEditorView, Focus, HelpViewer, Mode, ModeView, ResetTarget,
    SettingsEditor, ThemeEditor, SETTINGS_ROWS, THEME_ROWS,
};
use crate::numbers;
use crate::numbers::{decimal_text, hex_digit_value, hex_text};
use crate::rows;
use crate::rows::ViewerSettings;
use crate::selection;
use crate::text;
use crate::text::{chars_of, string_of};

verus! {

broadcast use crate::text::group_views;

/// What a key leads to: the file afterwards, and whether the program ends.
pub struct KeyView {
    pub doc: DocView,
    pub quit: bool,
}

/// A key that leads on.
pub open spec fn on(doc: DocView) -> KeyView {
    KeyView { doc, quit: false }
}

/// Whether a key moves the cursor.
pub open spec fn is_move(code: KeyCode) -> bool {
    match code {
        KeyCode::Left | KeyCode::Right | KeyCode::Up | KeyCode::Down | KeyCode::PageUp
        | KeyCode::PageDown | KeyCode::Home | KeyCode::End => true,
        _ => false,
    }
}

/// Whether a key is a character, of either case.
pub open spec fn is_letter(code: KeyCode, lower: char, upper: char) -> bool {
    code == KeyCode::Char(lower) || code == KeyCode::Char(upper)
}

impl DocView {
    /// With the cursor moved by a key.
    #[verifier::opaque]
    pub open spec fn moved_by(self, code: KeyCode, extend: bool) -> DocView {
        let width = self.settings.bytes_per_row as int;
        match code {
            KeyCode::Left => self.cursor_moved(-1, extend),
            KeyCode::Right => self.cursor_moved(1, extend),
            KeyCode::Up => self.cursor_moved(-width, extend),
            KeyCode::Down => self.cursor_moved(width, extend),
            KeyCode::PageUp => self.cursor_moved(-self.page(), extend),
            KeyCode::PageDown => self.cursor_moved(self.page(), extend),
            KeyCode::Home => self.cursor_at(0, extend),
            KeyCode::End => if self.bytes.len() > 0 {
                self.cursor_at(self.length() - 1, extend)
            } else {
                self
            },
            _ => self,
        }
    }

    /// With the selected bytes put on the clipboard.
    #[verifier::opaque]
    pub open spec fn selection_copied(self) -> DocView {
        let hex = codec::hex_of(self.selected());
        if hex.len() == 0 {
            self.say("No bytes selected to copy"@)
        } else {
            self.asking(EffectView::Copy(hex))
        }
    }

    /// After a text of so many characters was put on the clipboard.
    pub open spec fn copy_finished(self, length: int, outcome: Result<(), Seq<char>>) -> DocView {
        self.say(
            match outcome {
                Ok(_) => "Copied "@ + numbers::decimal((length / 2) as nat)
                    + " bytes as continuous hex"@,
                Err(error) => "Could not copy selection: "@ + error,
            },
        )
    }

    /// With the clipboard asked for, if bytes can be pasted.
    #[verifier::opaque]
    pub open spec fn paste_requested(self) -> DocView {
        if self.edit_mode {
            self.asking(EffectView::Paste)
        } else {
            self.say("Enter Overwrite or Insert Mode (i) before pasting bytes"@)
        }
    }

    /// After the clipboard was read.
    pub open spec fn paste_finished(self, outcome: Result<Seq<char>, Seq<char>>) -> DocView {
        match outcome {
            Ok(content) => self.hex_pasted(content),
            Err(error) => self.say("Could not paste from clipboard: "@ + error),
        }
    }

    /// With quitting to be confirmed by a second press of its key.
    pub open spec fn asking_to_quit(self) -> DocView {
        self.armed(true).say("Unsaved byte changes: press q again to quit"@)
    }

    /// After the key that quits. Unsaved changes need a second press.
    pub open spec fn quit_pressed(self) -> KeyView {
        if !self.modified.is_empty() && !self.quit_armed {
            on(self.asking_to_quit())
        } else {
            KeyView { doc: self, quit: true }
        }
    }

    /// After a key that edits bytes, in either kind of editing.
    #[verifier::opaque]
    pub open spec fn edit_key(self, code: KeyCode) -> DocView {
        match code {
            KeyCode::Insert => self.kind_toggled(),
            KeyCode::Backspace | KeyCode::Delete => self.selection_deleted(),
            KeyCode::Char(c) => if c == 'i' {
                self.kind_toggled()
            } else if numbers::is_hex_digit(c) {
                self.nibble_typed(numbers::digit_value(c) as u8)
            } else {
                self
            },
            KeyCode::End => if self.bytes.len() > 0 {
                self.committed().moved_by(code, false)
            } else {
                self
            },
            _ => if is_move(code) {
                self.committed().moved_by(code, false)
            } else {
                self
            },
        }
    }

    /// After a key while bytes are edited.
    #[verifier::opaque]
    pub open spec fn overwrite_key(self, key: KeyEvent) -> KeyView {
        let code = key.code;
        if key.modifiers.control {
            on(
                if code == KeyCode::Char('u') {
                    self.undone()
                } else if code == KeyCode::Char('r') {
                    self.redone()
                } else if code == KeyCode::Char('s') {
                    self.committed().path_requested(PathAction::SaveBinary)
                } else if is_letter(code, 'c', 'C') {
                    self.selection_copied()
                } else if is_letter(code, 'v', 'V') {
                    self.paste_requested()
                } else {
                    self
                },
            )
        } else if key.modifiers.command && is_letter(code, 'c', 'C') {
            on(self.selection_copied())
        } else if key.modifiers.command && is_letter(code, 'v', 'V') {
            on(self.paste_requested())
        } else if code == KeyCode::Esc {
            on(self.committed().with_kind(false, EditKind::Overwrite).say("View Mode"@))
        } else if code == KeyCode::Char('q') {
            self.committed().quit_pressed()
        } else {
            on(self.edit_key(code))
        }
    }

    /// After the control key together with another while the file is viewed.
    #[verifier::opaque]
    pub open spec fn view_control_key(self, code: KeyCode) -> DocView {
        match code {
            KeyCode::Up => self.previous_result(),
            KeyCode::Down => self.next_result(),
            KeyCode::Char(c) => if c == 'f' {
                self.in_mode(ModeView::Search(TextView::holding(self.search.query, true)))
            } else if c == 'g' {
                self.in_mode(ModeView::Jump(TextView::blank()))
            } else if c == 'o' {
                self.path_requested(PathAction::SaveOverlay)
            } else if c == 'l' {
                self.path_requested(PathAction::LoadOverlay)
            } else if c == 'u' {
                self.undone()
            } else if c == 'r' {
                self.redone()
            } else if c == 's' {
                self.path_requested(PathAction::SaveBinary)
            } else if c == 'c' || c == 'C' {
                self.selection_copied()
            } else if c == 'v' || c == 'V' {
                self.paste_requested()
            } else {
                self
            },
            _ => self,
        }
    }

    /// With the first letter of a pair typed, or not.
    #[verifier::opaque]
    pub open spec fn with_first_g(self, pending: bool) -> DocView {
        DocView { vim_g_pending: pending, ..self }
    }

    /// With other settings.
    #[verifier::opaque]
    pub open spec fn with_settings(self, settings: ViewerSettings) -> DocView {
        DocView { settings, rows: rows::rows_of(self.bytes, settings), ..self }
    }

    /// With fields shown in the viewer, or not.
    pub open spec fn overlays_toggled(self) -> DocView {
        self.with_settings(self.settings.toggled(6)).say(
            if self.settings.show_overlays {
                "Field overlays hidden"@
            } else {
                "Field overlays enabled"@
            },
        )
    }

    /// After a character key while the file is viewed.
    #[verifier::opaque]
    pub open spec fn view_character(self, c: char) -> DocView {
        if c == 'i' && self.focus == Focus::Viewer {
            self.with_kind(true, EditKind::Overwrite).say(
                "Overwrite Mode: type two hex digits per byte; Esc returns to View Mode"@,
            )
        } else if c == 't' {
            self.in_mode(ModeView::Theme(0))
        } else if c == 's' {
            self.in_mode(ModeView::Settings(0))
        } else if c == 'o' {
            self.overlays_toggled()
        } else if c == 'n' {
            self.next_result()
        } else if c == 'N' {
            self.previous_result()
        } else if c == 'a' && self.selection is Some {
            self.in_mode(ModeView::Field(FieldEditorView::blank(self.ranges())))
        } else if c == 'g' {
            self.with_first_g(true)
        } else if c == 'G' && self.bytes.len() > 0 {
            self.cursor_at(self.length() - 1, false)
        } else if c == 'd' && self.focus == Focus::Fields {
            self.field_deleted()
        } else if c == '[' {
            self.previous_field()
        } else if c == ']' {
            self.next_field()
        } else {
            self
        }
    }

    /// After a key without the control key while the file is viewed, but for the one that quits.
    #[verifier::opaque]
    pub open spec fn view_plain_key(self, key: KeyEvent) -> DocView {
        let fields = self.focus == Focus::Fields;
        match key.code {
            KeyCode::Char(c) => self.view_character(c),
            KeyCode::Tab => self.focused(
                if self.focus == Focus::Viewer {
                    Focus::Fields
                } else {
                    Focus::Viewer
                },
            ),
            KeyCode::Enter => if fields {
                self.field_opened()
            } else {
                self
            },
            KeyCode::Delete => if fields {
                self.field_deleted()
            } else {
                self
            },
            KeyCode::Up => if fields {
                self.previous_field()
            } else {
                self.moved_by(key.code, key.modifiers.shift)
            },
            KeyCode::Down => if fields {
                self.next_field()
            } else {
                self.moved_by(key.code, key.modifiers.shift)
            },
            _ => self.moved_by(key.code, key.modifiers.shift),
        }
    }

    /// After a key while the file is viewed. Two presses of one letter lead to the start.
    #[verifier::opaque]
    pub open spec fn view_key(self, key: KeyEvent) -> KeyView {
        let base = if self.vim_g_pending {
            self.with_first_g(false)
        } else {
            self
        };
        let code = key.code;
        if self.vim_g_pending && code == KeyCode::Char('g') {
            on(base.cursor_at(0, false))
        } else if key.modifiers.control {
            on(base.view_control_key(code))
        } else if key.modifiers.command && is_letter(code, 'c', 'C') {
            on(base.selection_copied())
        } else if key.modifiers.command && is_letter(code, 'v', 'V') {
            on(base.paste_requested())
        } else if code == KeyCode::Char('q') {
            base.quit_pressed()
        } else {
            on(base.view_plain_key(key).armed(false))
        }
    }

    /// After a key in no other mode.
    #[verifier::opaque]
    pub open spec fn normal_key(self, key: KeyEvent) -> KeyView {
        if key.code == KeyCode::Char('?') {
            on(self.in_mode(ModeView::Help(0)))
        } else if self.edit_mode {
            self.overwrite_key(key)
        } else {
            self.view_key(key)
        }
    }

    /// After a key in the input of a search. The escape key leaves any other mode too.
    #[verifier::opaque]
    pub open spec fn search_key(self, key: KeyEvent) -> DocView {
        match self.mode {
            ModeView::Search(input) => match key.code {
                KeyCode::Esc => self.in_mode(ModeView::Normal),
                KeyCode::Enter => self.in_mode(ModeView::Normal).search_started(input.value),
                _ => self.in_mode(ModeView::Search(input.after_key(key))),
            },
            _ => if key.code == KeyCode::Esc {
                self.in_mode(ModeView::Normal)
            } else {
                self
            },
        }
    }

    /// With the offset gone to that was entered, if the file has it.
    #[verifier::opaque]
    pub open spec fn jumped(self, entry: Seq<char>) -> DocView {
        match codec::offset_of(entry) {
            Ok(offset) => if offset < self.length() {
                self.selecting(offset).say("Jumped to 0x"@ + numbers::hex(offset as nat)).in_mode(
                    ModeView::Normal,
                )
            } else {
                self.say(
                    "Offset 0x"@ + numbers::hex(offset as nat) + " is outside this "@
                        + numbers::decimal(self.bytes.len()) + " byte file"@,
                )
            },
            Err(error) => self.say(error),
        }
    }

    /// After a key in the input of an offset. The escape key leaves any other mode too.
    #[verifier::opaque]
    pub open spec fn jump_key(self, key: KeyEvent) -> DocView {
        match self.mode {
            ModeView::Jump(input) => match key.code {
                KeyCode::Esc => self.in_mode(ModeView::Normal),
                KeyCode::Enter => self.jumped(input.value),
                _ => self.in_mode(ModeView::Jump(input.after_key(key))),
            },
            _ => if key.code == KeyCode::Esc {
                self.in_mode(ModeView::Normal)
            } else {
                self
            },
        }
    }

    /// After a key in the editor of a field. The escape key leaves any other mode too.
    #[verifier::opaque]
    pub open spec fn field_key(self, key: KeyEvent) -> DocView {
        match self.mode {
            ModeView::Field(editor) => match key.code {
                KeyCode::Esc => self.in_mode(ModeView::Normal),
                KeyCode::Tab | KeyCode::Down => self.in_mode(
                    ModeView::Field(editor.after_step(true)),
                ),
                KeyCode::BackTab | KeyCode::Up => self.in_mode(
                    ModeView::Field(editor.after_step(false)),
                ),
                KeyCode::Left => self.in_mode(ModeView::Field(editor.after_arrow(key, false))),
                KeyCode::Right => self.in_mode(ModeView::Field(editor.after_arrow(key, true))),
                KeyCode::Enter => self.field_committed(),
                _ => self.in_mode(ModeView::Field(editor.after_text_key(key))),
            },
            _ => if key.code == KeyCode::Esc {
                self.in_mode(ModeView::Normal)
            } else {
                self
            },
        }
    }

    /// With the name of the theme changed.
    pub open spec fn renamed_theme(self, name: Seq<char>) -> DocView {
        self.themed(ThemeView { name, ..self.theme })
    }

    /// After a key in the editor of the theme.
    #[verifier::opaque]
    pub open spec fn theme_key(self, key: KeyEvent) -> DocView {
        match self.mode {
            ModeView::Theme(active) => if key.modifiers.control {
                if key.code == KeyCode::Char('s') {
                    self.path_requested(PathAction::SaveTheme)
                } else if key.code == KeyCode::Char('l') {
                    self.path_requested(PathAction::LoadTheme)
                } else if key.code == KeyCode::Char('u') && active == 0 {
                    self.renamed_theme(Seq::empty())
                } else if key.code == KeyCode::Char('r') {
                    self.in_mode(ModeView::ConfirmReset(ResetTarget::Theme))
                } else {
                    self
                }
            } else {
                match key.code {
                    KeyCode::Esc | KeyCode::Enter => self.in_mode(ModeView::Normal),
                    KeyCode::Tab | KeyCode::Down => self.in_mode(
                        ModeView::Theme(modes::stepped_row(active, THEME_ROWS as int, true)),
                    ),
                    KeyCode::BackTab | KeyCode::Up => self.in_mode(
                        ModeView::Theme(modes::stepped_row(active, THEME_ROWS as int, false)),
                    ),
                    KeyCode::Left => self.themed(self.theme.changed(active, false)),
                    KeyCode::Right => self.themed(self.theme.changed(active, true)),
                    KeyCode::Backspace => if active == 0 && self.theme.name.len() > 0 {
                        self.renamed_theme(self.theme.name.drop_last())
                    } else {
                        self
                    },
                    KeyCode::Char(c) => if active == 0 {
                        self.renamed_theme(self.theme.name.push(c))
                    } else {
                        self
                    },
                    _ => self,
                }
            },
            _ => self,
        }
    }

    /// With a setting switched. Where the lines of the viewer change, the cursor stays in sight.
    #[verifier::opaque]
    pub open spec fn setting_toggled(self, active: int) -> DocView {
        let changed = self.with_settings(self.settings.toggled(active));
        if active == 1 || active == 5 {
            changed.cursor_shown()
        } else {
            changed
        }
    }

    /// With the cursor in sight.
    #[verifier::opaque]
    pub open spec fn cursor_shown(self) -> DocView {
        match self.selection {
            Some(s) => self.showing(s.cursor as int),
            None => self,
        }
    }

    /// After a key in the editor of the settings.
    #[verifier::opaque]
    pub open spec fn settings_key(self, key: KeyEvent) -> DocView {
        match self.mode {
            ModeView::Settings(active) => if key.is_control('r') {
                self.in_mode(ModeView::ConfirmReset(ResetTarget::Settings))
            } else {
                match key.code {
                    KeyCode::Esc | KeyCode::Enter => self.in_mode(ModeView::Normal),
                    KeyCode::Tab | KeyCode::Down => self.in_mode(
                        ModeView::Settings(modes::stepped_row(active, SETTINGS_ROWS as int, true)),
                    ),
                    KeyCode::BackTab | KeyCode::Up => self.in_mode(
                        ModeView::Settings(modes::stepped_row(active, SETTINGS_ROWS as int, false)),
                    ),
                    KeyCode::Left | KeyCode::Right => self.setting_toggled(active),
                    KeyCode::Char(c) => if c == ' ' {
                        self.setting_toggled(active)
                    } else {
                        self
                    },
                    _ => self,
                }
            },
            _ => self,
        }
    }

    /// Back in the editor from which a reset was asked for.
    pub open spec fn back_to(self, target: ResetTarget) -> DocView {
        self.in_mode(
            match target {
                ResetTarget::Theme => ModeView::Theme(0),
                ResetTarget::Settings => ModeView::Settings(0),
            },
        )
    }

    /// With the theme or the settings as they are at first.
    #[verifier::opaque]
    pub open spec fn reset(self, target: ResetTarget) -> DocView {
        match target {
            ResetTarget::Theme => self.themed(model::default_theme()).say(
                "Theme reset to defaults"@,
            ),
            ResetTarget::Settings => self.with_settings(
                ViewerSettings::initial(),
            ).cursor_shown().say("Viewer settings reset to defaults"@),
        }
    }

    /// After a key while a reset is to be confirmed.
    #[verifier::opaque]
    pub open spec fn reset_key(self, key: KeyEvent) -> DocView {
        match self.mode {
            ModeView::ConfirmReset(target) => if is_letter(key.code, 'y', 'Y') {
                self.reset(target).back_to(target)
            } else if is_letter(key.code, 'n', 'N') || key.code == KeyCode::Esc {
                self.say("Reset cancelled"@).back_to(target)
            } else {
                self.say("Type y to reset or n to cancel"@)
            },
            _ => self,
        }
    }

    /// After a key in the list of keys.
    #[verifier::opaque]
    pub open spec fn help_key(self, key: KeyEvent) -> DocView {
        match self.mode {
            ModeView::Help(scroll) => match key.code {
                KeyCode::Esc | KeyCode::Enter => self.in_mode(ModeView::Normal),
                KeyCode::Up => self.in_mode(ModeView::Help(geometry::minus(scroll, 1))),
                KeyCode::Down => self.in_mode(ModeView::Help(geometry::plus(scroll, 1))),
                KeyCode::PageUp => self.in_mode(ModeView::Help(geometry::minus(scroll, 10))),
                KeyCode::PageDown => self.in_mode(ModeView::Help(geometry::plus(scroll, 10))),
                KeyCode::Home => self.in_mode(ModeView::Help(0)),
                KeyCode::End => self.in_mode(ModeView::Help(usize::MAX as int)),
                KeyCode::Char(c) => if c == '?' || c == 'q' {
                    self.in_mode(ModeView::Normal)
                } else if c == 'k' {
                    self.in_mode(ModeView::Help(geometry::minus(scroll, 1)))
                } else if c == 'j' {
                    self.in_mode(ModeView::Help(geometry::plus(scroll, 1)))
                } else {
                    self
                },
                _ => self,
            },
            _ => self,
        }
    }
}

/// Whether a key is a character, of either case.
fn letter(code: KeyCode, lower: char, upper: char) -> (is: bool)
    ensures
        is == is_letter(code, lower, upper),
{
    code == KeyCode::Char(lower) || code == KeyCode::Char(upper)
}

impl App {
    /// Moves the cursor by a key.
    pub fn move_by(&mut self, code: KeyCode, extend: bool)
        requires
            old(self)@.wf(),
        ensures
            final(self)@ == old(self)@.moved_by(code, extend),
            final(self)@.wf(),
    {
        proof {
            reveal(DocView::moved_by);
        }
        let width: isize = self.row_width();
        let page: isize = self.page_size();
        match code {
            KeyCode::Left => self.move_cursor(-1, extend),
            KeyCode::Right => self.move_cursor(1, extend),
            KeyCode::Up => self.move_cursor(-width, extend),
            KeyCode::Down => self.move_cursor(width, extend),
            KeyCode::PageUp => self.move_cursor(-page, extend),
            KeyCode::PageDown => self.move_cursor(page, extend),
            KeyCode::Home => self.select_offset(0, extend),
            KeyCode::End => {
                if self.bytes.len() > 0 {
                    let last: usize = self.bytes.len() - 1;
                    self.select_offset(last, extend);
                }
            },
            _ => {},
        }
    }

    /// Puts the selected bytes on the clipboard as hexadecimal digits.
    pub fn copy_selection_as_hex(&mut self)
        requires
            old(self)@.wf(),
        ensures
            final(self)@ == old(self)@.selection_copied(),
            final(self)@.wf(),
    {
        proof {
            reveal(DocView::selection_copied);
        }
        let hex = hex_string(&self.selected_bytes());
        if hex.as_str().is_empty() {
            self.say("No bytes selected to copy".to_owned());
        } else {
            self.ask(Effect::Copy(hex));
        }
    }

    /// Takes up what came of putting a text of so many characters on the clipboard.
    pub fn finish_copy(&mut self, length: usize, outcome: Result<(), String>)
        requires
            old(self)@.wf(),
        ensures
            final(self)@ == old(self)@.copy_finished(
                length as int,
                match outcome {
                    Ok(_) => Ok(()),
                    Err(error) => Err(error@),
                },
            ),
            final(self)@.wf(),
    {
        match outcome {
            Ok(_) => {
                let mut message = "Copied ".to_owned();
                message.append(&decimal_text(length / 2));
                message.append(" bytes as continuous hex");
                self.say(message);
            },
            Err(error) => {
                let mut message = "Could not copy selection: ".to_owned();
                message.append(&error);
                self.say(message);
            },
        }
    }

    /// Asks for the clipboard, if bytes can be pasted.
    pub fn paste_from_clipboard(&mut self)
        requires
            old(self)@.wf(),
        ensures
            final(self)@ == old(self)@.paste_requested(),
            final(self)@.wf(),
    {
        proof {
            reveal(DocView::paste_requested);
        }
        if !self.edit_mode {
            self.say("Enter Overwrite or Insert Mode (i) before pasting bytes".to_owned());
        } else {
            self.ask(Effect::Paste);
        }
    }

    /// Takes up what the clipboard holds.
    pub fn finish_paste(&mut self, outcome: Result<String, String>)
        requires
            old(self)@.wf(),
            mode_is_free(old(self)@.mode),
        ensures
            final(self)@ == old(self)@.paste_finished(
                match outcome {
                    Ok(content) => Ok(content@),
                    Err(error) => Err(error@),
                },
            ),
            final(self)@.wf(),
    {
        match outcome {
            Ok(content) => self.paste_hex_bytes(&content),
            Err(error) => {
                let mut message = "Could not paste from clipboard: ".to_owned();
                message.append(&error);
                self.say(message);
            },
        }
    }

    /// Asks for a second press of the key that quits.
    pub fn ask_to_quit(&mut self)
        requires
            old(self)@.wf(),
        ensures
            final(self)@ == old(self)@.asking_to_quit(),
            final(self)@.wf(),
    {
        self.arm_quit(true);
        self.say("Unsaved byte changes: press q again to quit".to_owned());
    }

    /// Applies the key that quits; says whether the program ends.
    fn press_quit(&mut self) -> (quit: bool)
        requires
            old(self)@.wf(),
        ensures
            final(self)@ == old(self)@.quit_pressed().doc,
            quit == old(self)@.quit_pressed().quit,
            final(self)@.wf(),
    {
        if !self.modified_offsets.is_empty() && !self.quit_armed {
            self.ask_to_quit();
            false
        } else {
            true
        }
    }

    /// Applies a key that edits bytes.
    pub fn handle_edit_key(&mut self, code: KeyCode)
        requires
            old(self)@.wf(),
            mode_is_free(old(self)@.mode),
        ensures
            final(self)@ == old(self)@.edit_key(code),
            final(self)@.wf(),
    {
        proof {
            reveal(DocView::edit_key);
        }
        match code {
            KeyCode::Insert => self.toggle_edit_kind(),
            KeyCode::Backspace => self.delete_selected_bytes(),
            KeyCode::Delete => self.delete_selected_bytes(),
            KeyCode::Char(c) => {
                if c == 'i' {
                    self.toggle_edit_kind();
                } else {
                    let nibble: u8 = hex_digit_value(c);
                    if nibble < 16 {
                        self.edit_nibble(nibble);
                    }
                }
            },
            KeyCode::End => {
                if self.bytes.len() > 0 {
                    self.commit_pending_edit();
                    self.move_by(code, false);
                }
            },
            KeyCode::Left | KeyCode::Right | KeyCode::Up | KeyCode::Down | KeyCode::PageUp
            | KeyCode::PageDown | KeyCode::Home => {
                self.commit_pending_edit();
                self.move_by(code, false);
            },
            _ => {},
        }
    }

    /// Applies a key while bytes are edited; says whether the program ends.
    pub fn handle_overwrite_key(&mut self, key: KeyEvent) -> (quit: bool)
        requires
            old(self)@.wf(),
            mode_is_free(old(self)@.mode),
        ensures
            final(self)@ == old(self)@.overwrite_key(key).doc,
            quit == old(self)@.overwrite_key(key).quit,
            final(self)@.wf(),
    {
        proof {
            reveal(DocView::overwrite_key);
        }
        let code = key.code;
        if key.modifiers.control {
            if key.types('u') {
                self.undo_overwrite();
            } else if key.types('r') {
                self.redo_overwrite();
            } else if key.types('s') {
                self.commit_pending_edit();
                self.open_path_dialog(PathAction::SaveBinary);
            } else if letter(code, 'c', 'C') {
                self.copy_selection_as_hex();
            } else if letter(code, 'v', 'V') {
                self.paste_from_clipboard();
            }
            return false;
        }
        if key.modifiers.command && letter(code, 'c', 'C') {
            self.copy_selection_as_hex();
            return false;
        }
        if key.modifiers.command && letter(code, 'v', 'V') {
            self.paste_from_clipboard();
            return false;
        }
        if code == KeyCode::Esc {
            self.commit_pending_edit();
            self.set_kind(false, EditKind::Overwrite);
            self.say("View Mode".to_owned());
            return false;
        }
        if key.types('q') {
            self.commit_pending_edit();
            return self.press_quit();
        }
        self.handle_edit_key(code);
        false
    }

    /// Opens an input of a search, of an offset, or another mode that needs no more.
    fn enter_mode(&mut self, mode: Mode)
        requires
            old(self)@.wf(),
            app::mode_ok(old(self)@.bytes.len(), old(self)@.fields, mode@),
        ensures
            final(self)@ == old(self)@.in_mode(mode@),
            final(self)@.wf(),
    {
        self.set_mode(mode);
    }

    /// Applies the control key together with another while the file is viewed.
    fn handle_view_control_key(&mut self, code: KeyCode)
        requires
            old(self)@.wf(),
            mode_is_free(old(self)@.mode),
        ensures
            final(self)@ == old(self)@.view_control_key(code),
            final(self)@.wf(),
    {
        proof {
            reveal(DocView::view_control_key);
            reveal(app::mode_ok);
            reveal(modes::mode_view);
        }
        match code {
            KeyCode::Up => self.previous_search_result(),
            KeyCode::Down => self.next_search_result(),
            KeyCode::Char(c) => {
                if c == 'f' {
                    let query = self.search.query.clone();
                    self.enter_mode(Mode::Search(TextInput::with_value(query)));
                } else if c == 'g' {
                    self.enter_mode(Mode::Jump(TextInput::default()));
                } else if c == 'o' {
                    self.open_path_dialog(PathAction::SaveOverlay);
                } else if c == 'l' {
                    self.open_path_dialog(PathAction::LoadOverlay);
                } else if c == 'u' {
                    self.undo_overwrite();
                } else if c == 'r' {
                    self.redo_overwrite();
                } else if c == 's' {
                    self.open_path_dialog(PathAction::SaveBinary);
                } else if c == 'c' || c == 'C' {
                    self.copy_selection_as_hex();
                } else if c == 'v' || c == 'V' {
                    self.paste_from_clipboard();
                }
            },
            _ => {},
        }
    }

    /// Sets whether the first letter of a pair was typed.
    fn set_first_g(&mut self, pending: bool)
        ensures
            final(self)@ == old(self)@.with_first_g(pending),
            old(self)@.wf() ==> final(self)@.wf(),
            final(self)@.mode == old(self)@.mode,
    {
        proof {
            reveal(DocView::with_first_g);
        }
        self.vim_g_pending = pending;
    }

    /// Changes the settings, and lays out the lines of the viewer anew.
    pub fn set_settings(&mut self, settings: ViewerSettings)
        requires
            old(self)@.wf(),
            settings.wf(),
        ensures
            final(self)@ == old(self)@.with_settings(settings),
            final(self)@.wf(),
    {
        proof {
            reveal(DocView::with_settings);
            reveal(app::layout_ok);
        }
        self.settings = settings;
        self.rebuild_display_rows();
        proof {
            reveal(DocView::rebuilt);
        }
    }

    /// Shows or hides the fields in the viewer.
    fn toggle_overlays(&mut self)
        requires
            old(self)@.wf(),
        ensures
            final(self)@ == old(self)@.overlays_toggled(),
            final(self)@.wf(),
    {
        proof {
            reveal(app::layout_ok);
        }
        let shown = self.settings.show_overlays;
        let mut settings = self.settings;
        settings.toggle(6);
        self.set_settings(settings);
        if shown {
            self.say("Field overlays hidden".to_owned());
        } else {
            self.say("Field overlays enabled".to_owned());
        }
    }

    /// Opens the editor of a new field for the selected ranges.
    fn open_new_field(&mut self)
        requires
            old(self)@.wf(),
        ensures
            final(self)@ == old(self)@.in_mode(
                ModeView::Field(FieldEditorView::blank(old(self)@.ranges())),
            ),
            final(self)@.wf(),
    {
        let ranges = self.selected_ranges();
        proof {
            reveal(app::selection_ok);
            reveal(app::mode_ok);
            reveal(modes::mode_view);
            let all = self@.all_selections();
            assert(selection::inside(all, self@.length())) by {
                assert forall|i: int| 0 <= i < all.len() implies (#[trigger] all[i]).high()
                    < self@.length() by {
                    if i < self@.additional.len() {
                        assert(all[i] == self@.additional[i]);
                    }
                }
            }
            assert(selection::same_offsets(ranges@, all));
            selection::lemma_merged_inside(all, ranges@, self@.length());
        }
        let mut editor = FieldEditor::new();
        editor.ranges = ranges;
        self.set_mode(Mode::Field(editor));
    }

    /// Applies a character key while the file is viewed.
    fn handle_view_character(&mut self, c: char)
        requires
            old(self)@.wf(),
            mode_is_free(old(self)@.mode),
        ensures
            final(self)@ == old(self)@.view_character(c),
            final(self)@.wf(),
    {
        proof {
            reveal(DocView::view_character);
            reveal(app::mode_ok);
            reveal(modes::mode_view);
        }
        if c == 'i' && self.focus == Focus::Viewer {
            self.set_kind(true, EditKind::Overwrite);
            self.say(
                "Overwrite Mode: type two hex digits per byte; Esc returns to View Mode".to_owned(),
            );
        } else if c == 't' {
            self.enter_mode(Mode::Theme(ThemeEditor::default()));
        } else if c == 's' {
            self.enter_mode(Mode::Settings(SettingsEditor::default()));
        } else if c == 'o' {
            self.toggle_overlays();
        } else if c == 'n' {
            self.next_search_result();
        } else if c == 'N' {
            self.previous_search_result();
        } else if c == 'a' && self.selection.is_some() {
            self.open_new_field();
        } else if c == 'g' {
            self.set_first_g(true);
        } else if c == 'G' && self.bytes.len() > 0 {
            let last: usize = self.bytes.len() - 1;
            self.select_offset(last, false);
        } else if c == 'd' && self.focus == Focus::Fields {
            self.delete_selected_field();
        } else if c == '[' {
            self.select_previous_field();
        } else if c == ']' {
            self.select_next_field();
        }
    }

    /// Applies a key without the control key while the file is viewed.
    fn handle_view_plain_key(&mut self, key: KeyEvent)
        requires
            old(self)@.wf(),
            mode_is_free(old(self)@.mode),
        ensures
            final(self)@ == old(self)@.view_plain_key(key),
            final(self)@.wf(),
    {
        proof {
            reveal(DocView::view_plain_key);
        }
        let in_fields = self.focus == Focus::Fields;
        let extend = key.modifiers.shift;
        match key.code {
            KeyCode::Char(c) => self.handle_view_character(c),
            KeyCode::Tab => {
                let focus = if self.focus == Focus::Viewer {
                    Focus::Fields
                } else {
                    Focus::Viewer
                };
                self.set_focus(focus);
            },
            KeyCode::Enter => {
                if in_fields {
                    self.edit_selected_field();
                }
            },
            KeyCode::Delete => {
                if in_fields {
                    self.delete_selected_field();
                }
            },
            KeyCode::Up => {
                if in_fields {
                    self.select_previous_field();
                } else {
                    self.move_by(key.code, extend);
                }
            },
            KeyCode::Down => {
                if in_fields {
                    self.select_next_field();
                } else {
                    self.move_by(key.code, extend);
                }
            },
            _ => self.move_by(key.code, extend),
        }
        proof {
            reveal(DocView::moved_by);
        }
    }

    /// Applies a key while the file is viewed; says whether the program ends.
    pub fn handle_view_key(&mut self, key: KeyEvent) -> (quit: bool)
        requires
            old(self)@.wf(),
            mode_is_free(old(self)@.mode),
        ensures
            final(self)@ == old(self)@.view_key(key).doc,
            quit == old(self)@.view_key(key).quit,
            final(self)@.wf(),
    {
        proof {
            reveal(DocView::view_key);
        }
        let code = key.code;
        if self.vim_g_pending {
            self.set_first_g(false);
            if key.types('g') {
                proof {
                    reveal(DocView::cursor_at);
                }
                self.select_offset(0, false);
                return false;
            }
        }
        if key.modifiers.control {
            self.handle_view_control_key(code);
            return false;
        }
        if key.modifiers.command && letter(code, 'c', 'C') {
            self.copy_selection_as_hex();
            return false;
        }
        if key.modifiers.command && letter(code, 'v', 'V') {
            self.paste_from_clipboard();
            return false;
        }
        if key.types('q') {
            return self.press_quit();
        }
        self.handle_view_plain_key(key);
        self.arm_quit(false);
        false
    }

    /// Applies a key in no other mode; says whether the program ends.
    pub fn handle_normal_key(&mut self, key: KeyEvent) -> (quit: bool)
        requires
            old(self)@.wf(),
            mode_is_free(old(self)@.mode),
        ensures
            final(self)@ == old(self)@.normal_key(key).doc,
            quit == old(self)@.normal_key(key).quit,
            final(self)@.wf(),
    {
        proof {
            reveal(DocView::normal_key);
        }
        if key.types('?') {
            proof {
                reveal(app::mode_ok);
                reveal(modes::mode_view);
            }
            self.enter_mode(Mode::Help(HelpViewer::default()));
            return false;
        }
        if self.edit_mode {
            self.handle_overwrite_key(key)
        } else {
            self.handle_view_key(key)
        }
    }

    /// Applies a key that edits the input of a search or of an offset.
    fn edit_input(&mut self, key: KeyEvent)
        requires
            old(self)@.wf(),
        ensures
            final(self)@ == match old(self)@.mode {
                ModeView::Search(input) => old(self)@.in_mode(
                    ModeView::Search(input.after_key(key)),
                ),
                ModeView::Jump(input) => old(self)@.in_mode(ModeView::Jump(input.after_key(key))),
                _ => old(self)@,
            },
            final(self)@.wf(),
    {
        proof {
            reveal(DocView::in_mode);
            reveal(app::mode_ok);
            reveal(modes::mode_view);
        }
        match &mut self.mode {
            Mode::Search(input) => input.handle_key(key),
            Mode::Jump(input) => input.handle_key(key),
            _ => {},
        }
    }

    /// Applies a key in the input of a search.
    pub fn handle_search_key(&mut self, key: KeyEvent)
        requires
            old(self)@.wf(),
        ensures
            final(self)@ == old(self)@.search_key(key),
            final(self)@.wf(),
    {
        proof {
            reveal(DocView::search_key);
            reveal(modes::mode_view);
        }
        let value = match &self.mode {
            Mode::Search(input) => input.value.clone(),
            _ => {
                if key.code == KeyCode::Esc {
                    self.leave_mode();
                }
                return;
            },
        };
        match key.code {
            KeyCode::Esc => {
                self.leave_mode();
            },
            KeyCode::Enter => {
                self.leave_mode();
                self.start_search(value);
            },
            _ => self.edit_input(key),
        }
    }

    /// Goes back to no other mode.
    pub fn leave_mode(&mut self)
        requires
            old(self)@.wf(),
        ensures
            final(self)@ == old(self)@.in_mode(ModeView::Normal),
            final(self)@.wf(),
    {
        proof {
            reveal(app::mode_ok);
            reveal(modes::mode_view);
        }
        self.set_mode(Mode::Normal);
    }

    /// Goes to the offset that was entered.
    fn jump(&mut self, entry: &str)
        requires
            old(self)@.wf(),
        ensures
            final(self)@ == old(self)@.jumped(entry@),
            final(self)@.wf(),
    {
        proof {
            reveal(DocView::jumped);
        }
        match parse_offset(entry) {
            Ok(offset) => {
                if offset < self.bytes.len() {
                    self.select_byte(offset);
                    let mut message = "Jumped to 0x".to_owned();
                    message.append(&hex_text(offset));
                    self.say(message);
                    self.leave_mode();
                } else {
                    let mut message = "Offset 0x".to_owned();
                    message.append(&hex_text(offset));
                    message.append(" is outside this ");
                    message.append(&decimal_text(self.bytes.len()));
                    message.append(" byte file");
                    self.say(message);
                }
            },
            Err(error) => self.say(error),
        }
    }

    /// Applies a key in the input of an offset.
    pub fn handle_jump_key(&mut self, key: KeyEvent)
        requires
            old(self)@.wf(),
        ensures
            final(self)@ == old(self)@.jump_key(key),
            final(self)@.wf(),
    {
        proof {
            reveal(DocView::jump_key);
            reveal(modes::mode_view);
        }
        let value = match &self.mode {
            Mode::Jump(input) => input.value.clone(),
            _ => {
                if key.code == KeyCode::Esc {
                    self.leave_mode();
                }
                return;
            },
        };
        match key.code {
            KeyCode::Esc => self.leave_mode(),
            KeyCode::Enter => self.jump(&value),
            _ => self.edit_input(key),
        }
    }

    /// Applies a key in the editor of a field.
    pub fn handle_field_key(&mut self, key: KeyEvent)
        requires
            old(self)@.wf(),
        ensures
            final(self)@ == old(self)@.field_key(key),
            final(self)@.wf(),
    {
        proof {
            reveal(DocView::field_key);
            reveal(modes::mode_view);
        }
        match &self.mode {
            Mode::Field(_) => {},
            _ => {
                if key.code == KeyCode::Esc {
                    self.leave_mode();
                }
                return;
            },
        }
        match key.code {
            KeyCode::Esc => self.leave_mode(),
            KeyCode::Enter => self.commit_field_editor(),
            _ => self.edit_field(key),
        }
    }

    /// Applies a key that stays in the editor of a field.
    fn edit_field(&mut self, key: KeyEvent)
        requires
            old(self)@.wf(),
            old(self)@.mode is Field,
        ensures
            ({
                let editor = old(self)@.mode->Field_0;
                final(self)@ == old(self)@.in_mode(
                    ModeView::Field(
                        match key.code {
                            KeyCode::Tab | KeyCode::Down => editor.after_step(true),
                            KeyCode::BackTab | KeyCode::Up => editor.after_step(false),
                            KeyCode::Left => editor.after_arrow(key, false),
                            KeyCode::Right => editor.after_arrow(key, true),
                            _ => editor.after_text_key(key),
                        },
                    ),
                )
            }),
            final(self)@.wf(),
    {
        proof {
            reveal(DocView::in_mode);
            reveal(app::mode_ok);
            reveal(modes::mode_view);
        }
        match &mut self.mode {
            Mode::Field(editor) => {
                match key.code {
                    KeyCode::Tab => editor.step(true),
                    KeyCode::Down => editor.step(true),
                    KeyCode::BackTab => editor.step(false),
                    KeyCode::Up => editor.step(false),
                    KeyCode::Left => editor.arrow(key, false),
                    KeyCode::Right => editor.arrow(key, true),
                    _ => editor.handle_text_key(key),
                }
            },
            _ => {},
        }
    }

    /// Changes the name of the theme.
    fn rename_theme(&mut self, name: String)
        requires
            old(self)@.wf(),
        ensures
            final(self)@ == old(self)@.renamed_theme(name@),
            final(self)@.wf(),
    {
        proof {
            reveal(DocView::themed);
        }
        self.theme.name = name;
    }

    /// Steps through a value of the theme.
    fn change_theme_value(&mut self, active: usize, forward: bool)
        requires
            old(self)@.wf(),
        ensures
            final(self)@ == old(self)@.themed(old(self)@.theme.changed(active as int, forward)),
            final(self)@.wf(),
    {
        proof {
            reveal(DocView::themed);
        }
        self.theme.change_value(active, forward);
    }

    /// Applies the control key together with another in the editor of the theme.
    fn handle_theme_control_key(&mut self, key: KeyEvent, active: usize)
        requires
            old(self)@.wf(),
            old(self)@.mode == ModeView::Theme(active as int),
            key.modifiers.control,
        ensures
            final(self)@ == old(self)@.theme_key(key),
            final(self)@.wf(),
    {
        proof {
            reveal(DocView::theme_key);
            reveal(app::mode_ok);
            reveal(modes::mode_view);
        }
        if key.types('s') {
            self.open_path_dialog(PathAction::SaveTheme);
        } else if key.types('l') {
            self.open_path_dialog(PathAction::LoadTheme);
        } else if key.types('u') && active == 0 {
            let empty = String::new();
            assert(empty@ =~= Seq::<char>::empty());
            self.rename_theme(empty);
        } else if key.types('r') {
            self.enter_mode(Mode::ConfirmReset(ResetTarget::Theme));
        }
    }

    /// Applies a key in the editor of the theme.
    pub fn handle_theme_key(&mut self, key: KeyEvent)
        requires
            old(self)@.wf(),
        ensures
            final(self)@ == old(self)@.theme_key(key),
            final(self)@.wf(),
    {
        proof {
            reveal(DocView::theme_key);
            reveal(app::mode_ok);
            reveal(modes::mode_view);
        }
        let active: usize = match &self.mode {
            Mode::Theme(editor) => editor.active,
            _ => {
                return;
            },
        };
        if key.modifiers.control {
            self.handle_theme_control_key(key, active);
            return;
        }
        match key.code {
            KeyCode::Esc => self.leave_mode(),
            KeyCode::Enter => self.leave_mode(),
            KeyCode::Tab | KeyCode::Down => {
                let next: usize = step_row(active, THEME_ROWS, true);
                self.enter_mode(Mode::Theme(ThemeEditor { active: next }));
            },
            KeyCode::BackTab | KeyCode::Up => {
                let next: usize = step_row(active, THEME_ROWS, false);
                self.enter_mode(Mode::Theme(ThemeEditor { active: next }));
            },
            KeyCode::Left => self.change_theme_value(active, false),
            KeyCode::Right => self.change_theme_value(active, true),
            KeyCode::Backspace => {
                if active == 0 {
                    let characters = chars_of(&self.theme.name);
                    if characters.len() > 0 {
                        let shorter = string_of(&characters, 0, characters.len() - 1);
                        assert(shorter@ =~= self@.theme.name.drop_last());
                        self.rename_theme(shorter);
                    }
                }
            },
            KeyCode::Char(c) => {
                if active == 0 {
                    let mut name = self.theme.name.clone();
                    name.push(c);
                    self.rename_theme(name);
                }
            },
            _ => {},
        }
    }

    /// Scrolls as little as is needed to show the cursor.
    fn show_cursor(&mut self)
        requires
            old(self)@.wf(),
        ensures
            final(self)@ == old(self)@.cursor_shown(),
            final(self)@.wf(),
    {
        proof {
            reveal(DocView::cursor_shown);
        }
        match self.selection {
            Some(selection) => self.ensure_visible(selection.cursor),
            None => {},
        }
    }

    /// Switches a setting.
    pub fn toggle_setting(&mut self, active: usize)
        requires
            old(self)@.wf(),
        ensures
            final(self)@ == old(self)@.setting_toggled(active as int),
            final(self)@.wf(),
    {
        proof {
            reveal(DocView::setting_toggled);
            reveal(app::layout_ok);
        }
        let mut settings = self.settings;
        settings.toggle(active);
        self.set_settings(settings);
        if active == 1 || active == 5 {
            self.show_cursor();
        }
    }

    /// Applies a key in the editor of the settings.
    pub fn handle_settings_key(&mut self, key: KeyEvent)
        requires
            old(self)@.wf(),
        ensures
            final(self)@ == old(self)@.settings_key(key),
            final(self)@.wf(),
    {
        proof {
            reveal(DocView::settings_key);
            reveal(app::mode_ok);
            reveal(modes::mode_view);
        }
        let active: usize = match &self.mode {
            Mode::Settings(editor) => editor.active,
            _ => {
                return;
            },
        };
        if key.control('r') {
            self.enter_mode(Mode::ConfirmReset(ResetTarget::Settings));
            return;
        }
        match key.code {
            KeyCode::Esc => self.leave_mode(),
            KeyCode::Enter => self.leave_mode(),
            KeyCode::Tab | KeyCode::Down => {
                let next: usize = step_row(active, SETTINGS_ROWS, true);
                self.enter_mode(Mode::Settings(SettingsEditor { active: next }));
            },
            KeyCode::BackTab | KeyCode::Up => {
                let next: usize = step_row(active, SETTINGS_ROWS, false);
                self.enter_mode(Mode::Settings(SettingsEditor { active: next }));
            },
            KeyCode::Left => self.toggle_setting(active),
            KeyCode::Right => self.toggle_setting(active),
            KeyCode::Char(c) => {
                if c == ' ' {
                    self.toggle_setting(active);
                }
            },
            _ => {},
        }
    }

    /// Goes back to the editor from which a reset was asked for.
    fn return_to(&mut self, target: ResetTarget)
        requires
            old(self)@.wf(),
        ensures
            final(self)@ == old(self)@.back_to(target),
            final(self)@.wf(),
    {
        proof {
            reveal(app::mode_ok);
            reveal(modes::mode_view);
        }
        match target {
            ResetTarget::Theme => self.enter_mode(Mode::Theme(ThemeEditor::default())),
            ResetTarget::Settings => self.enter_mode(Mode::Settings(SettingsEditor::default())),
        }
    }

    /// Puts the theme or the settings back to what they are at first.
    fn reset_to_defaults(&mut self, target: ResetTarget)
        requires
            old(self)@.wf(),
        ensures
            final(self)@ == old(self)@.reset(target),
            final(self)@.wf(),
    {
        proof {
            reveal(DocView::reset);
        }
        match target {
            ResetTarget::Theme => {
                self.set_theme(Theme::default());
                self.say("Theme reset to defaults".to_owned());
            },
            ResetTarget::Settings => {
                self.set_settings(ViewerSettings::default());
                self.show_cursor();
                self.say("Viewer settings reset to defaults".to_owned());
            },
        }
    }

    /// Applies a key while a reset is to be confirmed.
    pub fn handle_reset_confirmation_key(&mut self, key: KeyEvent)
        requires
            old(self)@.wf(),
        ensures
            final(self)@ == old(self)@.reset_key(key),
            final(self)@.wf(),
    {
        proof {
            reveal(DocView::reset_key);
            reveal(modes::mode_view);
        }
        let target = match &self.mode {
            Mode::ConfirmReset(target) => *target,
            _ => {
                return;
            },
        };
        if letter(key.code, 'y', 'Y') {
            self.reset_to_defaults(target);
            self.return_to(target);
        } else if letter(key.code, 'n', 'N') || key.code == KeyCode::Esc {
            self.say("Reset cancelled".to_owned());
            self.return_to(target);
        } else {
            self.say("Type y to reset or n to cancel".to_owned());
        }
    }

    /// Scrolls the list of keys to a line.
    pub fn scroll_help(&mut self, scroll: usize)
        requires
            old(self)@.wf(),
        ensures
            final(self)@ == old(self)@.in_mode(ModeView::Help(scroll as int)),
            final(self)@.wf(),
    {
        proof {
            reveal(app::mode_ok);
            reveal(modes::mode_view);
        }
        self.enter_mode(Mode::Help(HelpViewer { scroll }));
    }

    /// Applies a key in the list of keys.
    pub fn handle_help_key(&mut self, key: KeyEvent)
        requires
            old(self)@.wf(),
        ensures
            final(self)@ == old(self)@.help_key(key),
            final(self)@.wf(),
    {
        proof {
            reveal(DocView::help_key);
            reveal(modes::mode_view);
        }
        let scroll: usize = match &self.mode {
            Mode::Help(help) => help.scroll,
            _ => {
                return;
            },
        };
        match key.code {
            KeyCode::Esc => self.leave_mode(),
            KeyCode::Enter => self.leave_mode(),
            KeyCode::Up => self.scroll_help(scroll.saturating_sub(1)),
            KeyCode::Down => self.scroll_help(scroll.saturating_add(1)),
            KeyCode::PageUp => self.scroll_help(scroll.saturating_sub(10)),
            KeyCode::PageDown => self.scroll_help(scroll.saturating_add(10)),
            KeyCode::Home => self.scroll_help(0),
            KeyCode::End => self.scroll_help(usize::MAX),
            KeyCode::Char(c) => {
                if c == '?' || c == 'q' {
                    self.leave_mode();
                } else if c == 'k' {
                    self.scroll_help(scroll.saturating_sub(1));
                } else if c == 'j' {
                    self.scroll_help(scroll.saturating_add(1));
                }
            },
            _ => {},
        }
    }
}

impl DocView {
    /// After a key, which goes to what is open.
    pub open spec fn pressed(self, key: KeyEvent) -> KeyView {
        match self.mode {
            ModeView::Normal => self.normal_key(key),
            ModeView::Search(_) => on(self.search_key(key)),
            ModeView::Jump(_) => on(self.jump_key(key)),
            ModeView::Field(_) => on(self.field_key(key)),
            ModeView::Path(_) => on(self.path_key(key)),
            ModeView::Theme(_) => on(self.theme_key(key)),
            ModeView::Settings(_) => on(self.settings_key(key)),
            ModeView::ConfirmReset(_) => on(self.reset_key(key)),
            ModeView::Python(_) => on(self.python_key(key)),
            ModeView::Help(_) => on(self.help_key(key)),
        }
    }
}

impl App {
    /// Applies a key, and returns whether it quits.
    pub fn handle_key(&mut self, key: KeyEvent) -> (quit: bool)
        requires
            old(self)@.wf(),
        ensures
            (KeyView { doc: final(self)@, quit }) == old(self)@.pressed(key),
            final(self)@.wf(),
    {
        proof {
            reveal(modes::mode_view);
        }
        match &self.mode {
            Mode::Normal => {
                return self.handle_normal_key(key);
            },
            Mode::Search(_) => self.handle_search_key(key),
            Mode::Jump(_) => self.handle_jump_key(key),
            Mode::Field(_) => self.handle_field_key(key),
            Mode::Path(_) => self.handle_path_key(key),
            Mode::Theme(_) => self.handle_theme_key(key),
            Mode::Settings(_) => self.handle_settings_key(key),
            Mode::ConfirmReset(_) => self.handle_reset_confirmation_key(key),
            Mode::Python(_) => self.handle_python_key(key),
            Mode::Help(_) => self.handle_help_key(key),
        }
        false
    }
}

} // verus!
