//! Keys, mouse events, and the one-line text editor.

use vstd::prelude::*;

use crate::text::{chars_of, string_of};

verus! {

/// A key of the keyboard.
#[derive(Clone, Copy, Debug, PartialEq, Eq, Structural)]
pub enum KeyCode {
    Backspace,
    Enter,
    Left,
    Right,
    Up,
    Down,
    Home,
    End,
    PageUp,
    PageDown,
    Tab,
    BackTab,
    Delete,
    Insert,
    Esc,
    Char(char),
    Other,
}

/// The modifier keys that are held. `command` is the key of that name on a Mac keyboard, and is
/// never set elsewhere.
#[derive(Clone, Copy, Debug, PartialEq, Eq, Structural)]
pub struct KeyModifiers {
    pub shift: bool,
    pub control: bool,
    pub alt: bool,
    pub command: bool,
}

impl KeyModifiers {
    /// No modifier at all.
    pub fn none() -> (modifiers: Self)
        ensures
            modifiers == KeyModifiers::bare(),
    {
        KeyModifiers { shift: false, control: false, alt: false, command: false }
    }

    /// The shift key alone.
    pub fn shifted() -> (modifiers: Self)
        ensures
            modifiers == (KeyModifiers { shift: true, ..KeyModifiers::bare() }),
    {
        KeyModifiers { shift: true, control: false, alt: false, command: false }
    }

    /// The control key alone.
    pub fn controlled() -> (modifiers: Self)
        ensures
            modifiers == (KeyModifiers { control: true, ..KeyModifiers::bare() }),
    {
        KeyModifiers { shift: false, control: true, alt: false, command: false }
    }

    /// No modifier at all.
    pub open spec fn bare() -> KeyModifiers {
        KeyModifiers { shift: false, control: false, alt: false, command: false }
    }
}

/// A key press.
#[derive(Clone, Copy, Debug, PartialEq, Eq, Structural)]
pub struct KeyEvent {
    pub code: KeyCode,
    pub modifiers: KeyModifiers,
}

impl KeyEvent {
    /// The press of a key while some modifiers are held.
    pub fn new(code: KeyCode, modifiers: KeyModifiers) -> (key: Self)
        ensures
            key == (KeyEvent { code, modifiers }),
    {
        KeyEvent { code, modifiers }
    }

    /// Whether the key is `character` with the control key held.
    pub open spec fn is_control(self, character: char) -> bool {
        self.modifiers.control && self.code == KeyCode::Char(character)
    }

    /// Whether the key is `character` with the control key held.
    pub fn control(&self, character: char) -> (held: bool)
        ensures
            held == self.is_control(character),
    {
        self.modifiers.control && self.code == KeyCode::Char(character)
    }

    /// Whether the key is `character`, with any modifiers.
    pub fn types(&self, character: char) -> (typed: bool)
        ensures
            typed == (self.code == KeyCode::Char(character)),
    {
        self.code == KeyCode::Char(character)
    }
}

/// A button of the mouse.
#[derive(Clone, Copy, Debug, PartialEq, Eq, Structural)]
pub enum MouseButton {
    Left,
    Right,
    Middle,
}

/// What the mouse did.
#[derive(Clone, Copy, Debug, PartialEq, Eq, Structural)]
pub enum MouseEventKind {
    Down(MouseButton),
    Up(MouseButton),
    Drag(MouseButton),
    Moved,
    ScrollUp,
    ScrollDown,
    Other,
}

/// A mouse event in a cell of the terminal.
#[derive(Clone, Copy, Debug, PartialEq, Eq, Structural)]
pub struct MouseEvent {
    pub kind: MouseEventKind,
    pub column: u16,
    pub row: u16,
    pub modifiers: KeyModifiers,
}

impl MouseEvent {
    /// Whether the left button went down.
    pub open spec fn is_click(self) -> bool {
        self.kind == MouseEventKind::Down(MouseButton::Left)
    }

    /// Whether the left button went down.
    pub fn click(&self) -> (clicked: bool)
        ensures
            clicked == self.is_click(),
    {
        self.kind == MouseEventKind::Down(MouseButton::Left)
    }
}

/// A line of text with a cursor. `selected` marks the whole line as selected, so that what is
/// typed next takes its place.
#[derive(Debug)]
pub struct TextInput {
    pub value: String,
    pub cursor: usize,
    pub selected: bool,
}

/// The contents of a [`TextInput`]. The cursor counts characters.
pub struct TextView {
    pub value: Seq<char>,
    pub cursor: int,
    pub selected: bool,
}

impl View for TextInput {
    type V = TextView;

    open spec fn view(&self) -> TextView {
        TextView { value: self.value@, cursor: self.cursor as int, selected: self.selected }
    }
}

impl TextView {
    /// The cursor lies in the text or at its end.
    pub open spec fn wf(self) -> bool {
        0 <= self.cursor <= self.value.len()
    }

    /// The empty line.
    pub open spec fn blank() -> TextView {
        TextView { value: Seq::empty(), cursor: 0, selected: false }
    }

    /// A line that holds `value`, with the cursor at its end.
    pub open spec fn holding(value: Seq<char>, selected: bool) -> TextView {
        TextView { value, cursor: value.len() as int, selected }
    }

    /// The line with nothing selected.
    pub open spec fn unselected(self) -> TextView {
        TextView { selected: false, ..self }
    }

    /// The line with the cursor at `cursor` and nothing selected.
    pub open spec fn moved(self, cursor: int) -> TextView {
        TextView { cursor, selected: false, ..self }
    }

    /// The line without the selected text.
    pub open spec fn replaced(self) -> TextView {
        if self.selected {
            TextView::blank()
        } else {
            self
        }
    }

    /// The line after `character` was typed at the cursor.
    pub open spec fn typed(self, character: char) -> TextView {
        let base = self.replaced();
        TextView {
            value: base.value.insert(base.cursor, character),
            cursor: base.cursor + 1,
            ..base
        }
    }

    /// The line after the selection, or else the character before the cursor, was removed.
    pub open spec fn erased(self) -> TextView {
        if self.selected {
            TextView::blank()
        } else if self.cursor == 0 {
            self
        } else {
            TextView {
                value: self.value.remove(self.cursor - 1),
                cursor: self.cursor - 1,
                ..self
            }
        }
    }

    /// The line after a key press.
    pub open spec fn after_key(self, key: KeyEvent) -> TextView {
        match key.code {
            KeyCode::Char(character) => if key.is_control('u') {
                TextView::blank()
            } else if key.is_control('h') {
                self.erased()
            } else if key.modifiers.control || key.modifiers.alt {
                self
            } else {
                self.typed(character)
            },
            KeyCode::Backspace => self.erased(),
            KeyCode::Left => self.moved(if self.cursor > 0 {
                self.cursor - 1
            } else {
                0
            }),
            KeyCode::Right => self.moved(if self.cursor < self.value.len() {
                self.cursor + 1
            } else {
                self.value.len() as int
            }),
            KeyCode::Home => self.moved(0),
            KeyCode::End => self.moved(self.value.len() as int),
            _ => self,
        }
    }
}

impl Default for TextInput {
    fn default() -> (input: Self)
        ensures
            input@ == TextView::blank(),
    {
        let input = TextInput { value: String::new(), cursor: 0, selected: false };
        assert(input.value@ =~= Seq::<char>::empty());
        input
    }
}

impl TextInput {
    /// A line that holds `value`, selected as a whole.
    pub fn with_value(value: String) -> (input: Self)
        ensures
            input@ == TextView::holding(value@, true),
    {
        let cursor: usize = chars_of(&value).len();
        TextInput { value, cursor, selected: true }
    }

    /// Drops the selection and keeps the text.
    pub fn clear_selection(&mut self)
        ensures
            final(self)@ == old(self)@.unselected(),
    {
        self.selected = false;
    }

    /// Puts `value` in the line, with the cursor at its end.
    pub fn set_value(&mut self, value: String)
        ensures
            final(self)@ == TextView::holding(value@, false),
    {
        self.cursor = chars_of(&value).len();
        self.value = value;
        self.selected = false;
    }

    /// Empties the line and returns what it held.
    pub fn take_value(&mut self) -> (value: String)
        ensures
            value@ == old(self)@.value,
            final(self)@ == TextView::blank(),
    {
        let mut value = String::new();
        std::mem::swap(&mut value, &mut self.value);
        self.cursor = 0;
        self.selected = false;
        assert(self.value@ =~= Seq::<char>::empty());
        value
    }

    /// Removes the text if it is selected.
    pub fn replace_selection(&mut self)
        ensures
            final(self)@ == old(self)@.replaced(),
    {
        if self.selected {
            self.value = String::new();
            self.cursor = 0;
            self.selected = false;
            assert(self.value@ =~= Seq::<char>::empty());
        }
    }

    /// The place of the cursor in the UTF-8 encoding of the text.
    pub fn cursor_byte_index(&self) -> (index: usize)
        requires
            self@.wf(),
        ensures
            index == vstd::utf8::encode_utf8(self@.value.take(self@.cursor)).len(),
    {
        let characters = chars_of(&self.value);
        let before = string_of(&characters, 0, self.cursor);
        assert(before@ =~= self@.value.take(self@.cursor));
        before.as_str().as_bytes().len()
    }

    /// Applies a key press to the line.
    pub fn handle_key(&mut self, key: KeyEvent)
        requires
            old(self)@.wf(),
        ensures
            final(self)@ == old(self)@.after_key(key),
            final(self)@.wf(),
    {
        match key.code {
            KeyCode::Char(character) => {
                if key.control('u') {
                    self.value = String::new();
                    self.cursor = 0;
                    self.selected = false;
                    assert(self.value@ =~= Seq::<char>::empty());
                } else if key.control('h') {
                    // Some terminals send this in place of Backspace.
                    self.backspace();
                } else if !key.modifiers.control && !key.modifiers.alt {
                    self.insert(character);
                }
            },
            KeyCode::Backspace => self.backspace(),
            KeyCode::Left => {
                self.cursor = if self.cursor > 0 {
                    self.cursor - 1
                } else {
                    0
                };
                self.selected = false;
            },
            KeyCode::Right => {
                let count: usize = chars_of(&self.value).len();
                self.cursor = if self.cursor < count {
                    self.cursor + 1
                } else {
                    count
                };
                self.selected = false;
            },
            KeyCode::Home => {
                self.cursor = 0;
                self.selected = false;
            },
            KeyCode::End => {
                self.cursor = chars_of(&self.value).len();
                self.selected = false;
            },
            _ => {},
        }
    }

    /// Types one character at the cursor.
    fn insert(&mut self, character: char)
        requires
            old(self)@.wf(),
        ensures
            final(self)@ == old(self)@.typed(character),
            final(self)@.wf(),
    {
        self.replace_selection();
        let mut characters = chars_of(&self.value);
        characters.insert(self.cursor, character);
        self.value = string_of(&characters, 0, characters.len());
        assert(self.value@ =~= characters@);
        self.cursor = self.cursor + 1;
    }

    /// Removes the selection, or else the character before the cursor.
    pub fn backspace(&mut self)
        requires
            old(self)@.wf(),
        ensures
            final(self)@ == old(self)@.erased(),
            final(self)@.wf(),
    {
        if self.selected {
            self.replace_selection();
            return;
        }
        if self.cursor == 0 {
            return;
        }
        let mut characters = chars_of(&self.value);
        characters.remove(self.cursor - 1);
        self.value = string_of(&characters, 0, characters.len());
        assert(self.value@ =~= characters@);
        self.cursor = self.cursor - 1;
    }

    /// A line with the same contents.
    pub fn copy(&self) -> (input: TextInput)
        ensures
            input@ == self@,
    {
        TextInput { value: self.value.clone(), cursor: self.cursor, selected: self.selected }
    }
}

/// Backspace takes back what a plain character key typed.
pub proof fn typing_then_backspace(input: TextView, character: char)
    requires
        input.wf(),
    ensures
        input.typed(character).erased() == input.replaced(),
{
    let base = input.replaced();
    assert(base.value.insert(base.cursor, character).remove(base.cursor) =~= base.value);
}

/// Every key keeps the cursor inside the text.
pub proof fn keys_keep_the_cursor_inside(input: TextView, key: KeyEvent)
    requires
        input.wf(),
    ensures
        input.after_key(key).wf(),
{
}

/// What a key makes of a line of text: a character that is typed stands at the cursor, which goes
/// behind it, and takes the place of a selected text; the backspace key removes the character before
/// the cursor, or the selected text; the arrows and the keys for the ends move the cursor only.
pub proof fn keys_edit_the_line(input: TextView, key: KeyEvent)
    requires
        input.wf(),
    ensures
        ({
            let after = input.after_key(key);
            let at = input.cursor;
            let length = input.value.len() as int;
            let plain = !key.modifiers.control && !key.modifiers.alt;
            let c = key.code->Char_0;
            &&& key.code is Char && plain && !input.selected ==> {
                &&& after.value == input.value.take(at) + seq![c] + input.value.skip(at)
                &&& after.cursor == at + 1
                &&& !after.selected
            }
            &&& key.code is Char && plain && input.selected ==> {
                &&& after.value == seq![c]
                &&& after.cursor == 1
                &&& !after.selected
            }
            &&& key.modifiers.control && key.code == KeyCode::Char('u') ==> after.value.len() == 0
                && after.cursor == 0 && !after.selected
            &&& key.code == KeyCode::Backspace || (key.modifiers.control && key.code
                == KeyCode::Char('h')) ==> {
                &&& input.selected ==> after.value.len() == 0 && after.cursor == 0
                    && !after.selected
                &&& !input.selected && at > 0 ==> after.value == input.value.take(at - 1)
                    + input.value.skip(at) && after.cursor == at - 1
                &&& !input.selected && at == 0 ==> after == input
            }
            &&& key.code == KeyCode::Left ==> after.cursor == if at > 0 {
                at - 1
            } else {
                0
            }
            &&& key.code == KeyCode::Right ==> after.cursor == if at < length {
                at + 1
            } else {
                length
            }
            &&& key.code == KeyCode::Home ==> after.cursor == 0
            &&& key.code == KeyCode::End ==> after.cursor == length
            &&& key.code == KeyCode::Left || key.code == KeyCode::Right || key.code == KeyCode::Home
                || key.code == KeyCode::End ==> after.value == input.value && !after.selected
            &&& !(key.code is Char) && key.code != KeyCode::Backspace && key.code != KeyCode::Left
                && key.code != KeyCode::Right && key.code != KeyCode::Home && key.code
                != KeyCode::End ==> after == input
            &&& key.code is Char && !plain && !(key.modifiers.control && (c == 'u'
                || c == 'h')) ==> after == input
        }),
{
    let at = input.cursor;
    if let KeyCode::Char(c) = key.code {
        if !input.selected {
            assert(input.value.insert(at, c) =~= input.value.take(at) + seq![c]
                + input.value.skip(at));
        } else {
            assert(Seq::<char>::empty().insert(0, c) =~= seq![c]);
        }
    }
    if !input.selected && at > 0 {
        assert(input.value.remove(at - 1) =~= input.value.take(at - 1) + input.value.skip(at));
    }
}

/// A line after some keys.
pub open spec fn after_keys(input: TextView, keys: Seq<KeyEvent>) -> TextView
    decreases keys.len(),
{
    if keys.len() == 0 {
        input
    } else {
        after_keys(input, keys.drop_last()).after_key(keys.last())
    }
}

/// Typing the characters of a text at the end of a line leaves the line with the text behind it.
pub proof fn typed_texts_are_appended(input: TextView, keys: Seq<KeyEvent>, typed: Seq<char>)
    requires
        !input.selected,
        input.cursor == input.value.len(),
        keys.len() == typed.len(),
        forall|i: int|
            0 <= i < keys.len() ==> (#[trigger] keys[i]).code == KeyCode::Char(typed[i])
                && !keys[i].modifiers.control && !keys[i].modifiers.alt,
    ensures
        after_keys(input, keys).value == input.value + typed,
        after_keys(input, keys).cursor == input.value.len() + typed.len(),
        !after_keys(input, keys).selected,
    decreases keys.len(),
{
    if keys.len() == 0 {
        assert(input.value + typed =~= input.value);
    } else {
        let fewer = keys.drop_last();
        let shorter = typed.drop_last();
        assert forall|i: int| 0 <= i < fewer.len() implies (#[trigger] fewer[i]).code
            == KeyCode::Char(shorter[i]) && !fewer[i].modifiers.control && !fewer[i].modifiers.alt by {
            assert(fewer[i] == keys[i]);
        }
        typed_texts_are_appended(input, fewer, shorter);
        let before = after_keys(input, fewer);
        let key = keys[keys.len() - 1];
        assert(keys.last() == key);
        keys_edit_the_line(before, key);
        assert(before.value.take(before.cursor) =~= before.value);
        assert(before.value.skip(before.cursor) =~= Seq::<char>::empty());
        assert(after_keys(input, keys).value =~= input.value + typed);
    }
}

} // verus!
