//! The document model: selections, fields, search matches, and themes.

use vstd::prelude::*;

verus! {

/// The number of bytes in a row of the viewer by default.
pub const DEFAULT_BYTES_PER_ROW: usize = 16;

/// A range of bytes between two offsets, both inside it, in either order.
#[derive(Clone, Copy, Debug, PartialEq, Eq, Structural)]
pub struct Selection {
    pub anchor: usize,
    pub cursor: usize,
}

impl Default for Selection {
    fn default() -> (value: Self)
        ensures
            value == (Selection { anchor: 0, cursor: 0 }),
    {
        Selection { anchor: 0, cursor: 0 }
    }
}

impl Selection {
    /// The lower end of the range.
    pub open spec fn low(self) -> int {
        if self.anchor <= self.cursor {
            self.anchor as int
        } else {
            self.cursor as int
        }
    }

    /// The upper end of the range.
    pub open spec fn high(self) -> int {
        if self.anchor <= self.cursor {
            self.cursor as int
        } else {
            self.anchor as int
        }
    }

    /// Whether `offset` lies in the range.
    pub open spec fn covers(self, offset: int) -> bool {
        self.low() <= offset <= self.high()
    }

    /// The selection of one byte, as a value.
    pub open spec fn at(offset: int) -> Selection {
        Selection { anchor: offset as usize, cursor: offset as usize }
    }

    /// The selection of the byte at `offset`.
    pub fn new(offset: usize) -> (selection: Self)
        ensures
            selection == (Selection { anchor: offset, cursor: offset }),
            selection == Selection::at(offset as int),
    {
        Selection { anchor: offset, cursor: offset }
    }

    /// The lower end of the range.
    pub fn start(self) -> (offset: usize)
        ensures
            offset == self.low(),
    {
        if self.anchor <= self.cursor {
            self.anchor
        } else {
            self.cursor
        }
    }

    /// The upper end of the range.
    pub fn end(self) -> (offset: usize)
        ensures
            offset == self.high(),
    {
        if self.anchor <= self.cursor {
            self.cursor
        } else {
            self.anchor
        }
    }

    /// The number of bytes in the range.
    pub fn len(self) -> (count: usize)
        requires
            self.high() - self.low() < usize::MAX,
        ensures
            count == self.high() - self.low() + 1,
    {
        self.end() - self.start() + 1
    }

    /// Whether `offset` lies in the range.
    pub fn contains(self, offset: usize) -> (inside: bool)
        ensures
            inside == self.covers(offset as int),
    {
        self.start() <= offset && offset <= self.end()
    }
}

/// A colour of the terminal.
#[derive(Clone, Copy, Debug, PartialEq, Eq, Structural)]
pub enum Color {
    Black,
    DarkGray,
    Gray,
    White,
    Red,
    LightRed,
    Green,
    LightGreen,
    Yellow,
    LightYellow,
    Blue,
    LightBlue,
    Magenta,
    LightMagenta,
    Cyan,
    LightCyan,
}

/// A named range of bytes, with both ends inside it.
#[derive(Clone, Debug, PartialEq, Eq)]
pub struct Field {
    pub name: String,
    pub description: String,
    pub start: usize,
    pub end: usize,
    pub color: FieldColor,
}

/// The contents of a [`Field`].
pub struct FieldView {
    pub name: Seq<char>,
    pub description: Seq<char>,
    pub start: int,
    pub end: int,
    pub color: FieldColor,
}

impl View for Field {
    type V = FieldView;

    open spec fn view(&self) -> FieldView {
        FieldView {
            name: self.name@,
            description: self.description@,
            start: self.start as int,
            end: self.end as int,
            color: self.color,
        }
    }
}

impl Field {
    /// Whether `offset` lies in the field.
    pub fn contains(&self, offset: usize) -> (inside: bool)
        ensures
            inside == (self.start <= offset <= self.end),
    {
        self.start <= offset && offset <= self.end
    }

    /// A field with the same contents.
    pub fn copy(&self) -> (field: Field)
        ensures
            field@ == self@,
    {
        Field {
            name: self.name.clone(),
            description: self.description.clone(),
            start: self.start,
            end: self.end,
            color: self.color,
        }
    }
}

/// The fields that annotate a file, as they are stored.
#[derive(Clone, Debug, PartialEq, Eq)]
pub struct Overlay {
    pub fields: Vec<Field>,
}

/// A range of bytes that a search found, with both ends inside it.
#[derive(Clone, Copy, Debug, PartialEq, Eq, Structural)]
pub struct SearchMatch {
    pub start: usize,
    pub end: usize,
}

impl SearchMatch {
    /// Whether `offset` lies in the match.
    pub open spec fn covers(self, offset: int) -> bool {
        self.start <= offset <= self.end
    }

    /// Whether `offset` lies in the match.
    pub fn contains(&self, offset: usize) -> (inside: bool)
        ensures
            inside == self.covers(offset as int),
    {
        self.start <= offset && offset <= self.end
    }
}

/// The colour of a field.
#[derive(Clone, Copy, Debug, PartialEq, Eq, Structural)]
pub enum FieldColor {
    Cyan,
    Green,
    Yellow,
    Magenta,
    Blue,
    Red,
}

impl Default for FieldColor {
    fn default() -> (value: Self)
        ensures
            value == FieldColor::Cyan,
    {
        FieldColor::Cyan
    }
}

impl FieldColor {
    /// Every value, in the order in which they are cycled.
    pub const ALL: [FieldColor; 6] = [
        FieldColor::Cyan,
        FieldColor::Green,
        FieldColor::Yellow,
        FieldColor::Magenta,
        FieldColor::Blue,
        FieldColor::Red,
    ];

    /// The place of the value in the cycling order.
    pub open spec fn position(self) -> int {
        match self {
            FieldColor::Cyan => 0,
            FieldColor::Green => 1,
            FieldColor::Yellow => 2,
            FieldColor::Magenta => 3,
            FieldColor::Blue => 4,
            FieldColor::Red => 5,
        }
    }

    /// The value that follows, the first one after the last.
    pub fn next(self) -> (value: Self)
        ensures
            value.position() == (self.position() + 1) % 6,
    {
        match self {
            FieldColor::Cyan => FieldColor::Green,
            FieldColor::Green => FieldColor::Yellow,
            FieldColor::Yellow => FieldColor::Magenta,
            FieldColor::Magenta => FieldColor::Blue,
            FieldColor::Blue => FieldColor::Red,
            FieldColor::Red => FieldColor::Cyan,
        }
    }

    /// The value that precedes, the last one before the first.
    pub fn previous(self) -> (value: Self)
        ensures
            value.position() == (self.position() + 5) % 6,
    {
        match self {
            FieldColor::Cyan => FieldColor::Red,
            FieldColor::Green => FieldColor::Cyan,
            FieldColor::Yellow => FieldColor::Green,
            FieldColor::Magenta => FieldColor::Yellow,
            FieldColor::Blue => FieldColor::Magenta,
            FieldColor::Red => FieldColor::Blue,
        }
    }

    /// The name shown to the user.
    pub open spec fn label(self) -> Seq<char> {
        match self {
            FieldColor::Cyan => "cyan"@,
            FieldColor::Green => "green"@,
            FieldColor::Yellow => "yellow"@,
            FieldColor::Magenta => "magenta"@,
            FieldColor::Blue => "blue"@,
            FieldColor::Red => "red"@,
        }
    }

    /// The name shown to the user.
    pub fn name(self) -> (name: &'static str)
        ensures
            name@ == self.label(),
    {
        match self {
            FieldColor::Cyan => "cyan",
            FieldColor::Green => "green",
            FieldColor::Yellow => "yellow",
            FieldColor::Magenta => "magenta",
            FieldColor::Blue => "blue",
            FieldColor::Red => "red",
        }
    }

    /// The terminal colour of the same name.
    pub open spec fn terminal_color(self) -> Color {
        match self {
            FieldColor::Cyan => Color::Cyan,
            FieldColor::Green => Color::Green,
            FieldColor::Yellow => Color::Yellow,
            FieldColor::Magenta => Color::Magenta,
            FieldColor::Blue => Color::Blue,
            FieldColor::Red => Color::Red,
        }
    }

    /// The terminal colour of the same name.
    pub fn color(self) -> (color: Color)
        ensures
            color == self.terminal_color(),
    {
        match self {
            FieldColor::Cyan => Color::Cyan,
            FieldColor::Green => Color::Green,
            FieldColor::Yellow => Color::Yellow,
            FieldColor::Magenta => Color::Magenta,
            FieldColor::Blue => Color::Blue,
            FieldColor::Red => Color::Red,
        }
    }
}

/// The values of `FieldColor` are told apart by their place in the cycling order, and `next` and
/// `previous` undo each other.
pub proof fn field_color_cycle(value: FieldColor, after: FieldColor, back: FieldColor)
    requires
        after.position() == (value.position() + 1) % 6,
        back.position() == (after.position() + 5) % 6,
    ensures
        0 <= value.position() < 6,
        back == value,
        after != value,
{
}

/// How bytes are coloured by their value or place.
#[derive(Clone, Copy, Debug, PartialEq, Eq, Structural)]
pub enum ByteColorMode {
    Plain,
    Alternating,
    ByteClass,
    HighNibble,
    LowNibble,
    ZeroBytes,
    Printable,
    ValueBands,
}

impl Default for ByteColorMode {
    fn default() -> (value: Self)
        ensures
            value == ByteColorMode::Plain,
    {
        ByteColorMode::Plain
    }
}

impl ByteColorMode {
    /// Every value, in the order in which they are cycled.
    pub const ALL: [ByteColorMode; 8] = [
        ByteColorMode::Plain,
        ByteColorMode::Alternating,
        ByteColorMode::ByteClass,
        ByteColorMode::HighNibble,
        ByteColorMode::LowNibble,
        ByteColorMode::ZeroBytes,
        ByteColorMode::Printable,
        ByteColorMode::ValueBands,
    ];

    /// The place of the value in the cycling order.
    pub open spec fn position(self) -> int {
        match self {
            ByteColorMode::Plain => 0,
            ByteColorMode::Alternating => 1,
            ByteColorMode::ByteClass => 2,
            ByteColorMode::HighNibble => 3,
            ByteColorMode::LowNibble => 4,
            ByteColorMode::ZeroBytes => 5,
            ByteColorMode::Printable => 6,
            ByteColorMode::ValueBands => 7,
        }
    }

    /// The value that follows, the first one after the last.
    pub fn next(self) -> (value: Self)
        ensures
            value.position() == (self.position() + 1) % 8,
    {
        match self {
            ByteColorMode::Plain => ByteColorMode::Alternating,
            ByteColorMode::Alternating => ByteColorMode::ByteClass,
            ByteColorMode::ByteClass => ByteColorMode::HighNibble,
            ByteColorMode::HighNibble => ByteColorMode::LowNibble,
            ByteColorMode::LowNibble => ByteColorMode::ZeroBytes,
            ByteColorMode::ZeroBytes => ByteColorMode::Printable,
            ByteColorMode::Printable => ByteColorMode::ValueBands,
            ByteColorMode::ValueBands => ByteColorMode::Plain,
        }
    }

    /// The value that precedes, the last one before the first.
    pub fn previous(self) -> (value: Self)
        ensures
            value.position() == (self.position() + 7) % 8,
    {
        match self {
            ByteColorMode::Plain => ByteColorMode::ValueBands,
            ByteColorMode::Alternating => ByteColorMode::Plain,
            ByteColorMode::ByteClass => ByteColorMode::Alternating,
            ByteColorMode::HighNibble => ByteColorMode::ByteClass,
            ByteColorMode::LowNibble => ByteColorMode::HighNibble,
            ByteColorMode::ZeroBytes => ByteColorMode::LowNibble,
            ByteColorMode::Printable => ByteColorMode::ZeroBytes,
            ByteColorMode::ValueBands => ByteColorMode::Printable,
        }
    }

    /// The name shown to the user.
    pub open spec fn label(self) -> Seq<char> {
        match self {
            ByteColorMode::Plain => "plain white"@,
            ByteColorMode::Alternating => "alternating bytes"@,
            ByteColorMode::ByteClass => "byte classes"@,
            ByteColorMode::HighNibble => "high-nibble bands"@,
            ByteColorMode::LowNibble => "low-nibble bands"@,
            ByteColorMode::ZeroBytes => "zero vs non-zero"@,
            ByteColorMode::Printable => "printable vs binary"@,
            ByteColorMode::ValueBands => "four value bands"@,
        }
    }

    /// The name shown to the user.
    pub fn name(self) -> (name: &'static str)
        ensures
            name@ == self.label(),
    {
        match self {
            ByteColorMode::Plain => "plain white",
            ByteColorMode::Alternating => "alternating bytes",
            ByteColorMode::ByteClass => "byte classes",
            ByteColorMode::HighNibble => "high-nibble bands",
            ByteColorMode::LowNibble => "low-nibble bands",
            ByteColorMode::ZeroBytes => "zero vs non-zero",
            ByteColorMode::Printable => "printable vs binary",
            ByteColorMode::ValueBands => "four value bands",
        }
    }
}

/// The values of `ByteColorMode` are told apart by their place in the cycling order, and `next` and
/// `previous` undo each other.
pub proof fn byte_color_mode_cycle(value: ByteColorMode, after: ByteColorMode, back: ByteColorMode)
    requires
        after.position() == (value.position() + 1) % 8,
        back.position() == (after.position() + 7) % 8,
    ensures
        0 <= value.position() < 8,
        back == value,
        after != value,
{
}

/// A colour that a theme can use.
#[derive(Clone, Copy, Debug, PartialEq, Eq, Structural)]
pub enum NamedColor {
    Black,
    DarkGray,
    Gray,
    White,
    Red,
    LightRed,
    Green,
    LightGreen,
    Yellow,
    LightYellow,
    Blue,
    LightBlue,
    Magenta,
    LightMagenta,
    Cyan,
    LightCyan,
}

impl Default for NamedColor {
    fn default() -> (value: Self)
        ensures
            value == NamedColor::White,
    {
        NamedColor::White
    }
}

impl NamedColor {
    /// Every value, in the order in which they are cycled.
    pub const ALL: [NamedColor; 16] = [
        NamedColor::Black,
        NamedColor::DarkGray,
        NamedColor::Gray,
        NamedColor::White,
        NamedColor::Red,
        NamedColor::LightRed,
        NamedColor::Green,
        NamedColor::LightGreen,
        NamedColor::Yellow,
        NamedColor::LightYellow,
        NamedColor::Blue,
        NamedColor::LightBlue,
        NamedColor::Magenta,
        NamedColor::LightMagenta,
        NamedColor::Cyan,
        NamedColor::LightCyan,
    ];

    /// The place of the value in the cycling order.
    pub open spec fn position(self) -> int {
        match self {
            NamedColor::Black => 0,
            NamedColor::DarkGray => 1,
            NamedColor::Gray => 2,
            NamedColor::White => 3,
            NamedColor::Red => 4,
            NamedColor::LightRed => 5,
            NamedColor::Green => 6,
            NamedColor::LightGreen => 7,
            NamedColor::Yellow => 8,
            NamedColor::LightYellow => 9,
            NamedColor::Blue => 10,
            NamedColor::LightBlue => 11,
            NamedColor::Magenta => 12,
            NamedColor::LightMagenta => 13,
            NamedColor::Cyan => 14,
            NamedColor::LightCyan => 15,
        }
    }

    /// The value that follows, the first one after the last.
    pub fn next(self) -> (value: Self)
        ensures
            value.position() == (self.position() + 1) % 16,
    {
        match self {
            NamedColor::Black => NamedColor::DarkGray,
            NamedColor::DarkGray => NamedColor::Gray,
            NamedColor::Gray => NamedColor::White,
            NamedColor::White => NamedColor::Red,
            NamedColor::Red => NamedColor::LightRed,
            NamedColor::LightRed => NamedColor::Green,
            NamedColor::Green => NamedColor::LightGreen,
            NamedColor::LightGreen => NamedColor::Yellow,
            NamedColor::Yellow => NamedColor::LightYellow,
            NamedColor::LightYellow => NamedColor::Blue,
            NamedColor::Blue => NamedColor::LightBlue,
            NamedColor::LightBlue => NamedColor::Magenta,
            NamedColor::Magenta => NamedColor::LightMagenta,
            NamedColor::LightMagenta => NamedColor::Cyan,
            NamedColor::Cyan => NamedColor::LightCyan,
            NamedColor::LightCyan => NamedColor::Black,
        }
    }

    /// The value that precedes, the last one before the first.
    pub fn previous(self) -> (value: Self)
        ensures
            value.position() == (self.position() + 15) % 16,
    {
        match self {
            NamedColor::Black => NamedColor::LightCyan,
            NamedColor::DarkGray => NamedColor::Black,
            NamedColor::Gray => NamedColor::DarkGray,
            NamedColor::White => NamedColor::Gray,
            NamedColor::Red => NamedColor::White,
            NamedColor::LightRed => NamedColor::Red,
            NamedColor::Green => NamedColor::LightRed,
            NamedColor::LightGreen => NamedColor::Green,
            NamedColor::Yellow => NamedColor::LightGreen,
            NamedColor::LightYellow => NamedColor::Yellow,
            NamedColor::Blue => NamedColor::LightYellow,
            NamedColor::LightBlue => NamedColor::Blue,
            NamedColor::Magenta => NamedColor::LightBlue,
            NamedColor::LightMagenta => NamedColor::Magenta,
            NamedColor::Cyan => NamedColor::LightMagenta,
            NamedColor::LightCyan => NamedColor::Cyan,
        }
    }

    /// The name shown to the user.
    pub open spec fn label(self) -> Seq<char> {
        match self {
            NamedColor::Black => "black"@,
            NamedColor::DarkGray => "dark gray"@,
            NamedColor::Gray => "gray"@,
            NamedColor::White => "white"@,
            NamedColor::Red => "red"@,
            NamedColor::LightRed => "light red"@,
            NamedColor::Green => "green"@,
            NamedColor::LightGreen => "light green"@,
            NamedColor::Yellow => "yellow"@,
            NamedColor::LightYellow => "light yellow"@,
            NamedColor::Blue => "blue"@,
            NamedColor::LightBlue => "light blue"@,
            NamedColor::Magenta => "magenta"@,
            NamedColor::LightMagenta => "light magenta"@,
            NamedColor::Cyan => "cyan"@,
            NamedColor::LightCyan => "light cyan"@,
        }
    }

    /// The name shown to the user.
    pub fn name(self) -> (name: &'static str)
        ensures
            name@ == self.label(),
    {
        match self {
            NamedColor::Black => "black",
            NamedColor::DarkGray => "dark gray",
            NamedColor::Gray => "gray",
            NamedColor::White => "white",
            NamedColor::Red => "red",
            NamedColor::LightRed => "light red",
            NamedColor::Green => "green",
            NamedColor::LightGreen => "light green",
            NamedColor::Yellow => "yellow",
            NamedColor::LightYellow => "light yellow",
            NamedColor::Blue => "blue",
            NamedColor::LightBlue => "light blue",
            NamedColor::Magenta => "magenta",
            NamedColor::LightMagenta => "light magenta",
            NamedColor::Cyan => "cyan",
            NamedColor::LightCyan => "light cyan",
        }
    }

    /// The terminal colour of the same name.
    pub open spec fn terminal_color(self) -> Color {
        match self {
            NamedColor::Black => Color::Black,
            NamedColor::DarkGray => Color::DarkGray,
            NamedColor::Gray => Color::Gray,
            NamedColor::White => Color::White,
            NamedColor::Red => Color::Red,
            NamedColor::LightRed => Color::LightRed,
            NamedColor::Green => Color::Green,
            NamedColor::LightGreen => Color::LightGreen,
            NamedColor::Yellow => Color::Yellow,
            NamedColor::LightYellow => Color::LightYellow,
            NamedColor::Blue => Color::Blue,
            NamedColor::LightBlue => Color::LightBlue,
            NamedColor::Magenta => Color::Magenta,
            NamedColor::LightMagenta => Color::LightMagenta,
            NamedColor::Cyan => Color::Cyan,
            NamedColor::LightCyan => Color::LightCyan,
        }
    }

    /// The terminal colour of the same name.
    pub fn color(self) -> (color: Color)
        ensures
            color == self.terminal_color(),
    {
        match self {
            NamedColor::Black => Color::Black,
            NamedColor::DarkGray => Color::DarkGray,
            NamedColor::Gray => Color::Gray,
            NamedColor::White => Color::White,
            NamedColor::Red => Color::Red,
            NamedColor::LightRed => Color::LightRed,
            NamedColor::Green => Color::Green,
            NamedColor::LightGreen => Color::LightGreen,
            NamedColor::Yellow => Color::Yellow,
            NamedColor::LightYellow => Color::LightYellow,
            NamedColor::Blue => Color::Blue,
            NamedColor::LightBlue => Color::LightBlue,
            NamedColor::Magenta => Color::Magenta,
            NamedColor::LightMagenta => Color::LightMagenta,
            NamedColor::Cyan => Color::Cyan,
            NamedColor::LightCyan => Color::LightCyan,
        }
    }
}

/// The values of `NamedColor` are told apart by their place in the cycling order, and `next` and
/// `previous` undo each other.
pub proof fn named_color_cycle(value: NamedColor, after: NamedColor, back: NamedColor)
    requires
        after.position() == (value.position() + 1) % 16,
        back.position() == (after.position() + 15) % 16,
    ensures
        0 <= value.position() < 16,
        back == value,
        after != value,
{
}

/// The colours of the viewer.
#[derive(Clone, Debug, PartialEq, Eq)]
pub struct Theme {
    pub name: String,
    pub byte_mode: ByteColorMode,
    pub hex_primary: NamedColor,
    pub hex_secondary: NamedColor,
    pub ascii: NamedColor,
    pub offset: NamedColor,
    pub border: NamedColor,
    pub selection_background: NamedColor,
    pub search_background: NamedColor,
    pub modified: NamedColor,
}

/// The contents of a [`Theme`].
pub struct ThemeView {
    pub name: Seq<char>,
    pub byte_mode: ByteColorMode,
    pub hex_primary: NamedColor,
    pub hex_secondary: NamedColor,
    pub ascii: NamedColor,
    pub offset: NamedColor,
    pub border: NamedColor,
    pub selection_background: NamedColor,
    pub search_background: NamedColor,
    pub modified: NamedColor,
}

impl View for Theme {
    type V = ThemeView;

    open spec fn view(&self) -> ThemeView {
        ThemeView {
            name: self.name@,
            byte_mode: self.byte_mode,
            hex_primary: self.hex_primary,
            hex_secondary: self.hex_secondary,
            ascii: self.ascii,
            offset: self.offset,
            border: self.border,
            selection_background: self.selection_background,
            search_background: self.search_background,
            modified: self.modified,
        }
    }
}

/// The theme that is in use until another one is chosen.
pub open spec fn default_theme() -> ThemeView {
    ThemeView {
        name: "Default"@,
        byte_mode: ByteColorMode::Plain,
        hex_primary: NamedColor::White,
        hex_secondary: NamedColor::Cyan,
        ascii: NamedColor::Green,
        offset: NamedColor::DarkGray,
        border: NamedColor::DarkGray,
        selection_background: NamedColor::Blue,
        search_background: NamedColor::DarkGray,
        modified: NamedColor::LightRed,
    }
}

impl Default for Theme {
    fn default() -> (theme: Self)
        ensures
            theme@ == default_theme(),
    {
        Theme {
            name: "Default".to_owned(),
            byte_mode: ByteColorMode::Plain,
            hex_primary: NamedColor::White,
            hex_secondary: NamedColor::Cyan,
            ascii: NamedColor::Green,
            offset: NamedColor::DarkGray,
            border: NamedColor::DarkGray,
            selection_background: NamedColor::Blue,
            search_background: NamedColor::DarkGray,
            modified: NamedColor::LightRed,
        }
    }
}

/// Whether a byte is a printable ASCII character or a space.
pub open spec fn is_printable(byte: u8) -> bool {
    0x20 <= byte <= 0x7E
}

impl ThemeView {
    /// The colour of a byte in the hexadecimal or the text column.
    pub open spec fn byte_color(self, at: int, byte: u8, ascii: bool) -> NamedColor {
        if ascii {
            self.ascii
        } else {
            match self.byte_mode {
                ByteColorMode::Plain => self.hex_primary,
                ByteColorMode::Alternating => if at % 2 == 0 {
                    self.hex_primary
                } else {
                    self.hex_secondary
                },
                ByteColorMode::ByteClass => if byte == 0 {
                    self.offset
                } else if is_printable(byte) {
                    self.hex_secondary
                } else if byte < 0x20 || byte == 0x7F {
                    self.modified
                } else {
                    self.hex_primary
                },
                ByteColorMode::HighNibble => if byte < 0x80 {
                    self.hex_primary
                } else {
                    self.hex_secondary
                },
                ByteColorMode::LowNibble => if byte % 16 < 8 {
                    self.hex_primary
                } else {
                    self.hex_secondary
                },
                ByteColorMode::ZeroBytes => if byte == 0 {
                    self.hex_secondary
                } else {
                    self.hex_primary
                },
                ByteColorMode::Printable => if is_printable(byte) {
                    self.hex_secondary
                } else {
                    self.hex_primary
                },
                ByteColorMode::ValueBands => if byte < 0x40 {
                    self.offset
                } else if byte < 0x80 {
                    self.hex_secondary
                } else if byte < 0xC0 {
                    self.hex_primary
                } else {
                    self.modified
                },
            }
        }
    }

    /// The theme after the value in row `active` of the theme editor moved one step.
    pub open spec fn changed(self, active: int, forward: bool) -> ThemeView {
        if active == 1 {
            ThemeView { byte_mode: step_mode(self.byte_mode, forward), ..self }
        } else if active == 2 {
            ThemeView { hex_primary: step_color(self.hex_primary, forward), ..self }
        } else if active == 3 {
            ThemeView { hex_secondary: step_color(self.hex_secondary, forward), ..self }
        } else if active == 4 {
            ThemeView { ascii: step_color(self.ascii, forward), ..self }
        } else if active == 5 {
            ThemeView { offset: step_color(self.offset, forward), ..self }
        } else if active == 6 {
            ThemeView { border: step_color(self.border, forward), ..self }
        } else if active == 7 {
            ThemeView { selection_background: step_color(self.selection_background, forward), ..self }
        } else if active == 8 {
            ThemeView { search_background: step_color(self.search_background, forward), ..self }
        } else if active == 9 {
            ThemeView { modified: step_color(self.modified, forward), ..self }
        } else {
            self
        }
    }
}

/// The mode that follows or precedes `mode` in the cycling order.
#[verifier::opaque]
pub open spec fn step_mode(mode: ByteColorMode, forward: bool) -> ByteColorMode {
    choose|m: ByteColorMode|
        m.position() == (mode.position() + if forward {
            1int
        } else {
            7
        }) % 8
}

/// The colour that follows or precedes `color` in the cycling order.
#[verifier::opaque]
pub open spec fn step_color(color: NamedColor, forward: bool) -> NamedColor {
    choose|c: NamedColor|
        c.position() == (color.position() + if forward {
            1int
        } else {
            15
        }) % 16
}

/// The field colour that follows or precedes `color` in the cycling order.
#[verifier::opaque]
pub open spec fn step_field_color(color: FieldColor, forward: bool) -> FieldColor {
    choose|c: FieldColor|
        c.position() == (color.position() + if forward {
            1int
        } else {
            5
        }) % 6
}

/// The mode one step from `mode`.
pub fn stepped_mode(mode: ByteColorMode, forward: bool) -> (out: ByteColorMode)
    ensures
        out == step_mode(mode, forward),
{
    proof {
        reveal(step_mode);
    }
    if forward {
        mode.next()
    } else {
        mode.previous()
    }
}

/// The colour one step from `color`.
pub fn stepped_color(color: NamedColor, forward: bool) -> (out: NamedColor)
    ensures
        out == step_color(color, forward),
{
    proof {
        reveal(step_color);
    }
    if forward {
        color.next()
    } else {
        color.previous()
    }
}

/// The field colour one step from `color`.
pub fn stepped_field_color(color: FieldColor, forward: bool) -> (out: FieldColor)
    ensures
        out == step_field_color(color, forward),
{
    proof {
        reveal(step_field_color);
    }
    if forward {
        color.next()
    } else {
        color.previous()
    }
}

impl Theme {
    /// The colour of a byte in the hexadecimal or the text column.
    pub fn color_for_byte(&self, at: usize, byte: u8, ascii: bool) -> (color: NamedColor)
        ensures
            color == self@.byte_color(at as int, byte, ascii),
    {
        if ascii {
            return self.ascii;
        }
        let printable = 0x20 <= byte && byte <= 0x7E;
        match self.byte_mode {
            ByteColorMode::Plain => self.hex_primary,
            ByteColorMode::Alternating => {
                if at % 2 == 0 {
                    self.hex_primary
                } else {
                    self.hex_secondary
                }
            },
            ByteColorMode::ByteClass => {
                if byte == 0 {
                    self.offset
                } else if printable {
                    self.hex_secondary
                } else if byte < 0x20 || byte == 0x7F {
                    self.modified
                } else {
                    self.hex_primary
                }
            },
            ByteColorMode::HighNibble => {
                if byte / 16 < 8 {
                    self.hex_primary
                } else {
                    self.hex_secondary
                }
            },
            ByteColorMode::LowNibble => {
                if byte % 16 < 8 {
                    self.hex_primary
                } else {
                    self.hex_secondary
                }
            },
            ByteColorMode::ZeroBytes => {
                if byte == 0 {
                    self.hex_secondary
                } else {
                    self.hex_primary
                }
            },
            ByteColorMode::Printable => {
                if printable {
                    self.hex_secondary
                } else {
                    self.hex_primary
                }
            },
            ByteColorMode::ValueBands => match byte / 64 {
                0 => self.offset,
                1 => self.hex_secondary,
                2 => self.hex_primary,
                _ => self.modified,
            },
        }
    }

    /// Moves the value in row `active` of the theme editor one step.
    pub fn change_value(&mut self, active: usize, forward: bool)
        ensures
            final(self)@ == old(self)@.changed(active as int, forward),
    {
        if active == 1 {
            self.byte_mode = stepped_mode(self.byte_mode, forward);
        } else if active == 2 {
            self.hex_primary = stepped_color(self.hex_primary, forward);
        } else if active == 3 {
            self.hex_secondary = stepped_color(self.hex_secondary, forward);
        } else if active == 4 {
            self.ascii = stepped_color(self.ascii, forward);
        } else if active == 5 {
            self.offset = stepped_color(self.offset, forward);
        } else if active == 6 {
            self.border = stepped_color(self.border, forward);
        } else if active == 7 {
            self.selection_background = stepped_color(self.selection_background, forward);
        } else if active == 8 {
            self.search_background = stepped_color(self.search_background, forward);
        } else if active == 9 {
            self.modified = stepped_color(self.modified, forward);
        }
    }
}

/// A step in the theme editor is undone by the opposite step.
pub proof fn theme_step_and_back(theme: ThemeView, active: int, forward: bool)
    ensures
        theme.changed(active, forward).changed(active, !forward) == theme,
{
    assert(step_mode(step_mode(theme.byte_mode, forward), !forward) == theme.byte_mode) by {
        mode_step_and_back(theme.byte_mode, forward);
    }
    color_step_and_back(theme.hex_primary, forward);
    color_step_and_back(theme.hex_secondary, forward);
    color_step_and_back(theme.ascii, forward);
    color_step_and_back(theme.offset, forward);
    color_step_and_back(theme.border, forward);
    color_step_and_back(theme.selection_background, forward);
    color_step_and_back(theme.search_background, forward);
    color_step_and_back(theme.modified, forward);
}

/// Stepping through the values of `ByteColorMode` and back again changes nothing.
pub proof fn mode_step_and_back(value: ByteColorMode, forward: bool)
    ensures
        step_mode(step_mode(value, forward), !forward) == value,
{
    lemma_step_mode(value, forward);
    lemma_step_mode(step_mode(value, forward), !forward);
    assert(value.position() == step_mode(step_mode(value, forward), !forward).position());
}

/// A step moves the place in the cycling order by one, around the ends.
pub proof fn lemma_step_mode(value: ByteColorMode, forward: bool)
    ensures
        step_mode(value, forward).position() == (value.position() + if forward {
            1int
        } else {
            7
        }) % 8,
{
    reveal(step_mode);
    let target = (value.position() + if forward {
        1int
    } else {
        7
    }) % 8;
    assert(exists|v: ByteColorMode| v.position() == target) by {
        assert(ByteColorMode::Plain.position() == 0);
        assert(ByteColorMode::Alternating.position() == 1);
        assert(ByteColorMode::ByteClass.position() == 2);
        assert(ByteColorMode::HighNibble.position() == 3);
        assert(ByteColorMode::LowNibble.position() == 4);
        assert(ByteColorMode::ZeroBytes.position() == 5);
        assert(ByteColorMode::Printable.position() == 6);
        assert(ByteColorMode::ValueBands.position() == 7);
    }
}

/// Stepping through the values of `NamedColor` and back again changes nothing.
pub proof fn color_step_and_back(value: NamedColor, forward: bool)
    ensures
        step_color(step_color(value, forward), !forward) == value,
{
    lemma_step_color(value, forward);
    lemma_step_color(step_color(value, forward), !forward);
    assert(value.position() == step_color(step_color(value, forward), !forward).position());
}

/// A step moves the place in the cycling order by one, around the ends.
pub proof fn lemma_step_color(value: NamedColor, forward: bool)
    ensures
        step_color(value, forward).position() == (value.position() + if forward {
            1int
        } else {
            15
        }) % 16,
{
    reveal(step_color);
    let target = (value.position() + if forward {
        1int
    } else {
        15
    }) % 16;
    assert(exists|v: NamedColor| v.position() == target) by {
        assert(NamedColor::Black.position() == 0);
        assert(NamedColor::DarkGray.position() == 1);
        assert(NamedColor::Gray.position() == 2);
        assert(NamedColor::White.position() == 3);
        assert(NamedColor::Red.position() == 4);
        assert(NamedColor::LightRed.position() == 5);
        assert(NamedColor::Green.position() == 6);
        assert(NamedColor::LightGreen.position() == 7);
        assert(NamedColor::Yellow.position() == 8);
        assert(NamedColor::LightYellow.position() == 9);
        assert(NamedColor::Blue.position() == 10);
        assert(NamedColor::LightBlue.position() == 11);
        assert(NamedColor::Magenta.position() == 12);
        assert(NamedColor::LightMagenta.position() == 13);
        assert(NamedColor::Cyan.position() == 14);
        assert(NamedColor::LightCyan.position() == 15);
    }
}

/// Stepping through the values of `FieldColor` and back again changes nothing.
pub proof fn field_color_step_and_back(value: FieldColor, forward: bool)
    ensures
        step_field_color(step_field_color(value, forward), !forward) == value,
{
    lemma_step_field_color(value, forward);
    lemma_step_field_color(step_field_color(value, forward), !forward);
    assert(value.position() == step_field_color(step_field_color(value, forward), !forward).position());
}

/// A step moves the place in the cycling order by one, around the ends.
pub proof fn lemma_step_field_color(value: FieldColor, forward: bool)
    ensures
        step_field_color(value, forward).position() == (value.position() + if forward {
            1int
        } else {
            5
        }) % 6,
{
    reveal(step_field_color);
    let target = (value.position() + if forward {
        1int
    } else {
        5
    }) % 6;
    assert(exists|v: FieldColor| v.position() == target) by {
        assert(FieldColor::Cyan.position() == 0);
        assert(FieldColor::Green.position() == 1);
        assert(FieldColor::Yellow.position() == 2);
        assert(FieldColor::Magenta.position() == 3);
        assert(FieldColor::Blue.position() == 4);
        assert(FieldColor::Red.position() == 5);
    }
}

/// The names that are shown: each color and each mode has its own.
pub proof fn names_say_what_they_name(field: FieldColor, mode: ByteColorMode, color: NamedColor)
    ensures
        field.label() == match field {
            FieldColor::Blue => "blue"@,
            FieldColor::Cyan => "cyan"@,
            FieldColor::Green => "green"@,
            FieldColor::Magenta => "magenta"@,
            FieldColor::Red => "red"@,
            FieldColor::Yellow => "yellow"@,
        },
        field.terminal_color() == match field {
            FieldColor::Blue => Color::Blue,
            FieldColor::Cyan => Color::Cyan,
            FieldColor::Green => Color::Green,
            FieldColor::Magenta => Color::Magenta,
            FieldColor::Red => Color::Red,
            FieldColor::Yellow => Color::Yellow,
        },
        mode.label() == match mode {
            ByteColorMode::Alternating => "alternating bytes"@,
            ByteColorMode::ByteClass => "byte classes"@,
            ByteColorMode::HighNibble => "high-nibble bands"@,
            ByteColorMode::LowNibble => "low-nibble bands"@,
            ByteColorMode::Plain => "plain white"@,
            ByteColorMode::Printable => "printable vs binary"@,
            ByteColorMode::ValueBands => "four value bands"@,
            ByteColorMode::ZeroBytes => "zero vs non-zero"@,
        },
        color.terminal_color() == match color {
            NamedColor::Black => Color::Black,
            NamedColor::Blue => Color::Blue,
            NamedColor::Cyan => Color::Cyan,
            NamedColor::DarkGray => Color::DarkGray,
            NamedColor::Gray => Color::Gray,
            NamedColor::Green => Color::Green,
            NamedColor::LightBlue => Color::LightBlue,
            NamedColor::LightCyan => Color::LightCyan,
            NamedColor::LightGreen => Color::LightGreen,
            NamedColor::LightMagenta => Color::LightMagenta,
            NamedColor::LightRed => Color::LightRed,
            NamedColor::LightYellow => Color::LightYellow,
            NamedColor::Magenta => Color::Magenta,
            NamedColor::Red => Color::Red,
            NamedColor::White => Color::White,
            NamedColor::Yellow => Color::Yellow,
        },
        color.label() == match color {
            NamedColor::Black => "black"@,
            NamedColor::Blue => "blue"@,
            NamedColor::Cyan => "cyan"@,
            NamedColor::DarkGray => "dark gray"@,
            NamedColor::Gray => "gray"@,
            NamedColor::Green => "green"@,
            NamedColor::LightBlue => "light blue"@,
            NamedColor::LightCyan => "light cyan"@,
            NamedColor::LightGreen => "light green"@,
            NamedColor::LightMagenta => "light magenta"@,
            NamedColor::LightRed => "light red"@,
            NamedColor::LightYellow => "light yellow"@,
            NamedColor::Magenta => "magenta"@,
            NamedColor::Red => "red"@,
            NamedColor::White => "white"@,
            NamedColor::Yellow => "yellow"@,
        },
{
}

/// The theme of a new file: white digits, green characters, gray offsets and borders, a blue
/// selection, gray matches, and light red marks.
pub proof fn new_files_are_plain()
    ensures
        ({
            let theme = default_theme();
            &&& theme.name == "Default"@
            &&& theme.byte_mode == ByteColorMode::Plain
            &&& theme.hex_primary.label() == "white"@
            &&& theme.hex_secondary.label() == "cyan"@
            &&& theme.ascii.label() == "green"@
            &&& theme.offset.label() == "dark gray"@
            &&& theme.border.label() == "dark gray"@
            &&& theme.selection_background.label() == "blue"@
            &&& theme.search_background.label() == "dark gray"@
            &&& theme.modified.label() == "light red"@
        }),
{
}

/// A selection runs from the smaller of its ends to the larger, and covers both and all between them.
pub proof fn selections_run_from_end_to_end(s: Selection, offset: int)
    ensures
        s.low() <= s.anchor <= s.high(),
        s.low() <= s.cursor <= s.high(),
        s.low() == s.anchor || s.low() == s.cursor,
        s.high() == s.anchor || s.high() == s.cursor,
        s.covers(offset) <==> (s.anchor <= offset <= s.cursor || s.cursor <= offset <= s.anchor),
        0 <= offset <= usize::MAX ==> Selection::at(offset).anchor == offset && Selection::at(
            offset,
        ).cursor == offset,
{
}

}
