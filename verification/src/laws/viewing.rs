//! What is shown of a file, and by which keys and mouse events that changes.

use vstd::prelude::*;

use crate::app::DocView;
use crate::effects::EffectView;
use crate::entropy::EntropyMessage;
use crate::geometry;
use crate::input::{KeyCode, KeyEvent, MouseButton, MouseEvent, MouseEventKind};
use crate::laws::selecting::{at_rest, unmodified};
use crate::model;
use crate::model::{ByteColorMode, FieldColor, NamedColor, ThemeView};
use crate::modes::{Focus, ModeView, ResetTarget, ScrollbarDrag};
use crate::rows;
use crate::rows::ViewerSettings;

verus! {

/// Scrolling to a byte leaves the viewer where it is while the byte is in sight.
pub proof fn bytes_in_sight_move_nothing(doc: DocView, offset: int)
    requires
        0 <= doc.scroll <= doc.max_scroll(),
        doc.scroll <= doc.row_of(offset) < doc.scroll + doc.visible_rows,
        doc.scroll + doc.visible_rows <= usize::MAX,
    ensures
        doc.showing(offset) == doc,
{
    reveal(DocView::scrolled);
    reveal(DocView::scroll_for);
}

/// Whether `to` is the row after `from` among `count`, the first one after the last.
pub open spec fn next_row(from: int, to: int, count: int) -> bool {
    0 <= to < count && if from + 1 == count {
        to == 0
    } else {
        to == from + 1
    }
}

/// In the editors of the settings and of the theme the tabulator and the arrows for lines go through
/// the rows, around the ends, and the keys for leaving leave; nothing else changes.
pub proof fn keys_go_through_the_rows(doc: DocView, key: KeyEvent, active: int)
    requires
        !key.modifiers.control,
        (doc.mode == ModeView::Settings(active) && 0 <= active < 7) || (doc.mode
            == ModeView::Theme(active) && 0 <= active < 10),
    ensures
        ({
            let after = doc.pressed(key).doc;
            let on = key.code == KeyCode::Down || key.code == KeyCode::Tab;
            let back = key.code == KeyCode::Up || key.code == KeyCode::BackTab;
            let leave = key.code == KeyCode::Esc || key.code == KeyCode::Enter;
            &&& on || back || leave ==> after == DocView { mode: after.mode, ..doc }
            &&& leave ==> after.mode is Normal
            &&& on && doc.mode is Settings ==> after.mode is Settings && next_row(
                active,
                after.mode->Settings_0,
                7,
            )
            &&& back && doc.mode is Settings ==> after.mode is Settings && next_row(
                after.mode->Settings_0,
                active,
                7,
            )
            &&& on && doc.mode is Theme ==> after.mode is Theme && next_row(
                active,
                after.mode->Theme_0,
                10,
            )
            &&& back && doc.mode is Theme ==> after.mode is Theme && next_row(
                after.mode->Theme_0,
                active,
                10,
            )
        }),
{
    reveal(DocView::settings_key);
    reveal(DocView::theme_key);
    reveal(DocView::in_mode);
}

/// In the settings editor the arrows for sides and the space switch the setting of the row and no
/// other; the lines are those of the new settings, and no byte changes.
pub proof fn keys_switch_settings(doc: DocView, key: KeyEvent, active: int)
    requires
        doc.settings.wf(),
        doc.mode == ModeView::Settings(active),
        0 <= active < 7,
        !key.modifiers.control,
        key.code == KeyCode::Left || key.code == KeyCode::Right || key.code == KeyCode::Char(' '),
    ensures
        ({
            let after = doc.pressed(key).doc;
            let old = doc.settings;
            let new = after.settings;
            &&& (new.show_ascii != old.show_ascii) == (active == 0)
            &&& (new.bytes_per_row != old.bytes_per_row) == (active == 1)
            &&& (new.uppercase_hex != old.uppercase_hex) == (active == 2)
            &&& (new.show_offsets != old.show_offsets) == (active == 3)
            &&& (new.show_sidebar != old.show_sidebar) == (active == 4)
            &&& (new.compress_repeated_rows != old.compress_repeated_rows) == (active == 5)
            &&& (new.show_overlays != old.show_overlays) == (active == 6)
            &&& new.wf()
            &&& after.rows == rows::rows_of(doc.bytes, new)
            &&& after == DocView { settings: new, rows: after.rows, scroll: after.scroll, ..doc }
            &&& active != 1 && active != 5 ==> after.scroll == doc.scroll
        }),
{
    assert(doc.pressed(key).doc == doc.setting_toggled(active)) by {
        reveal(DocView::settings_key);
    }
    rows::each_row_switches_one_setting(doc.settings, active);
    rows::toggling_twice_changes_nothing(doc.settings, active);
    lemma_switched(doc, active);
}

proof fn lemma_switched(doc: DocView, active: int)
    ensures
        ({
            let after = doc.setting_toggled(active);
            let settings = doc.settings.toggled(active);
            &&& after == DocView {
                settings,
                rows: rows::rows_of(doc.bytes, settings),
                scroll: after.scroll,
                ..doc
            }
            &&& active != 1 && active != 5 ==> after.scroll == doc.scroll
        }),
{
    reveal(DocView::setting_toggled);
    reveal(DocView::with_settings);
    reveal(DocView::cursor_shown);
    reveal(DocView::scrolled);
}

/// The value in a row of the theme editor has moved by one in its cycle, and all others are as they
/// were.
pub open spec fn stepped_once(old: ThemeView, new: ThemeView, active: int, forward: bool) -> bool {
    let modes = if forward {
        1int
    } else {
        7
    };
    let colors = if forward {
        1int
    } else {
        15
    };
    &&& new.name == old.name
    &&& new.byte_mode.position() == if active == 1 {
        (old.byte_mode.position() + modes) % 8
    } else {
        old.byte_mode.position()
    }
    &&& new.hex_primary.position() == if active == 2 {
        (old.hex_primary.position() + colors) % 16
    } else {
        old.hex_primary.position()
    }
    &&& new.hex_secondary.position() == if active == 3 {
        (old.hex_secondary.position() + colors) % 16
    } else {
        old.hex_secondary.position()
    }
    &&& new.ascii.position() == if active == 4 {
        (old.ascii.position() + colors) % 16
    } else {
        old.ascii.position()
    }
    &&& new.offset.position() == if active == 5 {
        (old.offset.position() + colors) % 16
    } else {
        old.offset.position()
    }
    &&& new.border.position() == if active == 6 {
        (old.border.position() + colors) % 16
    } else {
        old.border.position()
    }
    &&& new.selection_background.position() == if active == 7 {
        (old.selection_background.position() + colors) % 16
    } else {
        old.selection_background.position()
    }
    &&& new.search_background.position() == if active == 8 {
        (old.search_background.position() + colors) % 16
    } else {
        old.search_background.position()
    }
    &&& new.modified.position() == if active == 9 {
        (old.modified.position() + colors) % 16
    } else {
        old.modified.position()
    }
}

/// In the theme editor the arrows for sides move the value of the row by one in its cycle and no other,
/// and characters edit the name in the first row. Nothing but the theme changes.
pub proof fn keys_change_the_theme(doc: DocView, key: KeyEvent, active: int)
    requires
        doc.mode == ModeView::Theme(active),
        0 <= active < 10,
        !key.modifiers.control,
        key.code == KeyCode::Left || key.code == KeyCode::Right || key.code == KeyCode::Backspace
            || key.code is Char,
    ensures
        ({
            let after = doc.pressed(key).doc;
            let name = doc.theme.name;
            &&& after == DocView { theme: after.theme, ..doc }
            &&& key.code == KeyCode::Right ==> stepped_once(doc.theme, after.theme, active, true)
            &&& key.code == KeyCode::Left ==> stepped_once(doc.theme, after.theme, active, false)
            &&& active == 0 && key.code is Char ==> after.theme == (ThemeView {
                name: name.push(key.code->Char_0),
                ..doc.theme
            })
            &&& active == 0 && key.code == KeyCode::Backspace && name.len() > 0 ==> after.theme == (
            ThemeView { name: name.drop_last(), ..doc.theme })
            &&& active != 0 && (key.code is Char || key.code == KeyCode::Backspace)
                ==> after.theme == doc.theme
        }),
{
    assert(doc.pressed(key).doc == (DocView { theme: doc.pressed(key).doc.theme, ..doc })
        && doc.pressed(key).doc.theme == match key.code {
        KeyCode::Right => doc.theme.changed(active, true),
        KeyCode::Left => doc.theme.changed(active, false),
        KeyCode::Char(c) => if active == 0 {
            ThemeView { name: doc.theme.name.push(c), ..doc.theme }
        } else {
            doc.theme
        },
        _ => if active == 0 && doc.theme.name.len() > 0 {
            ThemeView { name: doc.theme.name.drop_last(), ..doc.theme }
        } else {
            doc.theme
        },
    }) by {
        reveal(DocView::theme_key);
        reveal(DocView::themed);
    }
    values_are_stepped_one_by_one(doc.theme, active, true);
    values_are_stepped_one_by_one(doc.theme, active, false);
}

/// A step in a row of the theme editor moves the value of that row by one in its cycle, and no other.
pub proof fn values_are_stepped_one_by_one(theme: ThemeView, active: int, forward: bool)
    requires
        0 <= active < 10,
    ensures
        stepped_once(theme, theme.changed(active, forward), active, forward),
{
    if active == 1 {
        model::lemma_step_mode(theme.byte_mode, forward);
    } else if active == 2 {
        model::lemma_step_color(theme.hex_primary, forward);
    } else if active == 3 {
        model::lemma_step_color(theme.hex_secondary, forward);
    } else if active == 4 {
        model::lemma_step_color(theme.ascii, forward);
    } else if active == 5 {
        model::lemma_step_color(theme.offset, forward);
    } else if active == 6 {
        model::lemma_step_color(theme.border, forward);
    } else if active == 7 {
        model::lemma_step_color(theme.selection_background, forward);
    } else if active == 8 {
        model::lemma_step_color(theme.search_background, forward);
    } else if active == 9 {
        model::lemma_step_color(theme.modified, forward);
    }
}

/// The letters that open an editor open it at its first row, the question mark opens the list of keys
/// at its start, the tabulator moves the keys between the viewer and the fields, and the letter for
/// the fields shows or hides them. None of them changes a byte or what is selected.
pub proof fn letters_open_editors(doc: DocView, key: KeyEvent)
    requires
        at_rest(doc),
        unmodified(key),
    ensures
        ({
            let after = doc.pressed(key).doc;
            let calm = DocView { quit_armed: false, ..doc };
            &&& key.code == KeyCode::Char('t') ==> after == (DocView {
                mode: ModeView::Theme(0),
                ..calm
            })
            &&& key.code == KeyCode::Char('s') ==> after == (DocView {
                mode: ModeView::Settings(0),
                ..calm
            })
            &&& key.code == KeyCode::Char('?') ==> after == (DocView {
                mode: ModeView::Help(0),
                ..doc
            })
            &&& key.code == KeyCode::Tab ==> after == (DocView { focus: after.focus, ..calm }) && (
            after.focus == Focus::Fields <==> doc.focus == Focus::Viewer) && (after.focus
                == Focus::Viewer <==> doc.focus != Focus::Viewer)
            &&& key.code == KeyCode::Char('o') ==> after == (DocView {
                settings: ViewerSettings {
                    show_overlays: !doc.settings.show_overlays,
                    ..doc.settings
                },
                rows: after.rows,
                status: after.status,
                ..calm
            }) && after.rows == rows::rows_of(doc.bytes, after.settings)
        }),
{
    reveal(DocView::normal_key);
    reveal(DocView::view_key);
    reveal(DocView::view_plain_key);
    reveal(DocView::view_character);
    reveal(DocView::with_settings);
    reveal(DocView::focused);
    reveal(DocView::in_mode);
    reveal(DocView::armed);
    reveal(DocView::say);
}

/// With the control key the letters open what a query, an offset, or a path is typed in: the last
/// query is put up again, an offset starts empty, and the binary is saved where it was opened from
/// unless another path is typed.
pub proof fn control_letters_open_inputs(doc: DocView, key: KeyEvent)
    requires
        at_rest(doc),
        key.modifiers.control,
    ensures
        ({
            let after = doc.pressed(key).doc;
            &&& key.code == KeyCode::Char('f') ==> after == (DocView { mode: after.mode, ..doc }) && (
            after.mode matches ModeView::Search(input) && input.value == doc.search.query
                && input.cursor == input.value.len() && input.selected)
            &&& key.code == KeyCode::Char('g') ==> after == (DocView { mode: after.mode, ..doc }) && (
            after.mode matches ModeView::Jump(input) && input.value.len() == 0)
            &&& key.code == KeyCode::Char('s') ==> after == (DocView { mode: after.mode, ..doc }) && (
            after.mode matches ModeView::Path(dialog) && dialog.path.input.value == doc.path
                && dialog.path.input.selected && dialog.action
                == crate::dialog::PathAction::SaveBinary)
        }),
{
    reveal(DocView::normal_key);
    reveal(DocView::view_key);
    reveal(DocView::view_control_key);
    reveal(DocView::path_requested);
    reveal(DocView::in_mode);
}

/// A reset of the theme or of the settings is asked for by the key for it in their editor, and
/// nothing is reset before it is confirmed.
pub proof fn resets_are_asked_for(doc: DocView, key: KeyEvent, active: int)
    requires
        key.modifiers.control,
        key.code == KeyCode::Char('r'),
    ensures
        doc.mode == ModeView::Theme(active) ==> doc.pressed(key).doc == (DocView {
            mode: ModeView::ConfirmReset(ResetTarget::Theme),
            ..doc
        }),
        doc.mode == ModeView::Settings(active) ==> doc.pressed(key).doc == (DocView {
            mode: ModeView::ConfirmReset(ResetTarget::Settings),
            ..doc
        }),
{
    reveal(DocView::theme_key);
    reveal(DocView::settings_key);
    reveal(DocView::in_mode);
}

/// The list of keys is scrolled by one line or ten, to its start or its end, and left by the keys for
/// leaving; nothing else changes.
pub proof fn keys_scroll_the_help(doc: DocView, key: KeyEvent, line: int)
    requires
        doc.mode == ModeView::Help(line),
        0 <= line,
        line + 10 <= usize::MAX,
    ensures
        ({
            let after = doc.pressed(key).doc;
            let back = if line > 0 {
                line - 1
            } else {
                0
            };
            let page_back = if line > 10 {
                line - 10
            } else {
                0
            };
            &&& after == DocView { mode: after.mode, ..doc }
            &&& key.code == KeyCode::Up || key.code == KeyCode::Char('k') ==> after.mode
                == ModeView::Help(back)
            &&& key.code == KeyCode::Down || key.code == KeyCode::Char('j') ==> after.mode
                == ModeView::Help(line + 1)
            &&& key.code == KeyCode::PageUp ==> after.mode == ModeView::Help(page_back)
            &&& key.code == KeyCode::PageDown ==> after.mode == ModeView::Help(line + 10)
            &&& key.code == KeyCode::Home ==> after.mode == ModeView::Help(0)
            &&& key.code == KeyCode::Esc || key.code == KeyCode::Enter || key.code
                == KeyCode::Char('?') || key.code == KeyCode::Char('q') ==> after.mode
                == ModeView::Normal
        }),
{
    reveal(DocView::help_key);
    reveal(DocView::in_mode);
}

/// The wheel scrolls what is under it by three lines, no further than its ends: the fields over their
/// list, and the viewer elsewhere. No byte changes, and nothing is selected.
pub proof fn the_wheel_scrolls_by_three(doc: DocView, mouse: MouseEvent)
    requires
        doc.mode is Normal,
        mouse.kind == MouseEventKind::ScrollUp || mouse.kind == MouseEventKind::ScrollDown,
        0 <= doc.scroll <= doc.max_scroll(),
        0 <= doc.fields_scroll <= doc.field_max_scroll(),
        doc.rows.len() + 3 <= usize::MAX,
        doc.fields.len() + 3 <= usize::MAX,
        doc.visible_rows >= 0,
        doc.visible_fields >= 0,
    ensures
        ({
            let after = doc.mouse_used(mouse);
            let over = doc.fields_area.covers(mouse.column, mouse.row);
            let up = mouse.kind == MouseEventKind::ScrollUp;
            &&& after == DocView {
                scroll: after.scroll,
                fields_scroll: after.fields_scroll,
                focus: after.focus,
                ..doc
            }
            &&& over ==> after.scroll == doc.scroll && after.focus == Focus::Fields
            &&& !over ==> after.fields_scroll == doc.fields_scroll && after.focus == doc.focus
            &&& over && up ==> after.fields_scroll == if doc.fields_scroll > 3 {
                doc.fields_scroll - 3
            } else {
                0
            }
            &&& over && !up ==> after.fields_scroll == if doc.fields_scroll + 3
                < doc.field_max_scroll() {
                doc.fields_scroll + 3
            } else {
                doc.field_max_scroll()
            }
            &&& !over && up ==> after.scroll == if doc.scroll > 3 {
                doc.scroll - 3
            } else {
                0
            }
            &&& !over && !up ==> after.scroll == if doc.scroll + 3 < doc.max_scroll() {
                doc.scroll + 3
            } else {
                doc.max_scroll()
            }
        }),
{
    reveal(DocView::mouse_used);
    reveal(DocView::bar_mouse);
    reveal(DocView::pane_mouse);
    reveal(DocView::content_mouse);
    reveal(DocView::scrolled);
    reveal(DocView::fields_scrolled);
    reveal(DocView::focused);
}

/// The last page that can be scrolled to ends with the last line, and everything fits on one page
/// exactly where nothing can be scrolled.
pub proof fn scrolling_ends_with_the_last_line(doc: DocView)
    requires
        doc.visible_rows >= 0,
        doc.visible_fields >= 0,
    ensures
        doc.rows.len() > doc.visible_rows ==> doc.max_scroll() + doc.visible_rows == doc.rows.len(),
        doc.rows.len() <= doc.visible_rows ==> doc.max_scroll() == 0,
        doc.fields.len() > doc.visible_fields ==> doc.field_max_scroll() + doc.visible_fields
            == doc.fields.len(),
        doc.fields.len() <= doc.visible_fields ==> doc.field_max_scroll() == 0,
{
}

/// A line shows its bytes from left to right behind the offset: three columns each, with one more
/// column before every eighth, and two columns behind the last the characters, one column each.
pub proof fn columns_follow_one_another(doc: DocView, index: int)
    requires
        doc.settings.wf(),
        0 <= index < doc.settings.bytes_per_row,
    ensures
        doc.hex_column(0) == if doc.settings.show_offsets {
            10int
        } else {
            0
        },
        doc.hex_column(index + 1) - doc.hex_column(index) == if (index + 1) % 8 == 0 {
            4int
        } else {
            3
        },
        doc.text_column() == doc.hex_column(doc.settings.bytes_per_row - 1) + 5,
        doc.in_column(doc.hex_column(index), index),
        doc.in_column(doc.hex_column(index) + 1, index),
        doc.in_column(doc.hex_column(index) + 2, index),
        (index + 1) % 8 == 0 && index + 1 < doc.settings.bytes_per_row ==> doc.column_index(
            doc.hex_column(index) + 3,
        ) is None,
        doc.settings.show_ascii ==> doc.in_column(doc.text_column() + index, index),
{
}

/// Cells that show no byte lead to none: those on the border or beside the viewer, below the last line,
/// and in columns without a byte. A line that stands for a run leads to its first byte throughout.
pub proof fn other_cells_show_no_byte(doc: DocView, column: u16, row: u16)
    requires
        doc.scroll >= 0,
    ensures
        ({
            let line = doc.scroll + row - doc.viewer_area.y - 1;
            let x = column - doc.viewer_area.x - 1;
            let inside = doc.viewer_area.x < column && column + 1 < doc.viewer_area.x
                + doc.viewer_area.width && doc.viewer_area.y < row && row + 1 < doc.viewer_area.y
                + doc.viewer_area.height;
            &&& !inside ==> doc.byte_under(column, row) is None
            &&& line >= doc.rows.len() ==> doc.byte_under(column, row) is None
            &&& 0 <= line < doc.rows.len() && doc.rows[line] is Bytes && (forall|index: int|
                !#[trigger] doc.in_column(x, index)) ==> doc.byte_under(
                column,
                row,
            ) is None
            &&& inside && column + 1 < u16::MAX && row + 1 < u16::MAX && 0 <= line < doc.rows.len()
                && doc.rows[line] is Repeated ==> doc.byte_under(column, row) == Some(
                doc.rows[line]->Repeated_start as int,
            )
        }),
{
}

/// How a theme colors bytes: by what the mode tells apart, and by nothing else.
pub proof fn bytes_are_colored_by_mode(theme: ThemeView, at: int, other: int, byte: u8, twin: u8)
    requires
        0 <= at,
        0 <= other,
    ensures
        theme.byte_color(at, byte, true) == theme.ascii,
        theme.byte_mode == ByteColorMode::Plain ==> theme.byte_color(at, byte, false)
            == theme.hex_primary,
        theme.byte_mode == ByteColorMode::Alternating ==> {
            &&& theme.byte_color(2 * at, byte, false) == theme.hex_primary
            &&& theme.byte_color(2 * at + 1, byte, false) == theme.hex_secondary
        },
        theme.byte_mode != ByteColorMode::Alternating ==> theme.byte_color(at, byte, false)
            == theme.byte_color(other, byte, false),
        theme.byte_mode == ByteColorMode::HighNibble && byte / 16 == twin / 16 ==> theme.byte_color(
            at,
            byte,
            false,
        ) == theme.byte_color(at, twin, false),
        theme.byte_mode == ByteColorMode::LowNibble && byte % 16 == twin % 16 ==> theme.byte_color(
            at,
            byte,
            false,
        ) == theme.byte_color(at, twin, false),
        theme.byte_mode == ByteColorMode::ZeroBytes ==> theme.byte_color(at, 0, false)
            == theme.hex_secondary && (byte != 0 ==> theme.byte_color(at, byte, false)
            == theme.hex_primary),
        theme.byte_mode == ByteColorMode::Printable ==> theme.byte_color(at, byte, false) == if 32
            <= byte < 127 {
            theme.hex_secondary
        } else {
            theme.hex_primary
        },
        theme.byte_mode == ByteColorMode::ValueBands && byte / 64 == twin / 64 ==> theme.byte_color(
            at,
            byte,
            false,
        ) == theme.byte_color(at, twin, false),
        theme.byte_mode == ByteColorMode::ByteClass ==> {
            &&& theme.byte_color(at, 0, false) == theme.offset
            &&& 32 <= byte < 127 ==> theme.byte_color(at, byte, false) == theme.hex_secondary
            &&& (0 < byte < 32 || byte == 127) ==> theme.byte_color(at, byte, false)
                == theme.modified
            &&& byte > 127 ==> theme.byte_color(at, byte, false) == theme.hex_primary
        },
        theme.byte_mode == ByteColorMode::HighNibble ==> theme.byte_color(at, 0, false)
            == theme.hex_primary && theme.byte_color(at, 255, false) == theme.hex_secondary,
        theme.byte_mode == ByteColorMode::LowNibble ==> theme.byte_color(at, 0, false)
            == theme.hex_primary && theme.byte_color(at, 255, false) == theme.hex_secondary,
        theme.byte_mode == ByteColorMode::ValueBands ==> {
            &&& theme.byte_color(at, 0, false) == theme.offset
            &&& theme.byte_color(at, 64, false) == theme.hex_secondary
            &&& theme.byte_color(at, 128, false) == theme.hex_primary
            &&& theme.byte_color(at, 192, false) == theme.modified
        },
{
}

/// A scrollbar that is clicked or dragged scrolls what it belongs to, to the place of the row in it,
/// and nothing else; letting go of it ends that.
pub proof fn scrollbars_scroll_what_they_belong_to(doc: DocView, mouse: MouseEvent, bar: ScrollbarDrag)
    requires
        doc.mode is Normal,
        doc.scrollbar_dragging == Some(bar),
        bar == ScrollbarDrag::Viewer || bar == ScrollbarDrag::Fields,
    ensures
        ({
            let after = doc.mouse_used(mouse);
            &&& mouse.kind == MouseEventKind::Drag(MouseButton::Left) && bar == ScrollbarDrag::Viewer
                ==> after == DocView {
                scroll: geometry::scroll_target(doc.viewer_area, mouse.row, doc.max_scroll()),
                focus: Focus::Viewer,
                ..doc
            }
            &&& mouse.kind == MouseEventKind::Drag(MouseButton::Left) && bar == ScrollbarDrag::Fields
                ==> after == DocView {
                fields_scroll: geometry::scroll_target(
                    doc.fields_area,
                    mouse.row,
                    doc.field_max_scroll(),
                ),
                focus: Focus::Fields,
                ..doc
            }
            &&& mouse.kind == MouseEventKind::Up(MouseButton::Left) ==> after == DocView {
                scrollbar_dragging: None,
                ..doc
            }
        }),
{
    reveal(DocView::mouse_used);
    reveal(DocView::bar_mouse);
    reveal(DocView::bar_held);
    reveal(DocView::bar_pulled);
    reveal(DocView::scrolled);
    reveal(DocView::fields_scrolled);
    reveal(DocView::focused);
}

/// A field of the list is found under the cells that show it: the rows of the list inside its border,
/// one field each, from the one that the list is scrolled to.
pub proof fn cells_show_their_fields(doc: DocView, column: u16, row: u16, line: int)
    requires
        doc.fields_area.encloses(column, row),
        row == doc.fields_area.y + 1 + line,
        0 <= line,
    ensures
        line < doc.visible_fields && doc.fields_scroll + line < doc.fields.len()
            ==> doc.field_under(column, row) == Some(doc.fields_scroll + line),
        line >= doc.visible_fields || doc.fields_scroll + line >= doc.fields.len()
            ==> doc.field_under(column, row) is None,
{
}

/// The colors of fields, the modes of coloring, and the colors of a theme follow one another in this
/// order, and go around.
pub proof fn cycles_have_an_order(field: FieldColor, mode: ByteColorMode, color: NamedColor)
    ensures
        model::step_field_color(field, true) == match field {
            FieldColor::Cyan => FieldColor::Green,
            FieldColor::Green => FieldColor::Yellow,
            FieldColor::Yellow => FieldColor::Magenta,
            FieldColor::Magenta => FieldColor::Blue,
            FieldColor::Blue => FieldColor::Red,
            FieldColor::Red => FieldColor::Cyan,
        },
        model::step_mode(mode, true) == match mode {
            ByteColorMode::Plain => ByteColorMode::Alternating,
            ByteColorMode::Alternating => ByteColorMode::ByteClass,
            ByteColorMode::ByteClass => ByteColorMode::HighNibble,
            ByteColorMode::HighNibble => ByteColorMode::LowNibble,
            ByteColorMode::LowNibble => ByteColorMode::ZeroBytes,
            ByteColorMode::ZeroBytes => ByteColorMode::Printable,
            ByteColorMode::Printable => ByteColorMode::ValueBands,
            ByteColorMode::ValueBands => ByteColorMode::Plain,
        },
        model::step_color(color, true) == match color {
            NamedColor::Black => NamedColor::DarkGray,
            NamedColor::DarkGray => NamedColor::Gray,
            NamedColor::Gray => NamedColor::White,
            NamedColor::White => NamedColor::Red,
            NamedColor::Red => NamedColor::LightRed,
            NamedColor::LightRed => NamedColor::Green,
            NamedColor::Green => NamedColor::LightGreen,
            NamedColor::LightGreen => NamedColor::Yellow,
            NamedColor::Yellow => NamedColor::LightYellow,
            NamedColor::LightYellow => NamedColor::Blue,
            NamedColor::Blue => NamedColor::LightBlue,
            NamedColor::LightBlue => NamedColor::Magenta,
            NamedColor::Magenta => NamedColor::LightMagenta,
            NamedColor::LightMagenta => NamedColor::Cyan,
            NamedColor::Cyan => NamedColor::LightCyan,
            NamedColor::LightCyan => NamedColor::Black,
        },
        model::step_field_color(model::step_field_color(field, true), false) == field,
        model::step_mode(model::step_mode(mode, true), false) == mode,
        model::step_color(model::step_color(color, true), false) == color,
{
    model::lemma_step_field_color(field, true);
    model::lemma_step_mode(mode, true);
    model::lemma_step_color(color, true);
    model::field_color_step_and_back(field, true);
    model::mode_step_and_back(mode, true);
    model::color_step_and_back(color, true);
}

/// A file that was just opened is as it was read: its first byte is selected, nothing is marked or
/// recorded, it is viewed from its start, sixteen bytes to a line, and everything is shown.
pub proof fn files_open_unchanged(path: Seq<char>, bytes: Seq<u8>)
    ensures
        ({
            let doc = DocView::opened(path, bytes);
            &&& doc.path == path
            &&& doc.bytes == bytes
            &&& doc.saved == bytes
            &&& bytes.len() > 0 ==> doc.selection is Some && doc.selection->Some_0.anchor == 0
                && doc.selection->Some_0.cursor == 0
            &&& bytes.len() == 0 ==> doc.selection is None
            &&& doc.additional.len() == 0
            &&& doc.fields.len() == 0
            &&& doc.modified.is_empty()
            &&& doc.undo.len() == 0 && doc.redo.len() == 0 && doc.pending is None
            &&& doc.scroll == 0
            &&& doc.mode is Normal && !doc.edit_mode && doc.focus == Focus::Viewer
            &&& doc.search.results.len() == 0 && !doc.search.running
            &&& doc.settings.bytes_per_row == 16
            &&& doc.settings.show_ascii && doc.settings.uppercase_hex && doc.settings.show_offsets
                && doc.settings.show_sidebar && doc.settings.show_overlays
            &&& !doc.settings.compress_repeated_rows
            &&& doc.rows == rows::rows_of(bytes, doc.settings)
            &&& doc.effects.len() == 0
            &&& !doc.quit_armed
        }),
{
}

/// The entropy is asked for once, of all bytes: while it is calculated or known it is not asked for
/// again. Once the calculation reports that it is done the entropy is known, and until then its
/// reports tell how far it has come; reports of one that was stopped change nothing.
pub proof fn entropy_is_calculated_once(doc: DocView, message: EntropyMessage)
    ensures
        ({
            let asked = doc.entropy_requested();
            let told = doc.entropy_reported(message);
            &&& doc.entropy_ready || doc.entropy_worker ==> asked == doc
            &&& !doc.entropy_ready && !doc.entropy_worker ==> asked == DocView {
                entropy_worker: true,
                entropy_total: doc.bytes.len() as int,
                entropy_scanned: 0,
                effects: doc.effects.push(EffectView::StartEntropy),
                status: asked.status,
                ..doc
            }
            &&& !doc.entropy_worker ==> told == doc
            &&& doc.entropy_worker && message is Done ==> told == DocView {
                entropy_ready: true,
                entropy_worker: false,
                entropy_scanned: doc.entropy_total,
                status: told.status,
                ..doc
            }
            &&& doc.entropy_worker && message is Progress ==> told == DocView {
                entropy_scanned: if message->Progress_0 <= doc.entropy_total {
                    message->Progress_0 as int
                } else {
                    doc.entropy_total
                },
                ..doc
            }
        }),
{
    reveal(DocView::entropy_requested);
    reveal(DocView::entropy_reported);
    reveal(DocView::asking);
    reveal(DocView::say);
}

proof fn lemma_settings_reset(doc: DocView)
    ensures
        ({
            let after = doc.reset(ResetTarget::Settings);
            let new = ViewerSettings::initial();
            after == DocView {
                settings: new,
                rows: rows::rows_of(doc.bytes, new),
                scroll: after.scroll,
                status: after.status,
                ..doc
            }
        }),
{
    reveal(DocView::reset);
    reveal(DocView::with_settings);
    reveal(DocView::cursor_shown);
    reveal(DocView::scrolled);
    reveal(DocView::say);
}

/// A reset that is confirmed gives the theme or the settings that a new file has, and leads back to
/// their editor; one that is not leaves both, and other keys only ask again. No byte changes.
pub proof fn confirmed_resets_give_the_defaults(doc: DocView, key: KeyEvent, target: ResetTarget)
    requires
        doc.mode == ModeView::ConfirmReset(target),
    ensures
        ({
            let after = doc.pressed(key).doc;
            let yes = key.code == KeyCode::Char('y') || key.code == KeyCode::Char('Y');
            let no = key.code == KeyCode::Char('n') || key.code == KeyCode::Char('N') || key.code
                == KeyCode::Esc;
            let new = after.settings;
            &&& yes || no ==> after.mode == if target == ResetTarget::Theme {
                ModeView::Theme(0)
            } else {
                ModeView::Settings(0)
            }
            &&& !yes ==> after == DocView { mode: after.mode, status: after.status, ..doc }
            &&& !yes && !no ==> after.mode == doc.mode
            &&& yes && target == ResetTarget::Theme ==> after == DocView {
                mode: after.mode,
                status: after.status,
                theme: model::default_theme(),
                ..doc
            }
            &&& yes && target == ResetTarget::Settings ==> {
                &&& new.show_ascii && new.uppercase_hex && new.show_offsets && new.show_sidebar
                &&& new.show_overlays
                &&& !new.compress_repeated_rows
                &&& new.bytes_per_row == 16
                &&& after.rows == rows::rows_of(doc.bytes, new)
                &&& after == DocView {
                    mode: after.mode,
                    status: after.status,
                    settings: new,
                    rows: after.rows,
                    scroll: after.scroll,
                    ..doc
                }
            }
        }),
{
    reveal(DocView::reset_key);
    reveal(DocView::in_mode);
    reveal(DocView::say);
    lemma_settings_reset(doc);
    assert(doc.reset(ResetTarget::Theme) == (DocView {
        theme: model::default_theme(),
        status: doc.reset(ResetTarget::Theme).status,
        ..doc
    })) by {
        reveal(DocView::reset);
        reveal(DocView::themed);
    }
}


/// The tabulator key gives the keys to the list of fields, and back to the viewer; nothing else
/// changes.
pub proof fn tabulators_switch_the_pane(doc: DocView, key: KeyEvent)
    requires
        at_rest(doc),
        unmodified(key),
        key.code == KeyCode::Tab,
    ensures
        doc.pressed(key).doc == (DocView {
            focus: if doc.focus == Focus::Viewer {
                Focus::Fields
            } else {
                Focus::Viewer
            },
            quit_armed: false,
            ..doc
        }),
{
    reveal(DocView::normal_key);
    reveal(DocView::view_key);
    reveal(DocView::view_plain_key);
    reveal(DocView::focused);
    reveal(DocView::armed);
}


/// How far one line lies from another.
pub open spec fn apart(a: int, b: int) -> int {
    if a <= b {
        b - a
    } else {
        a - b
    }
}

/// Showing a byte scrolls no further than any other way to bring it in sight.
pub proof fn bytes_are_shown_by_least_scrolling(doc: DocView, offset: int, line: int)
    requires
        doc.valid(),
        0 <= offset < doc.length(),
        doc.visible_rows > 0,
        0 <= doc.scroll <= doc.max_scroll(),
        doc.scroll + doc.visible_rows <= usize::MAX,
        line <= doc.row_of(offset) < line + doc.visible_rows,
    ensures
        apart(doc.scroll, doc.showing(offset).scroll) <= apart(doc.scroll, line),
{
    reveal(crate::app::layout_ok);
    reveal(DocView::scrolled);
    reveal(DocView::scroll_for);
    rows::row_lookup_is_exact(doc.bytes, doc.settings, offset);
}

/// Showing the selected field scrolls the list no further than any other way to bring it in sight.
pub proof fn fields_are_shown_by_least_scrolling(doc: DocView, line: int)
    requires
        doc.sound(),
        0 < doc.fields.len() < usize::MAX,
        doc.visible_fields > 0,
        0 <= doc.fields_scroll <= doc.field_max_scroll(),
        doc.fields_scroll + doc.visible_fields <= usize::MAX,
        line <= doc.selected_field < line + doc.visible_fields,
    ensures
        apart(doc.fields_scroll, doc.field_shown().fields_scroll) <= apart(doc.fields_scroll, line),
{
    reveal(crate::app::fields_ok);
    reveal(DocView::fields_scrolled);
    reveal(DocView::fields_scroll_needed);
}


} // verus!
