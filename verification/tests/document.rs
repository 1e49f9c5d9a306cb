//! An open file: editing, fields, settings, and navigation.

use std::time::{Duration, Instant};

use rexedit::app::App;
use rexedit::codec::{content_identity, hex_string, parse_offset};
use rexedit::dialog::{PathAction, PathDialog};
use rexedit::editing::EditKind;
use rexedit::geometry::{scrollbar_position_from_row, Rect};
use rexedit::input::{
    KeyCode, KeyEvent, KeyModifiers, MouseButton, MouseEvent, MouseEventKind, TextInput,
};
use rexedit::model::{
    ByteColorMode, Field, FieldColor, Overlay, SearchMatch, Selection, Theme,
};
use rexedit::modes::{
    FieldEditor, HelpViewer, Mode, ResetTarget, SettingsEditor, ThemeEditor,
};
use rexedit::rows::DisplayRow;
use rexedit::system::{overlay_storage_dir, Platform};

fn key(code: KeyCode) -> KeyEvent {
    KeyEvent::new(code, KeyModifiers::none())
}

fn control(c: char) -> KeyEvent {
    KeyEvent::new(KeyCode::Char(c), KeyModifiers::controlled())
}

fn field(name: &str, start: usize, end: usize) -> Field {
    Field {
        name: name.into(),
        description: String::new(),
        start,
        end,
        color: FieldColor::Cyan,
    }
}

#[test]
fn parses_decimal_and_hex_offsets() {
    assert_eq!(parse_offset("42").unwrap(), 42);
    assert_eq!(parse_offset("0x2A").unwrap(), 42);
}

#[test]
fn copies_selected_bytes_as_continuous_hex() {
    assert_eq!(hex_string(&[0xDE, 0xAD, 0x00, 0xEF]), "DEAD00EF");
}

#[test]
fn new_field_editor_starts_blank_and_uses_the_selection_range() {
    let editor = FieldEditor::new();
    assert!(editor.name.value.is_empty());
    assert!(editor.description.value.is_empty());
    assert!(editor.start.value.is_empty());
    assert!(editor.end.value.is_empty());

    let mut app = App::new("sample.bin".into(), vec![0; 16]);
    app.selection = Some(Selection { anchor: 3, cursor: 8 });
    app.mode = Mode::Field(editor);
    app.commit_field_editor();

    assert_eq!(app.fields[0].name, "field_1");
    assert_eq!((app.fields[0].start, app.fields[0].end), (3, 8));
}

#[test]
fn field_editor_accepts_ctrl_h_as_backspace() {
    let mut editor = FieldEditor::new();
    editor.name = TextInput::with_value("field".into());
    editor.name.clear_selection();
    editor.handle_text_key(control('h'));
    assert_eq!(editor.name.value, "fiel");
}

#[test]
fn selected_text_input_is_replaced_by_the_first_keystroke() {
    let mut input = TextInput::with_value("existing".into());
    input.handle_key(key(KeyCode::Char('n')));
    assert_eq!(input.value, "n");

    input.set_value("existing".into());
    input.handle_key(key(KeyCode::Left));
    input.handle_key(key(KeyCode::Char('!')));
    assert_eq!(input.value, "existin!g");
}

#[test]
fn vim_navigation_jumps_to_file_boundaries() {
    let mut app = App::new("sample.bin".into(), vec![0; 32]);
    app.select_offset(12, false);
    app.handle_key(key(KeyCode::Char('g')));
    app.handle_key(key(KeyCode::Char('g')));
    assert_eq!(app.selection.unwrap().cursor, 0);

    app.handle_key(KeyEvent::new(KeyCode::Char('G'), KeyModifiers::shifted()));
    assert_eq!(app.selection.unwrap().cursor, 31);
}

#[test]
fn locates_search_highlights_with_sorted_results() {
    let mut app = App::new("sample.bin".into(), vec![0; 32]);
    app.search.results = vec![
        SearchMatch { start: 2, end: 4 },
        SearchMatch { start: 10, end: 12 },
    ];
    assert!(app.is_search_match(3));
    assert!(app.is_search_match(12));
    assert!(!app.is_search_match(5));
}

#[test]
fn automatic_overlay_path_uses_the_user_data_directory_and_content_identity() {
    let app = App::new("sample.bin".into(), vec![0xCA, 0xFE]);
    assert_eq!(
        overlay_storage_dir(Platform::Unix, None, None, Some("/home/user".into())),
        ["/home/user", ".local", "share", "rexedit", "overlays"]
    );
    assert_eq!(
        app.overlay_file_name(),
        format!("{}.json", content_identity(&[0xCA, 0xFE]))
    );
}

#[test]
fn overwrite_mode_changes_nibbles_and_tracks_dirty_bytes() {
    let mut app = App::new("sample.bin".into(), vec![0xAB, 0]);
    app.overwrite_nibble(0x1);
    app.overwrite_nibble(0x2);
    assert_eq!(app.bytes[0], 0x12);
    assert_eq!(app.selection.unwrap().cursor, 1);
    assert!(app.modified_offsets.contains(&0));
}

#[test]
fn undo_and_redo_restore_complete_byte_overwrites() {
    let mut app = App::new("sample.bin".into(), vec![0xAB, 0]);
    app.overwrite_nibble(0x1);
    app.overwrite_nibble(0x2);

    app.undo_overwrite();
    assert_eq!(app.bytes[0], 0xAB);
    assert!(app.modified_offsets.is_empty());

    app.redo_overwrite();
    assert_eq!(app.bytes[0], 0x12);
    assert!(app.modified_offsets.contains(&0));
}

#[test]
fn insert_mode_inserts_bytes_and_undo_redo_restore_file_length() {
    let mut app = App::new("sample.bin".into(), vec![0xAA, 0xBB]);
    app.edit_kind = EditKind::Insert;
    app.insert_nibble(0x1);
    app.insert_nibble(0x2);

    assert_eq!(app.bytes.as_slice(), [0x12, 0xAA, 0xBB]);
    assert!(app.modified_offsets.contains(&2));

    app.undo_overwrite();
    assert_eq!(app.bytes.as_slice(), [0xAA, 0xBB]);

    app.redo_overwrite();
    assert_eq!(app.bytes.as_slice(), [0x12, 0xAA, 0xBB]);
}

#[test]
fn paste_from_clipboard_requires_byte_edit_mode() {
    let mut app = App::new("sample.bin".into(), vec![0xAA, 0xBB]);
    app.edit_mode = false;

    app.paste_from_clipboard();

    assert_eq!(app.bytes.as_slice(), [0xAA, 0xBB]);
    assert!(app.status.contains("Enter Overwrite or Insert Mode"));
}

#[test]
fn pasted_hex_is_inserted_as_a_single_batched_edit() {
    let mut app = App::new("sample.bin".into(), vec![0xAA, 0xBB]);
    app.edit_mode = true;
    app.edit_kind = EditKind::Insert;
    app.selection = Some(Selection::new(1));

    app.paste_hex_bytes("DE AD be ef");

    assert_eq!(app.bytes.as_slice(), [0xAA, 0xDE, 0xAD, 0xBE, 0xEF, 0xBB]);
    assert_eq!(app.undo_stack.len(), 1);

    app.undo_overwrite();
    assert_eq!(app.bytes.as_slice(), [0xAA, 0xBB]);

    app.redo_overwrite();
    assert_eq!(app.bytes.as_slice(), [0xAA, 0xDE, 0xAD, 0xBE, 0xEF, 0xBB]);
}

#[test]
fn pasted_hex_with_a_trailing_nibble_drops_the_incomplete_byte() {
    let mut app = App::new("sample.bin".into(), vec![]);
    app.edit_mode = true;
    app.edit_kind = EditKind::Insert;

    app.paste_hex_bytes("DEAD B");

    assert_eq!(app.bytes.as_slice(), [0xDE, 0xAD]);
    assert!(app.status.contains("trailing hex digit ignored"));
}

#[test]
fn pasted_hex_overwrites_in_place_and_truncates_at_end_of_file() {
    let mut app = App::new("sample.bin".into(), vec![0, 0, 0, 0]);
    app.edit_mode = true;
    app.edit_kind = EditKind::Overwrite;
    app.selection = Some(Selection::new(2));

    app.paste_hex_bytes("DEADBEEF");

    assert_eq!(app.bytes.as_slice(), [0, 0, 0xDE, 0xAD]);
    assert!(app.status.contains("truncated"));

    app.undo_overwrite();
    assert_eq!(app.bytes.as_slice(), [0, 0, 0, 0]);

    app.redo_overwrite();
    assert_eq!(app.bytes.as_slice(), [0, 0, 0xDE, 0xAD]);
}

#[test]
fn pasting_a_large_hex_block_into_a_large_file_stays_fast() {
    let mut app = App::new("sample.bin".into(), vec![0u8; 2_000_000]);
    app.edit_mode = true;
    app.edit_kind = EditKind::Insert;
    app.selection = Some(Selection::new(1_000_000));
    let hex: String = (0..100_000).map(|_| "AB").collect();

    let start = Instant::now();
    app.paste_hex_bytes(&hex);
    let elapsed = start.elapsed();

    assert_eq!(app.bytes.len(), 2_100_000);
    assert!(
        elapsed < Duration::from_secs(2),
        "batched paste took too long: {elapsed:?}"
    );
}

#[test]
fn deletion_updates_file_length_and_field_offsets() {
    let mut app = App::new("sample.bin".into(), vec![0, 1, 2, 3, 4]);
    app.fields = vec![field("before", 0, 0), field("after", 3, 4)];
    app.selection = Some(Selection { anchor: 1, cursor: 2 });
    app.delete_selected_bytes();

    assert_eq!(app.bytes.as_slice(), [0, 3, 4]);
    assert_eq!((app.fields[1].start, app.fields[1].end), (1, 2));

    app.undo_overwrite();
    assert_eq!(app.bytes.as_slice(), [0, 1, 2, 3, 4]);
    assert_eq!((app.fields[1].start, app.fields[1].end), (3, 4));
}

#[test]
fn view_mode_supports_undo_redo_and_save() {
    let mut app = App::new("sample.bin".into(), vec![0xAB]);
    app.overwrite_nibble(0x1);
    app.overwrite_nibble(0x2);

    app.handle_key(control('u'));
    assert_eq!(app.bytes[0], 0xAB);
    app.handle_key(control('r'));
    assert_eq!(app.bytes[0], 0x12);

    app.handle_key(control('s'));
    assert!(matches!(
        app.mode,
        Mode::Path(PathDialog { action: PathAction::SaveBinary, .. })
    ));
}

#[test]
fn overwrite_mode_still_opens_the_save_dialog() {
    let mut app = App::new("sample.bin".into(), vec![0xAB]);
    app.edit_mode = true;
    app.handle_key(control('s'));
    assert!(matches!(
        app.mode,
        Mode::Path(PathDialog { action: PathAction::SaveBinary, .. })
    ));
}

#[test]
fn row_width_setting_changes_navigation_geometry() {
    let mut app = App::new("sample.bin".into(), vec![0; 64]);
    assert_eq!(app.row_count(), 4);
    app.toggle_setting(1);
    assert_eq!(app.settings.bytes_per_row, 32);
    assert_eq!(app.row_count(), 2);
}

#[test]
fn repeated_uniform_rows_are_compressed_and_mapped_to_offsets() {
    let mut bytes = vec![0; 16 * 6];
    bytes.extend([1; 16]);
    let mut app = App::new("sample.bin".into(), bytes);
    app.toggle_setting(5);

    assert_eq!(app.row_count(), 2);
    assert!(matches!(
        app.display_rows[0],
        DisplayRow::Repeated { start: 0, end: 95, byte: 0, physical_rows: 6 }
    ));
    assert_eq!(app.display_row_for_offset(80), 0);
    assert_eq!(app.display_row_for_offset(96), 1);
}

#[test]
fn settings_reset_requires_confirmation() {
    let mut app = App::new("sample.bin".into(), vec![0; 64]);
    app.settings.show_ascii = false;
    app.mode = Mode::Settings(SettingsEditor::default());
    app.handle_key(control('r'));
    assert!(matches!(app.mode, Mode::ConfirmReset(ResetTarget::Settings)));

    app.handle_key(key(KeyCode::Char('n')));
    assert!(!app.settings.show_ascii);

    app.handle_key(control('r'));
    app.handle_key(key(KeyCode::Char('y')));
    assert!(app.settings.show_ascii);
}

#[test]
fn theme_reset_requires_confirmation() {
    let mut app = App::new("sample.bin".into(), vec![0; 16]);
    app.theme.byte_mode = ByteColorMode::ValueBands;
    app.mode = Mode::Theme(ThemeEditor::default());
    app.handle_key(control('r'));
    app.handle_key(key(KeyCode::Char('y')));
    assert_eq!(app.theme, Theme::default());
    assert!(matches!(app.mode, Mode::Theme(_)));
}

#[test]
fn current_bytes_clamps_invalid_selection_ranges() {
    let mut app = App::new("sample.bin".into(), vec![1, 2, 3]);
    app.selection = Some(Selection { anchor: 1, cursor: 500 });
    assert_eq!(app.current_bytes(), &[2, 3]);
}

#[test]
fn separate_selections_are_merged_in_file_order_for_copying() {
    let mut app = App::new("sample.bin".into(), (0..10).collect());
    app.selection = Some(Selection { anchor: 7, cursor: 8 });
    app.additional_selections = vec![Selection { anchor: 2, cursor: 3 }];

    assert_eq!(
        app.selected_ranges(),
        [Selection { anchor: 2, cursor: 3 }, Selection { anchor: 7, cursor: 8 }]
    );
    assert_eq!(app.selected_bytes(), [2, 3, 7, 8]);
}

#[test]
fn control_mouse_drag_adds_a_separate_selection() {
    let mut app = App::new("sample.bin".into(), (0..8).collect());
    app.viewer_area = Rect::new(0, 0, 80, 5);
    app.handle_content_mouse(MouseEvent {
        kind: MouseEventKind::Down(MouseButton::Left),
        column: 14,
        row: 1,
        modifiers: KeyModifiers::controlled(),
    });
    app.handle_content_mouse(MouseEvent {
        kind: MouseEventKind::Drag(MouseButton::Left),
        column: 20,
        row: 1,
        modifiers: KeyModifiers::controlled(),
    });

    assert_eq!(app.additional_selections, [Selection::new(0)]);
    assert_eq!(app.selection.unwrap().start(), 1);
    assert_eq!(app.selection.unwrap().end(), 3);
}

#[test]
fn blank_field_ranges_create_one_field_per_separate_selection() {
    let mut app = App::new("sample.bin".into(), vec![0; 10]);
    app.selection = Some(Selection { anchor: 1, cursor: 2 });
    app.additional_selections = vec![Selection { anchor: 6, cursor: 7 }];
    let mut editor = FieldEditor::new();
    editor.ranges = app.selected_ranges();
    editor.name.set_value("header".into());
    app.mode = Mode::Field(editor);

    app.commit_field_editor();

    assert_eq!(app.fields.len(), 2);
    assert_eq!(app.fields[0].name, "header");
    assert_eq!(app.fields[1].name, "header [2]");
    assert_eq!((app.fields[0].start, app.fields[0].end), (1, 2));
    assert_eq!((app.fields[1].start, app.fields[1].end), (6, 7));
}

#[test]
fn field_rows_follow_the_fields_scroll_offset() {
    let mut app = App::new("sample.bin".into(), vec![0; 32]);
    app.fields = (0..8)
        .map(|index| field(&format!("field_{index}"), index, index))
        .collect();
    app.fields_area = Rect::new(0, 0, 42, 8);
    app.visible_fields = 3;
    app.fields_scroll = 4;

    assert_eq!(app.field_at(1, 1), Some(4));
    assert_eq!(app.field_at(1, 4), None);
}

#[test]
fn mouse_coordinates_outside_viewer_never_underflow() {
    let mut app = App::new("sample.bin".into(), vec![0; 256]);
    app.viewer_area = Rect::new(40, 10, 30, 12);
    app.fields_area = Rect::new(80, 10, 20, 12);

    for (column, row) in [(0, 0), (39, 10), (40, 9), (u16::MAX, 11), (41, u16::MAX)] {
        assert_eq!(app.byte_at(column, row), None);
        assert_eq!(app.field_at(column, row), None);
        app.handle_mouse(MouseEvent {
            kind: MouseEventKind::Drag(MouseButton::Left),
            column,
            row,
            modifiers: KeyModifiers::none(),
        });
    }
}

#[test]
fn scrollbar_rows_map_to_the_full_scroll_range() {
    let area = Rect::new(10, 5, 40, 12);
    assert_eq!(scrollbar_position_from_row(area, 6, 100), 0);
    assert_eq!(scrollbar_position_from_row(area, 15, 100), 100);
    assert_eq!(scrollbar_position_from_row(area, 10, 100), 44);
}

#[test]
fn mouse_in_separator_before_ascii_never_evaluates_negative_offset() {
    let mut app = App::new("sample.bin".into(), vec![0; 256]);
    app.viewer_area = Rect::new(0, 0, 100, 12);
    app.settings.show_offsets = true;
    app.settings.show_ascii = true;
    app.settings.bytes_per_row = 16;

    let prefix_width = 10usize;
    let hex_width = 16 * 3 + 15 / 8;
    let ascii_start = prefix_width + hex_width + 2;
    let separator_column = 1 + ascii_start - 1;

    assert_eq!(
        app.byte_at(separator_column as u16, 1),
        None,
        "separator immediately before ASCII must not subtract ascii_start"
    );
    app.mouse_dragging = true;
    app.handle_mouse(MouseEvent {
        kind: MouseEventKind::Drag(MouseButton::Left),
        column: separator_column as u16,
        row: 1,
        modifiers: KeyModifiers::none(),
    });
}

#[test]
fn question_mark_opens_and_scrolls_keybinding_help() {
    let mut app = App::new("sample.bin".into(), vec![0; 16]);
    app.handle_key(key(KeyCode::Char('?')));
    assert!(matches!(app.mode, Mode::Help(_)));

    app.handle_key(key(KeyCode::PageDown));
    let Mode::Help(help) = &app.mode else {
        panic!("help should remain open");
    };
    assert_eq!(help.scroll, 10);

    app.handle_key(key(KeyCode::Esc));
    assert!(matches!(app.mode, Mode::Normal));
}

#[test]
fn help_window_scrolls_with_the_mouse_wheel() {
    let mut app = App::new("sample.bin".into(), vec![0; 16]);
    app.mode = Mode::Help(HelpViewer::default());
    app.handle_mouse(MouseEvent {
        kind: MouseEventKind::ScrollDown,
        column: 0,
        row: 0,
        modifiers: KeyModifiers::none(),
    });
    let Mode::Help(help) = &app.mode else {
        panic!("help should remain open");
    };
    assert_eq!(help.scroll, 3);

    app.handle_mouse(MouseEvent {
        kind: MouseEventKind::ScrollUp,
        column: 0,
        row: 0,
        modifiers: KeyModifiers::none(),
    });
    let Mode::Help(help) = &app.mode else {
        panic!("help should remain open");
    };
    assert_eq!(help.scroll, 0);
}

#[test]
fn degenerate_viewer_rectangles_are_safe() {
    for area in [
        Rect::new(0, 0, 0, 0),
        Rect::new(u16::MAX, u16::MAX, 0, 0),
        Rect::new(u16::MAX, u16::MAX, 1, 1),
    ] {
        let mut app = App {
            viewer_area: area,
            fields_area: area,
            ..App::new("sample.bin".into(), vec![0; 16])
        };
        assert_eq!(app.byte_at(0, 0), None);
        assert_eq!(app.field_at(0, 0), None);
        app.handle_mouse(MouseEvent {
            kind: MouseEventKind::Down(MouseButton::Left),
            column: 0,
            row: 0,
            modifiers: KeyModifiers::none(),
        });
    }
}

#[test]
fn first_next_command_activates_the_first_search_result() {
    let mut app = App::new("sample.bin".into(), vec![0; 32]);
    app.search.results = vec![
        SearchMatch { start: 4, end: 5 },
        SearchMatch { start: 12, end: 13 },
    ];
    app.next_search_result();
    assert_eq!(app.selection.unwrap().start(), 4);
    app.next_search_result();
    assert_eq!(app.selection.unwrap().start(), 12);
}

#[test]
fn overlay_and_binary_paths_round_trip() {
    let mut app = App::new("sample.bin".into(), vec![0xCA, 0xFE]);
    app.fields.push(Field {
        name: "magic".into(),
        description: "test".into(),
        start: 0,
        end: 1,
        color: FieldColor::Cyan,
    });

    let stored = Overlay { fields: app.fields.clone() };
    app.fields.clear();
    app.finish_load_overlay("overlay.json", stored);
    assert_eq!(app.status, "Loaded 1 fields from overlay.json");
    app.finish_save_binary("saved.bin".into());

    assert_eq!(app.fields[0].name, "magic");
    assert_eq!(app.saved_bytes.as_slice(), [0xCA, 0xFE]);
    assert_eq!(app.path, "saved.bin");
}
