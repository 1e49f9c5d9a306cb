//! The smaller rules: offsets, names, numbers, rows, selections, entropy, messages.

use rexedit::app::paths::{problem_text, FileProblem};
use rexedit::app::App;
use rexedit::codec::{
    content_identity, file_name, hex_string, overlay_name, parse_offset, read_hex, safe_name,
};
use rexedit::dialog::{completion_display_path, completion_lookup, path_lookup, PathAction};
use rexedit::editing::EditKind;
use rexedit::effects::Effect;
use rexedit::entropy::{histogram, percent, window_end, window_size, EntropyMessage};
use rexedit::geometry::{scrollbar_position_from_row, Rect};
use rexedit::input::{KeyCode, KeyEvent, KeyModifiers, TextInput};
use rexedit::model::{
    ByteColorMode, Color, Field, FieldColor, NamedColor, Overlay, Selection, Theme,
};
use rexedit::modes::{Focus, Mode};
use rexedit::numbers::{byte_text, decimal_text, hex_text};
use rexedit::python::{check_active, python_continuation_indentation};
use rexedit::rows::{build_rows, DisplayRow, ViewerSettings};
use rexedit::selection::merge_ranges;
use rexedit::system::{
    clipboard_problem, clipboard_reply, copy_problem, nonempty_output, overlay_storage_dir,
    picker_is_missing, picker_outcome, ClipboardReply, Platform,
};
use rexedit::text::{join_text, split_text, trimmed};

fn key(code: KeyCode) -> KeyEvent {
    KeyEvent::new(code, KeyModifiers::none())
}

fn control(c: char) -> KeyEvent {
    KeyEvent::new(KeyCode::Char(c), KeyModifiers::controlled())
}

#[test]
fn offsets_are_read_with_separators_and_refused_by_reason() {
    assert_eq!(parse_offset(" 1_000 "), Ok(1000));
    assert_eq!(parse_offset("0XfF"), Ok(255));
    assert_eq!(parse_offset("+7"), Ok(7));
    assert_eq!(parse_offset("  "), Err("offset is empty".into()));
    assert_eq!(parse_offset("0x"), Err("invalid hexadecimal offset".into()));
    assert_eq!(parse_offset("0xG"), Err("invalid hexadecimal offset".into()));
    assert_eq!(
        parse_offset("12h"),
        Err("use decimal or a 0x-prefixed hexadecimal offset".into())
    );
    assert_eq!(
        parse_offset("99999999999999999999999999"),
        Err("use decimal or a 0x-prefixed hexadecimal offset".into())
    );
}

#[test]
fn copied_bytes_paste_back() {
    let bytes: Vec<u8> = (0..=255).collect();
    assert_eq!(read_hex(&hex_string(&bytes)), (bytes, false));
    assert_eq!(read_hex("0x4, g1 2"), (vec![0x04, 0x12], false));
    assert_eq!(read_hex("ABC"), (vec![0xAB], true));
}

#[test]
fn contents_have_a_name_of_their_own() {
    assert_eq!(
        content_identity(&[]),
        "0000000000000000cbf29ce48422232555c5e55dfb685f30"
    );
    assert_eq!(
        content_identity(&[0xCA, 0xFE]),
        "00000000000000020ae1ca07b733feb9b26a2bcb8c09a88a"
    );
    assert_eq!(content_identity(b"a").len(), 48);
}

#[test]
fn names_are_made_safe() {
    assert_eq!(safe_name("My theme/1-x_y"), "My_theme_1-x_y");
    assert_eq!(safe_name("é"), "_");
    assert_eq!(safe_name(""), "custom");
    assert_eq!(file_name("/usr/lib/firmware.bin", '/'), "firmware.bin");
    assert_eq!(file_name("C:\\data\\a.bin", '\\'), "a.bin");
    assert_eq!(file_name("dir/a\\b.bin", '/'), "a\\b.bin");
    assert_eq!(file_name("plain", '/'), "plain");
    assert_eq!(overlay_name("dir/sample.bin", '/'), "sample.bin.rexedit-overlay.json");
}

#[test]
fn numbers_are_written_out() {
    assert_eq!(decimal_text(0), "0");
    assert_eq!(decimal_text(1_234_567), "1234567");
    assert_eq!(hex_text(0), "0");
    assert_eq!(hex_text(48_879), "BEEF");
    assert_eq!(byte_text(10), "0A");
    assert_eq!(trimmed("\t a b \n"), "a b");
    assert_eq!(split_text("a\n\nb", '\n'), ["a", "", "b"]);
    assert_eq!(join_text(&vec!["a".into(), "".into(), "b".into()], '\n'), "a\n\nb");
    assert_eq!(python_continuation_indentation(" \tif x:"), " \t    ");
}

#[test]
fn runs_of_three_lines_are_compressed() {
    let mut settings = ViewerSettings::default();
    let two = vec![7; 32];
    settings.compress_repeated_rows = true;
    assert_eq!(
        build_rows(&two, settings),
        [DisplayRow::Bytes { offset: 0 }, DisplayRow::Bytes { offset: 16 }]
    );
    let mut three = vec![7; 48];
    three.push(7);
    assert_eq!(
        build_rows(&three, settings),
        [
            DisplayRow::Repeated { start: 0, end: 47, byte: 7, physical_rows: 3 },
            DisplayRow::Bytes { offset: 48 },
        ]
    );
    settings.compress_repeated_rows = false;
    assert_eq!(build_rows(&three, settings).len(), 4);
    assert!(build_rows(&vec![], settings).is_empty());
}

#[test]
fn ranges_that_touch_are_merged() {
    let ranges = vec![
        Selection { anchor: 9, cursor: 8 },
        Selection { anchor: 2, cursor: 4 },
        Selection { anchor: 5, cursor: 5 },
        Selection { anchor: 3, cursor: 3 },
    ];
    assert_eq!(
        merge_ranges(&ranges),
        [Selection { anchor: 2, cursor: 5 }, Selection { anchor: 8, cursor: 9 }]
    );
    assert!(merge_ranges(&vec![]).is_empty());
}

#[test]
fn files_are_divided_for_their_entropy() {
    assert_eq!(window_size(0), 256);
    assert_eq!(window_size(32_768), 256);
    assert_eq!(window_size(32_769), 257);
    assert_eq!(window_end(300, 0), 256);
    assert_eq!(window_end(300, 256), 300);
    let counts = histogram(&vec![1, 2, 1, 3], 0, 3);
    assert_eq!((counts[0], counts[1], counts[2], counts[3]), (0, 2, 1, 0));
    assert_eq!(percent(1, 3), 33);
    assert_eq!(percent(3, 3), 100);
    assert_eq!(percent(0, 0), 100);
}

#[test]
fn entropy_is_calculated_once_and_dropped_with_an_edit() {
    let mut app = App::new("sample.bin".into(), vec![1; 10]);
    app.request_entropy();
    assert!(app.entropy_running());
    assert_eq!(app.entropy_total, 10);
    app.request_entropy();
    assert!(matches!(&app.take_effects()[..], [Effect::StartEntropy]));
    app.drain_entropy_messages(&vec![EntropyMessage::Progress(25), EntropyMessage::Progress(4)]);
    assert_eq!(app.entropy_scanned, 4);
    app.receive_entropy(EntropyMessage::Done);
    assert!(app.entropy_ready && !app.entropy_running());
    assert_eq!(app.entropy_scanned, 10);
    app.overwrite_nibble(2);
    assert!(!app.entropy_ready);
    app.request_entropy();
    app.overwrite_nibble(2);
    assert!(matches!(
        &app.take_effects()[..],
        [Effect::StartEntropy, Effect::CancelEntropy]
    ));
    app.receive_entropy(EntropyMessage::Done);
    assert!(!app.entropy_ready);
}

#[test]
fn scrollbars_stay_in_their_range() {
    let area = Rect::new(0, 0, 10, 4);
    assert_eq!(scrollbar_position_from_row(area, 0, 10), 0);
    assert_eq!(scrollbar_position_from_row(area, 100, 10), 10);
    assert_eq!(scrollbar_position_from_row(area, 2, 0), 0);
    assert_eq!(scrollbar_position_from_row(Rect::new(0, 0, 10, 2), 1, 10), 0);
}

#[test]
fn typing_in_a_line_of_text() {
    let mut input = TextInput::default();
    for c in "aéz".chars() {
        input.handle_key(key(KeyCode::Char(c)));
    }
    assert_eq!(input.value, "aéz");
    assert_eq!(input.cursor_byte_index(), 4);
    input.handle_key(key(KeyCode::Left));
    assert_eq!(input.cursor_byte_index(), 3);
    input.handle_key(key(KeyCode::Backspace));
    assert_eq!(input.value, "az");
    input.handle_key(key(KeyCode::Home));
    input.handle_key(key(KeyCode::Backspace));
    assert_eq!(input.value, "az");
    input.handle_key(key(KeyCode::End));
    input.handle_key(control('x'));
    assert_eq!(input.value, "az");
    assert_eq!(input.take_value(), "az");
    assert_eq!(input.value, "");
}

#[test]
fn colors_and_modes_go_around() {
    let mut color = NamedColor::default();
    for _ in 0..16 {
        assert_eq!(color.next().previous(), color);
        color = color.next();
    }
    assert_eq!(color, NamedColor::default());
    let mut mode = ByteColorMode::default();
    for _ in 0..8 {
        assert_eq!(mode.next().previous(), mode);
        mode = mode.next();
    }
    assert_eq!(mode, ByteColorMode::default());
    let mut field = FieldColor::default();
    for _ in 0..6 {
        field = field.next();
    }
    assert_eq!(field, FieldColor::default());
    assert_eq!(FieldColor::Cyan.name(), "cyan");
    assert_eq!(FieldColor::Cyan.color(), Color::Cyan);
}

#[test]
fn bytes_are_colored_by_the_theme() {
    let mut app = App::new("sample.bin".into(), vec![0; 2]);
    app.theme = Theme {
        byte_mode: ByteColorMode::ByteClass,
        ..Theme::default()
    };
    let theme = app.theme.clone();
    assert_eq!(app.theme_color_for_byte(0, 0, false), theme.offset);
    assert_eq!(app.theme_color_for_byte(0, b' ', false), theme.hex_secondary);
    assert_eq!(app.theme_color_for_byte(0, 0x7F, false), theme.modified);
    assert_eq!(app.theme_color_for_byte(0, 0x80, false), theme.hex_primary);
    assert_eq!(app.theme_color_for_byte(0, 0x80, true), theme.ascii);
    app.theme.byte_mode = ByteColorMode::ValueBands;
    assert_eq!(app.theme_color_for_byte(0, 0x3F, false), theme.offset);
    assert_eq!(app.theme_color_for_byte(0, 0x40, false), theme.hex_secondary);
    assert_eq!(app.theme_color_for_byte(0, 0x80, false), theme.hex_primary);
    assert_eq!(app.theme_color_for_byte(0, 0xC0, false), theme.modified);
    app.theme.byte_mode = ByteColorMode::Alternating;
    assert_eq!(app.theme_color_for_byte(1, 0, false), theme.hex_secondary);
}

#[test]
fn quitting_with_changes_takes_a_second_press() {
    let mut app = App::new("sample.bin".into(), vec![1, 2]);
    assert!(app.handle_key(key(KeyCode::Char('q'))));
    app.overwrite_nibble(0xF);
    app.overwrite_nibble(0xF);
    assert!(!app.handle_key(key(KeyCode::Char('q'))));
    assert_eq!(app.status, "Unsaved byte changes: press q again to quit");
    app.handle_key(key(KeyCode::Right));
    assert!(!app.handle_key(key(KeyCode::Char('q'))));
    assert!(app.handle_key(key(KeyCode::Char('q'))));
}

#[test]
fn saving_ends_the_history() {
    let mut app = App::new("dir/sample.bin".into(), vec![1, 2]);
    app.overwrite_nibble(0xF);
    app.handle_key(control('s'));
    let Mode::Path(dialog) = &app.mode else {
        panic!("the dialog should be open");
    };
    assert_eq!(dialog.input.value, "dir/sample.bin");
    app.handle_key(key(KeyCode::Enter));
    assert!(matches!(
        &app.take_effects()[..],
        [Effect::Perform(PathAction::SaveBinary, path)] if path == "dir/sample.bin"
    ));
    app.finish_save_binary("dir/sample.bin".into());
    assert!(matches!(&app.take_effects()[..], [Effect::PersistSaved(_)]));
    app.finish_save("dir/sample.bin", Ok(Some("o.json".into())));
    assert_eq!(app.status, "Saved binary to dir/sample.bin; overlay saved to o.json");
    assert!(matches!(app.mode, Mode::Normal));
    assert!(app.modified_offsets.is_empty());
    app.undo_overwrite();
    assert_eq!(app.status, "Nothing to undo");
    assert_eq!(app.bytes.as_slice(), [0xF1, 2]);
}

#[test]
fn overlays_are_suggested_under_the_name_of_the_file() {
    let mut app = App::new("dir/sample.bin".into(), vec![1, 2]);
    app.handle_key(control('o'));
    assert!(matches!(
        &app.take_effects()[..],
        [Effect::SuggestOverlay(PathAction::SaveOverlay)]
    ));
    for (directory, path) in [
        ("/data", "/data/sample.bin.rexedit-overlay.json"),
        ("/data/", "/data/sample.bin.rexedit-overlay.json"),
        ("", "sample.bin.rexedit-overlay.json"),
    ] {
        app.suggest_overlay(PathAction::SaveOverlay, directory.into(), '/');
        let Mode::Path(dialog) = &app.mode else {
            panic!("no dialog");
        };
        assert_eq!(dialog.input.value, path);
    }
    app.open_path_dialog(PathAction::SaveTheme);
    let effects = app.take_effects();
    assert!(matches!(
        &effects[..],
        [Effect::SuggestPath(PathAction::SaveTheme, name)] if name.ends_with(".rexedit-theme.json")
    ));
    assert!(app.overlay_is_due(true, true));
    assert!(!app.overlay_is_due(true, false));
    assert!(!app.overlay_is_due(false, true));
}

#[test]
fn messages_name_what_went_wrong_with_a_file() {
    let cases = [
        (
            FileProblem::Directory("d".into(), "e".into()),
            "Could not create overlay storage directory d: e",
        ),
        (FileProblem::Encode("e".into()), "Could not serialize overlay: e"),
        (FileProblem::Write("e".into()), "Could not save overlay to p: e"),
        (FileProblem::Read("e".into()), "Could not read overlay p: e"),
        (FileProblem::Decode("e".into()), "Invalid overlay JSON: e"),
    ];
    for (problem, message) in &cases {
        assert_eq!(problem_text(PathAction::LoadOverlay, "p", problem), *message);
    }
    let mut app = App::new("sample.bin".into(), vec![1]);
    app.open_path_dialog(PathAction::SaveBinary);
    app.finish_failed(PathAction::SaveBinary, "p", &FileProblem::Write("full".into()));
    assert_eq!(app.status, "Could not save binary to p: full");
    assert!(matches!(app.mode, Mode::Path(_)));
}

#[test]
fn stored_fields_that_do_not_fit_are_left_out() {
    let field = |start, end| Field {
        name: "f".into(),
        description: String::new(),
        start,
        end,
        color: FieldColor::Cyan,
    };
    let mut app = App::new("sample.bin".into(), vec![0; 4]);
    let overlay = Overlay { fields: vec![field(0, 3), field(2, 1), field(3, 4)] };
    app.restore_overlay(Ok(Some(overlay)));
    assert_eq!(app.fields, [field(0, 3)]);
    assert_eq!(app.status, "Restored 1 saved overlay field(s)");
    app.restore_overlay(Err("bad".into()));
    assert_eq!(app.status, "Could not restore saved overlay: bad");
}

#[test]
fn fields_are_edited_and_deleted() {
    let mut app = App::new("sample.bin".into(), vec![0; 16]);
    app.handle_key(key(KeyCode::Char('a')));
    for c in "magic".chars() {
        app.handle_key(key(KeyCode::Char(c)));
    }
    app.handle_key(key(KeyCode::Enter));
    assert_eq!(app.fields.len(), 1);
    assert_eq!(app.fields[0].name, "magic");
    assert!(matches!(app.mode, Mode::Normal));
    assert!(matches!(&app.take_effects()[..], [Effect::PersistOverlay]));
    app.finish_overlay(Ok(Some("o.json".into())));
    assert!(app.status.ends_with("; overlay saved to o.json"));
    app.handle_key(key(KeyCode::Tab));
    assert_eq!(app.focus, Focus::Fields);
    app.handle_key(key(KeyCode::Char('d')));
    assert!(app.fields.is_empty());
    assert!(app.status.starts_with("Deleted field 'magic'"));
}

#[test]
fn jumping_to_an_offset() {
    let mut app = App::new("sample.bin".into(), vec![0; 16]);
    app.handle_key(control('g'));
    for c in "0xF".chars() {
        app.handle_key(key(KeyCode::Char(c)));
    }
    app.handle_key(key(KeyCode::Enter));
    assert_eq!(app.selection.unwrap().cursor, 15);
    assert!(matches!(app.mode, Mode::Normal));
}

#[test]
fn copying_and_pasting_go_through_the_clipboard() {
    let mut app = App::new("sample.bin".into(), vec![0xDE, 0xAD]);
    app.handle_key(KeyEvent::new(KeyCode::Right, KeyModifiers::shifted()));
    app.handle_key(control('C'));
    assert!(matches!(&app.take_effects()[..], [Effect::Copy(hex)] if hex == "DEAD"));
    app.finish_copy(4, Ok(()));
    assert_eq!(app.status, "Copied 2 bytes as continuous hex");
    app.finish_copy(4, Err("no".into()));
    assert_eq!(app.status, "Could not copy selection: no");
    app.handle_key(key(KeyCode::Char('i')));
    app.handle_key(key(KeyCode::Home));
    app.handle_key(control('v'));
    assert!(matches!(&app.take_effects()[..], [Effect::Paste]));
    app.finish_paste(Ok("00ff".into()));
    assert_eq!(app.bytes.as_slice(), [0x00, 0xFF]);
    app.finish_paste(Err("empty".into()));
    assert_eq!(app.status, "Could not paste from clipboard: empty");
    app.finish_paste(Ok("zz".into()));
    assert_eq!(app.status, "Clipboard did not contain a full byte of hex digits");
    app.handle_key(key(KeyCode::Insert));
    assert_eq!(app.edit_kind, EditKind::Insert);
}

#[test]
fn typed_paths_are_path_lookup() {
    assert_eq!(
        completion_lookup("", None, None, '/'),
        (".".to_string(), String::new())
    );
    assert_eq!(
        completion_lookup("a/", Some("a".into()), Some("".into()), '/'),
        ("a/".to_string(), String::new())
    );
    assert_eq!(
        completion_lookup("a/b", Some("b".into()), Some("a".into()), '/'),
        ("a".to_string(), "b".to_string())
    );
    assert_eq!(
        completion_lookup("b", Some("b".into()), Some("".into()), '/'),
        (".".to_string(), "b".to_string())
    );
    assert_eq!(completion_display_path("a", true, '/'), "a/");
    assert_eq!(completion_display_path("a/", true, '/'), "a/");
    assert_eq!(completion_display_path("a", false, '/'), "a");
}

fn parts(directory: &str, name: &str) -> (String, String) {
    (directory.to_string(), name.to_string())
}

#[test]
fn typed_paths_are_taken_apart() {
    assert_eq!(path_lookup("", '/'), parts(".", ""));
    assert_eq!(path_lookup("b", '/'), parts(".", "b"));
    assert_eq!(path_lookup(".", '/'), parts(".", ""));
    assert_eq!(path_lookup("..", '/'), parts(".", ""));
    assert_eq!(path_lookup("a/", '/'), parts("a/", ""));
    assert_eq!(path_lookup("a/b", '/'), parts("a", "b"));
    assert_eq!(path_lookup("a//b", '/'), parts("a", "b"));
    assert_eq!(path_lookup("a/.", '/'), parts(".", "a"));
    assert_eq!(path_lookup("a/..", '/'), parts("a", ""));
    assert_eq!(path_lookup("./b", '/'), parts(".", "b"));
    assert_eq!(path_lookup("/b", '/'), parts("/", "b"));
    assert_eq!(path_lookup("/a/b.c", '/'), parts("/a", "b.c"));
    assert_eq!(path_lookup("C:\\foo", '\\'), parts("C:\\", "foo"));
    assert_eq!(path_lookup("C:foo", '\\'), parts("C:", "foo"));
    assert_eq!(path_lookup("a/b\\c", '\\'), parts("a/b", "c"));
}

#[test]
fn typed_paths_are_taken_apart_as_the_system_does() {
    if std::path::MAIN_SEPARATOR != '/' {
        return;
    }
    for input in [
        "b", ".", "..", "a/b", "a//b", "a/.", "a/./b", "a/..", "a/../b", "./b", "../b", "/b", "//b",
        "/.", "/..", "/a/b", "/a//./b", "a/b/.", "a/.b", "a/..b", "a b/c", "é/ü", ".//b", "a/./.",
        "///.//b", "a\\b/c",
    ] {
        let path = std::path::Path::new(input);
        let name = path.file_name().and_then(|name| name.to_str()).unwrap_or("");
        let directory = path.parent().and_then(|parent| parent.to_str()).unwrap_or("");
        let directory = if directory.is_empty() { "." } else { directory };
        assert_eq!(path_lookup(input, '/'), parts(directory, name), "{input}");
    }
}

#[test]
fn the_console_needs_an_active_file() {
    assert_eq!(check_active(2, 1), Ok(()));
    assert_eq!(check_active(2, 2), Err("Active Python document is unavailable".to_string()));
    assert_eq!(check_active(0, 0), Err("Active Python document is unavailable".to_string()));
}

#[test]
fn runs_are_as_long_as_they_can_be() {
    let mut settings = ViewerSettings::default();
    settings.compress_repeated_rows = true;
    let mut bytes = vec![1; 16];
    bytes.extend(vec![7; 16 * 5]);
    bytes.extend(vec![8; 16 * 3]);
    bytes.extend(vec![9; 16 * 2]);
    assert_eq!(
        build_rows(&bytes, settings),
        [
            DisplayRow::Bytes { offset: 0 },
            DisplayRow::Repeated { start: 16, end: 95, byte: 7, physical_rows: 5 },
            DisplayRow::Repeated { start: 96, end: 143, byte: 8, physical_rows: 3 },
            DisplayRow::Bytes { offset: 144 },
            DisplayRow::Bytes { offset: 160 },
        ]
    );
}

#[test]
fn selected_bytes_come_in_the_order_of_the_file() {
    let mut app = App::new("sample.bin".into(), vec![0, 1, 2, 3, 4, 5, 6, 7]);
    app.selection = Some(Selection { anchor: 7, cursor: 6 });
    app.additional_selections =
        vec![Selection { anchor: 1, cursor: 2 }, Selection { anchor: 2, cursor: 4 }];
    assert_eq!(app.selected_bytes(), [1, 2, 3, 4, 6, 7]);
}

#[test]
fn answers_of_other_programs_are_read() {
    assert_eq!(nonempty_output(b"a\xFFb "), Some("a\u{FFFD}b".to_string()));
    assert_eq!(picker_outcome(true, b" /tmp/x\n", b"noise"), Ok(Some("/tmp/x".to_string())));
    assert_eq!(picker_outcome(true, b"\n", b""), Ok(None));
    assert_eq!(picker_outcome(false, b"/tmp/x", b" \n"), Ok(None));
    assert_eq!(
        picker_outcome(false, b"", b" no display \n"),
        Err("File picker failed: no display".to_string())
    );
    assert!(picker_is_missing("File picker command not found or could not start: x"));
    assert!(!picker_is_missing("File picker failed: not foun"));
    assert_eq!(
        clipboard_reply("xsel", &ClipboardReply::Content(b"4F\n".to_vec())),
        Ok("4F\n".to_string())
    );
    assert_eq!(
        clipboard_reply("xsel", &ClipboardReply::Failed(b" broken\n".to_vec())),
        Err("xsel: broken".to_string())
    );
    assert_eq!(
        clipboard_reply("xsel", &ClipboardReply::Failed(vec![])),
        Err("xsel: did not complete successfully".to_string())
    );
    assert_eq!(
        clipboard_reply("xsel", &ClipboardReply::Missing("gone".into())),
        Err("xsel: could not start (gone)".to_string())
    );
    assert_eq!(clipboard_problem(&vec![]), "no clipboard command available");
    assert_eq!(clipboard_problem(&vec!["a".into(), "b".into()]), "a; b");
    assert_eq!(copy_problem(&vec![], "e"), "e");
    assert_eq!(
        copy_problem(&vec!["a".into(), "b".into()], "e"),
        "a; b; terminal clipboard fallback failed: e"
    );
}

#[test]
fn overlays_are_stored_with_the_data_of_the_user() {
    let some = |text: &str| Some(text.to_string());
    assert_eq!(
        overlay_storage_dir(Platform::Windows, some("C:\\d"), some("x"), some("y")),
        ["C:\\d", "rexedit", "overlays"]
    );
    assert_eq!(
        overlay_storage_dir(Platform::MacOs, None, some("x"), some("/Users/u")),
        ["/Users/u", "Library", "Application Support", "rexedit", "overlays"]
    );
    assert_eq!(
        overlay_storage_dir(Platform::Unix, some("a"), some("/data"), some("/home/u")),
        ["/data", "rexedit", "overlays"]
    );
    assert_eq!(
        overlay_storage_dir(Platform::Unix, None, None, None),
        [".", ".local", "share", "rexedit", "overlays"]
    );
}

#[test]
fn other_contents_have_other_names() {
    let name = content_identity(&[1, 2, 3]);
    assert_eq!(name.len(), 48);
    assert_eq!(&name[..16], "0000000000000003");
    assert!(name.chars().all(|c| c.is_ascii_digit() || ('a'..='f').contains(&c)));
    assert_ne!(name, content_identity(&[1, 2, 4]));
    assert_ne!(name, content_identity(&[0, 2, 3]));
    assert_ne!(name, content_identity(&[1, 2]));
    assert_ne!(content_identity(&[]), content_identity(&[0]));
    assert_eq!(name, content_identity(&[1, 2, 3]));
}
