//! Mouse and key events across panes and files.

use rexedit::app::App;
use rexedit::dialog::{OpenFileDialog, Suggestion};
use rexedit::effects::Effect;
use rexedit::entropy::EntropyMessage;
use rexedit::geometry::Rect;
use rexedit::input::{
    KeyCode, KeyEvent, KeyModifiers, MouseButton, MouseEvent, MouseEventKind,
};
use rexedit::model::{Field, FieldColor, Selection};
use rexedit::modes::{Focus, Mode, ScrollbarDrag};
use rexedit::python::PythonSnapshot;
use rexedit::workspace::{Task, Workspace};

fn key(code: KeyCode) -> KeyEvent {
    KeyEvent::new(code, KeyModifiers::none())
}

fn control(c: char) -> KeyEvent {
    KeyEvent::new(KeyCode::Char(c), KeyModifiers::controlled())
}

fn mouse(kind: MouseEventKind, column: u16, row: u16) -> MouseEvent {
    MouseEvent { kind, column, row, modifiers: KeyModifiers::none() }
}

fn click(column: u16, row: u16) -> MouseEvent {
    mouse(MouseEventKind::Down(MouseButton::Left), column, row)
}

fn drag(column: u16, row: u16) -> MouseEvent {
    mouse(MouseEventKind::Drag(MouseButton::Left), column, row)
}

fn release(column: u16, row: u16) -> MouseEvent {
    mouse(MouseEventKind::Up(MouseButton::Left), column, row)
}

/// A file whose viewer fills the left of the terminal, with a list of fields at its right.
fn laid_out(length: usize) -> App {
    let mut app = App::new("sample.bin".into(), vec![0; length]);
    app.viewer_area = Rect::new(0, 0, 80, 12);
    app.fields_area = Rect::new(80, 0, 20, 12);
    app.visible_rows = 10;
    app.visible_fields = 10;
    app
}

#[test]
fn cells_are_traced_to_their_bytes() {
    let mut app = laid_out(256);
    // Digits: ten columns of offsets, three columns per byte, one more after eight bytes.
    assert_eq!(app.byte_at(1 + 9, 1), None);
    assert_eq!(app.byte_at(1 + 10, 1), Some(0));
    assert_eq!(app.byte_at(1 + 12, 1), Some(0));
    assert_eq!(app.byte_at(1 + 13, 1), Some(1));
    assert_eq!(app.byte_at(1 + 33, 1), Some(7));
    assert_eq!(app.byte_at(1 + 34, 1), None);
    assert_eq!(app.byte_at(1 + 35, 2), Some(24));
    assert_eq!(app.byte_at(1 + 58, 1), Some(15));
    assert_eq!(app.byte_at(1 + 59, 1), None);
    // Characters: two columns after the last digit.
    assert_eq!(app.byte_at(1 + 61, 1), Some(0));
    assert_eq!(app.byte_at(1 + 76, 1), Some(15));
    assert_eq!(app.byte_at(1 + 77, 1), None);
    app.settings.show_offsets = false;
    assert_eq!(app.byte_at(1, 1), Some(0));
    app.settings.show_ascii = false;
    assert_eq!(app.byte_at(1 + 51, 1), None);
    app.scroll = 15;
    assert_eq!(app.byte_at(1, 1), Some(240));
    assert_eq!(app.byte_at(1, 2), None);
}

#[test]
fn dragging_selects_from_the_first_byte_to_the_last() {
    let mut app = laid_out(256);
    app.handle_mouse(click(1 + 13, 1));
    assert_eq!(app.selection, Some(Selection::new(1)));
    app.handle_mouse(drag(1 + 10, 2));
    assert_eq!(app.selection, Some(Selection { anchor: 1, cursor: 16 }));
    app.handle_mouse(release(1 + 10, 2));
    app.handle_mouse(drag(1 + 10, 3));
    assert_eq!(app.selection, Some(Selection { anchor: 1, cursor: 16 }));
    assert_eq!(app.selected_bytes().len(), 16);
}

#[test]
fn the_wheel_scrolls_what_is_under_it() {
    let mut app = laid_out(16 * 40);
    app.handle_mouse(mouse(MouseEventKind::ScrollDown, 5, 5));
    assert_eq!(app.scroll, 3);
    for _ in 0..20 {
        app.handle_mouse(mouse(MouseEventKind::ScrollDown, 5, 5));
    }
    assert_eq!(app.scroll, 30);
    app.handle_mouse(mouse(MouseEventKind::ScrollUp, 5, 5));
    assert_eq!(app.scroll, 27);
    app.handle_mouse(mouse(MouseEventKind::ScrollDown, 85, 5));
    assert_eq!((app.scroll, app.fields_scroll, app.focus), (27, 0, Focus::Fields));
}

#[test]
fn scrollbars_are_dragged() {
    let mut app = laid_out(16 * 40);
    app.handle_mouse(click(79, 10));
    assert_eq!(app.scroll, 30);
    assert_eq!(app.scrollbar_dragging, Some(ScrollbarDrag::Viewer));
    app.handle_mouse(drag(40, 1));
    assert_eq!(app.scroll, 0);
    assert_eq!(app.selection, Some(Selection::new(0)));
    app.handle_mouse(release(40, 1));
    assert_eq!(app.scrollbar_dragging, None);
}

#[test]
fn a_click_on_a_field_selects_its_bytes() {
    let mut app = laid_out(64);
    app.fields = (0..2)
        .map(|index| Field {
            name: format!("f{index}"),
            description: String::new(),
            start: 10 * index,
            end: 10 * index + 4,
            color: FieldColor::Cyan,
        })
        .collect();
    app.handle_mouse(click(85, 2));
    assert_eq!(app.selected_field, 1);
    assert_eq!(app.focus, Focus::Fields);
    assert_eq!(app.selection, Some(Selection { anchor: 10, cursor: 14 }));
}

#[test]
fn the_console_takes_the_mouse_over_its_area() {
    let mut app = laid_out(64);
    app.python_area = Rect::new(0, 12, 100, 6);
    app.open_python_pane_with_session(vec![]);
    app.handle_mouse(click(20, 1));
    assert_eq!(app.focus, Focus::Viewer);
    app.handle_mouse(mouse(MouseEventKind::ScrollUp, 5, 13));
    assert_eq!(app.focus, Focus::Python);
    let Mode::Python(pane) = &app.mode else {
        panic!("the console should be open");
    };
    assert_eq!(pane.scroll, 3);
    app.handle_mouse(click(99, 16));
    let Mode::Python(pane) = &app.mode else {
        panic!("the console should be open");
    };
    assert_eq!(pane.scroll, 0);
}

#[test]
fn panes_are_selected_by_a_click() {
    let mut workspace = Workspace::new(vec![
        App::new("one.bin".into(), vec![1]),
        App::new("two.bin".into(), vec![2]),
    ]);
    workspace.side_by_side = true;
    workspace.tab_row = 50;
    workspace.comparison_panes = vec![Rect::new(0, 1, 10, 5), Rect::new(10, 1, 10, 5)];
    workspace.handle_workspace_mouse(click(12, 2));
    assert_eq!(workspace.active, 1);
    assert_eq!(workspace.status, "Active binary: two.bin");
    assert_eq!(workspace.comparison_index(), Some(0));
}

#[test]
fn differences_are_shown_side_by_side() {
    let mut workspace = Workspace::new(vec![App::new("one.bin".into(), vec![1])]);
    workspace.handle_workspace_key(control('d'));
    assert_eq!(workspace.status, "Open at least two binaries to diff");
    assert_eq!(workspace.comparison_index(), None);
    workspace.finish_open("two.bin", Ok(App::new("two.bin".into(), vec![2])));
    assert_eq!(workspace.active, 1);
    workspace.handle_workspace_key(control('d'));
    assert!(workspace.diff_mode && workspace.side_by_side);
    workspace.handle_workspace_key(control('w'));
    assert!(matches!(&workspace.take_tasks()[..], [Task::StoreAndClose]));
    workspace.finish_close(Err("disk full".into()));
    assert_eq!(workspace.documents.len(), 2);
    assert_eq!(workspace.status, "disk full");
    workspace.finish_close(Ok(()));
    assert_eq!(workspace.documents.len(), 1);
    assert!(!workspace.diff_mode && !workspace.side_by_side);
    assert_eq!(workspace.status, "Closed two.bin");
    workspace.finish_close(Ok(()));
    assert_eq!(workspace.status, "Closed one.bin; Ctrl+N opens a file");
}

#[test]
fn entropy_is_shown_with_its_progress() {
    let mut workspace = Workspace::new(vec![
        App::new("one.bin".into(), vec![1; 10]),
        App::new("two.bin".into(), vec![2; 30]),
    ]);
    workspace.side_by_side = true;
    workspace.handle_workspace_key(key(KeyCode::Char('e')));
    assert!(workspace.show_entropy);
    workspace.documents[0].receive_entropy(EntropyMessage::Progress(10));
    workspace.documents[1].receive_entropy(EntropyMessage::Progress(5));
    workspace.update_entropy_status();
    assert_eq!(
        workspace.status,
        "Calculating entropy for 2/2 binary files: 37%"
    );
    workspace.documents[0].receive_entropy(EntropyMessage::Done);
    workspace.documents[1].receive_entropy(EntropyMessage::Done);
    workspace.update_entropy_status();
    assert_eq!(workspace.status, "Entropy calculation complete");
    workspace.diff_mode = true;
    workspace.update_entropy_status();
    assert_eq!(
        workspace.status,
        "Entropy profiles ready; showing absolute entropy differences"
    );
    workspace.handle_workspace_key(key(KeyCode::Char('e')));
    assert_eq!(workspace.status, "Entropy panel hidden");
}

#[test]
fn a_file_is_picked_or_its_path_typed() {
    let mut workspace = Workspace::new(vec![]);
    workspace.handle_workspace_key(control('n'));
    workspace.handle_workspace_key(key(KeyCode::Enter));
    assert!(matches!(&workspace.take_tasks()[..], [Task::PickFile]));
    workspace.finish_pick(Ok(None));
    assert_eq!(workspace.status, "Open cancelled");
    workspace.finish_pick(Err("No picker.".into()));
    assert_eq!(workspace.status, "No picker. Type a path manually instead.");
    workspace.handle_workspace_key(key(KeyCode::Enter));
    assert_eq!(workspace.status, "Enter a full or relative file path");
    for c in "di".chars() {
        workspace.handle_workspace_key(key(KeyCode::Char(c)));
    }
    workspace.handle_workspace_key(key(KeyCode::Tab));
    assert!(matches!(&workspace.take_tasks()[..], [Task::ListPaths(typed)] if typed == "di"));
    workspace.offer_paths(vec![
        Suggestion { path: "dir".into(), shown: "dir/".into(), is_dir: true },
        Suggestion { path: "disk".into(), shown: "disk".into(), is_dir: false },
    ]);
    workspace.handle_workspace_key(key(KeyCode::Tab));
    workspace.handle_workspace_key(key(KeyCode::Enter));
    let Some(OpenFileDialog::ManualPath { input, suggestions, .. }) = &workspace.open_file_dialog
    else {
        panic!("the dialog should stay open");
    };
    assert_eq!(input.value, "dir/");
    assert!(suggestions.is_empty());
    workspace.handle_workspace_key(key(KeyCode::Char('x')));
    workspace.handle_workspace_key(key(KeyCode::Enter));
    assert!(matches!(&workspace.take_tasks()[..], [Task::Open(path)] if path == "dir/x"));
    workspace.finish_open("dir/x", Err("missing".into()));
    assert_eq!(workspace.status, "Could not open dir/x: missing");
    assert!(workspace.open_file_dialog.is_some());
    workspace.handle_workspace_key(key(KeyCode::Esc));
    assert!(workspace.open_file_dialog.is_none());
}

#[test]
fn a_path_that_became_a_directory_is_entered() {
    let mut workspace = Workspace::new(vec![]);
    workspace.handle_workspace_key(control('n'));
    workspace.handle_workspace_key(key(KeyCode::Enter));
    workspace.finish_pick(Err("No picker.".into()));
    workspace.handle_workspace_key(key(KeyCode::Char('d')));
    workspace.handle_workspace_key(key(KeyCode::Tab));
    workspace.take_tasks();
    workspace.offer_paths(vec![
        Suggestion { path: "da".into(), shown: "da".into(), is_dir: false },
        Suggestion { path: "db".into(), shown: "db/".into(), is_dir: true },
    ]);
    workspace.recheck_paths(&vec![true, false], '/');
    let Some(OpenFileDialog::ManualPath { suggestions, .. }) = &workspace.open_file_dialog else {
        panic!("the dialog should stay open");
    };
    assert!(suggestions[0].is_dir && !suggestions[1].is_dir);
    workspace.handle_workspace_key(key(KeyCode::Tab));
    workspace.handle_workspace_key(key(KeyCode::Enter));
    let Some(OpenFileDialog::ManualPath { input, suggestions, .. }) = &workspace.open_file_dialog
    else {
        panic!("the dialog should stay open");
    };
    assert_eq!(input.value, "da/");
    assert!(suggestions.is_empty());
}

#[test]
fn the_console_is_started_with_all_files() {
    let mut workspace = Workspace::new(vec![
        App::new("one.bin".into(), vec![1, 2, 3]),
        App::new("two.bin".into(), vec![4]),
    ]);
    workspace.documents[0].selection = Some(Selection { anchor: 2, cursor: 1 });
    workspace.handle_workspace_key(key(KeyCode::Char('p')));
    let tasks = workspace.take_tasks();
    let [Task::StartPython(documents, 0)] = &tasks[..] else {
        panic!("an interpreter should be asked for");
    };
    assert_eq!(documents.len(), 2);
    assert_eq!((documents[0].selection_start, documents[0].selection_end), (1, 2));
    assert_eq!(documents[0].selections, [(1, 2)]);
    assert_eq!(documents[1].bytes, [4]);
    workspace.finish_start_python(Err("no Python".into()));
    assert_eq!(workspace.status, "no Python");
    let snapshots = vec![
        PythonSnapshot { index: 0, path: "a".into(), baseline: vec![1, 2, 3] },
        PythonSnapshot { index: 1, path: "b".into(), baseline: vec![4] },
    ];
    workspace.finish_start_python(Ok(snapshots.clone()));
    assert!(workspace.active().in_python());
    workspace.handle_workspace_key(control('b'));
    workspace.handle_workspace_key(key(KeyCode::Right));
    workspace.handle_workspace_key(control('w'));
    assert_eq!(workspace.status, "Close the Python console before closing binaries");
    workspace.apply_python_snapshot(&snapshots[1], Ok(vec![9]));
    assert_eq!(workspace.documents[1].bytes.as_slice(), [9]);
}

#[test]
fn editing_one_file_leaves_the_others() {
    let mut workspace = Workspace::new(vec![
        App::new("one.bin".into(), vec![1]),
        App::new("two.bin".into(), vec![2]),
    ]);
    for c in ['i', 'f', 'f'] {
        workspace.handle_workspace_key(key(KeyCode::Char(c)));
    }
    assert_eq!(workspace.documents[0].bytes.as_slice(), [0xFF]);
    assert_eq!(workspace.documents[1].bytes.as_slice(), [2]);
    workspace.handle_workspace_key(control('b'));
    workspace.handle_workspace_key(key(KeyCode::Char('s')));
    assert_eq!(workspace.status, "Side-by-side comparison is available in View Mode");
    workspace.handle_workspace_key(control('b'));
    workspace.handle_workspace_key(key(KeyCode::Char('x')));
    assert_eq!(workspace.status, "Tab switch cancelled");
}

#[test]
fn undo_goes_back_through_every_kind_of_edit() {
    let mut app = App::new("sample.bin".into(), vec![1, 2, 3, 4]);
    let mut states = vec![app.bytes.as_slice().to_vec()];
    app.handle_key(key(KeyCode::Char('i')));
    for c in ['a', 'b'] {
        app.handle_key(key(KeyCode::Char(c)));
    }
    states.push(app.bytes.as_slice().to_vec());
    app.handle_key(key(KeyCode::Insert));
    for c in ['c', 'd'] {
        app.handle_key(key(KeyCode::Char(c)));
    }
    states.push(app.bytes.as_slice().to_vec());
    app.handle_key(key(KeyCode::Delete));
    states.push(app.bytes.as_slice().to_vec());
    app.paste_hex_bytes("0102");
    states.push(app.bytes.as_slice().to_vec());
    app.handle_key(key(KeyCode::Char('i')));
    app.paste_hex_bytes("ff");
    states.push(app.bytes.as_slice().to_vec());
    assert_eq!(app.undo_stack.len(), 5);
    for state in states.iter().rev().skip(1) {
        app.handle_key(control('u'));
        assert_eq!(app.bytes.as_slice(), &state[..]);
    }
    assert!(app.modified_offsets.is_empty());
    for state in states.iter().skip(1) {
        app.handle_key(control('r'));
        assert_eq!(app.bytes.as_slice(), &state[..]);
    }
    app.redo_overwrite();
    assert_eq!(app.status, "Nothing to redo");
    assert!(app.take_effects().is_empty());
    app.take_effects();
    app.ask(Effect::Paste);
    assert_eq!(app.take_effects().len(), 1);
}

#[test]
fn keys_keep_the_record_of_changes_true() {
    let mut app = App::new("sample.bin".into(), vec![0x10, 0x20, 0x30]);
    for c in ['i', 'a', 'b', 'c'] {
        app.handle_key(key(KeyCode::Char(c)));
    }
    assert_eq!(app.bytes.as_slice(), &[0xAB, 0xC0, 0x30]);
    app.handle_key(key(KeyCode::Esc));
    assert!(app.pending_edit.is_none());
    assert_eq!(app.modified_offsets.iter().copied().collect::<Vec<_>>(), vec![0, 1]);
    app.undo_overwrite();
    assert_eq!(app.bytes.as_slice(), &[0xAB, 0x20, 0x30]);
    app.undo_overwrite();
    assert_eq!(app.bytes.as_slice(), &[0x10, 0x20, 0x30]);
    assert!(app.modified_offsets.is_empty());
}

#[test]
fn an_inserted_byte_is_taken_back_and_made_again() {
    let mut app = App::new("sample.bin".into(), vec![0x10, 0x20]);
    for c in ['i', 'i', '7', 'f'] {
        app.handle_key(key(KeyCode::Char(c)));
    }
    assert_eq!(app.bytes.as_slice(), &[0x7F, 0x10, 0x20]);
    app.handle_key(control('u'));
    assert_eq!(app.bytes.as_slice(), &[0x10, 0x20]);
    assert!(app.modified_offsets.is_empty());
    app.handle_key(control('r'));
    assert_eq!(app.bytes.as_slice(), &[0x7F, 0x10, 0x20]);
    app.handle_key(control('r'));
    assert_eq!(app.status, "Nothing to redo");
}

#[test]
fn a_half_typed_byte_is_kept_when_the_cursor_leaves_it() {
    let mut app = App::new("sample.bin".into(), vec![0x10, 0x20, 0x30]);
    app.fields = vec![Field {
        name: "tail".into(),
        description: String::new(),
        start: 2,
        end: 2,
        color: FieldColor::Cyan,
    }];
    app.open_python_pane_with_session(vec![]);
    app.focus = Focus::Viewer;
    for code in [KeyCode::Char('i'), KeyCode::Char('a'), KeyCode::Tab, KeyCode::Down] {
        app.handle_key(key(code));
    }
    assert_eq!(app.selection.unwrap().cursor, 2);
    assert!(app.pending_edit.is_none());
    app.focus = Focus::Viewer;
    app.handle_key(key(KeyCode::Char('b')));
    assert_eq!(app.bytes.as_slice(), &[0xA0, 0x20, 0xB0]);
    app.handle_key(control('u'));
    assert_eq!(app.bytes.as_slice(), &[0xA0, 0x20, 0x30]);
    app.handle_key(control('u'));
    assert_eq!(app.bytes.as_slice(), &[0x10, 0x20, 0x30]);
}

#[test]
fn an_applied_buffer_leaves_the_first_digit_due() {
    let mut app = App::new("sample.bin".into(), vec![0x10, 0x20]);
    app.edit_mode = true;
    app.handle_key(key(KeyCode::Char('a')));
    let snapshot = PythonSnapshot { index: 0, path: "p".into(), baseline: vec![0xA0, 0x20] };
    app.apply_python_snapshot(&snapshot, Ok(vec![0xA0, 0x21]));
    app.handle_key(key(KeyCode::Char('c')));
    assert_eq!(app.bytes.as_slice(), &[0xC0, 0x21]);
    app.handle_key(control('u'));
    assert_eq!(app.bytes.as_slice(), &[0xA0, 0x21]);
}

#[test]
fn a_drag_keeps_the_byte_that_it_leaves() {
    let mut app = App::new("sample.bin".into(), vec![0x10, 0x20, 0x30]);
    app.viewer_area = Rect::new(0, 0, 80, 10);
    app.visible_rows = 8;
    app.edit_mode = true;
    app.handle_mouse(mouse(MouseEventKind::Down(MouseButton::Left), 11, 1));
    app.handle_key(key(KeyCode::Char('a')));
    assert!(app.pending_edit.is_some());
    app.handle_mouse(mouse(MouseEventKind::Drag(MouseButton::Left), 14, 1));
    assert!(app.pending_edit.is_none());
    assert_eq!(app.selection.unwrap().cursor, 1);
    app.handle_key(control('u'));
    assert_eq!(app.bytes.as_slice(), &[0x10, 0x20, 0x30]);
}
