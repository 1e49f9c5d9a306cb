//! Several open files, and the dialogs that open and close them.

use rexedit::app::App;
use rexedit::dialog::{
    cycle_suggestion, move_suggestion, offer_candidates, path_completion_candidates,
    DirectoryEntry, OpenFileDialog, PathAction, Suggestion, PATH_SUGGESTION_PAGE_SIZE,
};
use rexedit::editing::EditKind;
use rexedit::effects::Effect;
use rexedit::input::{
    KeyCode, KeyEvent, KeyModifiers, MouseButton, MouseEvent, MouseEventKind, TextInput,
};
use rexedit::model::Selection;
use rexedit::modes::Mode;
use rexedit::system::nonempty_output;
use rexedit::workspace::{Task, Workspace};

fn key(code: KeyCode) -> KeyEvent {
    KeyEvent::new(code, KeyModifiers::none())
}

fn control(c: char) -> KeyEvent {
    KeyEvent::new(KeyCode::Char(c), KeyModifiers::controlled())
}

fn entry(directory: &str, name: &str, is_dir: bool) -> DirectoryEntry {
    DirectoryEntry {
        path: format!("{directory}/{name}"),
        name: name.into(),
        is_dir,
        leads_to_dir: is_dir,
    }
}

/// Does what the workspace asks for, with nothing to store and one file to read.
fn settle(workspace: &mut Workspace, contents: &[u8]) {
    for task in workspace.take_tasks() {
        match task {
            Task::StoreAndClose => workspace.finish_close(Ok(())),
            Task::Open(path) => {
                let document = App::new(path.clone(), contents.to_vec());
                workspace.finish_open(&path, Ok(document));
            }
            other => panic!("unexpected task: {other:?}"),
        }
    }
}

#[test]
fn tab_path_completion_lists_then_cycles_matching_paths() {
    let entries = vec![
        entry("completion", "alpine.bin", false),
        entry("completion", "alpha.bin", false),
        entry("completion", "other.bin", false),
    ];
    let mut input = TextInput::with_value("completion/al".into());
    input.clear_selection();
    let mut suggestions = Vec::new();
    let mut active = None;
    let mut scroll = 0;

    let candidates = path_completion_candidates("al", entries, '/');
    offer_candidates(&mut input, &mut suggestions, &mut active, &mut scroll, candidates);
    assert_eq!(suggestions.len(), 2);
    assert_eq!(active, None);
    cycle_suggestion(&mut input, &suggestions, &mut active, &mut scroll);
    assert!(input.value.ends_with("alpha.bin"));
    cycle_suggestion(&mut input, &suggestions, &mut active, &mut scroll);
    assert!(input.value.ends_with("alpine.bin"));
}

#[test]
fn suggestion_navigation_scrolls_past_the_first_page() {
    let suggestions = (0..PATH_SUGGESTION_PAGE_SIZE + 3)
        .map(|index| Suggestion {
            path: format!("file-{index}"),
            shown: format!("file-{index}"),
            is_dir: false,
        })
        .collect::<Vec<_>>();
    let mut input = TextInput::default();
    let mut active = None;
    let mut scroll = 0;

    move_suggestion(
        &mut input,
        &suggestions,
        &mut active,
        &mut scroll,
        PATH_SUGGESTION_PAGE_SIZE as isize,
    );

    assert_eq!(active, Some(PATH_SUGGESTION_PAGE_SIZE));
    assert_eq!(scroll, 1);
    assert!(input.value.ends_with("file-12"));
}

#[test]
fn closing_a_file_preserves_unsaved_changes_until_confirmed() {
    let mut workspace = Workspace::new(vec![App::new("sample.bin".into(), vec![0])]);
    workspace.active_mut().modified_offsets.insert(0);
    workspace.handle_workspace_key(control('w'));
    settle(&mut workspace, &[]);
    assert_eq!(workspace.documents.len(), 1);
    workspace.handle_workspace_key(control('w'));
    settle(&mut workspace, &[]);
    assert!(workspace.documents.is_empty());
}

#[test]
fn open_binary_dialog_accepts_a_manually_typed_path() {
    let mut workspace = Workspace::new(Vec::new());
    workspace.handle_workspace_key(control('n'));
    workspace.handle_workspace_key(key(KeyCode::Down));
    workspace.handle_workspace_key(key(KeyCode::Enter));
    let Some(OpenFileDialog::ManualPath { input, .. }) = &mut workspace.open_file_dialog else {
        panic!("manual path input should be open");
    };
    input.value = "manual-open.bin".into();
    workspace.handle_workspace_key(key(KeyCode::Enter));
    settle(&mut workspace, &[0xCA, 0xFE]);

    assert_eq!(workspace.documents.len(), 1);
    assert_eq!(workspace.active().bytes.as_slice(), [0xCA, 0xFE]);
    assert!(workspace.open_file_dialog.is_none());
}

#[test]
fn workspace_paste_batches_hex_in_byte_edit_mode_but_falls_back_elsewhere() {
    let mut workspace = Workspace::new(vec![App::new("sample.bin".into(), vec![0xAA, 0xBB])]);
    workspace.active_mut().edit_mode = true;
    workspace.active_mut().edit_kind = EditKind::Insert;
    workspace.active_mut().selection = Some(Selection::new(0));

    assert!(workspace.handle_workspace_paste("CC").is_empty());
    assert_eq!(workspace.active().bytes.as_slice(), [0xCC, 0xAA, 0xBB]);
    assert_eq!(workspace.active().undo_stack.len(), 1);

    workspace.active_mut().edit_mode = false;
    workspace.active_mut().mode = Mode::Search(TextInput::default());
    for key in workspace.handle_workspace_paste("needle") {
        workspace.handle_workspace_key(key);
    }
    let Mode::Search(input) = &workspace.active().mode else {
        panic!("search mode should remain open");
    };
    assert_eq!(input.value, "needle");
}

#[test]
fn save_dialog_supports_directory_completion() {
    let mut app = App::new("sample.bin".into(), vec![0]);
    app.open_path_dialog(PathAction::SaveBinary);
    let Mode::Path(dialog) = &mut app.mode else {
        panic!("save path dialog should be open");
    };
    dialog.input.set_value("save-completion/out".into());
    app.handle_path_key(key(KeyCode::Tab));
    let effects = app.take_effects();
    assert!(matches!(&effects[..], [Effect::ListPaths(typed)] if typed == "save-completion/out"));
    let entries = vec![
        entry("save-completion", "output.bin", false),
        entry("save-completion", "outline.bin", false),
    ];
    app.offer_paths(path_completion_candidates("out", entries, '/'));

    let Mode::Path(dialog) = &app.mode else {
        panic!("save path dialog should stay open");
    };
    assert_eq!(dialog.suggestions.len(), 2);
    assert!(dialog.suggestions.contains(&Suggestion {
        path: "save-completion/output.bin".into(),
        shown: "save-completion/output.bin".into(),
        is_dir: false,
    }));
}

#[test]
fn workspace_cycles_between_documents() {
    let mut workspace = Workspace::new(vec![
        App::new("one.bin".into(), vec![1]),
        App::new("two.bin".into(), vec![2]),
    ]);
    workspace.handle_workspace_key(control('b'));
    workspace.handle_workspace_key(key(KeyCode::Right));
    assert_eq!(workspace.active, 1);
    workspace.handle_workspace_key(control('b'));
    workspace.handle_workspace_key(key(KeyCode::Left));
    assert_eq!(workspace.active, 0);
}

#[test]
fn workspace_shortcuts_close_side_by_side_files_and_hide_entropy() {
    let mut workspace = Workspace::new(vec![
        App::new("one.bin".into(), vec![1]),
        App::new("two.bin".into(), vec![2]),
    ]);
    workspace.side_by_side = true;
    workspace.show_entropy = true;
    workspace.handle_workspace_key(key(KeyCode::Esc));
    assert!(!workspace.show_entropy);

    workspace.handle_workspace_key(control('w'));
    settle(&mut workspace, &[]);
    assert_eq!(workspace.documents.len(), 1);
    assert!(!workspace.side_by_side);
}

#[test]
fn empty_workspace_can_wait_for_a_file_or_quit() {
    let mut workspace = Workspace::new(Vec::new());
    assert!(workspace.handle_workspace_key(key(KeyCode::Char('q'))));

    assert!(!workspace.handle_workspace_key(key(KeyCode::Char('x'))));
    assert!(workspace.status.contains("Ctrl+N"));
}

#[test]
fn workspace_chord_toggles_comparison_and_disables_diff() {
    let mut workspace = Workspace::new(vec![
        App::new("one.bin".into(), vec![1]),
        App::new("two.bin".into(), vec![2]),
    ]);
    workspace.handle_workspace_key(control('b'));
    workspace.handle_workspace_key(key(KeyCode::Char('s')));
    assert!(workspace.side_by_side);

    workspace.diff_mode = true;
    workspace.handle_workspace_key(control('b'));
    workspace.handle_workspace_key(key(KeyCode::Char('s')));
    assert!(!workspace.side_by_side);
    assert!(!workspace.diff_mode);
}

#[test]
fn tab_mouse_click_selects_a_document() {
    let mut workspace = Workspace::new(vec![
        App::new("one.bin".into(), vec![1]),
        App::new("two.bin".into(), vec![2]),
    ]);
    workspace.tab_row = 0;
    workspace.tab_hitboxes = vec![(10, 20), (20, 30)];
    workspace.handle_workspace_mouse(MouseEvent {
        kind: MouseEventKind::Down(MouseButton::Left),
        column: 22,
        row: 0,
        modifiers: KeyModifiers::none(),
    });
    assert_eq!(workspace.active, 1);
}

#[test]
fn trims_file_picker_output() {
    assert_eq!(
        nonempty_output(b" C:\\temp\\sample.bin \r\n"),
        Some("C:\\temp\\sample.bin".into())
    );
    assert_eq!(nonempty_output(b" \n"), None);
}

#[test]
fn links_to_directories_stand_among_files_and_are_entered() {
    let mut link = entry("d", "alias", false);
    link.leads_to_dir = true;
    let listed = path_completion_candidates(
        "",
        vec![link, entry("d", "zone", true), entry("d", "beta", false)],
        '/',
    );
    let shown = listed.iter().map(|s| (s.shown.as_str(), s.is_dir)).collect::<Vec<_>>();
    assert_eq!(shown, vec![("d/zone/", true), ("d/alias/", true), ("d/beta", false)]);
}

#[test]
fn quitting_asks_while_another_file_is_unsaved() {
    let mut workspace = Workspace::new(vec![
        App::new("first.bin".into(), vec![1]),
        App::new("second.bin".into(), vec![2]),
    ]);
    workspace.documents[0].overwrite_nibble(0xA);
    workspace.documents[0].overwrite_nibble(0xB);
    workspace.select_document(1);
    let q = KeyEvent::new(KeyCode::Char('q'), KeyModifiers::none());
    assert!(!workspace.handle_workspace_key(q));
    assert_eq!(workspace.documents[1].status, "Unsaved byte changes: press q again to quit");
    assert!(workspace.handle_workspace_key(q));
}
