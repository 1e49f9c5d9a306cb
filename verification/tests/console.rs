//! The Python console.

use std::sync::Arc;

use rexedit::app::App;
use rexedit::editing::EditKind;
use rexedit::effects::Effect;
use rexedit::input::{KeyCode, KeyEvent, KeyModifiers};
use rexedit::modes::{Focus, Mode};
use rexedit::python::{
    bridge_documents, request_line, wrap_python_output, PythonCommand, PythonDocument,
    PythonResponse, PythonSnapshot, PYTHON_CONSOLE_LINE_WIDTH,
};

fn key(code: KeyCode) -> KeyEvent {
    KeyEvent::new(code, KeyModifiers::none())
}

fn open_python_pane(app: &mut App) {
    let snapshot = PythonSnapshot {
        index: 0,
        path: "snapshot.bin".into(),
        baseline: app.bytes.as_slice().to_vec(),
    };
    app.open_python_pane_with_session(vec![snapshot]);
}

#[test]
fn python_output_is_chunked_into_scrollable_console_rows() {
    let output = "x".repeat(PYTHON_CONSOLE_LINE_WIDTH * 2 + 1);
    let lines = wrap_python_output(&output);
    assert_eq!(lines.len(), 3);
    assert!(lines
        .iter()
        .all(|line| line.chars().count() <= PYTHON_CONSOLE_LINE_WIDTH));
}

#[test]
fn python_apply_merges_non_conflicting_changes_and_keeps_hex_edit_conflicts() {
    let mut app = App::new("sample.bin".into(), vec![1, 2]);
    app.bytes = Arc::new(vec![9, 2]);
    let snapshot = PythonSnapshot {
        index: 0,
        path: "python-merge.bin".into(),
        baseline: vec![1, 2],
    };
    app.apply_python_snapshot(&snapshot, Ok(vec![3, 4]));

    assert_eq!(app.bytes.as_slice(), [9, 4]);
    assert!(app.status.contains("conflict"));
}

#[test]
fn python_history_restores_the_unfinished_draft() {
    let mut app = App::new("sample.bin".into(), vec![0]);
    open_python_pane(&mut app);
    let Mode::Python(pane) = &mut app.mode else {
        panic!("Python should open");
    };
    pane.history = vec!["first".into(), "second".into()];
    pane.input.value = "unfinished".into();

    pane.navigate_python_history(true);
    assert_eq!(pane.input.value, "second");
    pane.navigate_python_history(true);
    assert_eq!(pane.input.value, "first");
    pane.navigate_python_history(false);
    assert_eq!(pane.input.value, "second");
    pane.navigate_python_history(false);
    assert_eq!(pane.input.value, "unfinished");
}

#[test]
fn as_many_steps_forth_as_back_lead_to_the_draft() {
    for steps in 0..6 {
        let mut app = App::new("sample.bin".into(), vec![0]);
        open_python_pane(&mut app);
        let Mode::Python(pane) = &mut app.mode else {
            panic!("Python should open");
        };
        pane.history = vec!["first".into(), "second".into(), "third".into()];
        pane.input.value = "draft".into();
        for _ in 0..steps {
            pane.navigate_python_history(true);
        }
        assert_eq!(pane.input.value == "draft", steps == 0);
        for _ in 0..steps {
            pane.navigate_python_history(false);
        }
        assert_eq!(pane.input.value, "draft");
        assert!(pane.history_index.is_none());
    }
}

#[test]
fn python_history_restores_multiline_blocks_with_indentation() {
    let mut app = App::new("sample.bin".into(), vec![0]);
    open_python_pane(&mut app);
    let Mode::Python(pane) = &mut app.mode else {
        panic!("Python should open");
    };
    pane.history = vec!["if ready:\n    process()".into()];

    pane.navigate_python_history(true);

    assert_eq!(pane.repl_lines, ["if ready:"]);
    assert_eq!(pane.input.value, "    process()");
}

#[test]
fn python_repl_auto_indents_after_a_block_header() {
    let mut app = App::new("sample.bin".into(), vec![0]);
    open_python_pane(&mut app);
    let Mode::Python(pane) = &mut app.mode else {
        panic!("Python should open");
    };
    pane.input.set_value("if enabled:".into());

    app.handle_python_key(key(KeyCode::Enter));

    let Mode::Python(pane) = &app.mode else {
        unreachable!();
    };
    assert_eq!(pane.repl_lines, ["if enabled:"]);
    assert_eq!(pane.input.value, "    ");
}

#[test]
fn blank_python_input_adds_another_prompt_line() {
    let mut app = App::new("sample.bin".into(), vec![0]);
    open_python_pane(&mut app);
    let previous_length = match &app.mode {
        Mode::Python(pane) => pane.output.len(),
        _ => unreachable!(),
    };

    app.handle_python_key(key(KeyCode::Enter));

    let Mode::Python(pane) = &app.mode else {
        unreachable!();
    };
    assert_eq!(pane.output.len(), previous_length + 1);
    assert_eq!(pane.output.last().map(String::as_str), Some(">>>"));
}

#[test]
fn python_history_survives_closing_and_reopening_the_pane() {
    let mut app = App::new("sample.bin".into(), vec![0]);
    open_python_pane(&mut app);
    let Mode::Python(pane) = &mut app.mode else {
        panic!("Python should open");
    };
    pane.history = vec!["first".into(), "second".into()];

    app.handle_python_key(key(KeyCode::Esc));
    assert_eq!(app.python_history, ["first", "second"]);

    open_python_pane(&mut app);
    let Mode::Python(pane) = &app.mode else {
        panic!("Python should reopen");
    };
    assert_eq!(pane.history, ["first", "second"]);
}

#[test]
fn a_block_is_handed_over_after_an_empty_line() {
    let mut app = App::new("sample.bin".into(), vec![0]);
    open_python_pane(&mut app);
    for line in ["for i in range(2):", "print(i)", ""] {
        let Mode::Python(pane) = &mut app.mode else {
            unreachable!();
        };
        let indentation = pane.input.value.clone();
        let typed = if line.is_empty() { String::new() } else { format!("{indentation}{line}") };
        pane.input.set_value(typed);
        app.handle_python_key(key(KeyCode::Enter));
    }
    let effects = app.take_effects();
    assert!(matches!(
        &effects[..],
        [Effect::Command(PythonCommand::Execute(source))]
            if source == "for i in range(2):\n    print(i)"
    ));
    assert_eq!(app.python_history, ["for i in range(2):\n    print(i)"]);
    app.finish_command(Ok(()));
    let Mode::Python(pane) = &app.mode else {
        unreachable!();
    };
    assert_eq!(pane.pending, 1);
    assert!(pane.output.ends_with(&[
        ">>> for i in range(2):".to_string(),
        "...     print(i)".to_string(),
    ]));
}

#[test]
fn apply_takes_over_the_buffers_of_an_answer() {
    let mut app = App::new("sample.bin".into(), vec![1, 2, 3]);
    open_python_pane(&mut app);
    let Mode::Python(pane) = &mut app.mode else {
        unreachable!();
    };
    pane.input.set_value("  :apply ".into());
    app.handle_python_key(key(KeyCode::Enter));
    assert!(matches!(
        &app.take_effects()[..],
        [Effect::Command(PythonCommand::Apply)]
    ));
    app.finish_command(Ok(()));
    let responses = vec![
        PythonResponse { output: "42".into(), error: None, applied: false },
        PythonResponse { output: String::new(), error: Some("bad".into()), applied: true },
    ];
    let snapshots = app.drain_python_messages(&responses);
    assert_eq!(snapshots.len(), 1);
    assert_eq!(snapshots[0].baseline, [1, 2, 3]);
    app.apply_python_snapshot(&snapshots[0], Ok(vec![1, 9, 3]));
    assert_eq!(app.bytes.as_slice(), [1, 9, 3]);
    assert_eq!(app.status, "Applied 1 Python byte change(s); Ctrl+S saves");
    assert!(app.modified_offsets.contains(&1));
    let Mode::Python(pane) = &app.mode else {
        unreachable!();
    };
    assert_eq!(pane.pending, 0);
    assert!(pane.output.ends_with(&["42".to_string(), "bad".to_string()]));
}

#[test]
fn buffers_that_do_not_fit_are_refused() {
    let mut app = App::new("sample.bin".into(), vec![1, 2]);
    let snapshot = PythonSnapshot { index: 0, path: "x".into(), baseline: vec![1, 2] };
    app.apply_python_snapshot(&snapshot, Ok(vec![1, 2, 3]));
    assert_eq!(
        app.status,
        "Python buffer length changed from 2 to 3; only same-length edits can be applied"
    );
    app.apply_python_snapshot(&snapshot, Err("gone".into()));
    assert_eq!(app.status, "Could not read Python buffer: gone");
    app.apply_python_snapshot(&snapshot, Ok(vec![1, 2]));
    assert_eq!(app.status, "Python apply found no buffer changes");
    app.bytes = Arc::new(vec![7, 2]);
    app.apply_python_snapshot(&snapshot, Ok(vec![8, 2]));
    assert_eq!(
        app.status,
        "Python apply kept 1 direct hex edit conflict(s); no changes applied"
    );
    assert_eq!(app.bytes.as_slice(), [7, 2]);
}

#[test]
fn keys_go_to_the_focused_pane() {
    let mut app = App::new("sample.bin".into(), vec![0; 4]);
    open_python_pane(&mut app);
    assert_eq!(app.focus, Focus::Python);
    app.handle_key(key(KeyCode::Tab));
    assert_eq!(app.focus, Focus::Viewer);
    assert_eq!(app.status, "Python mode: hex viewer focused");
    app.handle_key(key(KeyCode::Right));
    assert_eq!(app.selection.unwrap().cursor, 1);
    app.handle_key(key(KeyCode::Char('i')));
    assert!(app.edit_mode);
    app.handle_key(key(KeyCode::Char('f')));
    app.handle_key(key(KeyCode::Char('0')));
    assert_eq!(app.bytes.as_slice(), [0, 0xF0, 0, 0]);
    app.handle_key(KeyEvent::new(KeyCode::Char('s'), KeyModifiers::controlled()));
    assert_eq!(app.status, "Close the Python pane before saving the binary");
    app.handle_key(key(KeyCode::Esc));
    assert!(!app.edit_mode);
    assert!(app.in_python());
    app.handle_key(key(KeyCode::Tab));
    assert_eq!(app.focus, Focus::Fields);
    app.handle_key(key(KeyCode::BackTab));
    assert_eq!(app.focus, Focus::Viewer);
    app.handle_key(key(KeyCode::Esc));
    assert!(matches!(app.mode, Mode::Normal));
    assert!(matches!(&app.take_effects()[..], [.., Effect::ClosePython]));
}

#[test]
fn interrupting_needs_a_running_command() {
    let mut app = App::new("sample.bin".into(), vec![0]);
    open_python_pane(&mut app);
    let interrupt = KeyEvent::new(KeyCode::Char('c'), KeyModifiers::controlled());
    app.handle_key(interrupt);
    assert_eq!(app.status, "No Python command is currently running");
    assert!(app.take_effects().is_empty());
    app.finish_command(Ok(()));
    app.handle_key(interrupt);
    assert!(matches!(&app.take_effects()[..], [Effect::Interrupt]));
    app.finish_interrupt(Ok(()));
    assert_eq!(app.status, "Interrupt sent to Python");
    app.finish_interrupt(Err("not alive".into()));
    assert_eq!(app.status, "not alive");
}

#[test]
fn requests_are_lines_of_json() {
    assert_eq!(
        request_line(&PythonCommand::Execute("print(\"a\\b\")\n\tx = 'é'".into())),
        "{\"kind\":\"execute\",\"source\":\"print(\\\"a\\\\b\\\")\\n\\tx = 'é'\"}\n"
    );
    assert_eq!(
        request_line(&PythonCommand::Execute("\u{0}\u{8}\u{c}\r\u{1f}\u{7f}/".into())),
        "{\"kind\":\"execute\",\"source\":\"\\u0000\\b\\f\\r\\u001f\u{7f}/\"}\n"
    );
    assert_eq!(request_line(&PythonCommand::Apply), "{\"kind\":\"apply\"}\n");
}

#[test]
fn files_are_described_in_json() {
    let documents = vec![
        PythonDocument {
            index: 0,
            bytes: vec![1, 2, 3],
            selection_start: 0,
            selection_end: 1,
            selections: vec![(0, 1), (2, 2)],
        },
        PythonDocument {
            index: 1,
            bytes: vec![],
            selection_start: 0,
            selection_end: 0,
            selections: vec![],
        },
    ];
    let snapshots = vec![
        PythonSnapshot { index: 0, path: "/tmp/a \"b\"".into(), baseline: vec![1, 2, 3] },
        PythonSnapshot { index: 1, path: "C:\\t".into(), baseline: vec![] },
    ];
    assert_eq!(
        bridge_documents(&documents, &snapshots),
        "[{\"index\":0,\"selection_end\":1,\"selection_start\":0,\"selections\":\
         [{\"end\":1,\"start\":0},{\"end\":2,\"start\":2}],\"snapshot\":\"/tmp/a \\\"b\\\"\"},\
         {\"index\":1,\"selection_end\":0,\"selection_start\":0,\"selections\":[],\
         \"snapshot\":\"C:\\\\t\"}]"
    );
}

#[test]
fn long_and_empty_lines_are_wrapped() {
    assert_eq!(wrap_python_output(""), [""]);
    assert_eq!(wrap_python_output("a\n\nb"), ["a", "", "b"]);
    let line = "é".repeat(73);
    assert_eq!(wrap_python_output(&line), ["é".repeat(72), "é".to_string()]);
}

#[test]
fn applied_buffers_keep_appended_bytes_marked() {
    let mut app = App::new("sample.bin".into(), vec![]);
    app.edit_kind = EditKind::Insert;
    app.insert_nibble(0x0);
    app.insert_nibble(0x2);
    let snapshot = PythonSnapshot { index: 0, path: "p".into(), baseline: vec![2] };
    app.apply_python_snapshot(&snapshot, Ok(vec![3]));
    assert_eq!(app.bytes.as_slice(), &[3]);
    assert_eq!(app.modified_offsets.iter().copied().collect::<Vec<_>>(), vec![0]);
    assert!(!app.handle_key(key(KeyCode::Char('q'))));
    assert!(app.handle_key(key(KeyCode::Char('q'))));
}

#[test]
fn escape_leaves_the_mode_that_is_open() {
    let mut app = App::new("sample.bin".into(), vec![1]);
    app.handle_key(key(KeyCode::Char('t')));
    app.handle_search_key(key(KeyCode::Esc));
    assert!(matches!(app.mode, Mode::Normal));
    app.handle_key(key(KeyCode::Char('s')));
    app.handle_python_key(key(KeyCode::Esc));
    assert!(matches!(app.mode, Mode::Normal));
    assert_eq!(app.status, "Python pane closed");
}
