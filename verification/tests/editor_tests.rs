use oxide::app::{CursorType, Editor, EditorMode};
use oxide::cli::CliOpt;
use oxide::event::{AppEvent, KeyCode};

fn scratch_editor() -> Editor {
    Editor::new(CliOpt::new(false, vec![]), vec![], 0)
}

fn editor_with_lines(path: &str, lines: usize) -> Editor {
    let mut content: Vec<char> = Vec::new();
    for i in 0..lines {
        if i > 0 {
            content.push('\n');
        }
        content.push('x');
    }
    Editor::new(
        CliOpt::new(false, vec![path.to_string()]),
        vec![(path.to_string(), Some(content))],
        0,
    )
}

fn drain_and_process(editor: &mut Editor) {
    while let Some(event) = editor.pop_event() {
        editor.process_app_event(event);
    }
}

#[test]
fn repetition_scales_a_down_action() {
    let mut editor = editor_with_lines("f", 20);
    editor.repetitions = vec!['1', '2'];
    editor.process_app_event(AppEvent::MoveDown);
    let buf = editor.buffers.get("f".to_string());
    assert_eq!(buf.current_line, 12);
    assert!(editor.repetitions.is_empty());
}

#[test]
fn insert_mode_typing_scenario() {
    let mut editor = scratch_editor();
    assert_eq!(editor.editor_mode, EditorMode::Normal);
    assert_eq!(editor.cursor_type, CursorType::Block);

    editor.handle_key_events(KeyCode::Char('i'));
    drain_and_process(&mut editor);
    assert_eq!(editor.editor_mode, EditorMode::Insert);
    assert_eq!(editor.cursor_type, CursorType::Line);

    editor.handle_key_events(KeyCode::Char('h'));
    drain_and_process(&mut editor);
    editor.handle_key_events(KeyCode::Char('i'));
    drain_and_process(&mut editor);

    editor.handle_key_events(KeyCode::Esc);
    drain_and_process(&mut editor);
    assert_eq!(editor.editor_mode, EditorMode::Normal);
    assert_eq!(editor.cursor_type, CursorType::Block);

    let buf = editor.buffers.get(String::new());
    assert_eq!(buf.file[0], vec!['h', 'i']);
}

#[test]
fn counted_j_moves_three_lines() {
    let mut editor = editor_with_lines("f", 10);
    editor.handle_key_events(KeyCode::Char('3'));
    assert_eq!(editor.repetitions, vec!['3']);
    editor.handle_key_events(KeyCode::Char('j'));
    drain_and_process(&mut editor);
    assert!(editor.repetitions.is_empty());
    let buf = editor.buffers.get("f".to_string());
    assert_eq!(buf.current_line, 3);
}

#[test]
fn second_save_pass_within_a_second_is_a_noop() {
    let a: Vec<char> = "alpha".chars().collect();
    let b: Vec<char> = "beta".chars().collect();
    let mut editor = Editor::new(
        CliOpt::new(false, vec!["a.txt".to_string(), "b.txt".to_string()]),
        vec![("a.txt".to_string(), Some(a)), ("b.txt".to_string(), Some(b))],
        0,
    );
    let saves = editor.auto_save_at(5);
    assert_eq!(saves.len(), 2);
    let mut a_count = 0;
    let mut b_count = 0;
    for (path, bytes) in &saves {
        if path == "a.txt" {
            a_count += 1;
            assert_eq!(bytes, "alpha\n".as_bytes());
        } else if path == "b.txt" {
            b_count += 1;
            assert_eq!(bytes, "beta\n".as_bytes());
        } else {
            panic!("unexpected save path");
        }
    }
    assert_eq!(a_count, 1);
    assert_eq!(b_count, 1);

    let second = editor.auto_save_at(5);
    assert!(second.is_empty());
    assert_eq!(editor.last_save, 5);
}

#[test]
fn scratch_buffer_is_never_persisted() {
    let mut editor = scratch_editor();
    let saves = editor.auto_save_at(10);
    assert!(saves.is_empty());
    assert_eq!(editor.last_save, 10);
}

#[test]
fn clock_backed_save_pass_serializes_named_buffers() {
    let a: Vec<char> = "text".chars().collect();
    let mut editor = Editor::new(
        CliOpt::new(false, vec!["a.txt".to_string()]),
        vec![("a.txt".to_string(), Some(a))],
        i64::MIN,
    );
    let saves = editor.auto_save();
    assert_eq!(saves.len(), 1);
    assert_eq!(saves[0].0, "a.txt");
    assert_eq!(saves[0].1, "text\n".as_bytes());
}

#[test]
fn to_bytes_joins_lines_with_newlines() {
    let buffer: Vec<Vec<char>> = vec![vec!['a', 'b'], vec![], vec!['c']];
    assert_eq!(oxide::app::to_bytes(&buffer), "ab\n\nc\n".as_bytes());
    let accented: Vec<Vec<char>> = vec![vec!['\u{e9}']];
    assert_eq!(oxide::app::to_bytes(&accented), vec![0xC3, 0xA9, 0x0A]);
}

#[test]
fn repetition_parsing_defaults_and_limits() {
    assert_eq!(oxide::app::parse_repetitions(&vec![]), 1);
    assert_eq!(oxide::app::parse_repetitions(&vec!['7']), 7);
    assert_eq!(oxide::app::parse_repetitions(&vec!['1', '2']), 12);
    assert_eq!(oxide::app::parse_repetitions(&vec!['0']), 0);
    assert_eq!(oxide::app::parse_repetitions(&vec!['6', '5', '5', '3', '5']), 65535);
    assert_eq!(oxide::app::parse_repetitions(&vec!['6', '5', '5', '3', '6']), 1);
    assert_eq!(oxide::app::parse_repetitions(&vec!['1', 'x']), 1);
}

#[test]
fn escape_in_normal_mode_quits() {
    let mut editor = scratch_editor();
    editor.handle_key_events(KeyCode::Esc);
    drain_and_process(&mut editor);
    assert!(!editor.running);
}

#[test]
fn append_key_moves_right_then_enters_insert() {
    let mut editor = scratch_editor();
    {
        let buf = editor.buffers.get_mut(String::new());
        buf.get_mut().push('q');
    }
    editor.handle_key_events(KeyCode::Char('a'));
    drain_and_process(&mut editor);
    assert_eq!(editor.editor_mode, EditorMode::Insert);
    let buf = editor.buffers.get(String::new());
    assert_eq!(buf.current_column, 1);
}

#[test]
fn enter_in_insert_mode_splits_line_count() {
    let mut editor = scratch_editor();
    editor.handle_key_events(KeyCode::Char('i'));
    drain_and_process(&mut editor);
    editor.handle_key_events(KeyCode::Enter);
    drain_and_process(&mut editor);
    let buf = editor.buffers.get(String::new());
    assert_eq!(buf.lines_number, 2);
    assert_eq!(buf.current_line, 1);
}

#[test]
fn command_popup_flow() {
    let mut editor = scratch_editor();
    editor.handle_key_events(KeyCode::Char(':'));
    drain_and_process(&mut editor);
    assert!(editor.command_popup.running);

    editor.handle_command_key_events(KeyCode::Char('w'));
    drain_and_process(&mut editor);
    editor.handle_command_key_events(KeyCode::Char('q'));
    drain_and_process(&mut editor);
    assert_eq!(editor.command_popup.input_field, vec!['w', 'q']);

    editor.handle_command_key_events(KeyCode::Backspace);
    drain_and_process(&mut editor);
    assert_eq!(editor.command_popup.input_field, vec!['w']);

    editor.handle_command_key_events(KeyCode::Esc);
    assert!(!editor.command_popup.running);
    assert!(editor.command_popup.input_field.is_empty());
}

#[test]
fn command_popup_enter_submits_and_closes() {
    let mut editor = scratch_editor();
    editor.handle_key_events(KeyCode::Char(':'));
    drain_and_process(&mut editor);
    editor.handle_command_key_events(KeyCode::Char('x'));
    drain_and_process(&mut editor);
    editor.handle_command_key_events(KeyCode::Enter);
    drain_and_process(&mut editor);
    assert!(!editor.command_popup.running);
    assert!(editor.command_popup.input_field.is_empty());
}

#[test]
fn digits_in_insert_mode_are_typed_not_counted() {
    let mut editor = scratch_editor();
    editor.handle_key_events(KeyCode::Char('i'));
    drain_and_process(&mut editor);
    editor.handle_key_events(KeyCode::Char('4'));
    drain_and_process(&mut editor);
    assert!(editor.repetitions.is_empty());
    let buf = editor.buffers.get(String::new());
    assert_eq!(buf.file[0], vec!['4']);
}

#[test]
fn zero_count_applies_nothing() {
    let mut editor = editor_with_lines("f", 5);
    editor.repetitions = vec!['0'];
    editor.process_app_event(AppEvent::MoveDown);
    assert_eq!(editor.buffers.get("f".to_string()).current_line, 0);
    assert!(editor.repetitions.is_empty());
}

#[test]
fn startup_uses_first_path_as_active() {
    let editor = Editor::new(
        CliOpt::new(false, vec!["a".to_string(), "b".to_string()]),
        vec![
            ("a".to_string(), Some(vec!['1'])),
            ("b".to_string(), Some(vec!['2'])),
        ],
        0,
    );
    assert_eq!(editor.current_file_path, "a");
    assert_eq!(editor.buffers.files.len(), 2);
    assert!(editor.running);
}

#[test]
fn scroll_offset_formula() {
    assert_eq!(oxide::ui::scroll_offset(0, 30), 0);
    assert_eq!(oxide::ui::scroll_offset(27, 30), 0);
    assert_eq!(oxide::ui::scroll_offset(28, 30), 1);
    assert_eq!(oxide::ui::scroll_offset(100, 30), 73);
}

#[test]
fn mode_labels() {
    assert_eq!(EditorMode::Normal.name(), "Normal");
    assert_eq!(EditorMode::Insert.name(), "Insert");
    assert_eq!(EditorMode::Visual.name(), "Visual");
}
